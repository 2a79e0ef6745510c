//! What the commands of the card come to: who is told what, and when nobody is
//! told anything.

use vstd::prelude::*;

use crate::card::{price_of, CmdAction};
use crate::catalog::{
    AbilityTarget, BuildingKind, Catalog, ItemId, ResearchKind, TechTier, UnitKind,
};
use crate::clicks::{apart, distances_fit};
use crate::command::{change, same_aim, speech};
use crate::intent::Said;
use crate::lists::{
    first_some, first_some_is_first, nearest_is_nearest, picked, picked_holds, picked_places,
};
use crate::map::{home, Pos};
use crate::situation::{
    casters, fielded_hero, hall_from, halls, held_heroes, hero_bag, hero_named, heroes_queued,
    heroes_queued_at, is_hero, lowest_hero, own_caster, own_heroes, own_id, own_ids, queued_hero,
    refuge, FieldBuilding, SelUnit, World,
};
use crate::ui_state::UiView;

verus! {

// ---------------------------------------------------------------------------
// Training
// ---------------------------------------------------------------------------

/// One finished building of ours is selected and nothing else, and it trains
/// the kind.
pub open spec fn trains_here(cat: &Catalog, w: &World, kind: UnitKind) -> bool {
    let b = w.sel_buildings@[0];
    &&& w.sel_buildings@.len() == 1
    &&& b.own
    &&& !b.unfinished
    &&& cat.building_row(b.kind).trains@.contains(kind)
    &&& b.queue is Some
}

/// A unit that is no hero is queued at the one selected building of ours, where
/// that one is finished and trains it, exactly while the price is in hand and
/// fewer than seven are waiting.
pub proof fn units_are_trained_until_the_queue_is_full(
    cat: &Catalog,
    w: &World,
    kind: UnitKind,
    last: Option<u64>,
)
    requires
        !cat.unit_row(kind).hero,
    ensures
        ({
            let row = cat.unit_row(kind);
            let b = w.sel_buildings@[0];
            let spoken = speech(cat, w, CmdAction::Train(kind), last);
            if trains_here(cat, w, kind) && row.cost_gold <= w.gold && row.cost_lumber <= w.lumber
                && (b.queue->0)@.len() < 7 {
                spoken == seq![Said::Train { building: b.id, unit: kind }]
            } else {
                spoken.len() == 0
            }
        }),
{
}

/// A hero of ours of that class is on the field, or waits in a queue of ours.
pub open spec fn has_hero(cat: &Catalog, w: &World, kind: UnitKind) -> bool {
    &&& cat.unit_row(kind).hero
    &&& {
        ||| exists|i: int|
            0 <= i < w.units@.len() && (#[trigger] w.units@[i]).own && w.units@[i].kind == kind
        ||| exists|i: int|
            0 <= i < w.buildings@.len() && waits_for(#[trigger] w.buildings@[i], kind)
    }
}

/// A building of ours has the kind in its queue.
pub open spec fn waits_for(b: FieldBuilding, kind: UnitKind) -> bool {
    b.own && b.queue is Some && (b.queue->0)@.contains(kind)
}

proof fn queued_heroes_are_queued(cat: &Catalog, s: Seq<FieldBuilding>, kind: UnitKind)
    ensures
        heroes_queued(cat, s).contains(kind) <==> cat.unit_row(kind).hero && exists|i: int|
            0 <= i < s.len() && waits_for(#[trigger] s[i], kind),
    decreases s.len(),
{
    if s.len() > 0 {
        let front = s.drop_last();
        let b = s.last();
        queued_heroes_are_queued(cat, front, kind);
        let before = heroes_queued(cat, front);
        let here = heroes_queued_at(cat, b);
        let f = queued_hero(cat);
        if b.queue is Some {
            picked_holds((b.queue->0)@, f, kind);
            if waits_for(b, kind) && cat.unit_row(kind).hero {
                let q = (b.queue->0)@;
                let i = choose|i: int| 0 <= i < q.len() && q[i] == kind;
                assert(f(q[i]) == Some(kind));
            }
        }
        assert(here.contains(kind) <==> cat.unit_row(kind).hero && waits_for(b, kind));
        let all = before + here;
        assert(all.contains(kind) <==> before.contains(kind) || here.contains(kind)) by {
            if before.contains(kind) {
                let i = choose|i: int| 0 <= i < before.len() && before[i] == kind;
                assert(all[i] == kind);
            }
            if here.contains(kind) {
                let i = choose|i: int| 0 <= i < here.len() && here[i] == kind;
                assert(all[before.len() + i] == kind);
            }
            if all.contains(kind) {
                let i = choose|i: int| 0 <= i < all.len() && all[i] == kind;
                if i < before.len() {
                    assert(before[i] == kind);
                } else {
                    assert(here[i - before.len()] == kind);
                }
            }
        }
        if exists|i: int| 0 <= i < front.len() && waits_for(#[trigger] front[i], kind) {
            let i = choose|i: int| 0 <= i < front.len() && waits_for(#[trigger] front[i], kind);
            assert(waits_for(s[i], kind));
        }
        if exists|i: int| 0 <= i < s.len() && waits_for(#[trigger] s[i], kind) {
            let i = choose|i: int| 0 <= i < s.len() && waits_for(#[trigger] s[i], kind);
            if i < front.len() {
                assert(waits_for(front[i], kind));
            }
        }
    }
}

/// A team holds a hero class exactly where it has one of that class on the
/// field or waiting in a queue.
pub proof fn held_heroes_are_had(cat: &Catalog, w: &World, kind: UnitKind)
    ensures
        held_heroes(cat, w).contains(kind) <==> has_hero(cat, w, kind),
{
    let f = fielded_hero(cat);
    let fielded = picked(w.units@, f);
    let queued = heroes_queued(cat, w.buildings@);
    picked_holds(w.units@, f, kind);
    queued_heroes_are_queued(cat, w.buildings@, kind);
    let all = fielded + queued;
    if fielded.contains(kind) {
        let i = choose|i: int| 0 <= i < fielded.len() && fielded[i] == kind;
        assert(all[i] == kind);
    }
    if queued.contains(kind) {
        let i = choose|i: int| 0 <= i < queued.len() && queued[i] == kind;
        assert(all[fielded.len() + i] == kind);
    }
    if all.contains(kind) {
        let i = choose|i: int| 0 <= i < all.len() && all[i] == kind;
        if i < fielded.len() {
            assert(fielded[i] == kind);
        } else {
            assert(queued[i - fielded.len()] == kind);
        }
    }
    if has_hero(cat, w, kind) {
        if exists|i: int|
            0 <= i < w.units@.len() && (#[trigger] w.units@[i]).own && w.units@[i].kind == kind {
            let i = choose|i: int|
                0 <= i < w.units@.len() && (#[trigger] w.units@[i]).own && w.units@[i].kind == kind;
            assert(f(w.units@[i]) == Some(kind));
        }
    }
}

/// A hero is queued under the same rules, at its own price, exactly while the
/// team has none of its class and fewer heroes than its halls have tiers.
pub proof fn heroes_are_trained_while_there_is_room(
    cat: &Catalog,
    w: &World,
    kind: UnitKind,
    last: Option<u64>,
    p: int,
)
    requires
        cat.unit_row(kind).hero,
        0 <= p < w.hero_prices@.len(),
        w.hero_prices@[p].kind == kind,
        forall|j: int| 0 <= j < p ==> (#[trigger] w.hero_prices@[j]).kind != kind,
    ensures
        ({
            let price = w.hero_prices@[p];
            let b = w.sel_buildings@[0];
            let spoken = speech(cat, w, CmdAction::Train(kind), last);
            if trains_here(cat, w, kind) && price.gold <= w.gold && price.lumber <= w.lumber && (
            b.queue->0)@.len() < 7 && !has_hero(cat, w, kind) && held_heroes(cat, w).len()
                < (match w.tier {
                TechTier::T1 => 1int,
                TechTier::T2 => 2,
                TechTier::T3 => 3,
            }) {
                spoken == seq![Said::Train { building: b.id, unit: kind }]
            } else {
                spoken.len() == 0
            }
        }),
{
    held_heroes_are_had(cat, w, kind);
    let f = price_of(kind);
    first_some_is_first(w.hero_prices@, f);
    let found = first_some(w.hero_prices@, f);
    if found is None {
        assert(f(w.hero_prices@[p]) is None);
    } else {
        let i = choose|i: int|
            0 <= i < w.hero_prices@.len() && f(#[trigger] w.hero_prices@[i]) == found && forall|
                j: int,
            |
                0 <= j < i ==> f(#[trigger] w.hero_prices@[j]) is None;
        if i > p {
            assert(f(w.hero_prices@[p]) is None);
        }
        assert(i == p);
    }
}

// ---------------------------------------------------------------------------
// The one selected building
// ---------------------------------------------------------------------------

/// One building of ours is selected and nothing else of its sort, and it is
/// finished.
pub open spec fn works_here(w: &World) -> bool {
    w.sel_buildings@.len() == 1 && w.sel_buildings@[0].own && !w.sel_buildings@[0].unfinished
}

/// A finished building that is not being turned into another researches what it
/// offers and nothing else.
pub proof fn ladders_are_climbed_where_they_stand(
    cat: &Catalog,
    w: &World,
    kind: ResearchKind,
    last: Option<u64>,
)
    ensures
        ({
            let b = w.sel_buildings@[0];
            let spoken = speech(cat, w, CmdAction::Research(kind), last);
            if works_here(w) && !b.upgrading && cat.building_row(b.kind).researches@.contains(
                kind,
            ) {
                spoken == seq![Said::Research { building: b.id, upgrade: kind }]
            } else {
                spoken.len() == 0
            }
        }),
{
}

/// A finished building that is not being turned into another is turned into
/// what comes after it and into nothing else.
pub proof fn halls_grow_one_rung(cat: &Catalog, w: &World, to: BuildingKind, last: Option<u64>)
    ensures
        ({
            let b = w.sel_buildings@[0];
            let next = cat.building_row(b.kind).upgrade;
            let spoken = speech(cat, w, CmdAction::Upgrade(to), last);
            if works_here(w) && !b.upgrading && next is Some && (next->0).0 == to {
                spoken == seq![Said::Upgrade { building: b.id }]
            } else {
                spoken.len() == 0
            }
        }),
{
}

/// A hero of ours, alive.
pub open spec fn is_our_hero(cat: &Catalog, w: &World, i: int) -> bool {
    0 <= i < w.units@.len() && w.units@[i].own && cat.unit_row(w.units@[i].kind).hero
}

proof fn lowest_heroes_are_lowest(heroes: Seq<(u64, [Option<ItemId>; 2])>)
    ensures
        match lowest_hero(heroes) {
            None => heroes.len() == 0,
            Some(h) => heroes.contains(h) && forall|i: int|
                0 <= i < heroes.len() ==> h.0 <= (#[trigger] heroes[i]).0,
        },
    decreases heroes.len(),
{
    if heroes.len() > 0 {
        let front = heroes.drop_last();
        lowest_heroes_are_lowest(front);
        assert(heroes[heroes.len() - 1] == heroes.last());
        assert forall|i: int| 0 <= i < front.len() implies front[i] == #[trigger] heroes[i] by {}
        if let Some(h) = lowest_hero(front) {
            let i = choose|i: int| 0 <= i < front.len() && front[i] == h;
            assert(heroes[i] == h);
        }
    }
}

/// A Shop sells to the hero looked at last while that one lives, else to the
/// living hero of ours with the lowest id, and to nobody where there is none.
pub proof fn shops_sell_to_the_hero_looked_at(
    cat: &Catalog,
    w: &World,
    item: ItemId,
    last: Option<u64>,
)
    ensures
        ({
            let b = w.sel_buildings@[0];
            let spoken = speech(cat, w, CmdAction::Buy(item), last);
            let open = works_here(w) && b.kind == BuildingKind::Shop;
            let looked_at = last is Some && exists|i: int|
                #[trigger] is_our_hero(cat, w, i) && w.units@[i].id == last->0;
            &&& !open || (forall|i: int| !#[trigger] is_our_hero(cat, w, i)) ==> spoken.len() == 0
            &&& open && looked_at ==> spoken == seq![
                Said::Buy { shop: b.id, item, hero: last->0 },
            ]
            &&& open && !looked_at && (exists|i: int| #[trigger] is_our_hero(cat, w, i)) ==> exists|
                i: int,
            |
                #[trigger] is_our_hero(cat, w, i) && spoken == seq![
                    Said::Buy { shop: b.id, item, hero: w.units@[i].id },
                ] && forall|j: int|
                    #[trigger] is_our_hero(cat, w, j) ==> w.units@[i].id <= w.units@[j].id
        }),
{
    let f = hero_bag(cat);
    let heroes = own_heroes(cat, w);
    let at = picked_places(w.units@, f);
    assert forall|i: int| #[trigger] is_our_hero(cat, w, i) implies at.contains(i) by {
        assert(f(w.units@[i]) is Some);
    }
    assert forall|k: int| 0 <= k < heroes.len() implies is_our_hero(cat, w, #[trigger] at[k])
        && heroes[k].0 == w.units@[at[k]].id by {
        assert(f(w.units@[at[k]]) == Some(heroes[k]));
    }
    lowest_heroes_are_lowest(heroes);
    if let Some(id) = last {
        let g = is_hero(id);
        first_some_is_first(heroes, g);
        if exists|i: int| #[trigger] is_our_hero(cat, w, i) && w.units@[i].id == id {
            let i = choose|i: int| #[trigger] is_our_hero(cat, w, i) && w.units@[i].id == id;
            assert(at.contains(i));
            let k = choose|k: int| 0 <= k < at.len() && at[k] == i;
            assert(g(heroes[k]) is Some);
            assert(hero_named(heroes, id) is Some);
        } else if hero_named(heroes, id) is Some {
            let k = choose|k: int|
                0 <= k < heroes.len() && g(#[trigger] heroes[k]) == hero_named(heroes, id);
            assert(is_our_hero(cat, w, at[k]));
        }
    }
    if exists|i: int| #[trigger] is_our_hero(cat, w, i) {
        let i = choose|i: int| #[trigger] is_our_hero(cat, w, i);
        assert(at.contains(i));
        let low = lowest_hero(heroes)->0;
        let k = choose|k: int| 0 <= k < heroes.len() && heroes[k] == low;
        assert(is_our_hero(cat, w, at[k]));
        assert forall|j: int| #[trigger] is_our_hero(cat, w, j) implies w.units@[at[k]].id
            <= w.units@[j].id by {
            assert(at.contains(j));
            let l = choose|l: int| 0 <= l < at.len() && at[l] == j;
            assert(heroes[k].0 <= heroes[l].0);
        }
    } else {
        assert(heroes.len() == 0) by {
            if heroes.len() > 0 {
                assert(is_our_hero(cat, w, at[0]));
            }
        }
    }
}

/// A finished building casts what needs no aim at once; what needs one waits for
/// its click, armed for that building alone.
pub proof fn buildings_cast_or_wait(
    cat: &Catalog,
    w: &World,
    slot: usize,
    last: Option<u64>,
    ui: UiView,
)
    ensures
        ({
            let b = w.sel_buildings@[0];
            let spoken = speech(cat, w, CmdAction::CastBuilding(slot), last);
            let after = change(cat, w, CmdAction::CastBuilding(slot), ui);
            let list = cat.building_row(b.kind).abilities@;
            let def = list[slot as int];
            let able = works_here(w) && slot < list.len();
            &&& !able ==> spoken.len() == 0 && after == ui
            &&& able && def.target is Caster ==> after == ui && spoken == seq![
                Said::Cast { caster: b.id, ability: slot, aim: None },
            ]
            &&& able && !(def.target is Caster) ==> {
                &&& spoken.len() == 0
                &&& waits_only_for_a_cast(after, ui)
                &&& (after.cast_place->0).casters == seq![b.id]
                &&& (after.cast_place->0).slot == slot
                &&& (after.cast_place->0).wants_unit == (def.target is Unit)
            }
        }),
{
}

/// A cast is the one thing that waits, and all that does not wait is as it was.
pub open spec fn waits_only_for_a_cast(after: UiView, before: UiView) -> bool {
    &&& after.cast_place is Some
    &&& after == (UiView {
        attack_move_armed: false,
        placement: None,
        wall_chain: Seq::empty(),
        posture_place: None,
        cast_place: after.cast_place,
        region_place: false,
        teleport_place: None,
        ..before
    })
}

// ---------------------------------------------------------------------------
// The selected units
// ---------------------------------------------------------------------------

/// `at` lists our selected units of which `who` holds, in the order in which
/// they are selected.
pub open spec fn ours_who(w: &World, at: Seq<int>, who: spec_fn(SelUnit) -> bool) -> bool {
    &&& forall|k: int|
        0 <= k < at.len() ==> 0 <= #[trigger] at[k] < w.sel_units@.len() && w.sel_units@[at[k]].own
            && who(w.sel_units@[at[k]])
    &&& forall|k: int, l: int| 0 <= k < l < at.len() ==> #[trigger] at[k] < #[trigger] at[l]
    &&& forall|i: int|
        0 <= i < w.sel_units@.len() && (#[trigger] w.sel_units@[i]).own && who(w.sel_units@[i])
            ==> at.contains(i)
}

pub open spec fn unit_ids(w: &World, at: Seq<int>) -> Seq<u64> {
    Seq::new(at.len(), |k: int| w.sel_units@[at[k]].id)
}

/// Everybody of ours in the selection, and nobody else.
pub proof fn orders_go_to_all_of_ours(w: &World) -> (at: Seq<int>)
    ensures
        ours_who(w, at, |u: SelUnit| true),
        own_ids(w) == unit_ids(w, at),
{
    let f = own_id();
    let at = picked_places(w.sel_units@, f);
    assert forall|i: int| 0 <= i < w.sel_units@.len() && (#[trigger] w.sel_units@[i]).own implies
        at.contains(i) by {
        assert(f(w.sel_units@[i]) is Some);
    }
    assert forall|k: int| 0 <= k < at.len() implies #[trigger] own_ids(w)[k] == unit_ids(
        w,
        at,
    )[k] by {
        assert(f(w.sel_units@[at[k]]) == Some(own_ids(w)[k]));
    }
    assert(own_ids(w) =~= unit_ids(w, at));
    at
}

/// Stop tells all of our selected units to stop, disarms an attack-move, and
/// says nothing where there are none.
pub proof fn stop_stops_all_of_ours(cat: &Catalog, w: &World, last: Option<u64>, ui: UiView) -> (at:
    Seq<int>)
    ensures
        ours_who(w, at, |u: SelUnit| true),
        at.len() == 0 ==> speech(cat, w, CmdAction::Stop, last).len() == 0,
        at.len() > 0 ==> speech(cat, w, CmdAction::Stop, last) == seq![
            Said::Stop { units: unit_ids(w, at) },
        ],
        change(cat, w, CmdAction::Stop, ui) == (UiView { attack_move_armed: false, ..ui }),
{
    orders_go_to_all_of_ours(w)
}

/// The units that can cast anything: those of ours whose kind has an ability.
pub proof fn casters_are_those_who_can(cat: &Catalog, w: &World) -> (at: Seq<int>)
    ensures
        ours_who(w, at, |u: SelUnit| cat.unit_row(u.kind).abilities@.len() > 0),
        casters(cat, w).len() == at.len(),
        forall|k: int| 0 <= k < at.len() ==> #[trigger] casters(cat, w)[k] == w.sel_units@[at[k]],
{
    let f = own_caster(cat);
    let at = picked_places(w.sel_units@, f);
    assert forall|i: int|
        0 <= i < w.sel_units@.len() && (#[trigger] w.sel_units@[i]).own && cat.unit_row(
            w.sel_units@[i].kind,
        ).abilities@.len() > 0 implies at.contains(i) by {
        assert(f(w.sel_units@[i]) is Some);
    }
    assert forall|k: int| 0 <= k < at.len() implies #[trigger] casters(cat, w)[k]
        == w.sel_units@[at[k]] by {
        assert(f(w.sel_units@[at[k]]) == Some(casters(cat, w)[k]));
    }
    at
}

/// The first caster's ability decides. One that needs no aim is cast by all of
/// the casters at once; one that needs an aim says nothing yet and waits for its
/// click, for exactly those casters whose ability in that slot is aimed alike.
pub proof fn casters_cast_or_wait(
    cat: &Catalog,
    w: &World,
    slot: usize,
    last: Option<u64>,
    ui: UiView,
) -> (at: Seq<int>)
    ensures
        ours_who(w, at, |u: SelUnit| cat.unit_row(u.kind).abilities@.len() > 0),
        ({
            let spoken = speech(cat, w, CmdAction::CastHero(slot), last);
            let after = change(cat, w, CmdAction::CastHero(slot), ui);
            let list = cat.unit_row(w.sel_units@[at[0]].kind).abilities@;
            let def = list[slot as int];
            let able = at.len() > 0 && slot < list.len();
            &&& !able ==> spoken.len() == 0 && after == ui
            &&& able && def.target is Caster ==> {
                &&& after == ui
                &&& spoken.len() == at.len()
                &&& forall|k: int|
                    0 <= k < at.len() ==> #[trigger] spoken[k] == (Said::Cast {
                        caster: w.sel_units@[at[k]].id,
                        ability: slot,
                        aim: None,
                    })
            }
            &&& able && !(def.target is Caster) ==> {
                &&& spoken.len() == 0
                &&& waits_only_for_a_cast(after, ui)
                &&& (after.cast_place->0).slot == slot
                &&& (after.cast_place->0).wants_unit == (def.target is Unit)
                &&& forall|id: u64|
                    #[trigger] (after.cast_place->0).casters.contains(id) <==> exists|k: int|
                        0 <= k < at.len() && aims_alike(
                            cat,
                            #[trigger] w.sel_units@[at[k]],
                            slot as int,
                            def.target,
                            id,
                        )
            }
        }),
{
    let at = casters_are_those_who_can(cat, w);
    let cs = casters(cat, w);
    if at.len() > 0 {
        assert(cs[0] == w.sel_units@[at[0]]);
        let list = cat.unit_row(w.sel_units@[at[0]].kind).abilities@;
        if slot < list.len() {
            let target = list[slot as int].target;
            let f = same_aim(cat, slot as int, target);
            assert forall|id: u64| #[trigger]
                picked(cs, f).contains(id) <==> exists|k: int|
                    0 <= k < at.len() && aims_alike(
                        cat,
                        #[trigger] w.sel_units@[at[k]],
                        slot as int,
                        target,
                        id,
                    ) by {
                picked_holds(cs, f, id);
                if picked(cs, f).contains(id) {
                    let k = choose|k: int| 0 <= k < cs.len() && f(#[trigger] cs[k]) == Some(id);
                    assert(aims_alike(cat, w.sel_units@[at[k]], slot as int, target, id));
                }
                if exists|k: int|
                    0 <= k < at.len() && aims_alike(
                        cat,
                        #[trigger] w.sel_units@[at[k]],
                        slot as int,
                        target,
                        id,
                    ) {
                    let k = choose|k: int|
                        0 <= k < at.len() && aims_alike(
                            cat,
                            #[trigger] w.sel_units@[at[k]],
                            slot as int,
                            target,
                            id,
                        );
                    assert(f(cs[k]) == Some(id));
                }
            }
        }
    }
    at
}

/// The unit has that id, and its ability in the slot is aimed in that way.
pub open spec fn aims_alike(
    cat: &Catalog,
    u: SelUnit,
    slot: int,
    target: AbilityTarget,
    id: u64,
) -> bool {
    let list = cat.unit_row(u.kind).abilities@;
    u.id == id && 0 <= slot < list.len() && list[slot].target == target
}

/// A finished hall of ours.
pub open spec fn is_our_hall(cat: &Catalog, w: &World, i: int) -> bool {
    &&& 0 <= i < w.buildings@.len()
    &&& w.buildings@[i].own
    &&& !w.buildings@[i].unfinished
    &&& cat.building_row(w.buildings@[i].kind).hall
}

/// The first caster uses what it carries in the slot. An item that asks where
/// to go waits for a hall to be picked where there are two or more to pick
/// from; anything else is used at once.
pub proof fn carried_items_are_used(
    cat: &Catalog,
    w: &World,
    slot: usize,
    last: Option<u64>,
    ui: UiView,
) -> (at: Seq<int>)
    ensures
        ours_who(w, at, |u: SelUnit| cat.unit_row(u.kind).abilities@.len() > 0),
        ({
            let spoken = speech(cat, w, CmdAction::UseSlot(slot), last);
            let after = change(cat, w, CmdAction::UseSlot(slot), ui);
            let user = w.sel_units@[at[0]];
            let item = (user.items->0)@[slot as int];
            let asks = user.items is Some && slot < 2 && item is Some && cat.item_row(
                item->0,
            ).chooses_destination;
            let choice = exists|i: int, j: int|
                i < j && #[trigger] is_our_hall(cat, w, i) && #[trigger] is_our_hall(cat, w, j);
            &&& at.len() == 0 ==> spoken.len() == 0 && after == ui
            &&& at.len() > 0 && asks && choice ==> {
                &&& spoken.len() == 0
                &&& after.teleport_place is Some
                &&& (after.teleport_place->0).hero == user.id
                &&& (after.teleport_place->0).slot == slot
                &&& after == (UiView {
                    attack_move_armed: false,
                    placement: None,
                    wall_chain: Seq::empty(),
                    posture_place: None,
                    cast_place: None,
                    region_place: false,
                    teleport_place: after.teleport_place,
                    ..ui
                })
            }
            &&& at.len() > 0 && !(asks && choice) ==> after == ui && spoken == seq![
                Said::UseItem { slot, hero: user.id, destination: None },
            ]
        }),
{
    let at = casters_are_those_who_can(cat, w);
    if at.len() > 0 {
        assert(casters(cat, w)[0] == w.sel_units@[at[0]]);
    }
    let f = hall_from(cat, home());
    let list = halls(cat, w, home());
    let places = picked_places(w.buildings@, f);
    if list.len() > 1 {
        assert(places[0] < places[1]);
        assert(f(w.buildings@[places[0]]) is Some);
        assert(f(w.buildings@[places[1]]) is Some);
        assert(is_our_hall(cat, w, places[0]) && is_our_hall(cat, w, places[1]));
    }
    if exists|i: int, j: int|
        i < j && #[trigger] is_our_hall(cat, w, i) && #[trigger] is_our_hall(cat, w, j) {
        let (i, j) = choose|i: int, j: int|
            i < j && #[trigger] is_our_hall(cat, w, i) && #[trigger] is_our_hall(cat, w, j);
        assert(f(w.buildings@[i]) is Some);
        assert(f(w.buildings@[j]) is Some);
        assert(places.contains(i) && places.contains(j));
    }
    at
}

/// A retreat runs to the finished hall of ours nearest to where it starts, and
/// to the corner the player started in where there is none.
pub proof fn refuge_is_the_nearest_hall(cat: &Catalog, w: &World, from: Pos) -> (i: int)
    ensures
        (forall|j: int| !#[trigger] is_our_hall(cat, w, j)) ==> refuge(cat, w, from).x == -70_000
            && refuge(cat, w, from).z == -70_000,
        (exists|j: int| #[trigger] is_our_hall(cat, w, j)) ==> {
            &&& is_our_hall(cat, w, i)
            &&& refuge(cat, w, from) == w.buildings@[i].pos
            &&& forall|j: int| #[trigger]
                is_our_hall(cat, w, j) ==> apart(w.buildings@[i].pos, from) <= apart(
                    w.buildings@[j].pos,
                    from,
                )
        },
{
    let f = hall_from(cat, from);
    let list = halls(cat, w, from);
    let at = picked_places(w.buildings@, f);
    assert forall|j: int| #[trigger] is_our_hall(cat, w, j) implies at.contains(j) by {
        assert(f(w.buildings@[j]) is Some);
    }
    assert forall|k: int| 0 <= k < list.len() implies is_our_hall(cat, w, #[trigger] at[k])
        && list[k].0 == w.buildings@[at[k]].pos && list[k].1 == apart(
        w.buildings@[at[k]].pos,
        from,
    ) by {
        assert(f(w.buildings@[at[k]]) == Some(list[k]));
        distances_fit(w.buildings@[at[k]].pos, from);
    }
    if list.len() == 0 {
        0
    } else {
        let k = nearest_is_nearest(list);
        let i = at[k];
        assert(is_our_hall(cat, w, at[k]));
        assert forall|j: int| #[trigger] is_our_hall(cat, w, j) implies apart(
            w.buildings@[i].pos,
            from,
        ) <= apart(w.buildings@[j].pos, from) by {
            assert(at.contains(j));
            let l = choose|l: int| 0 <= l < at.len() && at[l] == j;
            assert(list[k].1 <= list[l].1);
            assert(is_our_hall(cat, w, at[l]));
        }
        i
    }
}

} // verus!
