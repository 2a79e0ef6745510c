//! What the command card comes to: which tiles a selection is offered, on which
//! keys, at what price, and which of them are dark.

use vstd::prelude::*;

use crate::card::{
    ability_tile, ability_tiles, build_tile, build_tiles, building_ability_tile, building_tiles,
    item_tile, item_tiles, mode_tile, order_tiles, research_tile, shelf, shop_tile, shop_tiles,
    slot_at, slot_verdict, template_tiles, toggle_tiles, train_tile, train_tiles,
    unit_doctrine_tiles, unlocked_slots, upgrade_tiles, whole_seconds, CardPage, CmdAction,
    EntryView, HeroSlotVerdict,
};
use crate::catalog::{BuildingKind, Catalog, ItemId, ResearchKind, TechTier, UnitKind};
use crate::command::{card_now, change, speech};
use crate::doctrine::PostureKind;
use crate::hotkeys::{Action, Hotkeys, Key};
use crate::intent::Said;
use crate::lists::{only_if, picked, picked_at, picked_holds};
use crate::orders::{orders_go_to_all_of_ours, ours_who, works_here};
use crate::policies::tallies_are_true;
use crate::presses::borne;
use crate::readouts::{lowest_mark, lowest_mark_is_lowest, mark_free, mark_text};
use crate::requests::stands_for;
use crate::situation::{
    card_of, completed, doc_of, hero_cmds, own_ids, remembered_hero, squad_posture,
    worker_selected, SelUnit, World,
};
use crate::text::dec;
use crate::ui_state::UiView;

verus! {

/// A unit of ours is selected.
pub open spec fn any_of_ours(w: &World) -> bool {
    exists|i: int| 0 <= i < w.sel_units@.len() && (#[trigger] w.sel_units@[i]).own
}

/// A worker of ours is selected.
pub open spec fn any_worker(cat: &Catalog, w: &World) -> bool {
    exists|i: int|
        0 <= i < w.sel_units@.len() && (#[trigger] w.sel_units@[i]).own && cat.unit_row(
            w.sel_units@[i].kind,
        ).worker
}

proof fn ours_are_counted(w: &World)
    ensures
        own_ids(w).len() > 0 <==> any_of_ours(w),
{
    let at = orders_go_to_all_of_ours(w);
    if own_ids(w).len() > 0 {
        assert(w.sel_units@[at[0]].own);
    }
    if any_of_ours(w) {
        let i = choose|i: int| 0 <= i < w.sel_units@.len() && (#[trigger] w.sel_units@[i]).own;
        assert(at.contains(i));
    }
}

proof fn two_hold<T>(a: Seq<T>, b: Seq<T>, x: T)
    ensures
        (a + b).contains(x) <==> a.contains(x) || b.contains(x),
{
    let all = a + b;
    if a.contains(x) {
        let i = choose|i: int| 0 <= i < a.len() && a[i] == x;
        assert(all[i] == x);
    }
    if b.contains(x) {
        let i = choose|i: int| 0 <= i < b.len() && b[i] == x;
        assert(all[a.len() + i] == x);
    }
    if all.contains(x) {
        let i = choose|i: int| 0 <= i < all.len() && all[i] == x;
        if i < a.len() {
            assert(a[i] == x);
        } else {
            assert(b[i - a.len()] == x);
        }
    }
}

proof fn picked_at_holds<T, U>(s: Seq<T>, f: spec_fn(int, T) -> Option<U>, u: U)
    ensures
        picked_at(s, f).contains(u) <==> exists|i: int|
            0 <= i < s.len() && f(i, #[trigger] s[i]) == Some(u),
    decreases s.len(),
{
    if s.len() > 0 {
        let front = s.drop_last();
        let last = s.len() - 1;
        picked_at_holds(front, f, u);
        let all = picked_at(s, f);
        let before = picked_at(front, f);
        if before.contains(u) {
            let i = choose|i: int| 0 <= i < before.len() && before[i] == u;
            assert(all[i] == u);
            let j = choose|j: int| 0 <= j < front.len() && f(j, #[trigger] front[j]) == Some(u);
            assert(s[j] == front[j]);
        }
        if all.contains(u) {
            let i = choose|i: int| 0 <= i < all.len() && all[i] == u;
            if i < before.len() {
                assert(before[i] == u);
            } else {
                assert(f(last, s[last]) == Some(u));
            }
        }
        if exists|i: int| 0 <= i < s.len() && f(i, #[trigger] s[i]) == Some(u) {
            let i = choose|i: int| 0 <= i < s.len() && f(i, #[trigger] s[i]) == Some(u);
            if i < last {
                assert(front[i] == s[i]);
            } else {
                assert(all[all.len() - 1] == u);
            }
        }
    }
}

// ---------------------------------------------------------------------------
// The orders card
// ---------------------------------------------------------------------------

/// The parts of the orders card, and that there are no others.
proof fn orders_have_parts(cat: &Catalog, hk: &Hotkeys, w: &World, ui: UiView, e: EntryView)
    requires
        ui.page == CardPage::Orders,
    ensures
        ({
            let n = own_ids(w).len();
            let hero = hero_cmds(cat, w, remembered_hero(cat, w, ui.last_hero));
            let card = card_of(cat, w, ui.region_radius, ui.region_place);
            card_now(cat, hk, w, ui).contains(e) <==> {
                ||| order_tiles(hk, n).contains(e)
                ||| build_tiles(cat, hk, completed(w), worker_selected(cat, w)).contains(e)
                ||| ability_tiles(hk, hero.abilities).contains(e)
                ||| item_tiles(hk, hero.items).contains(e)
                ||| works_here(w) && n == 0 && building_tiles(
                    cat,
                    hk,
                    w.sel_buildings@[0].kind,
                    hero,
                    completed(w),
                ).contains(e)
                ||| toggle_tiles(hk, n, card.doc).contains(e)
                ||| (n > 0 || card.tmpl.capable) && e == mode_tile(hk, "Doctrine"@)
            }
        }),
{
    let n = own_ids(w).len();
    let hero = hero_cmds(cat, w, remembered_hero(cat, w, ui.last_hero));
    let card = card_of(cat, w, ui.region_radius, ui.region_place);
    let a = order_tiles(hk, n);
    let b = build_tiles(cat, hk, completed(w), worker_selected(cat, w));
    let c = ability_tiles(hk, hero.abilities);
    let d = item_tiles(hk, hero.items);
    let here = if works_here(w) && n == 0 {
        building_tiles(cat, hk, w.sel_buildings@[0].kind, hero, completed(w))
    } else {
        Seq::empty()
    };
    let t = toggle_tiles(hk, n, card.doc);
    let m = only_if(n > 0 || card.tmpl.capable, mode_tile(hk, "Doctrine"@));
    two_hold(a, b, e);
    two_hold(a + b, c, e);
    two_hold(a + b + c, d, e);
    two_hold(a + b + c + d, here, e);
    two_hold(a + b + c + d + here, t, e);
    two_hold(a + b + c + d + here + t, m, e);
    assert(card_now(cat, hk, w, ui) == a + b + c + d + here + t + m);
    if n > 0 || card.tmpl.capable {
        assert(m[0] == mode_tile(hk, "Doctrine"@));
    }
}

/// Attack and stop are offered to units of ours and to nobody else, on their own
/// keys, ready and unpriced.
pub proof fn units_are_offered_orders(cat: &Catalog, hk: &Hotkeys, w: &World, ui: UiView)
    requires
        ui.page == CardPage::Orders,
    ensures
        ({
            let card = card_now(cat, hk, w, ui);
            &&& forall|e: EntryView| #[trigger]
                card.contains(e) && (e.action == CmdAction::AttackMove || e.action
                    == CmdAction::Stop) ==> any_of_ours(w) && e.enabled && !e.locked && e.afford
                    is None && e.key == hk.bound(
                    if e.action == CmdAction::Stop {
                        Action::Stop
                    } else {
                        Action::AttackMove
                    },
                )
            &&& any_of_ours(w) ==> exists|e: EntryView| #[trigger]
                card.contains(e) && e.action == CmdAction::AttackMove
            &&& any_of_ours(w) ==> exists|e: EntryView| #[trigger]
                card.contains(e) && e.action == CmdAction::Stop
        }),
{
    ours_are_counted(w);
    let card = card_now(cat, hk, w, ui);
    let n = own_ids(w).len();
    assert forall|e: EntryView| #[trigger]
        card.contains(e) && (e.action == CmdAction::AttackMove || e.action
            == CmdAction::Stop) implies any_of_ours(w) && e.enabled && !e.locked && e.afford is None
        && e.key == hk.bound(
        if e.action == CmdAction::Stop {
            Action::Stop
        } else {
            Action::AttackMove
        },
    ) by {
        orders_have_parts(cat, hk, w, ui, e);
        others_are_no_orders(cat, hk, w, ui, e);
    }
    if any_of_ours(w) {
        let tiles = order_tiles(hk, n);
        orders_have_parts(cat, hk, w, ui, tiles[0]);
        orders_have_parts(cat, hk, w, ui, tiles[1]);
        assert(tiles.contains(tiles[0]) && tiles.contains(tiles[1]));
        assert(card.contains(tiles[0]) && card.contains(tiles[1]));
    }
}

/// What each part of the orders card is about.
proof fn others_are_no_orders(cat: &Catalog, hk: &Hotkeys, w: &World, ui: UiView, e: EntryView)
    ensures
        ({
            let n = own_ids(w).len();
            let hero = hero_cmds(cat, w, remembered_hero(cat, w, ui.last_hero));
            let card = card_of(cat, w, ui.region_radius, ui.region_place);
            &&& order_tiles(hk, n).contains(e) ==> e.action == CmdAction::AttackMove || e.action
                == CmdAction::Stop
            &&& build_tiles(cat, hk, completed(w), worker_selected(cat, w)).contains(e)
                ==> e.action is Place
            &&& ability_tiles(hk, hero.abilities).contains(e) ==> e.action is CastHero
            &&& item_tiles(hk, hero.items).contains(e) ==> e.action is UseSlot
            &&& building_tiles(
                cat,
                hk,
                w.sel_buildings@[0].kind,
                hero,
                completed(w),
            ).contains(e) ==> e.action is Train || e.action is CastBuilding || e.action is Research
                || e.action is Upgrade || e.action is Buy
            &&& toggle_tiles(hk, n, card.doc).contains(e) ==> e.action == CmdAction::ToggleGuard
                || e.action == CmdAction::ToggleFallback || e.action == CmdAction::CyclePriority
                || e.action == CmdAction::ToggleAutoCast
        }),
{
    let n = own_ids(w).len();
    let hero = hero_cmds(cat, w, remembered_hero(cat, w, ui.last_hero));
    let card = card_of(cat, w, ui.region_radius, ui.region_place);
    let f = ability_tile(hk);
    picked_holds(hero.abilities, f, e);
    let b = build_tiles(cat, hk, completed(w), worker_selected(cat, w));
    if b.contains(e) {
        let i = choose|i: int| 0 <= i < b.len() && b[i] == e;
        assert(e == build_tile(cat, completed(w), (hk.builds@[i]).0, (hk.builds@[i]).1));
    }
    two_hold(item_tile(hk, 0, hero.items@[0]), item_tile(hk, 1, hero.items@[1]), e);
    let kind = w.sel_buildings@[0].kind;
    buildings_have_parts(cat, hk, w, ui, e);
    picked_at_holds(cat.building_row(kind).trains@, train_tile(cat, hk, hero.train, completed(w)), e);
    picked_holds(hero.building_abilities, building_ability_tile(hk), e);
    picked_at_holds(hero.research, research_tile(cat, hk), e);
    if hero.shop is Some {
        picked_at_holds(shelf(), shop_tile(cat, hk, hero.shop->0), e);
    }
    let t = toggle_tiles(hk, n, card.doc);
    if t.contains(e) {
        let i = choose|i: int| 0 <= i < t.len() && t[i] == e;
        assert(i == 0 || i == 1 || i == 2 || i == 3);
    }
}

proof fn buildings_have_parts(cat: &Catalog, hk: &Hotkeys, w: &World, ui: UiView, e: EntryView)
    ensures
        ({
            let hero = hero_cmds(cat, w, remembered_hero(cat, w, ui.last_hero));
            let kind = w.sel_buildings@[0].kind;
            building_tiles(cat, hk, kind, hero, completed(w)).contains(e) <==> {
                ||| train_tiles(cat, hk, kind, hero.train, completed(w)).contains(e)
                ||| picked(hero.building_abilities, building_ability_tile(hk)).contains(e)
                ||| picked_at(hero.research, research_tile(cat, hk)).contains(e)
                ||| upgrade_tiles(hk, hero.upgrade).contains(e)
                ||| shop_tiles(cat, hk, hero.shop).contains(e)
            }
        }),
{
    let hero = hero_cmds(cat, w, remembered_hero(cat, w, ui.last_hero));
    let kind = w.sel_buildings@[0].kind;
    let a = train_tiles(cat, hk, kind, hero.train, completed(w));
    let b = picked(hero.building_abilities, building_ability_tile(hk));
    let c = picked_at(hero.research, research_tile(cat, hk));
    let d = upgrade_tiles(hk, hero.upgrade);
    let s = shop_tiles(cat, hk, hero.shop);
    two_hold(a, b, e);
    two_hold(a + b, c, e);
    two_hold(a + b + c, d, e);
    two_hold(a + b + c + d, s, e);
}

/// Everything a building requires is stood for by finished buildings of ours.
pub open spec fn allowed(cat: &Catalog, w: &World, reqs: Seq<BuildingKind>) -> bool {
    forall|i: int| 0 <= i < reqs.len() ==> stands_for(cat, w, #[trigger] reqs[i])
}

proof fn allowed_is_met(cat: &Catalog, w: &World, reqs: Seq<BuildingKind>)
    ensures
        allowed(cat, w, reqs) <==> cat.met(reqs, completed(w)),
        cat.met(reqs, completed(w)) <==> cat.first_missing(reqs, completed(w)) is None,
{
    cat.missing_is_unmet(reqs, completed(w));
    let f = crate::situation::finished();
    let list = completed(w);
    let at = crate::lists::picked_places(w.buildings@, f);
    assert forall|wanted: BuildingKind| #[trigger]
        cat.answered(list, wanted) <==> stands_for(cat, w, wanted) by {
        if cat.answered(list, wanted) {
            let k = choose|k: int| 0 <= k < list.len() && cat.answers(#[trigger] list[k], wanted);
            let i = at[k];
            assert(f(w.buildings@[i]) == Some(list[k]));
            assert(w.buildings@[i].own);
        }
        if stands_for(cat, w, wanted) {
            let i = choose|i: int|
                0 <= i < w.buildings@.len() && (#[trigger] w.buildings@[i]).own
                    && !w.buildings@[i].unfinished && (w.buildings@[i].kind == wanted
                    || cat.building_row(w.buildings@[i].kind).counts_as@.contains(wanted));
            assert(f(w.buildings@[i]) is Some);
            assert(at.contains(i));
            let k = choose|k: int| 0 <= k < at.len() && at[k] == i;
            assert(cat.answers(list[k], wanted));
        }
    }
    if allowed(cat, w, reqs) {
        assert forall|i: int| 0 <= i < reqs.len() implies cat.answered(list, #[trigger] reqs[i]) by {
            assert(stands_for(cat, w, reqs[i]));
        }
    }
    if cat.met(reqs, list) {
        assert forall|i: int| 0 <= i < reqs.len() implies stands_for(cat, w, #[trigger] reqs[i]) by {
            assert(cat.answered(list, reqs[i]));
        }
    }
}

/// The buildings of the registry are offered to a worker of ours and to nobody
/// else, each on its key and at its price; one whose requirements are open is
/// dark and locked, and then pressing it changes nothing.
pub proof fn workers_are_offered_buildings(
    cat: &Catalog,
    hk: &Hotkeys,
    w: &World,
    ui: UiView,
    kind: BuildingKind,
)
    requires
        ui.page == CardPage::Orders,
    ensures
        ({
            let card = card_now(cat, hk, w, ui);
            let row = cat.building_row(kind);
            &&& forall|e: EntryView| #[trigger]
                card.contains(e) && e.action == CmdAction::Place(kind) ==> {
                    &&& any_worker(cat, w)
                    &&& hk.builds@.contains((kind, e.key))
                    &&& e.locked == !allowed(cat, w, row.requires@)
                    &&& e.enabled == !e.locked
                    &&& e.afford == Some((row.cost_gold, row.cost_lumber))
                    &&& e.locked ==> change(cat, w, CmdAction::Place(kind), ui) == ui
                    &&& !e.locked ==> change(cat, w, CmdAction::Place(kind), ui).placement == Some(
                        kind,
                    )
                }
            &&& any_worker(cat, w) ==> forall|key: Key| #[trigger]
                hk.builds@.contains((kind, key)) ==> exists|e: EntryView| #[trigger]
                    card.contains(e) && e.action == CmdAction::Place(kind) && e.key == key
        }),
{
    let card = card_now(cat, hk, w, ui);
    let row = cat.building_row(kind);
    allowed_is_met(cat, w, row.requires@);
    let b = build_tiles(cat, hk, completed(w), worker_selected(cat, w));
    assert forall|e: EntryView| #[trigger]
        card.contains(e) && e.action == CmdAction::Place(kind) implies any_worker(cat, w)
        && hk.builds@.contains((kind, e.key)) && e.locked == !allowed(cat, w, row.requires@)
        && e.enabled == !e.locked && e.afford == Some((row.cost_gold, row.cost_lumber)) && (e.locked
        ==> change(cat, w, CmdAction::Place(kind), ui) == ui) && (!e.locked ==> change(
        cat,
        w,
        CmdAction::Place(kind),
        ui,
    ).placement == Some(kind)) by {
        orders_have_parts(cat, hk, w, ui, e);
        others_are_no_orders(cat, hk, w, ui, e);
        assert(b.contains(e));
        let i = choose|i: int| 0 <= i < b.len() && b[i] == e;
        assert(e == build_tile(cat, completed(w), (hk.builds@[i]).0, (hk.builds@[i]).1));
        assert(hk.builds@[i] == (kind, e.key));
    }
    if any_worker(cat, w) {
        assert forall|key: Key| #[trigger] hk.builds@.contains((kind, key)) implies exists|
            e: EntryView,
        | #[trigger]
            card.contains(e) && e.action == CmdAction::Place(kind) && e.key == key by {
            let i = choose|i: int| 0 <= i < hk.builds@.len() && hk.builds@[i] == (kind, key);
            let e = b[i];
            assert(b.contains(e));
            orders_have_parts(cat, hk, w, ui, e);
            assert(card.contains(e));
        }
    }
}

/// A unit is offered by the one finished building of ours that is selected with
/// no unit of ours, where it trains it: in the order in which it trains them, on
/// the key of that place, at the unit's price, and locked exactly while its
/// requirements are open. Where it is not locked and the price is in hand,
/// pressing it queues the unit while fewer than seven wait.
pub proof fn buildings_offer_what_they_train(
    cat: &Catalog,
    hk: &Hotkeys,
    w: &World,
    ui: UiView,
    kind: UnitKind,
)
    requires
        ui.page == CardPage::Orders,
        !cat.unit_row(kind).hero,
    ensures
        ({
            let card = card_now(cat, hk, w, ui);
            let row = cat.unit_row(kind);
            let b = w.sel_buildings@[0];
            let list = cat.building_row(b.kind).trains@;
            &&& forall|e: EntryView| #[trigger]
                card.contains(e) && e.action == CmdAction::Train(kind) ==> {
                    &&& works_here(w) && !any_of_ours(w)
                    &&& exists|i: int|
                        0 <= i < list.len() && (#[trigger] list[i]) == kind && hk.key_of(
                            Action::TrainSlot(i as usize),
                        ) == Some(e.key)
                    &&& e.locked == !allowed(cat, w, row.requires@)
                    &&& e.enabled == !e.locked
                    &&& e.afford == Some((row.cost_gold, row.cost_lumber))
                    &&& row.cost_gold <= w.gold && row.cost_lumber <= w.lumber && b.queue is Some && (
                    b.queue->0)@.len() < 7 ==> speech(cat, w, CmdAction::Train(kind), ui.last_hero)
                        == seq![Said::Train { building: b.id, unit: kind }]
                }
            &&& works_here(w) && !any_of_ours(w) ==> forall|i: int|
                0 <= i < list.len() && (#[trigger] list[i]) == kind && hk.key_of(
                    Action::TrainSlot(i as usize),
                ) is Some ==> exists|e: EntryView| #[trigger]
                    card.contains(e) && e.action == CmdAction::Train(kind) && Some(e.key)
                        == hk.key_of(Action::TrainSlot(i as usize))
        }),
{
    let card = card_now(cat, hk, w, ui);
    let row = cat.unit_row(kind);
    let b = w.sel_buildings@[0];
    let list = cat.building_row(b.kind).trains@;
    let hero = hero_cmds(cat, w, remembered_hero(cat, w, ui.last_hero));
    let f = train_tile(cat, hk, hero.train, completed(w));
    ours_are_counted(w);
    allowed_is_met(cat, w, row.requires@);
    assert forall|e: EntryView| #[trigger]
        card.contains(e) && e.action == CmdAction::Train(kind) implies works_here(w)
        && !any_of_ours(w) && (exists|i: int|
        0 <= i < list.len() && (#[trigger] list[i]) == kind && hk.key_of(
            Action::TrainSlot(i as usize),
        ) == Some(e.key)) && e.locked == !allowed(cat, w, row.requires@) && e.enabled == !e.locked
        && e.afford == Some((row.cost_gold, row.cost_lumber)) && (row.cost_gold <= w.gold
        && row.cost_lumber <= w.lumber && b.queue is Some && (b.queue->0)@.len() < 7 ==> speech(
        cat,
        w,
        CmdAction::Train(kind),
        ui.last_hero,
    ) == seq![Said::Train { building: b.id, unit: kind }]) by {
        orders_have_parts(cat, hk, w, ui, e);
        others_are_no_orders(cat, hk, w, ui, e);
        buildings_have_parts(cat, hk, w, ui, e);
        picked_at_holds(list, f, e);
        picked_holds(hero.building_abilities, building_ability_tile(hk), e);
        picked_at_holds(hero.research, research_tile(cat, hk), e);
        if hero.shop is Some {
            picked_at_holds(shelf(), shop_tile(cat, hk, hero.shop->0), e);
        }
        let i = choose|i: int| 0 <= i < list.len() && f(i, #[trigger] list[i]) == Some(e);
        assert(list[i] == kind);
        assert(list.contains(kind));
    }
    if works_here(w) && !any_of_ours(w) {
        assert forall|i: int|
            0 <= i < list.len() && (#[trigger] list[i]) == kind && hk.key_of(
                Action::TrainSlot(i as usize),
            ) is Some implies exists|e: EntryView| #[trigger]
            card.contains(e) && e.action == CmdAction::Train(kind) && Some(e.key) == hk.key_of(
                Action::TrainSlot(i as usize),
            ) by {
            let e = f(i, list[i])->0;
            picked_at_holds(list, f, e);
            assert(f(i, list[i]) == Some(e));
            buildings_have_parts(cat, hk, w, ui, e);
            orders_have_parts(cat, hk, w, ui, e);
            assert(card.contains(e));
        }
    }
}

/// A finished building of ours that is not being turned into another offers its
/// next rung at its price, and pressing that turns it; nothing else is offered
/// as a rung.
pub proof fn halls_offer_their_next_rung(
    cat: &Catalog,
    hk: &Hotkeys,
    w: &World,
    ui: UiView,
    to: BuildingKind,
)
    requires
        ui.page == CardPage::Orders,
    ensures
        ({
            let card = card_now(cat, hk, w, ui);
            let b = w.sel_buildings@[0];
            let next = cat.building_row(b.kind).upgrade;
            let grows = works_here(w) && !any_of_ours(w) && !b.upgrading && next is Some && (
            next->0).0 == to;
            &&& grows ==> exists|e: EntryView| #[trigger]
                card.contains(e) && e.action == CmdAction::Upgrade(to)
            &&& forall|e: EntryView| #[trigger]
                card.contains(e) && e.action == CmdAction::Upgrade(to) ==> {
                    &&& grows
                    &&& e.key == hk.bound(Action::TierUp)
                    &&& e.afford == Some(((next->0).1, (next->0).2))
                    &&& speech(cat, w, CmdAction::Upgrade(to), ui.last_hero) == seq![
                        Said::Upgrade { building: b.id },
                    ]
                }
        }),
{
    let card = card_now(cat, hk, w, ui);
    let b = w.sel_buildings@[0];
    let next = cat.building_row(b.kind).upgrade;
    let hero = hero_cmds(cat, w, remembered_hero(cat, w, ui.last_hero));
    ours_are_counted(w);
    let grows = works_here(w) && !any_of_ours(w) && !b.upgrading && next is Some && (next->0).0 == to;
    if grows {
        let e = upgrade_tiles(hk, hero.upgrade)[0];
        assert(upgrade_tiles(hk, hero.upgrade).contains(e));
        buildings_have_parts(cat, hk, w, ui, e);
        orders_have_parts(cat, hk, w, ui, e);
        assert(card.contains(e));
    }
    assert forall|e: EntryView| #[trigger]
        card.contains(e) && e.action == CmdAction::Upgrade(to) implies grows && e.key == hk.bound(
        Action::TierUp,
    ) && e.afford == Some(((next->0).1, (next->0).2)) && speech(
        cat,
        w,
        CmdAction::Upgrade(to),
        ui.last_hero,
    ) == seq![Said::Upgrade { building: b.id }] by {
        orders_have_parts(cat, hk, w, ui, e);
        others_are_no_orders(cat, hk, w, ui, e);
        buildings_have_parts(cat, hk, w, ui, e);
        picked_at_holds(
            cat.building_row(b.kind).trains@,
            train_tile(cat, hk, hero.train, completed(w)),
            e,
        );
        picked_holds(hero.building_abilities, building_ability_tile(hk), e);
        picked_at_holds(hero.research, research_tile(cat, hk), e);
        if hero.shop is Some {
            picked_at_holds(shelf(), shop_tile(cat, hk, hero.shop->0), e);
        }
        assert(upgrade_tiles(hk, hero.upgrade).contains(e));
    }
}

/// The doctrine card is offered from the orders card to units of ours and to a
/// building that stamps a policy, and the way back from it always.
pub proof fn cards_lead_to_each_other(cat: &Catalog, hk: &Hotkeys, w: &World, ui: UiView)
    ensures
        ({
            let card = card_now(cat, hk, w, ui);
            let b = w.sel_buildings@[0];
            let stamps = works_here(w) && b.queue is Some && cat.building_row(b.kind).trains@.len()
                > 0;
            &&& (exists|e: EntryView| #[trigger]
                card.contains(e) && e.action == CmdAction::TogglePage) <==> ui.page
                == CardPage::Doctrine || any_of_ours(w) || stamps
            &&& forall|e: EntryView| #[trigger]
                card.contains(e) && e.action == CmdAction::TogglePage ==> e.key == hk.bound(
                    Action::ModeToggle,
                ) && e.enabled && !e.locked
        }),
{
    ours_are_counted(w);
    let card = card_now(cat, hk, w, ui);
    let n = own_ids(w).len();
    let c = card_of(cat, w, ui.region_radius, ui.region_place);
    if ui.page == CardPage::Orders {
        assert forall|e: EntryView| #[trigger]
            card.contains(e) && e.action == CmdAction::TogglePage implies e == mode_tile(
            hk,
            "Doctrine"@,
        ) && (n > 0 || c.tmpl.capable) by {
            orders_have_parts(cat, hk, w, ui, e);
            others_are_no_orders(cat, hk, w, ui, e);
        }
        if n > 0 || c.tmpl.capable {
            let e = mode_tile(hk, "Doctrine"@);
            orders_have_parts(cat, hk, w, ui, e);
            assert(card.contains(e));
        }
    } else {
        let body = if n > 0 {
            unit_doctrine_tiles(cat, hk, c)
        } else if c.tmpl.capable {
            template_tiles(hk, c.tmpl)
        } else {
            Seq::empty()
        };
        let t = crate::card::territory_tiles(hk, c);
        let back = mode_tile(hk, "Orders"@);
        assert(card == body + t + seq![back]);
        assert(card[card.len() - 1] == back);
        assert(card.contains(back));
        assert forall|e: EntryView| #[trigger]
            card.contains(e) && e.action == CmdAction::TogglePage implies e == back by {
            two_hold(body, t, e);
            two_hold(body + t, seq![back], e);
            doctrine_parts(cat, hk, c, e);
            if t.contains(e) {
                let i = choose|i: int| 0 <= i < t.len() && t[i] == e;
                assert(i == 0 || i == 1);
            }
        }
    }
}

proof fn doctrine_parts(
    cat: &Catalog,
    hk: &Hotkeys,
    c: crate::card::DoctrineCard,
    e: EntryView,
)
    ensures
        unit_doctrine_tiles(cat, hk, c).contains(e) ==> e.action is SetPosture || e.action
            == CmdAction::ClearPosture || e.action == CmdAction::CycleFallback || e.action
            == CmdAction::CycleLeash || e.action == CmdAction::CyclePriority
            || e.action is ToggleAutoCastSlot || e.action == CmdAction::ToggleHomeGuard,
        template_tiles(hk, c.tmpl).contains(e) ==> e.action == CmdAction::TemplateSquad || e.action
            == CmdAction::TemplateFallback || e.action == CmdAction::TemplatePriority || e.action
            == CmdAction::TemplateAutoCast || e.action == CmdAction::TemplateClear,
{
    let s = unit_doctrine_tiles(cat, hk, c);
    let auto_casts = crate::card::autocast_tiles(cat, hk, c.doc);
    if s.contains(e) {
        let i = choose|i: int| 0 <= i < s.len() && s[i] == e;
        if i >= 8 && i < 8 + auto_casts.len() {
            assert(s[i] == auto_casts[i - 8]);
            assert(auto_casts.contains(e));
            let kind = c.doc.caster->0;
            picked_at_holds(
                cat.unit_row(kind).abilities@,
                crate::card::autocast_tile(hk, c.doc),
                e,
            );
        } else if i < 8 {
            assert(i == 0 || i == 1 || i == 2 || i == 3 || i == 4 || i == 5 || i == 6 || i == 7);
        }
    }
    let t = template_tiles(hk, c.tmpl);
    if t.contains(e) {
        let i = choose|i: int| 0 <= i < t.len() && t[i] == e;
        assert(i == 0 || i == 1 || i == 2 || i == 3 || i == 4);
    }
}

// ---------------------------------------------------------------------------
// Heroes, items and abilities
// ---------------------------------------------------------------------------

/// One more hero fits while the team has none of its class and fewer than its
/// tier: one, two or three.
pub proof fn heroes_fit_the_tier(held: Seq<UnitKind>, kind: UnitKind, tier: TechTier)
    ensures
        slot_verdict(held, kind, tier) == HeroSlotVerdict::DuplicateClass <==> held.contains(kind),
        slot_verdict(held, kind, tier) == HeroSlotVerdict::Fits <==> !held.contains(kind)
            && held.len() < (match tier {
            TechTier::T1 => 1int,
            TechTier::T2 => 2,
            TechTier::T3 => 3,
        }),
{
}

/// A countdown is told in whole seconds, rounded up: it says one until the last
/// thousandth.
pub proof fn countdowns_round_up(milli: int)
    requires
        0 < milli,
    ensures
        1_000 * (whole_seconds(milli) - 1) < milli,
        milli <= 1_000 * whole_seconds(milli),
{
}

/// An ability is offered exactly where it is unlocked, with the number of its
/// slot.
pub proof fn unlocked_abilities_are_offered(
    list: Seq<crate::catalog::AbilityDef>,
    states: Seq<crate::card::AbilityState>,
    slot: usize,
)
    requires
        states.len() <= usize::MAX,
    ensures
        (exists|s: crate::card::AbilitySlot| #[trigger]
            unlocked_slots(list, states).contains(s) && s.index == slot) <==> slot < states.len()
            && slot < list.len() && states[slot as int].unlocked,
        forall|s: crate::card::AbilitySlot| #[trigger]
            unlocked_slots(list, states).contains(s) && s.index == slot ==> s.def
                == list[slot as int] && s.ready == states[slot as int].ready && s.cooldown
                == states[slot as int].cooldown,
{
    let f = slot_at(list);
    let all = unlocked_slots(list, states);
    assert forall|s: crate::card::AbilitySlot| #[trigger] all.contains(s) implies exists|i: int|
        0 <= i < states.len() && f(i, #[trigger] states[i]) == Some(s) by {
        picked_at_holds(states, f, s);
    }
    if slot < states.len() && slot < list.len() && states[slot as int].unlocked {
        let s = f(slot as int, states[slot as int])->0;
        picked_at_holds(states, f, s);
        assert(f(slot as int, states[slot as int]) == Some(s));
        assert(all.contains(s) && s.index == slot);
    }
}

/// Whoever casts first among our selected units is offered what it carries: one
/// tile for each slot that holds something, on the key of that slot.
pub proof fn casters_are_offered_what_they_carry(
    cat: &Catalog,
    hk: &Hotkeys,
    w: &World,
    ui: UiView,
    slot: usize,
) -> (at: Seq<int>)
    requires
        ui.page == CardPage::Orders,
        slot < 2,
        hk.key_of(Action::ItemSlot(slot)) is Some,
    ensures
        ours_who(w, at, |u: SelUnit| cat.unit_row(u.kind).abilities@.len() > 0),
        ({
            let card = card_now(cat, hk, w, ui);
            let items = w.sel_units@[at[0]].items;
            &&& (exists|e: EntryView| #[trigger]
                card.contains(e) && e.action == CmdAction::UseSlot(slot)) <==> at.len() > 0
                && items is Some && (items->0)@[slot as int] is Some
            &&& forall|e: EntryView| #[trigger]
                card.contains(e) && e.action == CmdAction::UseSlot(slot) ==> Some(e.key)
                    == hk.key_of(Action::ItemSlot(slot)) && e.enabled && !e.locked && e.label
                    == crate::catalog::item_title((items->0)@[slot as int]->0)
        }),
{
    let at = crate::orders::casters_are_those_who_can(cat, w);
    if at.len() > 0 {
        assert(crate::situation::casters(cat, w)[0] == w.sel_units@[at[0]]);
    }
    let card = card_now(cat, hk, w, ui);
    let hero = hero_cmds(cat, w, remembered_hero(cat, w, ui.last_hero));
    let mine = item_tile(hk, slot, hero.items@[slot as int]);
    assert forall|e: EntryView| #[trigger]
        card.contains(e) && e.action == CmdAction::UseSlot(slot) implies mine.contains(e) by {
        orders_have_parts(cat, hk, w, ui, e);
        others_are_no_orders(cat, hk, w, ui, e);
        two_hold(item_tile(hk, 0, hero.items@[0]), item_tile(hk, 1, hero.items@[1]), e);
    }
    if hero.items@[slot as int] is Some {
        let e = mine[0];
        assert(mine.contains(e));
        two_hold(item_tile(hk, 0, hero.items@[0]), item_tile(hk, 1, hero.items@[1]), e);
        orders_have_parts(cat, hk, w, ui, e);
        assert(card.contains(e));
    }
    at
}

/// Whoever casts first among our selected units is offered the abilities it has
/// unlocked, each on the key of its slot, and dark while it is not ready.
pub proof fn casters_are_offered_their_abilities(
    cat: &Catalog,
    hk: &Hotkeys,
    w: &World,
    ui: UiView,
    slot: usize,
) -> (at: Seq<int>)
    requires
        ui.page == CardPage::Orders,
        hk.key_of(Action::HeroAbility(slot)) is Some,
    ensures
        ours_who(w, at, |u: SelUnit| cat.unit_row(u.kind).abilities@.len() > 0),
        ({
            let card = card_now(cat, hk, w, ui);
            let u = w.sel_units@[at[0]];
            let able = at.len() > 0 && slot < u.abilities@.len() && slot < cat.unit_row(
                u.kind,
            ).abilities@.len() && u.abilities@[slot as int].unlocked;
            &&& (exists|e: EntryView| #[trigger]
                card.contains(e) && e.action == CmdAction::CastHero(slot)) <==> able
            &&& forall|e: EntryView| #[trigger]
                card.contains(e) && e.action == CmdAction::CastHero(slot) ==> Some(e.key)
                    == hk.key_of(Action::HeroAbility(slot)) && !e.locked && e.enabled
                    == u.abilities@[slot as int].ready
        }),
{
    let at = crate::orders::casters_are_those_who_can(cat, w);
    let card = card_now(cat, hk, w, ui);
    let hero = hero_cmds(cat, w, remembered_hero(cat, w, ui.last_hero));
    let f = ability_tile(hk);
    let u = w.sel_units@[at[0]];
    if at.len() > 0 {
        assert(crate::situation::casters(cat, w)[0] == u);
        assert(u.abilities@.len() == u.abilities.len());
        unlocked_abilities_are_offered(
            cat.unit_row(u.kind).abilities@,
            u.abilities@,
            slot,
        );
    }
    assert forall|e: EntryView| #[trigger]
        card.contains(e) && e.action == CmdAction::CastHero(slot) implies exists|
        s: crate::card::AbilitySlot,
    | #[trigger]
        hero.abilities.contains(s) && s.index == slot && f(s) == Some(e) by {
        orders_have_parts(cat, hk, w, ui, e);
        others_are_no_orders(cat, hk, w, ui, e);
        picked_holds(hero.abilities, f, e);
        let k = choose|k: int|
            0 <= k < hero.abilities.len() && f(#[trigger] hero.abilities[k]) == Some(e);
        assert(hero.abilities.contains(hero.abilities[k]));
    }
    if exists|s: crate::card::AbilitySlot| #[trigger]
        hero.abilities.contains(s) && s.index == slot {
        let s = choose|s: crate::card::AbilitySlot| #[trigger]
            hero.abilities.contains(s) && s.index == slot;
        let e = f(s)->0;
        let k = choose|k: int| 0 <= k < hero.abilities.len() && hero.abilities[k] == s;
        assert(f(hero.abilities[k]) == Some(e));
        picked_holds(hero.abilities, f, e);
        orders_have_parts(cat, hk, w, ui, e);
        assert(card.contains(e));
    }
    at
}

/// A hero class is offered by the building that trains it unless the team has
/// one of that class, at the price on its list; it is dark while the team has as
/// many heroes as its tier carries.
pub proof fn halls_offer_heroes(
    cat: &Catalog,
    hk: &Hotkeys,
    w: &World,
    ui: UiView,
    kind: UnitKind,
    e: EntryView,
)
    requires
        ui.page == CardPage::Orders,
        cat.unit_row(kind).hero,
        card_now(cat, hk, w, ui).contains(e),
        e.action == CmdAction::Train(kind),
    ensures
        works_here(w),
        !any_of_ours(w),
        !crate::orders::has_hero(cat, w, kind),
        cat.building_row(w.sel_buildings@[0].kind).trains@.contains(kind),
        exists|i: int|
            0 <= i < w.hero_prices@.len() && (#[trigger] w.hero_prices@[i]).kind == kind && e.afford
                == Some((w.hero_prices@[i].gold, w.hero_prices@[i].lumber)),
        e.enabled <==> crate::situation::held_heroes(cat, w).len() < (match w.tier {
            TechTier::T1 => 1int,
            TechTier::T2 => 2,
            TechTier::T3 => 3,
        }),
        !e.locked,
{
    let hero = hero_cmds(cat, w, remembered_hero(cat, w, ui.last_hero));
    let b = w.sel_buildings@[0];
    let list = cat.building_row(b.kind).trains@;
    let f = train_tile(cat, hk, hero.train, completed(w));
    ours_are_counted(w);
    crate::orders::held_heroes_are_had(cat, w, kind);
    orders_have_parts(cat, hk, w, ui, e);
    others_are_no_orders(cat, hk, w, ui, e);
    buildings_have_parts(cat, hk, w, ui, e);
    picked_at_holds(list, f, e);
    picked_holds(hero.building_abilities, building_ability_tile(hk), e);
    picked_at_holds(hero.research, research_tile(cat, hk), e);
    if hero.shop is Some {
        picked_at_holds(shelf(), shop_tile(cat, hk, hero.shop->0), e);
    }
    let i = choose|i: int| 0 <= i < list.len() && f(i, #[trigger] list[i]) == Some(e);
    assert(list[i] == kind);
    let p = crate::card::price_of(kind);
    crate::lists::first_some_is_first(w.hero_prices@, p);
    let found = crate::lists::first_some(w.hero_prices@, p)->0;
    let k = choose|k: int| 0 <= k < w.hero_prices@.len() && p(#[trigger] w.hero_prices@[k]) == Some(found);
    assert(w.hero_prices@[k].kind == kind);
}

/// A ladder is offered by a finished building that has it, and ready exactly
/// while nothing is researched there and there is a next rung, at the price of
/// that rung.
pub proof fn forges_offer_their_ladders(
    cat: &Catalog,
    hk: &Hotkeys,
    w: &World,
    ui: UiView,
    kind: ResearchKind,
    e: EntryView,
)
    requires
        ui.page == CardPage::Orders,
        card_now(cat, hk, w, ui).contains(e),
        e.action == CmdAction::Research(kind),
    ensures
        ({
            let b = w.sel_buildings@[0];
            let l = crate::card::ladder(w.ladders@, kind);
            &&& works_here(w)
            &&& !any_of_ours(w)
            &&& cat.building_row(b.kind).researches@.contains(kind)
            &&& !e.locked
            &&& e.enabled <==> b.researching is None && l.next is Some
            &&& e.enabled ==> e.afford == Some((l.next->0.cost_gold, l.next->0.cost_lumber))
            &&& e.enabled && !b.upgrading ==> speech(
                cat,
                w,
                CmdAction::Research(kind),
                ui.last_hero,
            ) == seq![Said::Research { building: b.id, upgrade: kind }]
        }),
{
    let hero = hero_cmds(cat, w, remembered_hero(cat, w, ui.last_hero));
    let b = w.sel_buildings@[0];
    let f = research_tile(cat, hk);
    ours_are_counted(w);
    orders_have_parts(cat, hk, w, ui, e);
    others_are_no_orders(cat, hk, w, ui, e);
    buildings_have_parts(cat, hk, w, ui, e);
    picked_at_holds(
        cat.building_row(b.kind).trains@,
        train_tile(cat, hk, hero.train, completed(w)),
        e,
    );
    picked_holds(hero.building_abilities, building_ability_tile(hk), e);
    picked_at_holds(hero.research, f, e);
    if hero.shop is Some {
        picked_at_holds(shelf(), shop_tile(cat, hk, hero.shop->0), e);
    }
    let i = choose|i: int|
        0 <= i < hero.research.len() && f(i, #[trigger] hero.research[i]) == Some(e);
    let offered = cat.building_row(b.kind).researches@;
    assert(hero.research[i].kind == kind);
    assert(hero.research[i] == crate::card::research_button(
        offered[i],
        w.ladders@,
        b.researching,
    ));
    assert(offered[i] == kind);
}

/// A Shop's shelf holds the five items, each on the key of its place and at its
/// price in gold; one of a higher tier than ours, and everything while there is
/// no hero with room to carry it, is dark.
pub proof fn shops_offer_their_shelf(
    cat: &Catalog,
    hk: &Hotkeys,
    w: &World,
    ui: UiView,
    id: ItemId,
    e: EntryView,
)
    requires
        ui.page == CardPage::Orders,
        card_now(cat, hk, w, ui).contains(e),
        e.action == CmdAction::Buy(id),
    ensures
        works_here(w),
        w.sel_buildings@[0].kind == BuildingKind::Shop,
        !any_of_ours(w),
        e.afford == Some((cat.item_row(id).cost_gold, 0u32)),
        e.enabled ==> cat.item_row(id).tier.rank() <= w.tier.rank(),
        e.enabled ==> exists|i: int|
            crate::orders::is_our_hero(cat, w, i) && has_room_left(#[trigger] w.units@[i].items),
{
    let hero = hero_cmds(cat, w, remembered_hero(cat, w, ui.last_hero));
    let kind = w.sel_buildings@[0].kind;
    ours_are_counted(w);
    orders_have_parts(cat, hk, w, ui, e);
    others_are_no_orders(cat, hk, w, ui, e);
    buildings_have_parts(cat, hk, w, ui, e);
    picked_at_holds(
        cat.building_row(kind).trains@,
        train_tile(cat, hk, hero.train, completed(w)),
        e,
    );
    picked_holds(hero.building_abilities, building_ability_tile(hk), e);
    picked_at_holds(hero.research, research_tile(cat, hk), e);
    assert(shop_tiles(cat, hk, hero.shop).contains(e));
    let s = hero.shop->0;
    picked_at_holds(shelf(), shop_tile(cat, hk, s), e);
    if e.enabled {
        let last = remembered_hero(cat, w, ui.last_hero);
        let buyer = crate::situation::customer(cat, w, last)->0;
        let heroes = crate::situation::own_heroes(cat, w);
        assert(heroes.contains(buyer)) by {
            customers_are_heroes(cat, w, last);
        }
        picked_holds(w.units@, crate::situation::hero_bag(cat), buyer);
        let i = choose|i: int|
            0 <= i < w.units@.len() && crate::situation::hero_bag(cat)(#[trigger] w.units@[i])
                == Some(buyer);
        assert(crate::orders::is_our_hero(cat, w, i));
        assert(has_room_left(w.units@[i].items));
    }
}

/// A hero's bag has an empty slot.
pub open spec fn has_room_left(items: Option<[Option<ItemId>; 2]>) -> bool {
    match items {
        Some(slots) => slots@[0] is None || slots@[1] is None,
        None => true,
    }
}

proof fn customers_are_heroes(cat: &Catalog, w: &World, last: Option<u64>)
    requires
        crate::situation::customer(cat, w, last) is Some,
    ensures
        crate::situation::own_heroes(cat, w).contains(
            crate::situation::customer(cat, w, last)->0,
        ),
{
    let heroes = crate::situation::own_heroes(cat, w);
    lowest_is_one(heroes);
    if let Some(id) = last {
        let g = crate::situation::is_hero(id);
        crate::lists::first_some_is_first(heroes, g);
        if let Some(h) = crate::situation::hero_named(heroes, id) {
            let k = choose|k: int| 0 <= k < heroes.len() && g(#[trigger] heroes[k]) == Some(h);
            assert(heroes[k] == h);
        }
    }
}

proof fn lowest_is_one(heroes: Seq<(u64, [Option<ItemId>; 2])>)
    ensures
        crate::situation::lowest_hero(heroes) is Some ==> heroes.contains(
            crate::situation::lowest_hero(heroes)->0,
        ),
    decreases heroes.len(),
{
    if heroes.len() > 0 {
        let front = heroes.drop_last();
        lowest_is_one(front);
        assert(heroes[heroes.len() - 1] == heroes.last());
        if let Some(h) = crate::situation::lowest_hero(front) {
            let i = choose|i: int| 0 <= i < front.len() && front[i] == h;
            assert(heroes[i] == h);
        }
    }
}

// ---------------------------------------------------------------------------
// The doctrine card
// ---------------------------------------------------------------------------

proof fn doctrine_has_parts(cat: &Catalog, hk: &Hotkeys, w: &World, ui: UiView, e: EntryView)
    requires
        ui.page == CardPage::Doctrine,
    ensures
        ({
            let c = card_of(cat, w, ui.region_radius, ui.region_place);
            card_now(cat, hk, w, ui).contains(e) <==> {
                ||| own_ids(w).len() > 0 && unit_doctrine_tiles(cat, hk, c).contains(e)
                ||| own_ids(w).len() == 0 && c.tmpl.capable && template_tiles(
                    hk,
                    c.tmpl,
                ).contains(e)
                ||| crate::card::territory_tiles(hk, c).contains(e)
                ||| e == mode_tile(hk, "Orders"@)
            }
        }),
{
    let c = card_of(cat, w, ui.region_radius, ui.region_place);
    let n = own_ids(w).len();
    let body = if n > 0 {
        unit_doctrine_tiles(cat, hk, c)
    } else if c.tmpl.capable {
        template_tiles(hk, c.tmpl)
    } else {
        Seq::empty()
    };
    let t = crate::card::territory_tiles(hk, c);
    let back = seq![mode_tile(hk, "Orders"@)];
    two_hold(body, t, e);
    two_hold(body + t, back, e);
    assert(card_now(cat, hk, w, ui) == body + t + back);
    assert(back[0] == mode_tile(hk, "Orders"@));
}

/// The four postures are offered to units of ours and to nobody else, on their
/// own keys, and the one that the squad of the selection holds is lit.
pub proof fn units_are_offered_postures(
    cat: &Catalog,
    hk: &Hotkeys,
    w: &World,
    ui: UiView,
    kind: PostureKind,
)
    requires
        ui.page == CardPage::Doctrine,
    ensures
        ({
            let card = card_now(cat, hk, w, ui);
            let held = squad_posture(w, doc_of(cat, w).squad);
            &&& (exists|e: EntryView| #[trigger]
                card.contains(e) && e.action == CmdAction::SetPosture(kind)) <==> any_of_ours(w)
            &&& forall|e: EntryView| #[trigger]
                card.contains(e) && e.action == CmdAction::SetPosture(kind) ==> {
                    &&& e.enabled && !e.locked
                    &&& e.active <==> held is Some && (match kind {
                        PostureKind::Defend => held->0 is Defend,
                        PostureKind::Push => held->0 is Push,
                        PostureKind::Forage => held->0 is Forage,
                        PostureKind::Escort => held->0 is Escort,
                    })
                    &&& e.key == hk.bound(
                        match kind {
                            PostureKind::Defend => Action::PostureDefend,
                            PostureKind::Push => Action::PosturePush,
                            PostureKind::Forage => Action::PostureForage,
                            PostureKind::Escort => Action::PostureEscort,
                        },
                    )
                }
        }),
{
    ours_are_counted(w);
    let card = card_now(cat, hk, w, ui);
    let c = card_of(cat, w, ui.region_radius, ui.region_place);
    let s = unit_doctrine_tiles(cat, hk, c);
    let auto_casts = crate::card::autocast_tiles(cat, hk, c.doc);
    let tile = crate::card::posture_tile(hk, kind, c);
    assert(s.contains(tile)) by {
        let i = match kind {
            PostureKind::Defend => 0int,
            PostureKind::Push => 1,
            PostureKind::Forage => 2,
            PostureKind::Escort => 3,
        };
        assert(s[i] == tile);
    }
    if any_of_ours(w) {
        doctrine_has_parts(cat, hk, w, ui, tile);
        assert(card.contains(tile));
    }
    assert forall|e: EntryView| #[trigger]
        card.contains(e) && e.action == CmdAction::SetPosture(kind) implies e == tile
        && any_of_ours(w) by {
        doctrine_has_parts(cat, hk, w, ui, e);
        doctrine_parts(cat, hk, c, e);
        let t = crate::card::territory_tiles(hk, c);
        if t.contains(e) {
            let i = choose|i: int| 0 <= i < t.len() && t[i] == e;
            assert(i == 0 || i == 1);
        }
        let i = choose|i: int| 0 <= i < s.len() && s[i] == e;
        if i >= 8 && i < 8 + auto_casts.len() {
            assert(s[i] == auto_casts[i - 8]);
            assert(auto_casts.contains(e));
            picked_at_holds(
                cat.unit_row(c.doc.caster->0).abilities@,
                crate::card::autocast_tile(hk, c.doc),
                e,
            );
        } else if i < 8 {
            assert(i == 0 || i == 1 || i == 2 || i == 3 || i == 4 || i == 5 || i == 6 || i == 7);
        }
    }
}

/// Naming ground is offered to everybody: a mark while one of the eight names is
/// free, lit while it waits for its click, and forgetting while there is
/// anything to forget.
pub proof fn everybody_is_offered_ground(cat: &Catalog, hk: &Hotkeys, w: &World, ui: UiView)
    requires
        ui.page == CardPage::Doctrine,
    ensures
        ({
            let card = card_now(cat, hk, w, ui);
            &&& exists|e: EntryView| #[trigger]
                card.contains(e) && e.action == CmdAction::MarkRegion
            &&& exists|e: EntryView| #[trigger]
                card.contains(e) && e.action == CmdAction::ClearRegions
            &&& forall|e: EntryView| #[trigger]
                card.contains(e) && e.action == CmdAction::MarkRegion ==> e.active
                    == ui.region_place && (e.enabled <==> exists|k: int|
                    1 <= k <= 8 && !#[trigger] borne(w.regions@, k)) && e.key == hk.bound(
                    Action::MarkRegion,
                )
            &&& forall|e: EntryView| #[trigger]
                card.contains(e) && e.action == CmdAction::ClearRegions ==> (e.enabled
                    <==> w.regions@.len() > 0) && e.key == hk.bound(Action::ClearRegions)
        }),
{
    let card = card_now(cat, hk, w, ui);
    let c = card_of(cat, w, ui.region_radius, ui.region_place);
    let t = crate::card::territory_tiles(hk, c);
    assert(w.regions@.len() == w.regions.len());
    doctrine_has_parts(cat, hk, w, ui, t[0]);
    doctrine_has_parts(cat, hk, w, ui, t[1]);
    assert(t.contains(t[0]) && t.contains(t[1]));
    assert(card.contains(t[0]) && card.contains(t[1]));
    lowest_mark_is_lowest(w.regions@, 1);
    assert forall|k: int| #[trigger] borne(w.regions@, k) == !mark_free(w.regions@, k) by {
        if !mark_free(w.regions@, k) {
            let i = choose|i: int|
                0 <= i < w.regions@.len() && (#[trigger] w.regions@[i]).key@ == mark_text(k);
            assert(w.regions@[i].key@ == "mark "@ + dec(k as nat));
        }
    }
    if let Some(n) = lowest_mark(w.regions@, 1) {
        assert(mark_free(w.regions@, n as int));
        assert(!borne(w.regions@, n as int));
    }
    assert forall|e: EntryView| #[trigger]
        card.contains(e) && (e.action == CmdAction::MarkRegion || e.action
            == CmdAction::ClearRegions) implies e == (if e.action == CmdAction::MarkRegion {
        t[0]
    } else {
        t[1]
    }) by {
        doctrine_has_parts(cat, hk, w, ui, e);
        doctrine_parts(cat, hk, c, e);
        let i = choose|i: int| 0 <= i < t.len() && t[i] == e;
        assert(i == 0 || i == 1);
    }
}

/// A quick toggle is lit where at least half of our selected units have what it
/// is about, and somebody does.
pub proof fn toggles_are_lit_by_half(cat: &Catalog, hk: &Hotkeys, w: &World, ui: UiView) -> (at: Seq<
    Seq<int>,
>)
    requires
        ui.page == CardPage::Orders,
    ensures
        at.len() == 3,
        ours_who(w, at[0], |u: SelUnit| true),
        ours_who(w, at[1], |u: SelUnit| u.leash is Some),
        ours_who(w, at[2], |u: SelUnit| u.retreat is Some),
        ({
            let card = card_now(cat, hk, w, ui);
            &&& (exists|e: EntryView| #[trigger]
                card.contains(e) && e.action == CmdAction::ToggleGuard) <==> any_of_ours(w)
            &&& (exists|e: EntryView| #[trigger]
                card.contains(e) && e.action == CmdAction::ToggleFallback) <==> any_of_ours(w)
            &&& forall|e: EntryView| #[trigger]
                card.contains(e) && e.action == CmdAction::ToggleGuard ==> e.active == (at[1].len()
                    > 0 && 2 * at[1].len() >= at[0].len()) && e.key == hk.bound(Action::QuickGuard)
            &&& forall|e: EntryView| #[trigger]
                card.contains(e) && e.action == CmdAction::ToggleFallback ==> e.active == (
                at[2].len() > 0 && 2 * at[2].len() >= at[0].len()) && e.key == hk.bound(
                    Action::QuickFallback,
                )
        }),
{
    ours_are_counted(w);
    let counts = tallies_are_true(cat, w);
    let card = card_now(cat, hk, w, ui);
    let c = card_of(cat, w, ui.region_radius, ui.region_place);
    let t = toggle_tiles(hk, own_ids(w).len(), c.doc);
    if any_of_ours(w) {
        orders_have_parts(cat, hk, w, ui, t[0]);
        orders_have_parts(cat, hk, w, ui, t[1]);
        assert(t.contains(t[0]) && t.contains(t[1]));
        assert(card.contains(t[0]) && card.contains(t[1]));
    }
    assert forall|e: EntryView| #[trigger]
        card.contains(e) && (e.action == CmdAction::ToggleGuard || e.action
            == CmdAction::ToggleFallback) implies any_of_ours(w) && e == (if e.action
        == CmdAction::ToggleGuard {
        t[0]
    } else {
        t[1]
    }) by {
        orders_have_parts(cat, hk, w, ui, e);
        others_are_no_orders(cat, hk, w, ui, e);
        let i = choose|i: int| 0 <= i < t.len() && t[i] == e;
        assert(i == 0 || i == 1 || i == 2 || i == 3);
    }
    seq![counts[0], counts[2], counts[3]]
}

} // verus!
