//! One key, one button: under a sound registry no card that can be drawn has
//! two tiles on one key, and no tile sits on a key that is on no card.

use vstd::prelude::*;

use crate::card::{
    ability_tile, ability_tiles, autocast_tile, autocast_tiles, build_tiles,
    building_ability_tile, building_tiles, doctrine_card, item_tile, item_tiles, mode_tile,
    order_tiles, orders_card, research_tile, shelf, shop_tile, shop_tiles, slot_at,
    template_tiles, territory_tiles, toggle_tiles, train_tile, train_tiles, unit_doctrine_tiles,
    unlocked_slots, upgrade_tiles, AbilitySlot, AbilityState, CardPage, DoctrineCard, EntryView,
    HeroCmdsView,
};
use crate::catalog::{AbilityDef, BuildingKind, Catalog, ItemId};
use crate::command::{by_key, card_now, fired};
use crate::hotkeys::{Action, Hotkeys, Key, CANCEL, IDLE_WORKER, NEXT_CARD_PAGE};
use crate::lists::{only_if, picked, picked_at};
use crate::situation::{
    casters, hero_cmds, own_caster, own_id, own_ids, remembered_hero, worker_selected, World,
};
use crate::ui_state::UiView;

verus! {

/// A place in the registry: a bound action, or a button of the build card.
pub enum Place {
    Bound(Action),
    Build(usize),
}

/// Which part of a card a place belongs to.
pub open spec fn part(p: Place) -> int {
    match p {
        Place::Build(_) => 1,
        Place::Bound(a) => match a {
            Action::AttackMove => 0,
            Action::Stop => 0,
            Action::HeroAbility(_) => 2,
            Action::ItemSlot(_) => 3,
            Action::TrainSlot(_) => 4,
            Action::BuildingAbility(_) => 5,
            Action::TierUp => 6,
            Action::ShopSlot(_) => 7,
            Action::QuickGuard => 8,
            Action::QuickFallback => 8,
            Action::QuickPriority => 8,
            Action::QuickAutoCast => 8,
            Action::ModeToggle => 9,
            Action::PostureDefend => 10,
            Action::PosturePush => 10,
            Action::PostureForage => 10,
            Action::PostureEscort => 10,
            Action::StandDown => 10,
            Action::CycleFallback => 10,
            Action::CycleLeash => 10,
            Action::CyclePriority => 10,
            Action::AutoCastSlot(_) => 11,
            Action::HomeGuard => 12,
            Action::TemplateSquad => 13,
            Action::TemplateFallback => 13,
            Action::TemplatePriority => 13,
            Action::TemplateAutoCast => 13,
            Action::TemplateClear => 13,
            Action::MarkRegion => 14,
            Action::ClearRegions => 14,
            Action::NudgeFallbackDown => 15,
            Action::NudgeFallbackUp => 15,
            Action::NudgeLeashDown => 15,
            Action::NudgeLeashUp => 15,
            Action::NudgeRegionDown => 15,
            Action::NudgeRegionUp => 15,
        },
    }
}

/// The kinds of card.
pub enum Deck {
    Units,
    Producer,
    Seller,
    UnitDoctrine,
    TemplateDoctrine,
}

/// Whether a place can be on a kind of card. The nudges are live beside every
/// one of them.
pub open spec fn on_deck(deck: Deck, p: Place) -> bool {
    let n = part(p);
    n == 15 || n == 9 || match deck {
        Deck::Units => 0 <= n <= 3 || n == 8,
        Deck::Producer => 4 <= n <= 6,
        Deck::Seller => 5 <= n <= 7,
        Deck::UnitDoctrine => 10 <= n <= 12 || n == 14,
        Deck::TemplateDoctrine => n == 13 || n == 14,
    }
}

/// The parts that hold a fixed set of buttons, each of which has to be bound.
pub open spec fn fixed(n: int) -> bool {
    n == 0 || n == 6 || n == 8 || n == 9 || n == 10 || 12 <= n
}

impl Hotkeys {
    /// The key at a place of the registry.
    pub open spec fn at(&self, p: Place) -> Option<Key> {
        match p {
            Place::Bound(a) => self.key_of(a),
            Place::Build(i) => if i < self.builds@.len() {
                Some(self.builds@[i as int].1)
            } else {
                None
            },
        }
    }

    /// No two places that can be on one card share a key.
    pub open spec fn clear_on(&self, deck: Deck) -> bool {
        forall|a: Place, b: Place|
            on_deck(deck, a) && on_deck(deck, b) && a != b && #[trigger] self.at(a) is Some
                && #[trigger] self.at(b) is Some ==> self.at(a) != self.at(b)
    }

    /// A sound registry: every fixed button is bound, no two places that can be
    /// on one card share a key, and nothing sits on the three keys that are on
    /// no card.
    pub open spec fn sound(&self) -> bool {
        &&& forall|a: Action| fixed(part(Place::Bound(a))) ==> #[trigger] self.key_of(a) is Some
        &&& forall|deck: Deck| #[trigger] self.clear_on(deck)
        &&& forall|p: Place|
            #[trigger] self.at(p) is Some ==> self.at(p) != Some(CANCEL) && self.at(p) != Some(
                IDLE_WORKER,
            ) && self.at(p) != Some(NEXT_CARD_PAGE)
    }
}

/// A building spends its rungs on one thing: it trains, researches or sells.
pub open spec fn rungs_spent_once(cat: &Catalog) -> bool {
    forall|kind: BuildingKind|
        {
            let row = #[trigger] cat.building_row(kind);
            &&& row.trains@.len() == 0 || row.researches@.len() == 0
            &&& kind == BuildingKind::Shop ==> row.trains@.len() == 0 && row.researches@.len() == 0
        }
}

/// Every tile sits on the key of a place of its own.
pub open spec fn placed(
    hk: &Hotkeys,
    deck: Deck,
    tiles: Seq<EntryView>,
    places: Seq<Place>,
    lo: int,
    hi: int,
) -> bool {
    &&& places.len() == tiles.len()
    &&& forall|i: int|
        0 <= i < places.len() ==> on_deck(deck, #[trigger] places[i]) && lo <= part(places[i])
            <= hi && part(places[i]) != 15 && hk.at(places[i]) == Some(tiles[i].key)
    &&& forall|i: int, j: int|
        0 <= i < places.len() && 0 <= j < places.len() && i != j ==> #[trigger] places[i]
            != #[trigger] places[j]
}

/// A list of tiles that all come from places of their own, within a range of
/// parts.
pub open spec fn neat(hk: &Hotkeys, deck: Deck, tiles: Seq<EntryView>, lo: int, hi: int) -> bool {
    exists|places: Seq<Place>| placed(hk, deck, tiles, places, lo, hi)
}

proof fn nothing_is_neat(hk: &Hotkeys, deck: Deck, lo: int, hi: int)
    ensures
        neat(hk, deck, Seq::empty(), lo, hi),
{
    assert(placed(hk, deck, Seq::empty(), Seq::empty(), lo, hi));
}

proof fn both_are_neat(
    hk: &Hotkeys,
    deck: Deck,
    a: Seq<EntryView>,
    b: Seq<EntryView>,
    alo: int,
    ahi: int,
    blo: int,
    bhi: int,
    lo: int,
    hi: int,
)
    requires
        neat(hk, deck, a, alo, ahi),
        neat(hk, deck, b, blo, bhi),
        ahi < blo || bhi < alo,
        lo <= alo,
        lo <= blo,
        ahi <= hi,
        bhi <= hi,
    ensures
        neat(hk, deck, a + b, lo, hi),
{
    let p = choose|p: Seq<Place>| placed(hk, deck, a, p, alo, ahi);
    let q = choose|q: Seq<Place>| placed(hk, deck, b, q, blo, bhi);
    let r = p + q;
    assert forall|i: int| 0 <= i < r.len() implies on_deck(deck, #[trigger] r[i]) && lo <= part(
        r[i],
    ) <= hi && part(r[i]) != 15 && hk.at(r[i]) == Some((a + b)[i].key) by {
        if i < p.len() {
            assert(r[i] == p[i]);
        } else {
            assert(r[i] == q[i - p.len()]);
        }
    }
    assert forall|i: int, j: int| 0 <= i < r.len() && 0 <= j < r.len() && i != j implies
        #[trigger] r[i] != #[trigger] r[j] by {
        let pi = if i < p.len() {
            p[i]
        } else {
            q[i - p.len()]
        };
        let pj = if j < p.len() {
            p[j]
        } else {
            q[j - p.len()]
        };
        assert(r[i] == pi && r[j] == pj);
    }
    assert(placed(hk, deck, a + b, r, lo, hi));
}

/// The tiles of a list that has one place per position.
proof fn rungs_are_neat<T>(
    hk: &Hotkeys,
    deck: Deck,
    s: Seq<T>,
    f: spec_fn(int, T) -> Option<EntryView>,
    name: spec_fn(int) -> Place,
    n: int,
) -> (places: Seq<Place>)
    requires
        forall|i: int|
            0 <= i < s.len() ==> on_deck(deck, #[trigger] name(i)) && part(name(i)) == n && n != 15,
        forall|i: int, j: int|
            0 <= i < s.len() && 0 <= j < s.len() && i != j ==> #[trigger] name(i)
                != #[trigger] name(j),
        forall|i: int|
            0 <= i < s.len() && #[trigger] f(i, s[i]) is Some ==> hk.at(name(i)) == Some(
                f(i, s[i])->0.key,
            ),
    ensures
        placed(hk, deck, picked_at(s, f), places, n, n),
        forall|k: int|
            0 <= k < places.len() ==> exists|j: int|
                0 <= j < s.len() && #[trigger] name(j) == #[trigger] places[k],
    decreases s.len(),
{
    if s.len() == 0 {
        Seq::empty()
    } else {
        let m = s.len() - 1;
        assert forall|i: int| 0 <= i < m && #[trigger] f(i, s.drop_last()[i]) is Some implies hk.at(
            name(i),
        ) == Some(f(i, s.drop_last()[i])->0.key) by {
            assert(s.drop_last()[i] == s[i]);
            assert(f(i, s[i]) is Some);
        }
        let before = rungs_are_neat(hk, deck, s.drop_last(), f, name, n);
        match f(m, s.last()) {
            None => before,
            Some(tile) => {
                let places = before.push(name(m));
                let tiles = picked_at(s.drop_last(), f).push(tile);
                assert(f(m, s[m]) is Some);
                assert forall|i: int, j: int|
                    0 <= i < places.len() && 0 <= j < places.len() && i != j implies
                    #[trigger] places[i] != #[trigger] places[j] by {
                    if i < before.len() {
                        let k = choose|k: int| 0 <= k < m && #[trigger] name(k) == before[i];
                        assert(name(k) != name(m));
                        assert(places[i] == before[i]);
                    }
                    if j < before.len() {
                        let k = choose|k: int| 0 <= k < m && #[trigger] name(k) == before[j];
                        assert(name(k) != name(m));
                        assert(places[j] == before[j]);
                    }
                }
                assert forall|k: int| 0 <= k < places.len() implies exists|j: int|
                    0 <= j < s.len() && #[trigger] name(j) == #[trigger] places[k] by {
                    if k < before.len() {
                        let j = choose|j: int| 0 <= j < m && #[trigger] name(j) == before[k];
                        assert(name(j) == places[k]);
                    } else {
                        assert(name(m) == places[k]);
                    }
                }
                assert(placed(hk, deck, tiles, places, n, n));
                places
            },
        }
    }
}

/// The tiles of a list of ability slots, which are in slot order.
proof fn slots_are_neat(
    hk: &Hotkeys,
    deck: Deck,
    s: Seq<AbilitySlot>,
    f: spec_fn(AbilitySlot) -> Option<EntryView>,
    name: spec_fn(usize) -> Place,
    n: int,
) -> (places: Seq<Place>)
    requires
        forall|i: usize| on_deck(deck, #[trigger] name(i)) && part(name(i)) == n && n != 15,
        forall|i: usize, j: usize| i != j ==> #[trigger] name(i) != #[trigger] name(j),
        forall|i: int, j: int| 0 <= i < j < s.len() ==> s[i].index < s[j].index,
        forall|x: AbilitySlot| #[trigger]
            f(x) is Some ==> hk.at(name(x.index)) == Some(f(x)->0.key),
    ensures
        placed(hk, deck, picked(s, f), places, n, n),
        forall|k: int|
            0 <= k < places.len() ==> exists|j: int|
                0 <= j < s.len() && #[trigger] name(s[j].index) == #[trigger] places[k],
    decreases s.len(),
{
    if s.len() == 0 {
        Seq::empty()
    } else {
        let m = s.len() - 1;
        assert forall|i: int, j: int| 0 <= i < j < m implies s.drop_last()[i].index
            < s.drop_last()[j].index by {
            assert(s.drop_last()[i] == s[i] && s.drop_last()[j] == s[j]);
        }
        let before = slots_are_neat(hk, deck, s.drop_last(), f, name, n);
        assert forall|k: int| 0 <= k < before.len() implies (exists|j: int|
            0 <= j < m && #[trigger] name(s[j].index) == #[trigger] before[k]) by {
            let j = choose|j: int|
                0 <= j < m && #[trigger] name(s.drop_last()[j].index) == before[k];
            assert(s.drop_last()[j] == s[j]);
            assert(name(s[j].index) == before[k]);
        }
        match f(s.last()) {
            None => {
                assert forall|k: int| 0 <= k < before.len() implies exists|j: int|
                    0 <= j < s.len() && #[trigger] name(s[j].index) == #[trigger] before[k] by {
                    let j = choose|j: int| 0 <= j < m && #[trigger] name(s[j].index) == before[k];
                    assert(name(s[j].index) == before[k]);
                }
                before
            },
            Some(tile) => {
                let last = name(s[m].index);
                let places = before.push(last);
                let tiles = picked(s.drop_last(), f).push(tile);
                assert forall|i: int, j: int|
                    0 <= i < places.len() && 0 <= j < places.len() && i != j implies
                    #[trigger] places[i] != #[trigger] places[j] by {
                    if i < before.len() {
                        let k = choose|k: int| 0 <= k < m && #[trigger] name(s[k].index) == before[i];
                        assert(s[k].index < s[m].index);
                        assert(name(s[k].index) != last);
                        assert(places[i] == before[i]);
                    }
                    if j < before.len() {
                        let k = choose|k: int| 0 <= k < m && #[trigger] name(s[k].index) == before[j];
                        assert(s[k].index < s[m].index);
                        assert(name(s[k].index) != last);
                        assert(places[j] == before[j]);
                    }
                }
                assert forall|k: int| 0 <= k < places.len() implies exists|j: int|
                    0 <= j < s.len() && #[trigger] name(s[j].index) == #[trigger] places[k] by {
                    if k < before.len() {
                        let j = choose|j: int| 0 <= j < m && #[trigger] name(s[j].index) == before[k];
                        assert(name(s[j].index) == places[k]);
                    } else {
                        assert(name(s[m].index) == places[k]);
                    }
                }
                assert(placed(hk, deck, tiles, places, n, n));
                places
            },
        }
    }
}

/// Unlocked slots come in slot order.
proof fn slots_in_order(list: Seq<AbilityDef>, states: Seq<AbilityState>)
    requires
        states.len() <= usize::MAX,
    ensures
        ({
            let s = unlocked_slots(list, states);
            &&& forall|i: int, j: int| 0 <= i < j < s.len() ==> s[i].index < s[j].index
            &&& forall|i: int| 0 <= i < s.len() ==> (#[trigger] s[i]).index < states.len()
        }),
    decreases states.len(),
{
    if states.len() > 0 {
        slots_in_order(list, states.drop_last());
        let before = unlocked_slots(list, states.drop_last());
        let s = unlocked_slots(list, states);
        match slot_at(list)(states.len() - 1, states.last()) {
            None => {
                assert(s == before);
            },
            Some(x) => {
                assert(s == before.push(x));
                assert forall|i: int, j: int| 0 <= i < j < s.len() implies s[i].index
                    < s[j].index by {
                    assert(s[i] == before[i]);
                    if j < before.len() {
                        assert(s[j] == before[j]);
                    }
                }
            },
        }
    }
}

// ---------------------------------------------------------------------------
// The parts of a card
// ---------------------------------------------------------------------------

pub open spec fn hero_place() -> spec_fn(usize) -> Place {
    |i: usize| Place::Bound(Action::HeroAbility(i))
}

pub open spec fn hall_place() -> spec_fn(usize) -> Place {
    |i: usize| Place::Bound(Action::BuildingAbility(i))
}

pub open spec fn train_place() -> spec_fn(int) -> Place {
    |i: int| Place::Bound(Action::TrainSlot(i as usize))
}

pub open spec fn shop_place() -> spec_fn(int) -> Place {
    |i: int| Place::Bound(Action::ShopSlot(i as usize))
}

pub open spec fn cast_place() -> spec_fn(int) -> Place {
    |i: int| Place::Bound(Action::AutoCastSlot(i as usize))
}

proof fn one_is_neat(hk: &Hotkeys, deck: Deck, tile: EntryView, a: Action)
    requires
        hk.key_of(a) == Some(tile.key),
        on_deck(deck, Place::Bound(a)),
        part(Place::Bound(a)) != 15,
    ensures
        neat(hk, deck, seq![tile], part(Place::Bound(a)), part(Place::Bound(a))),
{
    let n = part(Place::Bound(a));
    assert(placed(hk, deck, seq![tile], seq![Place::Bound(a)], n, n));
}

proof fn orders_are_neat(hk: &Hotkeys, own_units: nat)
    requires
        hk.sound(),
    ensures
        neat(hk, Deck::Units, order_tiles(hk, own_units), 0, 0),
{
    if own_units > 0 {
        let places = seq![Place::Bound(Action::AttackMove), Place::Bound(Action::Stop)];
        assert(hk.key_of(Action::AttackMove) is Some && hk.key_of(Action::Stop) is Some);
        assert(placed(hk, Deck::Units, order_tiles(hk, own_units), places, 0, 0));
    } else {
        nothing_is_neat(hk, Deck::Units, 0, 0);
    }
}

proof fn builds_are_neat(cat: &Catalog, hk: &Hotkeys, completed: Seq<BuildingKind>, worker: bool)
    ensures
        neat(hk, Deck::Units, build_tiles(cat, hk, completed, worker), 1, 1),
{
    if worker {
        let n = hk.builds.len();
        let places = Seq::new(n as nat, |i: int| Place::Build(i as usize));
        assert(placed(hk, Deck::Units, build_tiles(cat, hk, completed, worker), places, 1, 1));
    } else {
        nothing_is_neat(hk, Deck::Units, 1, 1);
    }
}

proof fn items_are_neat(hk: &Hotkeys, items: [Option<ItemId>; 2])
    ensures
        neat(hk, Deck::Units, item_tiles(hk, items), 3, 3),
{
    let p0 = Place::Bound(Action::ItemSlot(0));
    let p1 = Place::Bound(Action::ItemSlot(1));
    let a = item_tile(hk, 0, items@[0]);
    let b = item_tile(hk, 1, items@[1]);
    let pa = if a.len() > 0 {
        seq![p0]
    } else {
        Seq::empty()
    };
    let pb = if b.len() > 0 {
        seq![p1]
    } else {
        Seq::empty()
    };
    assert(placed(hk, Deck::Units, item_tiles(hk, items), pa + pb, 3, 3));
}

proof fn toggles_are_neat(hk: &Hotkeys, own_units: nat, card: DoctrineCard)
    requires
        hk.sound(),
    ensures
        neat(hk, Deck::Units, toggle_tiles(hk, own_units, card.doc), 8, 8),
{
    if own_units > 0 {
        let three = seq![
            Place::Bound(Action::QuickGuard),
            Place::Bound(Action::QuickFallback),
            Place::Bound(Action::QuickPriority),
        ];
        assert(hk.key_of(Action::QuickGuard) is Some && hk.key_of(Action::QuickFallback) is Some
            && hk.key_of(Action::QuickPriority) is Some && hk.key_of(
            Action::QuickAutoCast,
        ) is Some);
        let places = three + only_if(card.doc.casters > 0, Place::Bound(Action::QuickAutoCast));
        assert(placed(hk, Deck::Units, toggle_tiles(hk, own_units, card.doc), places, 8, 8));
    } else {
        nothing_is_neat(hk, Deck::Units, 8, 8);
    }
}

proof fn mode_is_neat(hk: &Hotkeys, deck: Deck, b: bool, label: Seq<char>)
    requires
        hk.sound(),
    ensures
        neat(hk, deck, only_if(b, mode_tile(hk, label)), 9, 9),
{
    if b {
        assert(hk.key_of(Action::ModeToggle) is Some);
        one_is_neat(hk, deck, mode_tile(hk, label), Action::ModeToggle);
    } else {
        nothing_is_neat(hk, deck, 9, 9);
    }
}

/// A card of units is neat.
proof fn unit_cards_are_neat(
    cat: &Catalog,
    hk: &Hotkeys,
    own_units: nat,
    worker: bool,
    single: Option<(BuildingKind, bool)>,
    hero: HeroCmdsView,
    card: DoctrineCard,
    completed: Seq<BuildingKind>,
)
    requires
        hk.sound(),
        own_units > 0,
        forall|i: int, j: int|
            0 <= i < j < hero.abilities.len() ==> hero.abilities[i].index
                < hero.abilities[j].index,
    ensures
        neat(
            hk,
            Deck::Units,
            orders_card(cat, hk, own_units, worker, single, hero, card, completed),
            0,
            9,
        ),
{
    let d = Deck::Units;
    let t0 = order_tiles(hk, own_units);
    let t1 = build_tiles(cat, hk, completed, worker);
    let t2 = ability_tiles(hk, hero.abilities);
    let t3 = item_tiles(hk, hero.items);
    let none = Seq::<EntryView>::empty();
    let t8 = toggle_tiles(hk, own_units, card.doc);
    let t9 = only_if(own_units > 0 || card.tmpl.capable, mode_tile(hk, "Doctrine"@));
    orders_are_neat(hk, own_units);
    builds_are_neat(cat, hk, completed, worker);
    let p = slots_are_neat(hk, d, hero.abilities, ability_tile(hk), hero_place(), 2);
    items_are_neat(hk, hero.items);
    nothing_is_neat(hk, d, 4, 7);
    toggles_are_neat(hk, own_units, card);
    mode_is_neat(hk, d, own_units > 0 || card.tmpl.capable, "Doctrine"@);
    both_are_neat(hk, d, t0, t1, 0, 0, 1, 1, 0, 1);
    both_are_neat(hk, d, t0 + t1, t2, 0, 1, 2, 2, 0, 2);
    both_are_neat(hk, d, t0 + t1 + t2, t3, 0, 2, 3, 3, 0, 3);
    both_are_neat(hk, d, t0 + t1 + t2 + t3, none, 0, 3, 4, 7, 0, 7);
    both_are_neat(hk, d, t0 + t1 + t2 + t3 + none, t8, 0, 7, 8, 8, 0, 8);
    both_are_neat(hk, d, t0 + t1 + t2 + t3 + none + t8, t9, 0, 8, 9, 9, 0, 9);
}

/// What a finished building offers is neat.
proof fn building_offers_are_neat(
    cat: &Catalog,
    hk: &Hotkeys,
    kind: BuildingKind,
    hero: HeroCmdsView,
    completed: Seq<BuildingKind>,
) -> (deck: Deck)
    requires
        hk.sound(),
        rungs_spent_once(cat),
        hero.research.len() <= cat.building_row(kind).researches@.len(),
        hero.shop is Some ==> kind == BuildingKind::Shop,
        forall|i: int, j: int|
            0 <= i < j < hero.building_abilities.len() ==> hero.building_abilities[i].index
                < hero.building_abilities[j].index,
    ensures
        deck is Producer || deck is Seller,
        neat(hk, deck, building_tiles(cat, hk, kind, hero, completed), 4, 7),
{
    let row = cat.building_row(kind);
    let d = if hero.shop is Some {
        Deck::Seller
    } else {
        Deck::Producer
    };
    let train = train_tiles(cat, hk, kind, hero.train, completed);
    let cast = picked(hero.building_abilities, building_ability_tile(hk));
    let research = picked_at(hero.research, research_tile(cat, hk));
    let up = upgrade_tiles(hk, hero.upgrade);
    let shop = shop_tiles(cat, hk, hero.shop);
    assert(row.trains.len() == row.trains@.len());
    assert(row.researches.len() == row.researches@.len());
    if row.trains@.len() > 0 {
        let p = rungs_are_neat(
            hk,
            d,
            row.trains@,
            train_tile(cat, hk, hero.train, completed),
            train_place(),
            4,
        );
    } else {
        assert(train =~= Seq::empty());
        nothing_is_neat(hk, d, 4, 4);
    }
    if hero.research.len() > 0 {
        let p = rungs_are_neat(hk, d, hero.research, research_tile(cat, hk), train_place(), 4);
        assert(train =~= Seq::empty());
    } else {
        assert(research =~= Seq::empty());
        nothing_is_neat(hk, d, 4, 4);
    }
    let p = slots_are_neat(
        hk,
        d,
        hero.building_abilities,
        building_ability_tile(hk),
        hall_place(),
        5,
    );
    if hero.upgrade is Some {
        assert(hk.key_of(Action::TierUp) is Some);
        one_is_neat(hk, d, up[0], Action::TierUp);
        assert(up =~= seq![up[0]]);
    } else {
        nothing_is_neat(hk, d, 6, 6);
    }
    match hero.shop {
        Some(s) => {
            let p = rungs_are_neat(hk, d, shelf(), shop_tile(cat, hk, s), shop_place(), 7);
        },
        None => {
            nothing_is_neat(hk, d, 7, 7);
        },
    }
    if hero.research.len() > 0 {
        assert(train + cast + research =~= cast + research);
        both_are_neat(hk, d, cast, research, 5, 5, 4, 4, 4, 5);
    } else {
        assert(train + cast + research =~= train + cast);
        both_are_neat(hk, d, train, cast, 4, 4, 5, 5, 4, 5);
    }
    both_are_neat(hk, d, train + cast + research, up, 4, 5, 6, 6, 4, 6);
    both_are_neat(hk, d, train + cast + research + up, shop, 4, 6, 7, 7, 4, 7);
    d
}

/// A card of a building, or of nothing, is neat.
proof fn building_cards_are_neat(
    cat: &Catalog,
    hk: &Hotkeys,
    single: Option<(BuildingKind, bool)>,
    hero: HeroCmdsView,
    card: DoctrineCard,
    completed: Seq<BuildingKind>,
) -> (deck: Deck)
    requires
        hk.sound(),
        rungs_spent_once(cat),
        hero.abilities.len() == 0,
        hero.items@[0] is None,
        hero.items@[1] is None,
        match single {
            Some((kind, _)) => {
                &&& hero.research.len() <= cat.building_row(kind).researches@.len()
                &&& hero.shop is Some ==> kind == BuildingKind::Shop
            },
            None => true,
        },
        forall|i: int, j: int|
            0 <= i < j < hero.building_abilities.len() ==> hero.building_abilities[i].index
                < hero.building_abilities[j].index,
    ensures
        neat(hk, deck, orders_card(cat, hk, 0, false, single, hero, card, completed), 4, 9),
{
    let whole = orders_card(cat, hk, 0, false, single, hero, card, completed);
    let tail = only_if(card.tmpl.capable, mode_tile(hk, "Doctrine"@));
    assert(ability_tiles(hk, hero.abilities) =~= Seq::empty());
    assert(item_tiles(hk, hero.items) =~= Seq::empty());
    match single {
        Some((kind, true)) => {
            let d = building_offers_are_neat(cat, hk, kind, hero, completed);
            let offers = building_tiles(cat, hk, kind, hero, completed);
            mode_is_neat(hk, d, card.tmpl.capable, "Doctrine"@);
            both_are_neat(hk, d, offers, tail, 4, 7, 9, 9, 4, 9);
            assert(whole =~= offers + tail);
            d
        },
        _ => {
            let d = Deck::Producer;
            mode_is_neat(hk, d, card.tmpl.capable, "Doctrine"@);
            nothing_is_neat(hk, d, 4, 4);
            both_are_neat(hk, d, Seq::empty(), tail, 4, 4, 9, 9, 4, 9);
            assert(whole =~= Seq::empty() + tail);
            d
        },
    }
}

proof fn territory_is_neat(hk: &Hotkeys, deck: Deck, card: DoctrineCard)
    requires
        hk.sound(),
        deck is UnitDoctrine || deck is TemplateDoctrine,
    ensures
        neat(hk, deck, territory_tiles(hk, card), 14, 14),
{
    let places = seq![Place::Bound(Action::MarkRegion), Place::Bound(Action::ClearRegions)];
    assert(hk.key_of(Action::MarkRegion) is Some && hk.key_of(Action::ClearRegions) is Some);
    assert(placed(hk, deck, territory_tiles(hk, card), places, 14, 14));
}

proof fn template_is_neat(hk: &Hotkeys, card: DoctrineCard)
    requires
        hk.sound(),
    ensures
        neat(hk, Deck::TemplateDoctrine, template_tiles(hk, card.tmpl), 13, 13),
{
    let places = seq![
        Place::Bound(Action::TemplateSquad),
        Place::Bound(Action::TemplateFallback),
        Place::Bound(Action::TemplatePriority),
        Place::Bound(Action::TemplateAutoCast),
        Place::Bound(Action::TemplateClear),
    ];
    assert(hk.key_of(Action::TemplateSquad) is Some && hk.key_of(Action::TemplateFallback) is Some
        && hk.key_of(Action::TemplatePriority) is Some && hk.key_of(
        Action::TemplateAutoCast,
    ) is Some && hk.key_of(Action::TemplateClear) is Some);
    assert(placed(
        hk,
        Deck::TemplateDoctrine,
        template_tiles(hk, card.tmpl),
        places,
        13,
        13,
    ));
}

proof fn unit_doctrine_is_neat(cat: &Catalog, hk: &Hotkeys, card: DoctrineCard)
    requires
        hk.sound(),
    ensures
        neat(hk, Deck::UnitDoctrine, unit_doctrine_tiles(cat, hk, card), 10, 12),
{
    let d = Deck::UnitDoctrine;
    let whole = unit_doctrine_tiles(cat, hk, card);
    let auto = autocast_tiles(cat, hk, card.doc);
    let first = whole.take(8);
    let places = seq![
        Place::Bound(Action::PostureDefend),
        Place::Bound(Action::PosturePush),
        Place::Bound(Action::PostureForage),
        Place::Bound(Action::PostureEscort),
        Place::Bound(Action::StandDown),
        Place::Bound(Action::CycleFallback),
        Place::Bound(Action::CycleLeash),
        Place::Bound(Action::CyclePriority),
    ];
    assert(hk.key_of(Action::PostureDefend) is Some && hk.key_of(Action::PosturePush) is Some
        && hk.key_of(Action::PostureForage) is Some && hk.key_of(Action::PostureEscort) is Some
        && hk.key_of(Action::StandDown) is Some && hk.key_of(Action::CycleFallback) is Some
        && hk.key_of(Action::CycleLeash) is Some && hk.key_of(Action::CyclePriority) is Some
        && hk.key_of(Action::HomeGuard) is Some);
    assert(placed(hk, d, first, places, 10, 10));
    match card.doc.caster {
        Some(kind) => {
            let list = cat.unit_row(kind).abilities@;
            assert(cat.unit_row(kind).abilities.len() == list.len());
            let p = rungs_are_neat(hk, d, list, autocast_tile(hk, card.doc), cast_place(), 11);
        },
        None => {
            nothing_is_neat(hk, d, 11, 11);
        },
    }
    let last = whole.last();
    one_is_neat(hk, d, last, Action::HomeGuard);
    both_are_neat(hk, d, first, auto, 10, 10, 11, 11, 10, 11);
    both_are_neat(hk, d, first + auto, seq![last], 10, 11, 12, 12, 10, 12);
    assert(whole =~= first + auto + seq![last]);
}

proof fn doctrine_cards_are_neat(cat: &Catalog, hk: &Hotkeys, own_units: nat, card: DoctrineCard) -> (
deck: Deck)
    requires
        hk.sound(),
    ensures
        neat(hk, deck, doctrine_card(cat, hk, own_units, card), 9, 14),
{
    let land = territory_tiles(hk, card);
    let tail = only_if(true, mode_tile(hk, "Orders"@));
    assert(tail =~= seq![mode_tile(hk, "Orders"@)]);
    if own_units > 0 {
        let d = Deck::UnitDoctrine;
        unit_doctrine_is_neat(cat, hk, card);
        territory_is_neat(hk, d, card);
        mode_is_neat(hk, d, true, "Orders"@);
        let head = unit_doctrine_tiles(cat, hk, card);
        both_are_neat(hk, d, head, land, 10, 12, 14, 14, 10, 14);
        both_are_neat(hk, d, head + land, tail, 10, 14, 9, 9, 9, 14);
        d
    } else if card.tmpl.capable {
        let d = Deck::TemplateDoctrine;
        template_is_neat(hk, card);
        territory_is_neat(hk, d, card);
        mode_is_neat(hk, d, true, "Orders"@);
        let head = template_tiles(hk, card.tmpl);
        both_are_neat(hk, d, head, land, 13, 13, 14, 14, 13, 14);
        both_are_neat(hk, d, head + land, tail, 13, 14, 9, 9, 9, 14);
        d
    } else {
        let d = Deck::TemplateDoctrine;
        nothing_is_neat(hk, d, 13, 13);
        territory_is_neat(hk, d, card);
        mode_is_neat(hk, d, true, "Orders"@);
        both_are_neat(hk, d, Seq::empty(), land, 13, 13, 14, 14, 13, 14);
        both_are_neat(hk, d, Seq::<EntryView>::empty() + land, tail, 13, 14, 9, 9, 9, 14);
        d
    }
}

// ---------------------------------------------------------------------------
// The laws
// ---------------------------------------------------------------------------

proof fn nobody_selected(cat: &Catalog, s: Seq<crate::situation::SelUnit>)
    requires
        picked(s, own_id()).len() == 0,
    ensures
        picked(s, own_caster(cat)).len() == 0,
        forall|i: int| 0 <= i < s.len() ==> !(#[trigger] s[i]).own,
    decreases s.len(),
{
    if s.len() > 0 {
        nobody_selected(cat, s.drop_last());
        assert(!s.last().own);
        assert forall|i: int| 0 <= i < s.len() implies !(#[trigger] s[i]).own by {
            if i < s.len() - 1 {
                assert(s.drop_last()[i] == s[i]);
            }
        }
    }
}

proof fn every_card_is_neat(cat: &Catalog, hk: &Hotkeys, w: &World, ui: UiView) -> (deck: Deck)
    requires
        hk.sound(),
        rungs_spent_once(cat),
    ensures
        neat(hk, deck, card_now(cat, hk, w, ui), 0, 14),
{
    let last = remembered_hero(cat, w, ui.last_hero);
    let hero = hero_cmds(cat, w, last);
    let own = own_ids(w).len();
    let card = crate::situation::card_of(cat, w, ui.region_radius, ui.region_place);
    let single = crate::situation::single_kind(w);
    let done = crate::situation::completed(w);
    let cs = casters(cat, w);
    let entries = card_now(cat, hk, w, ui);
    let lo: int;
    let hi: int;
    let deck = if ui.page == CardPage::Doctrine {
        lo = 9;
        hi = 14;
        doctrine_cards_are_neat(cat, hk, own, card)
    } else {
        if cs.len() > 0 {
            assert(cs[0].abilities.len() == cs[0].abilities@.len());
            slots_in_order(cat.unit_row(cs[0].kind).abilities@, cs[0].abilities@);
        }
        if own > 0 {
            lo = 0;
            hi = 9;
            unit_cards_are_neat(
                cat,
                hk,
                own,
                worker_selected(cat, w),
                single,
                hero,
                card,
                done,
            );
            Deck::Units
        } else {
            lo = 4;
            hi = 9;
            nobody_selected(cat, w.sel_units@);
            match crate::situation::single(w) {
                Some(b) => {
                    assert(b.abilities.len() == b.abilities@.len());
                    slots_in_order(cat.building_row(b.kind).abilities@, b.abilities@);
                },
                None => {},
            }
            building_cards_are_neat(cat, hk, single, hero, card, done)
        }
    };
    let places = choose|p: Seq<Place>| placed(hk, deck, entries, p, lo, hi);
    assert(placed(hk, deck, entries, places, 0, 14));
    deck
}

/// No card that can be drawn has two buttons on one key.
pub proof fn one_key_one_button(cat: &Catalog, hk: &Hotkeys, w: &World, ui: UiView)
    requires
        hk.sound(),
        rungs_spent_once(cat),
    ensures
        ({
            let entries = card_now(cat, hk, w, ui);
            forall|i: int, j: int|
                0 <= i < j < entries.len() ==> (#[trigger] entries[i]).key != (
                #[trigger] entries[j]).key
        }),
{
    let entries = card_now(cat, hk, w, ui);
    let deck = every_card_is_neat(cat, hk, w, ui);
    let p = choose|p: Seq<Place>| placed(hk, deck, entries, p, 0, 14);
    assert(hk.clear_on(deck));
    assert forall|i: int, j: int| 0 <= i < j < entries.len() implies (#[trigger] entries[i]).key
        != (#[trigger] entries[j]).key by {
        assert(p[i] != p[j]);
        assert(hk.at(p[i]) == Some(entries[i].key));
        assert(hk.at(p[j]) == Some(entries[j].key));
    }
}

/// No button sits on a key that is on no card: the cancel key, the idle-worker
/// key, the page key and the six nudges.
pub proof fn raw_keys_are_no_buttons(cat: &Catalog, hk: &Hotkeys, w: &World, ui: UiView, i: int)
    requires
        hk.sound(),
        rungs_spent_once(cat),
        0 <= i < card_now(cat, hk, w, ui).len(),
    ensures
        ({
            let key = card_now(cat, hk, w, ui)[i].key;
            &&& key != CANCEL
            &&& key != IDLE_WORKER
            &&& key != NEXT_CARD_PAGE
            &&& key != hk.bound(Action::NudgeFallbackDown)
            &&& key != hk.bound(Action::NudgeFallbackUp)
            &&& key != hk.bound(Action::NudgeLeashDown)
            &&& key != hk.bound(Action::NudgeLeashUp)
            &&& key != hk.bound(Action::NudgeRegionDown)
            &&& key != hk.bound(Action::NudgeRegionUp)
        }),
{
    let entries = card_now(cat, hk, w, ui);
    let deck = every_card_is_neat(cat, hk, w, ui);
    let p = choose|p: Seq<Place>| placed(hk, deck, entries, p, 0, 14);
    assert(hk.clear_on(deck));
    assert(hk.at(p[i]) == Some(entries[i].key));
    assert forall|a: Action| part(Place::Bound(a)) == 15 implies entries[i].key != hk.bound(
        a,
    ) by {
        assert(hk.key_of(a) is Some);
        assert(hk.at(Place::Bound(a)) is Some);
        assert(on_deck(deck, Place::Bound(a)));
    }
}

/// One key asks for at most one thing.
pub proof fn one_press_one_command(cat: &Catalog, hk: &Hotkeys, w: &World, ui: UiView, key: Key)
    requires
        hk.sound(),
        rungs_spent_once(cat),
    ensures
        by_key(card_now(cat, hk, w, ui), seq![key]).len() <= 1,
{
    one_key_one_button(cat, hk, w, ui);
    one_at_most(card_now(cat, hk, w, ui), key);
}

proof fn one_at_most(entries: Seq<EntryView>, key: Key)
    requires
        forall|i: int, j: int|
            0 <= i < j < entries.len() ==> (#[trigger] entries[i]).key != (
            #[trigger] entries[j]).key,
    ensures
        by_key(entries, seq![key]).len() <= 1,
        by_key(entries, seq![key]).len() == 1 ==> exists|i: int|
            0 <= i < entries.len() && (#[trigger] entries[i]).key == key,
    decreases entries.len(),
{
    if entries.len() > 0 {
        let front = entries.drop_last();
        let m = entries.len() - 1;
        assert forall|i: int, j: int| 0 <= i < j < front.len() implies (#[trigger] front[i]).key
            != (#[trigger] front[j]).key by {
            assert(front[i] == entries[i] && front[j] == entries[j]);
        }
        one_at_most(front, key);
        if fired(seq![key])(entries.last()) is Some {
            assert(seq![key].contains(entries[m].key));
            assert(entries[m].key == key);
            if by_key(front, seq![key]).len() == 1 {
                let i = choose|i: int| 0 <= i < front.len() && (#[trigger] front[i]).key == key;
                assert(entries[i] == front[i]);
                assert(entries[i].key != entries[m].key);
            }
        } else if by_key(front, seq![key]).len() == 1 {
            let i = choose|i: int| 0 <= i < front.len() && (#[trigger] front[i]).key == key;
            assert(entries[i] == front[i]);
        }
    }
}

} // verus!
