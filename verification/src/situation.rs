//! The world as the command card sees it, and what follows from it: whom the
//! player has selected, what they carry, and what can be asked of them.

use vstd::prelude::*;

use crate::card::{
    ability_slots, research_buttons, research_cmds, unlocked_slots, AbilitySlot, AbilityState,
    DoctrineCard, HeroCmds, HeroCmdsView, HeroPrice, HeroTrain, HeroTrainView, Ladder,
    ResearchCmd, Researching, ShopState,
};
use crate::catalog::{BuildingKind, Catalog, ItemId, TargetClass, TechTier, UnitKind};
use crate::doctrine::{
    by_slot, posture_kind, sorted_doctrine, DoctrineState, DoctrineTemplate, SquadPosture,
    TemplateView, UnitDoctrine,
};
use crate::entity::{entity_index, names_entity, slot_of};
use crate::lists::{
    find_nearest, first_some, first_some_step, first_stays, nearest, picked, picked_step,
};
use crate::map::{
    dist2, dist_sq, home, human_base, round_div, rounded, rounded_is_bounded, Pos,
};
use crate::readouts::{
    armed_rule, has_trigger, home_guard, lowest_mark, mark_number, Region, TriggerRule,
};

verus! {

/// Radius a mark gets before anybody tunes it: the circle a squad would hold.
pub const REGION_MARK_RADIUS: i64 = 22_000;

/// A selected unit.
#[derive(Debug)]
pub struct SelUnit {
    pub id: u64,
    pub kind: UnitKind,
    pub own: bool,
    pub pos: Pos,
    pub leash: Option<i64>,
    pub retreat: Option<i64>,
    /// First class of its focus-fire list.
    pub first_target: Option<TargetClass>,
    /// Auto-cast thresholds per ability slot.
    pub autocast: Option<[Option<u32>; 3]>,
    pub items: Option<[Option<ItemId>; 2]>,
    pub squad: Option<u8>,
    /// How its abilities stand.
    pub abilities: Vec<AbilityState>,
}

/// A selected building.
#[derive(Debug)]
pub struct SelBuilding {
    pub id: u64,
    pub kind: BuildingKind,
    pub own: bool,
    pub queue: Option<Vec<UnitKind>>,
    pub unfinished: bool,
    pub upgrading: bool,
    pub template: Option<DoctrineTemplate>,
    pub abilities: Vec<AbilityState>,
    pub researching: Option<Researching>,
}

/// A unit anywhere on the map.
#[derive(Debug)]
pub struct FieldUnit {
    pub id: u64,
    pub kind: UnitKind,
    pub own: bool,
    pub idle: bool,
    pub pos: Pos,
    pub items: Option<[Option<ItemId>; 2]>,
    pub squad: Option<u8>,
}

/// A building anywhere on the map.
#[derive(Debug)]
pub struct FieldBuilding {
    pub kind: BuildingKind,
    pub own: bool,
    pub pos: Pos,
    pub unfinished: bool,
    pub queue: Option<Vec<UnitKind>>,
}

/// Everything the card reads.
#[derive(Debug)]
pub struct World {
    pub game_over: bool,
    pub sel_units: Vec<SelUnit>,
    pub sel_buildings: Vec<SelBuilding>,
    pub units: Vec<FieldUnit>,
    pub buildings: Vec<FieldBuilding>,
    pub tier: TechTier,
    pub gold: u32,
    pub lumber: u32,
    pub hero_prices: Vec<HeroPrice>,
    /// What each of the player's squads is doing.
    pub postures: Vec<(u8, SquadPosture)>,
    pub triggers: Vec<TriggerRule>,
    pub regions: Vec<Region>,
    pub ladders: Vec<Ladder>,
}

/// Every selected unit is an entity.
pub open spec fn all_named(units: Seq<SelUnit>) -> bool {
    forall|i: int| 0 <= i < units.len() ==> names_entity((#[trigger] units[i]).id)
}

// ---------------------------------------------------------------------------
// Who is selected
// ---------------------------------------------------------------------------

pub open spec fn own_id() -> spec_fn(SelUnit) -> Option<u64> {
    |u: SelUnit|
        if u.own {
            Some(u.id)
        } else {
            None
        }
}

/// The player's selected units.
pub open spec fn own_ids(w: &World) -> Seq<u64> {
    picked(w.sel_units@, own_id())
}

pub fn list_own_ids(w: &World) -> (r: Vec<u64>)
    ensures
        r@ == own_ids(w),
{
    let mut out: Vec<u64> = Vec::new();
    let mut i: usize = 0;
    while i < w.sel_units.len()
        invariant
            i <= w.sel_units.len(),
            out@ == picked(w.sel_units@.take(i as int), own_id()),
        decreases w.sel_units.len() - i,
    {
        proof {
            picked_step(w.sel_units@, i as int, own_id());
        }
        if w.sel_units[i].own {
            out.push(w.sel_units[i].id);
        }
        i = i + 1;
    }
    assert(w.sel_units@.take(i as int) =~= w.sel_units@);
    out
}

pub open spec fn own_pos() -> spec_fn(SelUnit) -> Option<Pos> {
    |u: SelUnit|
        if u.own {
            Some(u.pos)
        } else {
            None
        }
}

pub open spec fn sum_x(s: Seq<Pos>) -> int
    decreases s.len(),
{
    if s.len() == 0 {
        0
    } else {
        sum_x(s.drop_last()) + s.last().x
    }
}

pub open spec fn sum_z(s: Seq<Pos>) -> int
    decreases s.len(),
{
    if s.len() == 0 {
        0
    } else {
        sum_z(s.drop_last()) + s.last().z
    }
}

/// The centre of mass of some points, to the nearest thousandth, and the middle of the map for none.
pub open spec fn centre(s: Seq<Pos>) -> Pos {
    if s.len() == 0 {
        Pos { x: 0, z: 0 }
    } else {
        Pos {
            x: rounded(sum_x(s), s.len() as int) as i32,
            z: rounded(sum_z(s), s.len() as int) as i32,
        }
    }
}

/// The centre of mass of the player's selected units.
pub open spec fn own_centre(w: &World) -> Pos {
    centre(picked(w.sel_units@, own_pos()))
}

proof fn sums_bounded(s: Seq<Pos>)
    ensures
        i32::MIN * s.len() <= sum_x(s) <= i32::MAX * s.len(),
        i32::MIN * s.len() <= sum_z(s) <= i32::MAX * s.len(),
    decreases s.len(),
{
    if s.len() > 0 {
        sums_bounded(s.drop_last());
    }
}

fn mean_of(sum: i128, n: i128) -> (r: i32)
    requires
        0 < n <= 0x1_0000_0000_0000_0000,
        i32::MIN * n <= sum <= i32::MAX * n,
    ensures
        r == rounded(sum as int, n as int),
{
    proof {
        rounded_is_bounded(sum as int, n as int, i32::MIN as int, i32::MAX as int);
        assert(-0x8000_0000 * 0x1_0000_0000_0000_0000 <= sum <= 0x8000_0000
            * 0x1_0000_0000_0000_0000) by (nonlinear_arith)
            requires
                0 < n <= 0x1_0000_0000_0000_0000,
                -0x8000_0000 * n <= sum <= 0x7fff_ffff * n,
        ;
    }
    round_div(sum, n) as i32
}

/// The centre of mass of the player's selected units.
pub fn find_centre(w: &World) -> (r: Pos)
    ensures
        r == own_centre(w),
{
    let mut sx: i128 = 0;
    let mut sz: i128 = 0;
    let mut n: usize = 0;
    let mut i: usize = 0;
    while i < w.sel_units.len()
        invariant
            i <= w.sel_units.len(),
            n <= i,
            n == picked(w.sel_units@.take(i as int), own_pos()).len(),
            sx == sum_x(picked(w.sel_units@.take(i as int), own_pos())),
            sz == sum_z(picked(w.sel_units@.take(i as int), own_pos())),
        decreases w.sel_units.len() - i,
    {
        let ghost before = picked(w.sel_units@.take(i as int), own_pos());
        proof {
            picked_step(w.sel_units@, i as int, own_pos());
            sums_bounded(before);
            assert(-0x8000_0000 * 0x1_0000_0000_0000_0000 <= sx <= 0x8000_0000
                * 0x1_0000_0000_0000_0000) by (nonlinear_arith)
                requires
                    0 <= n <= 0xffff_ffff_ffff_ffff,
                    -0x8000_0000 * n <= sx <= 0x7fff_ffff * n,
            ;
            assert(-0x8000_0000 * 0x1_0000_0000_0000_0000 <= sz <= 0x8000_0000
                * 0x1_0000_0000_0000_0000) by (nonlinear_arith)
                requires
                    0 <= n <= 0xffff_ffff_ffff_ffff,
                    -0x8000_0000 * n <= sz <= 0x7fff_ffff * n,
            ;
        }
        if w.sel_units[i].own {
            let p = w.sel_units[i].pos;
            proof {
                assert(before.push(p).drop_last() =~= before);
            }
            sx = sx + p.x as i128;
            sz = sz + p.z as i128;
            n = n + 1;
        }
        i = i + 1;
    }
    assert(w.sel_units@.take(i as int) =~= w.sel_units@);
    if n == 0 {
        return Pos { x: 0, z: 0 };
    }
    proof {
        sums_bounded(picked(w.sel_units@, own_pos()));
    }
    Pos { x: mean_of(sx, n as i128), z: mean_of(sz, n as i128) }
}

/// Whether a worker of the player's is selected.
pub open spec fn worker_selected(cat: &Catalog, w: &World) -> bool {
    exists|i: int|
        0 <= i < w.sel_units@.len() && (#[trigger] w.sel_units@[i]).own && cat.unit_row(
            w.sel_units@[i].kind,
        ).worker
}

pub fn has_worker(cat: &Catalog, w: &World) -> (r: bool)
    requires
        cat.wf(),
    ensures
        r == worker_selected(cat, w),
{
    let mut i: usize = 0;
    while i < w.sel_units.len()
        invariant
            cat.wf(),
            i <= w.sel_units.len(),
            forall|j: int|
                0 <= j < i ==> !((#[trigger] w.sel_units@[j]).own && cat.unit_row(
                    w.sel_units@[j].kind,
                ).worker),
        decreases w.sel_units.len() - i,
    {
        if w.sel_units[i].own && cat.unit(w.sel_units[i].kind).worker {
            return true;
        }
        i = i + 1;
    }
    false
}

pub open spec fn own_caster(cat: &Catalog) -> spec_fn(SelUnit) -> Option<SelUnit> {
    |u: SelUnit|
        if u.own && cat.unit_row(u.kind).abilities@.len() > 0 {
            Some(u)
        } else {
            None
        }
}

/// The player's selected casters: anything whose kind has an ability.
pub open spec fn casters(cat: &Catalog, w: &World) -> Seq<SelUnit> {
    picked(w.sel_units@, own_caster(cat))
}

pub open spec fn unrefs(list: Seq<&SelUnit>) -> Seq<SelUnit> {
    list.map_values(|u: &SelUnit| *u)
}

pub fn list_casters<'a>(cat: &Catalog, w: &'a World) -> (r: Vec<&'a SelUnit>)
    requires
        cat.wf(),
    ensures
        unrefs(r@) == casters(cat, w),
{
    let mut out: Vec<&'a SelUnit> = Vec::new();
    let mut i: usize = 0;
    assert(unrefs(out@) =~= picked(w.sel_units@.take(0), own_caster(cat)));
    while i < w.sel_units.len()
        invariant
            cat.wf(),
            i <= w.sel_units.len(),
            unrefs(out@) == picked(w.sel_units@.take(i as int), own_caster(cat)),
        decreases w.sel_units.len() - i,
    {
        proof {
            picked_step(w.sel_units@, i as int, own_caster(cat));
        }
        let ghost before = unrefs(out@);
        if w.sel_units[i].own && cat.unit(w.sel_units[i].kind).abilities.len() > 0 {
            out.push(&w.sel_units[i]);
            assert(unrefs(out@) =~= before.push(w.sel_units@[i as int]));
        }
        i = i + 1;
    }
    assert(w.sel_units@.take(i as int) =~= w.sel_units@);
    out
}

// ---------------------------------------------------------------------------
// What they carry
// ---------------------------------------------------------------------------

/// The standing policy of one selected unit.
pub open spec fn doctrine_of(cat: &Catalog, u: SelUnit) -> UnitDoctrine {
    UnitDoctrine::from(
        u.leash,
        u.retreat,
        u.first_target,
        u.autocast,
        u.kind,
        cat.unit_row(u.kind).abilities@.len() > 0,
        u.squad,
    )
}

pub open spec fn own_doctrine(cat: &Catalog) -> spec_fn(SelUnit) -> Option<(i64, UnitDoctrine)> {
    |u: SelUnit|
        if u.own {
            Some((slot_of(u.id) as i64, doctrine_of(cat, u)))
        } else {
            None
        }
}

/// The policy of the player's selection, in slot order.
pub open spec fn doctrines(cat: &Catalog, w: &World) -> Seq<UnitDoctrine> {
    by_slot(picked(w.sel_units@, own_doctrine(cat)))
}

/// The policy of the player's selection, tallied.
pub open spec fn doc_of(cat: &Catalog, w: &World) -> DoctrineState {
    DoctrineState::tally(doctrines(cat, w))
}

pub fn tally_doctrine(cat: &Catalog, w: &World) -> (r: DoctrineState)
    requires
        cat.wf(),
        all_named(w.sel_units@),
    ensures
        r == doc_of(cat, w),
{
    let mut list: Vec<(i64, UnitDoctrine)> = Vec::new();
    let mut i: usize = 0;
    while i < w.sel_units.len()
        invariant
            cat.wf(),
            all_named(w.sel_units@),
            i <= w.sel_units.len(),
            list@ == picked(w.sel_units@.take(i as int), own_doctrine(cat)),
        decreases w.sel_units.len() - i,
    {
        proof {
            picked_step(w.sel_units@, i as int, own_doctrine(cat));
        }
        let u = &w.sel_units[i];
        if u.own {
            if let Some(slot) = entity_index(u.id) {
                list.push(
                    (
                        slot as i64,
                        UnitDoctrine::read(
                            u.leash,
                            u.retreat,
                            u.first_target,
                            u.autocast,
                            u.kind,
                            cat.unit(u.kind).abilities.len() > 0,
                            u.squad,
                        ),
                    ),
                );
            }
        }
        i = i + 1;
    }
    assert(w.sel_units@.take(i as int) =~= w.sel_units@);
    DoctrineState::of(&sorted_doctrine(&list))
}

// ---------------------------------------------------------------------------
// The one selected building
// ---------------------------------------------------------------------------

/// The one selected building, when it is the player's.
pub open spec fn single(w: &World) -> Option<SelBuilding> {
    if w.sel_buildings@.len() == 1 && w.sel_buildings@[0].own {
        Some(w.sel_buildings@[0])
    } else {
        None
    }
}

pub fn find_single(w: &World) -> (r: Option<&SelBuilding>)
    ensures
        match r {
            Some(b) => single(w) == Some(*b),
            None => single(w) is None,
        },
{
    if w.sel_buildings.len() == 1 && w.sel_buildings[0].own {
        Some(&w.sel_buildings[0])
    } else {
        None
    }
}

/// The kind of the one selected building and whether it is finished.
pub open spec fn single_kind(w: &World) -> Option<(BuildingKind, bool)> {
    match single(w) {
        Some(b) => Some((b.kind, !b.unfinished)),
        None => None,
    }
}

/// The template of the one selected building. A template is offered only for a
/// finished building of ours that trains something.
pub open spec fn template_of(cat: &Catalog, w: &World) -> TemplateView {
    if w.sel_buildings@.len() == 1 {
        let b = w.sel_buildings@[0];
        TemplateView::of(
            b.own && !b.unfinished && b.queue is Some && cat.building_row(b.kind).trains@.len() > 0,
            b.template,
        )
    } else {
        TemplateView::blank(false)
    }
}

pub fn read_template(cat: &Catalog, w: &World) -> (r: TemplateView)
    requires
        cat.wf(),
    ensures
        r == template_of(cat, w),
{
    if w.sel_buildings.len() == 1 {
        let b = &w.sel_buildings[0];
        TemplateView::read(
            b.own && !b.unfinished && b.queue.is_some() && cat.building(b.kind).trains.len() > 0,
            &b.template,
        )
    } else {
        TemplateView::fresh(false)
    }
}

// ---------------------------------------------------------------------------
// The team's heroes
// ---------------------------------------------------------------------------

pub open spec fn fielded_hero(cat: &Catalog) -> spec_fn(FieldUnit) -> Option<UnitKind> {
    |u: FieldUnit|
        if u.own && cat.unit_row(u.kind).hero {
            Some(u.kind)
        } else {
            None
        }
}

pub open spec fn queued_hero(cat: &Catalog) -> spec_fn(UnitKind) -> Option<UnitKind> {
    |k: UnitKind|
        if cat.unit_row(k).hero {
            Some(k)
        } else {
            None
        }
}

/// The heroes waiting in one building's queue.
pub open spec fn heroes_queued_at(cat: &Catalog, b: FieldBuilding) -> Seq<UnitKind> {
    match b.queue {
        Some(queue) if b.own => picked(queue@, queued_hero(cat)),
        _ => Seq::empty(),
    }
}

/// The heroes waiting in any queue of ours.
pub open spec fn heroes_queued(cat: &Catalog, s: Seq<FieldBuilding>) -> Seq<UnitKind>
    decreases s.len(),
{
    if s.len() == 0 {
        Seq::empty()
    } else {
        heroes_queued(cat, s.drop_last()) + heroes_queued_at(cat, s.last())
    }
}

/// Every hero class the team holds: on the field, or in any queue.
pub open spec fn held_heroes(cat: &Catalog, w: &World) -> Seq<UnitKind> {
    picked(w.units@, fielded_hero(cat)) + heroes_queued(cat, w.buildings@)
}

fn push_queued(out: &mut Vec<UnitKind>, cat: &Catalog, b: &FieldBuilding)
    requires
        cat.wf(),
    ensures
        final(out)@ == old(out)@ + heroes_queued_at(cat, *b),
{
    if b.own {
        if let Some(queue) = &b.queue {
            let mut i: usize = 0;
            assert(out@ =~= old(out)@ + picked(queue@.take(0), queued_hero(cat)));
            while i < queue.len()
                invariant
                    cat.wf(),
                    i <= queue.len(),
                    out@ == old(out)@ + picked(queue@.take(i as int), queued_hero(cat)),
                decreases queue.len() - i,
            {
                proof {
                    picked_step(queue@, i as int, queued_hero(cat));
                }
                let ghost before = picked(queue@.take(i as int), queued_hero(cat));
                if cat.unit(queue[i]).hero {
                    out.push(queue[i]);
                    assert(out@ =~= old(out)@ + before.push(queue@[i as int]));
                }
                i = i + 1;
            }
            assert(queue@.take(i as int) =~= queue@);
        } else {
            assert(out@ =~= old(out)@ + Seq::<UnitKind>::empty());
        }
    } else {
        assert(out@ =~= old(out)@ + Seq::<UnitKind>::empty());
    }
}

pub fn list_held_heroes(cat: &Catalog, w: &World) -> (r: Vec<UnitKind>)
    requires
        cat.wf(),
    ensures
        r@ == held_heroes(cat, w),
{
    let mut out: Vec<UnitKind> = Vec::new();
    let mut i: usize = 0;
    while i < w.units.len()
        invariant
            cat.wf(),
            i <= w.units.len(),
            out@ == picked(w.units@.take(i as int), fielded_hero(cat)),
        decreases w.units.len() - i,
    {
        proof {
            picked_step(w.units@, i as int, fielded_hero(cat));
        }
        if w.units[i].own && cat.unit(w.units[i].kind).hero {
            out.push(w.units[i].kind);
        }
        i = i + 1;
    }
    assert(w.units@.take(i as int) =~= w.units@);
    let ghost fielded = out@;
    let mut j: usize = 0;
    assert(out@ =~= fielded + heroes_queued(cat, w.buildings@.take(0)));
    while j < w.buildings.len()
        invariant
            cat.wf(),
            j <= w.buildings.len(),
            out@ == fielded + heroes_queued(cat, w.buildings@.take(j as int)),
        decreases w.buildings.len() - j,
    {
        assert(w.buildings@.take(j + 1).drop_last() =~= w.buildings@.take(j as int));
        push_queued(&mut out, cat, &w.buildings[j]);
        assert(out@ =~= fielded + heroes_queued(cat, w.buildings@.take(j + 1)));
        j = j + 1;
    }
    assert(w.buildings@.take(j as int) =~= w.buildings@);
    out
}

/// A hero of the player's and what it carries.
pub open spec fn hero_bag(cat: &Catalog) -> spec_fn(FieldUnit) -> Option<
    (u64, [Option<ItemId>; 2]),
> {
    |u: FieldUnit|
        if u.own && cat.unit_row(u.kind).hero {
            Some((u.id, bag(u.items)))
        } else {
            None
        }
}

/// An inventory; a unit without one carries nothing.
pub open spec fn bag(items: Option<[Option<ItemId>; 2]>) -> [Option<ItemId>; 2] {
    match items {
        Some(slots) => slots,
        None => [None, None],
    }
}

fn bag_of(items: Option<[Option<ItemId>; 2]>) -> (r: [Option<ItemId>; 2])
    ensures
        r == bag(items),
{
    match items {
        Some(slots) => slots,
        None => [None, None],
    }
}

/// The player's living heroes.
pub open spec fn own_heroes(cat: &Catalog, w: &World) -> Seq<(u64, [Option<ItemId>; 2])> {
    picked(w.units@, hero_bag(cat))
}

pub fn list_own_heroes(cat: &Catalog, w: &World) -> (r: Vec<(u64, [Option<ItemId>; 2])>)
    requires
        cat.wf(),
    ensures
        r@ == own_heroes(cat, w),
{
    let mut out: Vec<(u64, [Option<ItemId>; 2])> = Vec::new();
    let mut i: usize = 0;
    while i < w.units.len()
        invariant
            cat.wf(),
            i <= w.units.len(),
            out@ == picked(w.units@.take(i as int), hero_bag(cat)),
        decreases w.units.len() - i,
    {
        proof {
            picked_step(w.units@, i as int, hero_bag(cat));
        }
        if w.units[i].own && cat.unit(w.units[i].kind).hero {
            out.push((w.units[i].id, bag_of(w.units[i].items)));
        }
        i = i + 1;
    }
    assert(w.units@.take(i as int) =~= w.units@);
    out
}

pub open spec fn is_hero(id: u64) -> spec_fn((u64, [Option<ItemId>; 2])) -> Option<
    (u64, [Option<ItemId>; 2]),
> {
    |h: (u64, [Option<ItemId>; 2])|
        if h.0 == id {
            Some(h)
        } else {
            None
        }
}

/// The hero of that id.
pub open spec fn hero_named(heroes: Seq<(u64, [Option<ItemId>; 2])>, id: u64) -> Option<
    (u64, [Option<ItemId>; 2]),
> {
    first_some(heroes, is_hero(id))
}

fn find_hero(heroes: &Vec<(u64, [Option<ItemId>; 2])>, id: u64) -> (r: Option<
    (u64, [Option<ItemId>; 2]),
>)
    ensures
        r == hero_named(heroes@, id),
{
    let mut i: usize = 0;
    while i < heroes.len()
        invariant
            i <= heroes.len(),
            first_some(heroes@.take(i as int), is_hero(id)) is None,
        decreases heroes.len() - i,
    {
        proof {
            first_some_step(heroes@, i as int, is_hero(id));
        }
        if heroes[i].0 == id {
            let found = heroes[i];
            proof {
                first_stays(heroes@, i + 1, is_hero(id));
            }
            return Some(found);
        }
        i = i + 1;
    }
    assert(heroes@.take(i as int) =~= heroes@);
    None
}

/// The hero with the lowest id, the first listed where ids repeat.
pub open spec fn lowest_hero(heroes: Seq<(u64, [Option<ItemId>; 2])>) -> Option<
    (u64, [Option<ItemId>; 2]),
>
    decreases heroes.len(),
{
    if heroes.len() == 0 {
        None
    } else {
        match lowest_hero(heroes.drop_last()) {
            Some(h) => if heroes.last().0 < h.0 {
                Some(heroes.last())
            } else {
                Some(h)
            },
            None => Some(heroes.last()),
        }
    }
}

fn find_lowest_hero(heroes: &Vec<(u64, [Option<ItemId>; 2])>) -> (r: Option<
    (u64, [Option<ItemId>; 2]),
>)
    ensures
        r == lowest_hero(heroes@),
{
    let mut best: Option<(u64, [Option<ItemId>; 2])> = None;
    let mut i: usize = 0;
    while i < heroes.len()
        invariant
            i <= heroes.len(),
            best == lowest_hero(heroes@.take(i as int)),
        decreases heroes.len() - i,
    {
        assert(heroes@.take(i + 1).drop_last() =~= heroes@.take(i as int));
        let h = heroes[i];
        match best {
            Some(b) => {
                if h.0 < b.0 {
                    best = Some(h);
                }
            },
            None => {
                best = Some(h);
            },
        }
        i = i + 1;
    }
    assert(heroes@.take(i as int) =~= heroes@);
    best
}

pub open spec fn hero_seen(cat: &Catalog) -> spec_fn(SelUnit) -> Option<u64> {
    |u: SelUnit|
        if u.own && cat.unit_row(u.kind).abilities@.len() > 0 && cat.unit_row(u.kind).hero {
            Some(u.id)
        } else {
            None
        }
}

/// The hero the player is remembered to have looked at: the first one selected
/// now, else the one before, and nobody once it has fallen.
pub open spec fn remembered_hero(cat: &Catalog, w: &World, last: Option<u64>) -> Option<u64> {
    let looked = match first_some(w.sel_units@, hero_seen(cat)) {
        Some(id) => Some(id),
        None => last,
    };
    match looked {
        Some(id) => if hero_named(own_heroes(cat, w), id) is Some {
            Some(id)
        } else {
            None
        },
        None => None,
    }
}

fn find_hero_seen(cat: &Catalog, w: &World) -> (r: Option<u64>)
    requires
        cat.wf(),
    ensures
        r == first_some(w.sel_units@, hero_seen(cat)),
{
    let mut found: Option<u64> = None;
    let mut i: usize = 0;
    while i < w.sel_units.len()
        invariant
            cat.wf(),
            i <= w.sel_units.len(),
            found == first_some(w.sel_units@.take(i as int), hero_seen(cat)),
        decreases w.sel_units.len() - i,
    {
        proof {
            first_some_step(w.sel_units@, i as int, hero_seen(cat));
        }
        let u = &w.sel_units[i];
        if found.is_none() && u.own && cat.unit(u.kind).abilities.len() > 0 && cat.unit(
            u.kind,
        ).hero {
            found = Some(u.id);
        }
        i = i + 1;
    }
    assert(w.sel_units@.take(i as int) =~= w.sel_units@);
    found
}

pub fn remember_hero(cat: &Catalog, w: &World, last: Option<u64>) -> (r: Option<u64>)
    requires
        cat.wf(),
    ensures
        r == remembered_hero(cat, w, last),
{
    let looked = match find_hero_seen(cat, w) {
        Some(id) => Some(id),
        None => last,
    };
    match looked {
        Some(id) => {
            if find_hero(&list_own_heroes(cat, w), id).is_some() {
                Some(id)
            } else {
                None
            }
        },
        None => None,
    }
}

/// Whom a Shop sells to: the remembered hero, else the one with the lowest id.
pub open spec fn customer(cat: &Catalog, w: &World, last: Option<u64>) -> Option<
    (u64, [Option<ItemId>; 2]),
> {
    let heroes = own_heroes(cat, w);
    match last {
        Some(id) => match hero_named(heroes, id) {
            Some(h) => Some(h),
            None => lowest_hero(heroes),
        },
        None => lowest_hero(heroes),
    }
}

pub fn find_customer(cat: &Catalog, w: &World, last: Option<u64>) -> (r: Option<
    (u64, [Option<ItemId>; 2]),
>)
    requires
        cat.wf(),
    ensures
        r == customer(cat, w, last),
{
    let heroes = list_own_heroes(cat, w);
    match last {
        Some(id) => match find_hero(&heroes, id) {
            Some(h) => Some(h),
            None => find_lowest_hero(&heroes),
        },
        None => find_lowest_hero(&heroes),
    }
}

// ---------------------------------------------------------------------------
// Halls and squads
// ---------------------------------------------------------------------------

pub open spec fn finished() -> spec_fn(FieldBuilding) -> Option<BuildingKind> {
    |b: FieldBuilding|
        if b.own && !b.unfinished {
            Some(b.kind)
        } else {
            None
        }
}

/// The player's finished buildings.
pub open spec fn completed(w: &World) -> Seq<BuildingKind> {
    picked(w.buildings@, finished())
}

pub fn list_completed(w: &World) -> (r: Vec<BuildingKind>)
    ensures
        r@ == completed(w),
{
    let mut out: Vec<BuildingKind> = Vec::new();
    let mut i: usize = 0;
    while i < w.buildings.len()
        invariant
            i <= w.buildings.len(),
            out@ == picked(w.buildings@.take(i as int), finished()),
        decreases w.buildings.len() - i,
    {
        proof {
            picked_step(w.buildings@, i as int, finished());
        }
        if w.buildings[i].own && !w.buildings[i].unfinished {
            out.push(w.buildings[i].kind);
        }
        i = i + 1;
    }
    assert(w.buildings@.take(i as int) =~= w.buildings@);
    out
}

pub open spec fn hall_from(cat: &Catalog, from: Pos) -> spec_fn(FieldBuilding) -> Option<
    (Pos, i128),
> {
    |b: FieldBuilding|
        if b.own && !b.unfinished && cat.building_row(b.kind).hall {
            Some((b.pos, dist2(b.pos, from) as i128))
        } else {
            None
        }
}

/// The player's standing halls, with how far each is.
pub open spec fn halls(cat: &Catalog, w: &World, from: Pos) -> Seq<(Pos, i128)> {
    picked(w.buildings@, hall_from(cat, from))
}

/// Where a fallback runs to: the nearest standing hall of ours, else the corner
/// the player started in.
pub open spec fn refuge(cat: &Catalog, w: &World, from: Pos) -> Pos {
    match nearest(halls(cat, w, from)) {
        Some(hall) => hall.0,
        None => home(),
    }
}

pub fn list_halls(cat: &Catalog, w: &World, from: Pos) -> (r: Vec<(Pos, i128)>)
    requires
        cat.wf(),
    ensures
        r@ == halls(cat, w, from),
{
    let mut out: Vec<(Pos, i128)> = Vec::new();
    let mut i: usize = 0;
    while i < w.buildings.len()
        invariant
            cat.wf(),
            i <= w.buildings.len(),
            out@ == picked(w.buildings@.take(i as int), hall_from(cat, from)),
        decreases w.buildings.len() - i,
    {
        proof {
            picked_step(w.buildings@, i as int, hall_from(cat, from));
        }
        let b = &w.buildings[i];
        if b.own && !b.unfinished && cat.building(b.kind).hall {
            out.push((b.pos, dist_sq(b.pos, from)));
        }
        i = i + 1;
    }
    assert(w.buildings@.take(i as int) =~= w.buildings@);
    out
}

pub fn nearest_hall(cat: &Catalog, w: &World, from: Pos) -> (r: Pos)
    requires
        cat.wf(),
    ensures
        r == refuge(cat, w, from),
{
    match find_nearest(&list_halls(cat, w, from)) {
        Some(hall) => hall.0,
        None => human_base(),
    }
}

/// Whether a unit of the player's is in a squad.
pub open spec fn squad_taken(w: &World, id: u8) -> bool {
    exists|i: int|
        0 <= i < w.units@.len() && (#[trigger] w.units@[i]).own && w.units@[i].squad == Some(id)
}

fn is_squad_taken(w: &World, id: u8) -> (r: bool)
    ensures
        r == squad_taken(w, id),
{
    let mut i: usize = 0;
    while i < w.units.len()
        invariant
            i <= w.units.len(),
            forall|j: int|
                0 <= j < i ==> !((#[trigger] w.units@[j]).own && w.units@[j].squad == Some(id)),
        decreases w.units.len() - i,
    {
        if w.units[i].own {
            if let Some(s) = w.units[i].squad {
                if s == id {
                    return true;
                }
            }
        }
        i = i + 1;
    }
    false
}

/// The squad id a gesture mints: the lowest control group nobody is in, and
/// the first where all are taken.
pub open spec fn minted_squad(w: &World) -> u8 {
    if !squad_taken(w, 1) {
        1
    } else if !squad_taken(w, 2) {
        2
    } else if !squad_taken(w, 3) {
        3
    } else {
        1
    }
}

pub fn mint_squad(w: &World) -> (r: u8)
    ensures
        r == minted_squad(w),
{
    if !is_squad_taken(w, 1) {
        1
    } else if !is_squad_taken(w, 2) {
        2
    } else if !is_squad_taken(w, 3) {
        3
    } else {
        1
    }
}

pub open spec fn posture_entry(squad: u8) -> spec_fn((u8, SquadPosture)) -> Option<SquadPosture> {
    |e: (u8, SquadPosture)|
        if e.0 == squad {
            Some(e.1)
        } else {
            None
        }
}

/// What a squad is doing.
pub open spec fn squad_posture(w: &World, squad: Option<u8>) -> Option<SquadPosture> {
    match squad {
        Some(id) => first_some(w.postures@, posture_entry(id)),
        None => None,
    }
}

pub fn find_posture(w: &World, squad: Option<u8>) -> (r: Option<SquadPosture>)
    ensures
        r == squad_posture(w, squad),
{
    match squad {
        None => None,
        Some(id) => {
            let mut i: usize = 0;
            while i < w.postures.len()
                invariant
                    squad == Some(id),
                    i <= w.postures.len(),
                    first_some(w.postures@.take(i as int), posture_entry(id)) is None,
                decreases w.postures.len() - i,
            {
                proof {
                    first_some_step(w.postures@, i as int, posture_entry(id));
                }
                if w.postures[i].0 == id {
                    let found = w.postures[i].1;
                    proof {
                        first_stays(w.postures@, i + 1, posture_entry(id));
                    }
                    return Some(found);
                }
                i = i + 1;
            }
            assert(w.postures@.take(i as int) =~= w.postures@);
            None
        },
    }
}

// ---------------------------------------------------------------------------
// What the card is drawn from
// ---------------------------------------------------------------------------

/// What the hall can do about heroes.
pub open spec fn training_state(cat: &Catalog, w: &World) -> HeroTrainView {
    HeroTrainView { held: held_heroes(cat, w), tier: w.tier, costs: w.hero_prices@ }
}

fn copy_prices(list: &Vec<HeroPrice>) -> (r: Vec<HeroPrice>)
    ensures
        r@ == list@,
{
    let mut out: Vec<HeroPrice> = Vec::new();
    let mut i: usize = 0;
    while i < list.len()
        invariant
            i <= list.len(),
            out@ == list@.take(i as int),
        decreases list.len() - i,
    {
        out.push(list[i]);
        i = i + 1;
        assert(out@ =~= list@.take(i as int));
    }
    assert(out@ =~= list@);
    out
}

/// What the hall can do about heroes.
pub fn hero_train_state(cat: &Catalog, w: &World) -> (r: HeroTrain)
    requires
        cat.wf(),
    ensures
        r@ == training_state(cat, w),
{
    HeroTrain {
        held: list_held_heroes(cat, w),
        tier: w.tier,
        costs: copy_prices(&w.hero_prices),
    }
}

/// Room is asked of the hero who will receive the item.
pub open spec fn has_room(bag: [Option<ItemId>; 2]) -> bool {
    bag@[0] is None || bag@[1] is None
}

/// What the selection can do about heroes, abilities and items.
pub open spec fn hero_cmds(cat: &Catalog, w: &World, last: Option<u64>) -> HeroCmdsView {
    let cs = casters(cat, w);
    let buyer = customer(cat, w, last);
    let one = single(w);
    HeroCmdsView {
        train: Some(training_state(cat, w)),
        abilities: if cs.len() > 0 {
            unlocked_slots(cat.unit_row(cs[0].kind).abilities@, cs[0].abilities@)
        } else {
            Seq::empty()
        },
        building_abilities: match one {
            Some(b) if !b.unfinished => unlocked_slots(
                cat.building_row(b.kind).abilities@,
                b.abilities@,
            ),
            _ => Seq::empty(),
        },
        shop: match one {
            Some(b) if !b.unfinished && b.kind == BuildingKind::Shop => Some(
                ShopState {
                    hero: buyer is Some,
                    room: match buyer {
                        Some(h) => has_room(h.1),
                        None => false,
                    },
                    tier: w.tier,
                },
            ),
            _ => None,
        },
        upgrade: match one {
            Some(b) if !b.unfinished && !b.upgrading => cat.building_row(b.kind).upgrade,
            _ => None,
        },
        items: if cs.len() > 0 {
            bag(cs[0].items)
        } else {
            [None, None]
        },
        research: match one {
            Some(b) => research_buttons(
                cat.building_row(b.kind).researches@,
                !b.unfinished,
                w.ladders@,
                b.researching,
            ),
            None => Seq::empty(),
        },
    }
}

pub fn assemble_hero_cmds(cat: &Catalog, w: &World, last: Option<u64>) -> (r: HeroCmds)
    requires
        cat.wf(),
    ensures
        r@ == hero_cmds(cat, w, last),
{
    let cs = list_casters(cat, w);
    let buyer = find_customer(cat, w, last);
    let one = find_single(w);
    assert(cs@.len() == casters(cat, w).len());
    let (abilities, items): (Vec<AbilitySlot>, [Option<ItemId>; 2]) = if cs.len() > 0 {
        assert(*cs@[0] == casters(cat, w)[0]) by {
            assert(unrefs(cs@)[0] == *cs@[0]);
        }
        (ability_slots(&cat.unit(cs[0].kind).abilities, &cs[0].abilities), bag_of(cs[0].items))
    } else {
        (Vec::new(), [None, None])
    };
    let mut building_abilities: Vec<AbilitySlot> = Vec::new();
    let mut shop: Option<ShopState> = None;
    let mut upgrade: Option<(BuildingKind, u32, u32)> = None;
    let mut research: Vec<ResearchCmd> = Vec::new();
    if let Some(b) = one {
        if !b.unfinished {
            building_abilities = ability_slots(&cat.building(b.kind).abilities, &b.abilities);
            if b.kind == BuildingKind::Shop {
                shop = Some(
                    ShopState {
                        hero: buyer.is_some(),
                        room: match buyer {
                            Some(h) => h.1[0].is_none() || h.1[1].is_none(),
                            None => false,
                        },
                        tier: w.tier,
                    },
                );
            }
            if !b.upgrading {
                upgrade = cat.building(b.kind).upgrade;
            }
        }
        research = research_cmds(
            &cat.building(b.kind).researches,
            !b.unfinished,
            &w.ladders,
            b.researching,
        );
    }
    let r = HeroCmds {
        train: Some(hero_train_state(cat, w)),
        abilities,
        building_abilities,
        shop,
        upgrade,
        items,
        research,
    };
    assert(r@.abilities =~= hero_cmds(cat, w, last).abilities);
    assert(r@.building_abilities =~= hero_cmds(cat, w, last).building_abilities);
    assert(r@.research =~= hero_cmds(cat, w, last).research);
    r
}

/// What the doctrine card is drawn from.
pub open spec fn card_of(
    cat: &Catalog,
    w: &World,
    region_radius: Option<i64>,
    region_armed: bool,
) -> DoctrineCard {
    let doc = doc_of(cat, w);
    DoctrineCard {
        doc,
        posture: match squad_posture(w, doc.squad) {
            Some(p) => Some(p.spec_kind()),
            None => None,
        },
        tmpl: template_of(cat, w),
        home_guard: armed_rule(w.triggers@, home_guard()),
        region_mark: lowest_mark(w.regions@, 1),
        region_count: w.regions@.len() as usize,
        region_radius: match region_radius {
            Some(r) => r,
            None => REGION_MARK_RADIUS,
        },
        region_armed,
    }
}

pub fn assemble_card(
    cat: &Catalog,
    w: &World,
    region_radius: Option<i64>,
    region_armed: bool,
) -> (r: DoctrineCard)
    requires
        cat.wf(),
        all_named(w.sel_units@),
    ensures
        r == card_of(cat, w, region_radius, region_armed),
{
    let doc = tally_doctrine(cat, w);
    DoctrineCard {
        doc,
        posture: match find_posture(w, doc.squad) {
            Some(p) => Some(posture_kind(p)),
            None => None,
        },
        tmpl: read_template(cat, w),
        home_guard: has_trigger(&w.triggers, "home-guard"),
        region_mark: mark_number(&w.regions),
        region_count: w.regions.len(),
        region_radius: match region_radius {
            Some(r) => r,
            None => REGION_MARK_RADIUS,
        },
        region_armed,
    }
}

} // verus!
