//! What is under the cursor. All picking is analytic: distances are tested
//! against a radius and the nearest wins, the first one found where two tie.

use vstd::prelude::*;

use crate::catalog::{BuildingKind, Catalog, ResourceKind};
use crate::entity::{entity_index, names_entity, slot_of};
use crate::lists::{find_nearest, in_order, nearest, order_by_key, picked, picked_step, values};
use crate::map::{dist2, dist_sq, Pos};
use crate::ui_state::Px;

verus! {

/// How much wider than its body a unit is to the cursor.
pub const PICK_SLACK: i64 = 100;

/// Click radius of a tree.
pub const TREE_PICK_RADIUS: i64 = 2_000;

/// Click radius of a gold mine.
pub const MINE_PICK_RADIUS: i64 = 3_500;

/// A unit as the mouse sees it.
#[derive(Clone, Copy, PartialEq, Eq, Debug, Structural)]
pub struct ClickUnit {
    pub id: u64,
    pub own: bool,
    pub selected: bool,
    pub worker: bool,
    pub carrying: bool,
    /// The fog lets the player see it.
    pub seen: bool,
    pub pos: Pos,
    /// How far the cursor is from it, on the plane at the unit's own height.
    pub reach: i64,
    /// Where it is on the screen, if it is.
    pub on_screen: Option<Px>,
}

/// A building as the mouse sees it.
#[derive(Clone, Copy, PartialEq, Eq, Debug, Structural)]
pub struct ClickBuilding {
    pub id: u64,
    pub kind: BuildingKind,
    pub own: bool,
    pub selected: bool,
    pub unfinished: bool,
    pub seen: bool,
    pub pos: Pos,
    pub on_screen: Option<Px>,
}

/// A resource node as the mouse sees it.
#[derive(Clone, Copy, PartialEq, Eq, Debug, Structural)]
pub struct ClickNode {
    pub id: u64,
    pub kind: ResourceKind,
    pub pos: Pos,
}

/// An enemy building the player remembers but does not see now.
#[derive(Clone, Copy, PartialEq, Eq, Debug, Structural)]
pub struct Remembered {
    pub id: u64,
    pub kind: BuildingKind,
    pub pos: Pos,
}

/// Everything the mouse can hit.
#[derive(Debug)]
pub struct Clickables {
    pub units: Vec<ClickUnit>,
    pub buildings: Vec<ClickBuilding>,
    pub nodes: Vec<ClickNode>,
    pub ghosts: Vec<Remembered>,
}

/// Every unit is an entity.
pub open spec fn units_named(units: Seq<ClickUnit>) -> bool {
    forall|i: int| 0 <= i < units.len() ==> names_entity((#[trigger] units[i]).id)
}

/// Whose units a click looks for.
#[derive(Clone, Copy, PartialEq, Eq, Debug, Structural)]
pub enum Whose {
    Ours,
    /// An enemy's, where the fog shows it.
    SeenEnemy,
    /// Ours, or an enemy's where the fog shows it.
    AnyoneSeen,
}

pub open spec fn belongs(u: ClickUnit, whose: Whose) -> bool {
    match whose {
        Whose::Ours => u.own,
        Whose::SeenEnemy => !u.own && u.seen,
        Whose::AnyoneSeen => u.own || u.seen,
    }
}

pub open spec fn unit_in_reach(cat: &Catalog, whose: Whose) -> spec_fn(ClickUnit) -> Option<
    (u64, i128),
> {
    |u: ClickUnit|
        if belongs(u, whose) && u.reach <= cat.unit_radius + PICK_SLACK {
            Some((u.id, u.reach as i128))
        } else {
            None
        }
}

/// The id of the nearest candidate.
pub open spec fn winner(s: Seq<(u64, i128)>) -> Option<u64> {
    match nearest(s) {
        Some(best) => Some(best.0),
        None => None,
    }
}

fn pick_winner(list: &Vec<(u64, i128)>) -> (r: Option<u64>)
    ensures
        r == winner(list@),
{
    match find_nearest(list) {
        Some(best) => Some(best.0),
        None => None,
    }
}

/// The unit under the cursor.
pub open spec fn unit_hit(cat: &Catalog, units: Seq<ClickUnit>, whose: Whose) -> Option<u64> {
    winner(picked(units, unit_in_reach(cat, whose)))
}

/// The unit under the cursor.
pub fn pick_unit(cat: &Catalog, units: &Vec<ClickUnit>, whose: Whose) -> (r: Option<u64>)
    requires
        cat.wf(),
    ensures
        r == unit_hit(cat, units@, whose),
{
    let mut list: Vec<(u64, i128)> = Vec::new();
    let mut i: usize = 0;
    while i < units.len()
        invariant
            cat.wf(),
            i <= units.len(),
            list@ == picked(units@.take(i as int), unit_in_reach(cat, whose)),
        decreases units.len() - i,
    {
        proof {
            picked_step(units@, i as int, unit_in_reach(cat, whose));
        }
        let u = units[i];
        let wanted: bool = match whose {
            Whose::Ours => u.own,
            Whose::SeenEnemy => !u.own && u.seen,
            Whose::AnyoneSeen => u.own || u.seen,
        };
        if wanted && u.reach <= cat.unit_radius + PICK_SLACK {
            list.push((u.id, u.reach as i128));
        }
        i = i + 1;
    }
    assert(units@.take(i as int) =~= units@);
    pick_winner(&list)
}

/// Whether a point is within half a footprint of a building's centre.
pub open spec fn on_footprint(cat: &Catalog, kind: BuildingKind, pos: Pos, ground: Pos) -> bool {
    let size = cat.building_row(kind).size as int;
    4 * dist2(pos, ground) <= size * size
}

/// Whether a point is within half a footprint of a building's centre.
pub fn touches(cat: &Catalog, kind: BuildingKind, pos: Pos, ground: Pos) -> (r: bool)
    requires
        cat.wf(),
    ensures
        r == on_footprint(cat, kind, pos, ground),
{
    let size: i128 = cat.building(kind).size as i128;
    let d: i128 = dist_sq(pos, ground);
    proof {
        let dx = pos.x - ground.x;
        let dz = pos.z - ground.z;
        assert(0 <= dx * dx <= 0xffff_ffff * 0xffff_ffff) by (nonlinear_arith)
            requires
                -0xffff_ffff <= dx <= 0xffff_ffff,
        ;
        assert(0 <= dz * dz <= 0xffff_ffff * 0xffff_ffff) by (nonlinear_arith)
            requires
                -0xffff_ffff <= dz <= 0xffff_ffff,
        ;
        assert(0 <= size * size <= 1_000_000 * 1_000_000) by (nonlinear_arith)
            requires
                0 <= size <= 1_000_000,
        ;
    }
    4 * d <= size * size
}

/// Which buildings a click looks for.
#[derive(Clone, Copy, PartialEq, Eq, Debug, Structural)]
pub enum WhichBuilding {
    Ours,
    /// A finished hall of ours.
    OurHall,
    /// An enemy's, where the fog shows it.
    SeenEnemy,
}

pub open spec fn fits(cat: &Catalog, b: ClickBuilding, which: WhichBuilding) -> bool {
    match which {
        WhichBuilding::Ours => b.own,
        WhichBuilding::OurHall => b.own && !b.unfinished && cat.building_row(b.kind).hall,
        WhichBuilding::SeenEnemy => !b.own && b.seen,
    }
}

fn is_wanted(cat: &Catalog, b: ClickBuilding, which: WhichBuilding) -> (r: bool)
    requires
        cat.wf(),
    ensures
        r == fits(cat, b, which),
{
    match which {
        WhichBuilding::Ours => b.own,
        WhichBuilding::OurHall => b.own && !b.unfinished && cat.building(b.kind).hall,
        WhichBuilding::SeenEnemy => !b.own && b.seen,
    }
}

pub open spec fn building_at(cat: &Catalog, ground: Pos, which: WhichBuilding) -> spec_fn(
    ClickBuilding,
) -> Option<(u64, i128)> {
    |b: ClickBuilding|
        if fits(cat, b, which) && on_footprint(cat, b.kind, b.pos, ground) {
            Some((b.id, dist2(b.pos, ground) as i128))
        } else {
            None
        }
}

/// The buildings a point lies on, with how far their centres are.
pub open spec fn buildings_at(
    cat: &Catalog,
    buildings: Seq<ClickBuilding>,
    ground: Pos,
    which: WhichBuilding,
) -> Seq<(u64, i128)> {
    picked(buildings, building_at(cat, ground, which))
}

fn list_buildings_at(
    cat: &Catalog,
    buildings: &Vec<ClickBuilding>,
    ground: Pos,
    which: WhichBuilding,
) -> (r: Vec<(u64, i128)>)
    requires
        cat.wf(),
    ensures
        r@ == buildings_at(cat, buildings@, ground, which),
{
    let mut list: Vec<(u64, i128)> = Vec::new();
    let mut i: usize = 0;
    while i < buildings.len()
        invariant
            cat.wf(),
            i <= buildings.len(),
            list@ == picked(buildings@.take(i as int), building_at(cat, ground, which)),
        decreases buildings.len() - i,
    {
        proof {
            picked_step(buildings@, i as int, building_at(cat, ground, which));
        }
        let b = buildings[i];
        if is_wanted(cat, b, which) && touches(cat, b.kind, b.pos, ground) {
            list.push((b.id, dist_sq(b.pos, ground)));
        }
        i = i + 1;
    }
    assert(buildings@.take(i as int) =~= buildings@);
    list
}

/// The building under a point of the ground.
pub open spec fn building_hit(
    cat: &Catalog,
    buildings: Seq<ClickBuilding>,
    ground: Pos,
    which: WhichBuilding,
) -> Option<u64> {
    winner(buildings_at(cat, buildings, ground, which))
}

/// The building under a point of the ground.
pub fn pick_building(
    cat: &Catalog,
    buildings: &Vec<ClickBuilding>,
    ground: Pos,
    which: WhichBuilding,
) -> (r: Option<u64>)
    requires
        cat.wf(),
    ensures
        r == building_hit(cat, buildings@, ground, which),
{
    pick_winner(&list_buildings_at(cat, buildings, ground, which))
}

pub open spec fn ghost_at(cat: &Catalog, ground: Pos) -> spec_fn(Remembered) -> Option<
    (u64, i128),
> {
    |g: Remembered|
        if names_entity(g.id) && on_footprint(cat, g.kind, g.pos, ground) {
            Some((g.id, dist2(g.pos, ground) as i128))
        } else {
            None
        }
}

/// The remembered buildings a point lies on; a record that names no entity is
/// no target.
pub open spec fn ghosts_at(cat: &Catalog, ghosts: Seq<Remembered>, ground: Pos) -> Seq<(u64, i128)> {
    picked(ghosts, ghost_at(cat, ground))
}

/// The enemy under the cursor: a unit where one is hit, else the nearest
/// building, seen or remembered.
pub open spec fn enemy_hit(cat: &Catalog, c: &Clickables, ground: Pos) -> Option<u64> {
    match unit_hit(cat, c.units@, Whose::SeenEnemy) {
        Some(id) => Some(id),
        None => winner(
            buildings_at(cat, c.buildings@, ground, WhichBuilding::SeenEnemy) + ghosts_at(
                cat,
                c.ghosts@,
                ground,
            ),
        ),
    }
}

/// The enemy under the cursor.
pub fn pick_enemy(cat: &Catalog, c: &Clickables, ground: Pos) -> (r: Option<u64>)
    requires
        cat.wf(),
    ensures
        r == enemy_hit(cat, c, ground),
{
    if let Some(id) = pick_unit(cat, &c.units, Whose::SeenEnemy) {
        return Some(id);
    }
    let mut list = list_buildings_at(cat, &c.buildings, ground, WhichBuilding::SeenEnemy);
    let ghost live = list@;
    let mut i: usize = 0;
    assert(list@ =~= live + ghosts_at(cat, c.ghosts@.take(0), ground));
    while i < c.ghosts.len()
        invariant
            cat.wf(),
            i <= c.ghosts.len(),
            list@ == live + ghosts_at(cat, c.ghosts@.take(i as int), ground),
        decreases c.ghosts.len() - i,
    {
        proof {
            picked_step(c.ghosts@, i as int, ghost_at(cat, ground));
        }
        let g = c.ghosts[i];
        let ghost before = ghosts_at(cat, c.ghosts@.take(i as int), ground);
        if touches(cat, g.kind, g.pos, ground) && entity_index(g.id).is_some() {
            let d: i128 = dist_sq(g.pos, ground);
            list.push((g.id, d));
            assert(list@ =~= live + before.push((g.id, d)));
        }
        i = i + 1;
    }
    assert(c.ghosts@.take(i as int) =~= c.ghosts@);
    pick_winner(&list)
}

pub open spec fn node_radius(kind: ResourceKind) -> int {
    match kind {
        ResourceKind::Gold => MINE_PICK_RADIUS as int,
        ResourceKind::Lumber => TREE_PICK_RADIUS as int,
    }
}

pub open spec fn node_at(ground: Pos) -> spec_fn(ClickNode) -> Option<(u64, i128)> {
    |n: ClickNode|
        if dist2(n.pos, ground) <= node_radius(n.kind) * node_radius(n.kind) {
            Some((n.id, dist2(n.pos, ground) as i128))
        } else {
            None
        }
}

/// The resource node under a point of the ground.
pub open spec fn node_hit(nodes: Seq<ClickNode>, ground: Pos) -> Option<u64> {
    winner(picked(nodes, node_at(ground)))
}

/// The resource node under a point of the ground.
pub fn pick_node(nodes: &Vec<ClickNode>, ground: Pos) -> (r: Option<u64>)
    ensures
        r == node_hit(nodes@, ground),
{
    let mut list: Vec<(u64, i128)> = Vec::new();
    let mut i: usize = 0;
    while i < nodes.len()
        invariant
            i <= nodes.len(),
            list@ == picked(nodes@.take(i as int), node_at(ground)),
        decreases nodes.len() - i,
    {
        proof {
            picked_step(nodes@, i as int, node_at(ground));
        }
        let n = nodes[i];
        let limit: i128 = match n.kind {
            ResourceKind::Gold => 3_500 * 3_500,
            ResourceKind::Lumber => 2_000 * 2_000,
        };
        let d: i128 = dist_sq(n.pos, ground);
        if d <= limit {
            list.push((n.id, d));
        }
        i = i + 1;
    }
    assert(nodes@.take(i as int) =~= nodes@);
    pick_winner(&list)
}

// ---------------------------------------------------------------------------
// The selection
// ---------------------------------------------------------------------------

/// A selected unit of the player's, with what a context order asks about it.
#[derive(Clone, Copy, PartialEq, Eq, Debug, Structural)]
pub struct Picked {
    pub id: u64,
    pub worker: bool,
    pub carrying: bool,
}

pub open spec fn own_selected() -> spec_fn(ClickUnit) -> Option<(i64, Picked)> {
    |u: ClickUnit|
        if u.selected && u.own {
            Some(
                (
                    slot_of(u.id) as i64,
                    Picked { id: u.id, worker: u.worker, carrying: u.carrying },
                ),
            )
        } else {
            None
        }
}

/// The player's selected units in slot order, which keeps formations stable.
pub open spec fn group(units: Seq<ClickUnit>) -> Seq<Picked> {
    values(in_order(picked(units, own_selected())))
}

pub open spec fn ids_of(s: Seq<Picked>) -> Seq<u64> {
    s.map_values(|p: Picked| p.id)
}

/// The player's selected units in slot order.
pub fn list_group(units: &Vec<ClickUnit>) -> (r: Vec<Picked>)
    requires
        units_named(units@),
    ensures
        r@ == group(units@),
{
    let mut list: Vec<(i64, Picked)> = Vec::new();
    let mut i: usize = 0;
    while i < units.len()
        invariant
            units_named(units@),
            i <= units.len(),
            list@ == picked(units@.take(i as int), own_selected()),
        decreases units.len() - i,
    {
        proof {
            picked_step(units@, i as int, own_selected());
        }
        let u = units[i];
        if u.selected && u.own {
            if let Some(slot) = entity_index(u.id) {
                list.push(
                    (slot as i64, Picked { id: u.id, worker: u.worker, carrying: u.carrying }),
                );
            }
        }
        i = i + 1;
    }
    assert(units@.take(i as int) =~= units@);
    let sorted = order_by_key(&list);
    let mut out: Vec<Picked> = Vec::new();
    let mut j: usize = 0;
    while j < sorted.len()
        invariant
            j <= sorted.len(),
            out@ == values(sorted@).take(j as int),
        decreases sorted.len() - j,
    {
        out.push(sorted[j].1);
        j = j + 1;
        assert(out@ =~= values(sorted@).take(j as int));
    }
    assert(out@ =~= values(sorted@));
    out
}

/// The ids of a group.
pub fn entities_of(list: &Vec<Picked>) -> (r: Vec<u64>)
    ensures
        r@ == ids_of(list@),
{
    let mut out: Vec<u64> = Vec::new();
    let mut i: usize = 0;
    while i < list.len()
        invariant
            i <= list.len(),
            out@ == ids_of(list@).take(i as int),
        decreases list.len() - i,
    {
        out.push(list[i].id);
        i = i + 1;
        assert(out@ =~= ids_of(list@).take(i as int));
    }
    assert(out@ =~= ids_of(list@));
    out
}

} // verus!
