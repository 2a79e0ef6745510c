//! What clicks come to: what a click takes, whom a context order speaks to and
//! what it tells them, and whom a box catches.

use vstd::prelude::*;

use crate::catalog::{BuildingKind, Catalog, ResourceKind};
use crate::gestures::{idles, loaded, not_leader, rallies, right_step, unloaded, works, Mouse};
use crate::intent::{RallyTo, Said};
use crate::layout::on_hud;
use crate::lists::{nearest_is_nearest, ordered_places, picked, picked_places};
use crate::map::Pos;
use crate::pick::{
    building_at, building_hit, buildings_at, enemy_hit, ghost_at, ghosts_at, group, ids_of,
    node_at, node_hit, own_selected, unit_hit, unit_in_reach, winner, ClickBuilding, ClickNode,
    ClickUnit, Clickables, Picked, Remembered, WhichBuilding, Whose,
};
use crate::ui_state::UiView;

verus! {

// ---------------------------------------------------------------------------
// What a click takes
// ---------------------------------------------------------------------------

/// The square of the distance between two points.
pub open spec fn apart(a: Pos, b: Pos) -> int {
    let dx = a.x - b.x;
    let dz = a.z - b.z;
    dx * dx + dz * dz
}

/// A unit is hit within a tenth of a unit of its body.
pub open spec fn under_cursor(cat: &Catalog, u: ClickUnit, whose: Whose) -> bool {
    &&& u.reach <= cat.unit_radius + 100
    &&& match whose {
        Whose::Ours => u.own,
        Whose::SeenEnemy => !u.own && u.seen,
        Whose::AnyoneSeen => u.own || u.seen,
    }
}

/// A building is hit within half its footprint's edge of its middle.
pub open spec fn stands_on(cat: &Catalog, kind: BuildingKind, at: Pos, ground: Pos) -> bool {
    let edge = cat.building_row(kind).size as int;
    4 * apart(at, ground) <= edge * edge
}

pub open spec fn under_point(
    cat: &Catalog,
    b: ClickBuilding,
    ground: Pos,
    which: WhichBuilding,
) -> bool {
    &&& stands_on(cat, b.kind, b.pos, ground)
    &&& match which {
        WhichBuilding::Ours => b.own,
        WhichBuilding::OurHall => b.own && !b.unfinished && cat.building_row(b.kind).hall,
        WhichBuilding::SeenEnemy => !b.own && b.seen,
    }
}

/// A mine is hit within three and a half units, a tree within two.
pub open spec fn in_node(n: ClickNode, ground: Pos) -> bool {
    apart(n.pos, ground) <= (match n.kind {
        ResourceKind::Gold => 12_250_000int,
        ResourceKind::Lumber => 4_000_000int,
    })
}

/// Some unit that a click looks for is under the cursor.
pub open spec fn any_unit(cat: &Catalog, units: Seq<ClickUnit>, whose: Whose) -> bool {
    exists|i: int| 0 <= i < units.len() && under_cursor(cat, #[trigger] units[i], whose)
}

pub open spec fn any_building(
    cat: &Catalog,
    buildings: Seq<ClickBuilding>,
    ground: Pos,
    which: WhichBuilding,
) -> bool {
    exists|i: int|
        0 <= i < buildings.len() && under_point(cat, #[trigger] buildings[i], ground, which)
}

pub open spec fn any_node(nodes: Seq<ClickNode>, ground: Pos) -> bool {
    exists|i: int| 0 <= i < nodes.len() && in_node(#[trigger] nodes[i], ground)
}

/// A remembered building that still has a name stands there.
pub open spec fn in_memory(cat: &Catalog, g: Remembered, ground: Pos) -> bool {
    &&& stands_on(cat, g.kind, g.pos, ground)
    &&& 0x1_0000_0000 <= g.id < 0x8000_0000_0000_0000
}

pub open spec fn any_memory(cat: &Catalog, ghosts: Seq<Remembered>, ground: Pos) -> bool {
    exists|i: int| 0 <= i < ghosts.len() && in_memory(cat, #[trigger] ghosts[i], ground)
}

/// Something hostile stands there: a unit or a building in sight, or a building
/// that is remembered.
pub open spec fn any_enemy(cat: &Catalog, c: &Clickables, ground: Pos) -> bool {
    ||| any_unit(cat, c.units@, Whose::SeenEnemy)
    ||| any_building(cat, c.buildings@, ground, WhichBuilding::SeenEnemy)
    ||| any_memory(cat, c.ghosts@, ground)
}

/// The winner of a list is yielded by an element, none yields anything nearer,
/// and none before it anything as near.
pub proof fn winners_are_nearest<T>(s: Seq<T>, f: spec_fn(T) -> Option<(u64, i128)>) -> (i: int)
    ensures
        match winner(picked(s, f)) {
            None => forall|j: int| 0 <= j < s.len() ==> f(#[trigger] s[j]) is None,
            Some(id) => {
                &&& 0 <= i < s.len()
                &&& f(s[i]) is Some && (f(s[i])->0).0 == id
                &&& forall|j: int|
                    0 <= j < s.len() && f(#[trigger] s[j]) is Some ==> (f(s[i])->0).1 <= (f(s[j])->0).1
                        && (j < i ==> (f(s[i])->0).1 < (f(s[j])->0).1)
            },
        },
{
    let list = picked(s, f);
    let at = picked_places(s, f);
    if list.len() == 0 {
        assert forall|j: int| 0 <= j < s.len() implies f(#[trigger] s[j]) is None by {
            if f(s[j]) is Some {
                assert(at.contains(j));
            }
        }
        0
    } else {
        let k = nearest_is_nearest(list);
        let i = at[k];
        assert forall|j: int| 0 <= j < s.len() && f(#[trigger] s[j]) is Some implies (f(s[i])->0).1
            <= (f(s[j])->0).1 && (j < i ==> (f(s[i])->0).1 < (f(s[j])->0).1) by {
            assert(at.contains(j));
            let l = choose|l: int| 0 <= l < at.len() && at[l] == j;
            assert(list[k].1 <= list[l].1);
            if j < i {
                assert(l < k) by {
                    if k < l {
                        assert(at[k] < at[l]);
                    }
                }
                assert(list[k].1 < list[l].1);
            }
        }
        i
    }
}

pub proof fn distances_fit(a: Pos, b: Pos)
    ensures
        0 <= apart(a, b) < 0x1000_0000_0000_0000_0000,
        crate::map::dist2(a, b) == apart(a, b),
        crate::map::dist2(a, b) as i128 == apart(a, b),
{
    let dx = a.x - b.x;
    let dz = a.z - b.z;
    assert(0 <= dx * dx <= 0x1_0000_0000 * 0x1_0000_0000) by (nonlinear_arith)
        requires
            -0x1_0000_0000 <= dx <= 0x1_0000_0000,
    ;
    assert(0 <= dz * dz <= 0x1_0000_0000 * 0x1_0000_0000) by (nonlinear_arith)
        requires
            -0x1_0000_0000 <= dz <= 0x1_0000_0000,
    ;
}

/// A click takes the unit nearest to the cursor among those it looks for and
/// hits, the first of them where several are as near, and misses where it hits
/// none.
pub proof fn clicks_take_the_nearest_unit(cat: &Catalog, units: Seq<ClickUnit>, whose: Whose) -> (i:
    int)
    ensures
        match unit_hit(cat, units, whose) {
            None => !any_unit(cat, units, whose),
            Some(id) => {
                &&& 0 <= i < units.len()
                &&& units[i].id == id
                &&& under_cursor(cat, units[i], whose)
                &&& forall|j: int|
                    0 <= j < units.len() && under_cursor(cat, #[trigger] units[j], whose)
                        ==> units[i].reach <= units[j].reach && (j < i ==> units[i].reach
                        < units[j].reach)
            },
        },
        unit_hit(cat, units, whose) is Some <==> any_unit(cat, units, whose),
{
    let f = unit_in_reach(cat, whose);
    let i = winners_are_nearest(units, f);
    assert forall|j: int| 0 <= j < units.len() implies under_cursor(
        cat,
        #[trigger] units[j],
        whose,
    ) == (f(units[j]) is Some) && (f(units[j]) is Some ==> f(units[j])->0 == (
        units[j].id,
        units[j].reach as i128,
    )) by {}
    if unit_hit(cat, units, whose) is Some {
        assert(under_cursor(cat, units[i], whose));
    }
    i
}

/// A click takes the building whose middle is nearest among those it looks for
/// and hits, the first of them where several are as near, and misses where it
/// hits none.
pub proof fn clicks_take_the_nearest_building(
    cat: &Catalog,
    buildings: Seq<ClickBuilding>,
    ground: Pos,
    which: WhichBuilding,
) -> (i: int)
    ensures
        match building_hit(cat, buildings, ground, which) {
            None => !any_building(cat, buildings, ground, which),
            Some(id) => {
                &&& 0 <= i < buildings.len()
                &&& buildings[i].id == id
                &&& under_point(cat, buildings[i], ground, which)
                &&& forall|j: int|
                    0 <= j < buildings.len() && under_point(
                        cat,
                        #[trigger] buildings[j],
                        ground,
                        which,
                    ) ==> apart(buildings[i].pos, ground) <= apart(buildings[j].pos, ground) && (j
                        < i ==> apart(buildings[i].pos, ground) < apart(buildings[j].pos, ground))
            },
        },
        building_hit(cat, buildings, ground, which) is Some <==> any_building(
            cat,
            buildings,
            ground,
            which,
        ),
{
    let f = building_at(cat, ground, which);
    let i = winners_are_nearest(buildings, f);
    assert forall|j: int| 0 <= j < buildings.len() implies under_point(
        cat,
        #[trigger] buildings[j],
        ground,
        which,
    ) == (f(buildings[j]) is Some) && (f(buildings[j]) is Some ==> (f(buildings[j])->0).0
        == buildings[j].id && (f(buildings[j])->0).1 == apart(buildings[j].pos, ground)) by {
        distances_fit(buildings[j].pos, ground);
    }
    if building_hit(cat, buildings, ground, which) is Some {
        assert(under_point(cat, buildings[i], ground, which));
    }
    i
}

/// A click takes the node nearest to it among those it hits, and misses where
/// it hits none.
pub proof fn clicks_take_the_nearest_node(nodes: Seq<ClickNode>, ground: Pos) -> (i: int)
    ensures
        match node_hit(nodes, ground) {
            None => !any_node(nodes, ground),
            Some(id) => {
                &&& 0 <= i < nodes.len()
                &&& nodes[i].id == id
                &&& in_node(nodes[i], ground)
                &&& forall|j: int|
                    0 <= j < nodes.len() && in_node(#[trigger] nodes[j], ground) ==> apart(
                        nodes[i].pos,
                        ground,
                    ) <= apart(nodes[j].pos, ground) && (j < i ==> apart(nodes[i].pos, ground)
                        < apart(nodes[j].pos, ground))
            },
        },
        node_hit(nodes, ground) is Some <==> any_node(nodes, ground),
{
    let f = node_at(ground);
    let i = winners_are_nearest(nodes, f);
    assert forall|j: int| 0 <= j < nodes.len() implies in_node(#[trigger] nodes[j], ground) == (f(
        nodes[j],
    ) is Some) && (f(nodes[j]) is Some ==> (f(nodes[j])->0).0 == nodes[j].id && (f(nodes[j])->0).1
        == apart(nodes[j].pos, ground)) by {
        distances_fit(nodes[j].pos, ground);
        let r = crate::pick::node_radius(nodes[j].kind);
        if nodes[j].kind == ResourceKind::Gold {
            assert(r * r == 12_250_000) by (nonlinear_arith)
                requires
                    r == 3_500,
            ;
        } else {
            assert(r * r == 4_000_000) by (nonlinear_arith)
                requires
                    r == 2_000,
            ;
        }
    }
    if node_hit(nodes, ground) is Some {
        assert(in_node(nodes[i], ground));
    }
    i
}

/// An attack goes to an enemy unit under the cursor where there is one, and else
/// to the nearest hostile building, whether it is seen or remembered. Where
/// nothing hostile stands there is nothing to attack.
pub proof fn clicks_take_the_nearest_enemy(cat: &Catalog, c: &Clickables, ground: Pos)
    ensures
        enemy_hit(cat, c, ground) is Some <==> any_enemy(cat, c, ground),
        any_unit(cat, c.units@, Whose::SeenEnemy) ==> enemy_hit(cat, c, ground) == unit_hit(
            cat,
            c.units@,
            Whose::SeenEnemy,
        ),
        any_enemy(cat, c, ground) && !any_unit(cat, c.units@, Whose::SeenEnemy) ==> {
            let id = enemy_hit(cat, c, ground)->0;
            ||| exists|i: int|
                0 <= i < c.buildings@.len() && (#[trigger] c.buildings@[i]).id == id && under_point(
                    cat,
                    c.buildings@[i],
                    ground,
                    WhichBuilding::SeenEnemy,
                ) && nothing_hostile_is_nearer(cat, c, ground, apart(c.buildings@[i].pos, ground))
            ||| exists|i: int|
                0 <= i < c.ghosts@.len() && (#[trigger] c.ghosts@[i]).id == id && in_memory(
                    cat,
                    c.ghosts@[i],
                    ground,
                ) && nothing_hostile_is_nearer(cat, c, ground, apart(c.ghosts@[i].pos, ground))
        },
{
    let i = clicks_take_the_nearest_unit(cat, c.units@, Whose::SeenEnemy);
    let fb = building_at(cat, ground, WhichBuilding::SeenEnemy);
    let fg = ghost_at(cat, ground);
    let live = buildings_at(cat, c.buildings@, ground, WhichBuilding::SeenEnemy);
    let old_ones = ghosts_at(cat, c.ghosts@, ground);
    let at = picked_places(c.buildings@, fb);
    let gat = picked_places(c.ghosts@, fg);
    let all = live + old_ones;
    assert forall|j: int| 0 <= j < c.buildings@.len() implies under_point(
        cat,
        #[trigger] c.buildings@[j],
        ground,
        WhichBuilding::SeenEnemy,
    ) == (fb(c.buildings@[j]) is Some) && (fb(c.buildings@[j]) is Some ==> (fb(c.buildings@[j])->0).0
        == c.buildings@[j].id && (fb(c.buildings@[j])->0).1 == apart(c.buildings@[j].pos, ground)) by {
        distances_fit(c.buildings@[j].pos, ground);
    }
    assert forall|j: int| 0 <= j < c.ghosts@.len() implies in_memory(
        cat,
        #[trigger] c.ghosts@[j],
        ground,
    ) == (fg(c.ghosts@[j]) is Some) && (fg(c.ghosts@[j]) is Some ==> (fg(c.ghosts@[j])->0).0
        == c.ghosts@[j].id && (fg(c.ghosts@[j])->0).1 == apart(c.ghosts@[j].pos, ground)) by {
        distances_fit(c.ghosts@[j].pos, ground);
    }
    if any_unit(cat, c.units@, Whose::SeenEnemy) {
    } else if all.len() == 0 {
        assert(!any_building(cat, c.buildings@, ground, WhichBuilding::SeenEnemy)) by {
            if any_building(cat, c.buildings@, ground, WhichBuilding::SeenEnemy) {
                let j = choose|j: int|
                    0 <= j < c.buildings@.len() && under_point(
                        cat,
                        #[trigger] c.buildings@[j],
                        ground,
                        WhichBuilding::SeenEnemy,
                    );
                assert(at.contains(j));
            }
        }
        assert(!any_memory(cat, c.ghosts@, ground)) by {
            if any_memory(cat, c.ghosts@, ground) {
                let j = choose|j: int|
                    0 <= j < c.ghosts@.len() && in_memory(cat, #[trigger] c.ghosts@[j], ground);
                assert(gat.contains(j));
            }
        }
    } else {
        let k = nearest_is_nearest(all);
        let d = all[k].1 as int;
        assert(nothing_hostile_is_nearer(cat, c, ground, d)) by {
            assert forall|j: int|
                0 <= j < c.buildings@.len() && under_point(
                    cat,
                    #[trigger] c.buildings@[j],
                    ground,
                    WhichBuilding::SeenEnemy,
                ) implies d <= apart(c.buildings@[j].pos, ground) by {
                assert(at.contains(j));
                let l = choose|l: int| 0 <= l < at.len() && at[l] == j;
                assert(all[l] == live[l]);
            }
            assert forall|j: int|
                0 <= j < c.ghosts@.len() && in_memory(
                    cat,
                    #[trigger] c.ghosts@[j],
                    ground,
                ) implies d <= apart(c.ghosts@[j].pos, ground) by {
                assert(gat.contains(j));
                let l = choose|l: int| 0 <= l < gat.len() && gat[l] == j;
                assert(all[live.len() + l] == old_ones[l]);
            }
        }
        if k < live.len() {
            assert(all[k] == live[k]);
            let j = at[k];
            assert(under_point(cat, c.buildings@[j], ground, WhichBuilding::SeenEnemy));
        } else {
            assert(all[k] == old_ones[k - live.len()]);
            let j = gat[k - live.len()];
            assert(in_memory(cat, c.ghosts@[j], ground));
        }
    }
}

/// No hostile building that a point lies on is nearer to it.
pub open spec fn nothing_hostile_is_nearer(cat: &Catalog, c: &Clickables, ground: Pos, d: int) -> bool {
    &&& forall|j: int|
        0 <= j < c.buildings@.len() && under_point(
            cat,
            #[trigger] c.buildings@[j],
            ground,
            WhichBuilding::SeenEnemy,
        ) ==> d <= apart(c.buildings@[j].pos, ground)
    &&& forall|j: int|
        0 <= j < c.ghosts@.len() && in_memory(cat, #[trigger] c.ghosts@[j], ground) ==> d <= apart(
            c.ghosts@[j].pos,
            ground,
        )
}

// ---------------------------------------------------------------------------
// Whom an order speaks to
// ---------------------------------------------------------------------------

/// `at` lists our selected units of which `who` holds, each once and in the
/// order of their slots.
pub open spec fn selected_who(units: Seq<ClickUnit>, at: Seq<int>, who: spec_fn(ClickUnit) -> bool) -> bool {
    &&& forall|k: int|
        0 <= k < at.len() ==> 0 <= #[trigger] at[k] < units.len() && units[at[k]].selected
            && units[at[k]].own && who(units[at[k]])
    &&& forall|k: int, l: int|
        0 <= k < l < at.len() ==> {
            let (a, b) = (units[#[trigger] at[k]].id % 0x1_0000_0000, units[#[trigger] at[l]].id
                % 0x1_0000_0000);
            a < b || (a == b && at[k] < at[l])
        }
    &&& forall|i: int|
        0 <= i < units.len() && (#[trigger] units[i]).selected && units[i].own && who(units[i])
            ==> at.contains(i)
}

/// The ids of the units that `at` lists.
pub open spec fn ids_at(units: Seq<ClickUnit>, at: Seq<int>) -> Seq<u64> {
    Seq::new(at.len(), |k: int| units[at[k]].id)
}

/// The player's group is all of our selected units, each once, in the order of
/// their slots.
pub proof fn groups_are_the_selection(units: Seq<ClickUnit>) -> (at: Seq<int>)
    ensures
        selected_who(units, at, |u: ClickUnit| true),
        group(units).len() == at.len(),
        forall|k: int|
            0 <= k < at.len() ==> (#[trigger] group(units)[k]).id == units[at[k]].id
                && group(units)[k].worker == units[at[k]].worker && group(units)[k].carrying
                == units[at[k]].carrying,
        ids_of(group(units)) == ids_at(units, at),
{
    let f = own_selected();
    let list = picked(units, f);
    let a = picked_places(units, f);
    let o = ordered_places(list);
    let at = Seq::new(o.len(), |k: int| a[o[k]]);
    assert forall|k: int| 0 <= k < at.len() implies 0 <= #[trigger] at[k] < units.len() && f(
        units[at[k]],
    ) == Some(list[o[k]]) && list[o[k]] == crate::lists::in_order(list)[k] by {
        assert(0 <= o[k] < list.len());
        assert(0 <= a[o[k]] < units.len());
    }
    assert forall|k: int, l: int| 0 <= k < l < at.len() implies ({
        let (x, y) = (units[#[trigger] at[k]].id % 0x1_0000_0000, units[#[trigger] at[l]].id
            % 0x1_0000_0000);
        x < y || (x == y && at[k] < at[l])
    }) by {
        assert(list[o[k]].0 <= list[o[l]].0);
        if o[k] < o[l] {
            assert(a[o[k]] < a[o[l]]);
        }
    }
    assert forall|i: int| 0 <= i < units.len() && (#[trigger] units[i]).selected && units[i].own implies
        at.contains(i) by {
        assert(f(units[i]) is Some);
        assert(a.contains(i));
        let j = choose|j: int| 0 <= j < a.len() && a[j] == i;
        assert(o.contains(j));
        let k = choose|k: int| 0 <= k < o.len() && o[k] == j;
        assert(at[k] == i);
    }
    assert(ids_of(group(units)) =~= ids_at(units, at));
    at
}

/// Those of the group that `f` keeps, where it keeps the ones of which `who`
/// holds.
proof fn parts_are_parts(
    units: Seq<ClickUnit>,
    f: spec_fn(Picked) -> Option<u64>,
    who: spec_fn(ClickUnit) -> bool,
) -> (at: Seq<int>)
    requires
        forall|u: ClickUnit|
            #[trigger] who(u) == (f(
                Picked { id: u.id, worker: u.worker, carrying: u.carrying },
            ) is Some),
        forall|p: Picked| #[trigger] f(p) is Some ==> f(p) == Some(p.id),
    ensures
        selected_who(units, at, who),
        picked(group(units), f) == ids_at(units, at),
{
    let g = group(units);
    let all = groups_are_the_selection(units);
    let a = picked_places(g, f);
    let at = Seq::new(a.len(), |k: int| all[a[k]]);
    assert forall|k: int| 0 <= k < g.len() implies #[trigger] g[k] == (Picked {
        id: units[all[k]].id,
        worker: units[all[k]].worker,
        carrying: units[all[k]].carrying,
    }) by {}
    assert forall|k: int| 0 <= k < at.len() implies 0 <= #[trigger] at[k] < units.len()
        && units[at[k]].selected && units[at[k]].own && who(units[at[k]]) by {
        assert(0 <= a[k] < g.len());
        assert(0 <= all[a[k]] < units.len());
        assert(f(g[a[k]]) is Some);
    }
    assert forall|k: int, l: int| 0 <= k < l < at.len() implies ({
        let (x, y) = (units[#[trigger] at[k]].id % 0x1_0000_0000, units[#[trigger] at[l]].id
            % 0x1_0000_0000);
        x < y || (x == y && at[k] < at[l])
    }) by {
        assert(a[k] < a[l]);
        assert(0 <= all[a[k]] < units.len());
        assert(0 <= all[a[l]] < units.len());
    }
    assert forall|i: int|
        0 <= i < units.len() && (#[trigger] units[i]).selected && units[i].own && who(
            units[i],
        ) implies at.contains(i) by {
        assert(all.contains(i));
        let j = choose|j: int| 0 <= j < all.len() && all[j] == i;
        assert(f(g[j]) is Some);
        assert(a.contains(j));
        let k = choose|k: int| 0 <= k < a.len() && a[k] == j;
        assert(at[k] == i);
    }
    assert(picked(g, f) =~= ids_at(units, at)) by {
        assert forall|k: int| 0 <= k < at.len() implies #[trigger] picked(g, f)[k] == ids_at(
            units,
            at,
        )[k] by {
            assert(0 <= a[k] < g.len());
            assert(f(g[a[k]]) == Some(picked(g, f)[k]));
        }
    }
    at
}

// ---------------------------------------------------------------------------
// Context orders
// ---------------------------------------------------------------------------

/// A right click on open ground of the world while the game is on and nothing
/// waits for a click.
pub open spec fn asks_for_context(m: Mouse, ui: UiView, ground: Pos) -> bool {
    &&& m.right_pressed
    &&& m.cursor is Some
    &&& m.ground == Some(ground)
    &&& !on_hud(m.cursor->0, m.window, ui.notif_rows as nat, ui.prop_cards as nat, m.hud)
    &&& !ui.attack_move_armed && ui.placement is None && ui.posture_place is None
        && ui.cast_place is None && !ui.region_place && ui.teleport_place is None
}

/// Some unit of ours is selected.
pub open spec fn any_selected(units: Seq<ClickUnit>) -> bool {
    exists|i: int| 0 <= i < units.len() && (#[trigger] units[i]).selected && units[i].own
}

/// A sentence that is said only to somebody.
pub open spec fn to_them(at: Seq<int>, s: Said) -> Seq<Said> {
    if at.len() == 0 {
        Seq::empty()
    } else {
        Seq::empty().push(s)
    }
}

proof fn groups_are_there(units: Seq<ClickUnit>) -> (at: Seq<int>)
    ensures
        selected_who(units, at, |u: ClickUnit| true),
        ids_of(group(units)) == ids_at(units, at),
        group(units).len() == at.len(),
        at.len() > 0 <==> any_selected(units),
{
    let at = groups_are_the_selection(units);
    if at.len() > 0 {
        let i = at[0];
        assert(units[i].selected && units[i].own);
    }
    if any_selected(units) {
        let i = choose|i: int| 0 <= i < units.len() && (#[trigger] units[i]).selected && units[i].own;
        assert(at.contains(i));
    }
    at
}

/// With units selected, a right click on an enemy tells all of them, and nobody
/// else, to attack it, and says nothing more.
pub proof fn enemies_are_attacked(
    cat: &Catalog,
    c: &Clickables,
    m: Mouse,
    ui: UiView,
    ground: Pos,
) -> (at: Seq<int>)
    requires
        asks_for_context(m, ui, ground),
        any_selected(c.units@),
        any_enemy(cat, c, ground),
    ensures
        selected_who(c.units@, at, |u: ClickUnit| true),
        enemy_hit(cat, c, ground) is Some,
        right_step(cat, c, m, false, ui) == (
            ui,
            seq![
                Said::Attack {
                    units: ids_at(c.units@, at),
                    target: enemy_hit(cat, c, ground)->0,
                },
            ],
        ),
{
    clicks_take_the_nearest_enemy(cat, c, ground);
    groups_are_there(c.units@)
}

/// With units selected, a right click on a node sends the workers among them to
/// work it and makes the others walk over.
pub proof fn nodes_are_worked(
    cat: &Catalog,
    c: &Clickables,
    m: Mouse,
    ui: UiView,
    ground: Pos,
) -> (at: (Seq<int>, Seq<int>))
    requires
        asks_for_context(m, ui, ground),
        any_selected(c.units@),
        !any_enemy(cat, c, ground),
        any_node(c.nodes@, ground),
    ensures
        selected_who(c.units@, at.0, |u: ClickUnit| u.worker),
        selected_who(c.units@, at.1, |u: ClickUnit| !u.worker),
        node_hit(c.nodes@, ground) is Some,
        right_step(cat, c, m, false, ui) == (
            ui,
            to_them(
                at.0,
                Said::Harvest {
                    units: ids_at(c.units@, at.0),
                    target: node_hit(c.nodes@, ground)->0,
                },
            ) + to_them(at.1, Said::Move { units: ids_at(c.units@, at.1), at: ground }),
        ),
{
    clicks_take_the_nearest_enemy(cat, c, ground);
    let n = clicks_take_the_nearest_node(c.nodes@, ground);
    let all = groups_are_there(c.units@);
    let a = parts_are_parts(c.units@, works(), |u: ClickUnit| u.worker);
    let b = parts_are_parts(c.units@, idles(), |u: ClickUnit| !u.worker);
    let target = node_hit(c.nodes@, ground)->0;
    assert(right_step(cat, c, m, false, ui).1 =~= to_them(
        a,
        Said::Harvest { units: ids_at(c.units@, a), target },
    ) + to_them(b, Said::Move { units: ids_at(c.units@, b), at: ground }));
    (a, b)
}

/// With some of the selected units carrying cargo, a right click on a finished
/// hall of ours sends home exactly those who carry any and makes exactly the
/// others walk over; where an enemy or a node is hit it means that instead.
pub proof fn cargo_is_brought_home(
    cat: &Catalog,
    c: &Clickables,
    m: Mouse,
    ui: UiView,
    ground: Pos,
) -> (at: (Seq<int>, Seq<int>))
    requires
        asks_for_context(m, ui, ground),
        exists|i: int|
            0 <= i < c.units@.len() && (#[trigger] c.units@[i]).selected && c.units@[i].own
                && c.units@[i].carrying,
        !any_enemy(cat, c, ground),
        !any_node(c.nodes@, ground),
        any_building(cat, c.buildings@, ground, WhichBuilding::OurHall),
    ensures
        selected_who(c.units@, at.0, |u: ClickUnit| u.carrying),
        selected_who(c.units@, at.1, |u: ClickUnit| !u.carrying),
        at.0.len() > 0,
        right_step(cat, c, m, false, ui) == (
            ui,
            seq![Said::Return { units: ids_at(c.units@, at.0) }] + to_them(
                at.1,
                Said::Move { units: ids_at(c.units@, at.1), at: ground },
            ),
        ),
{
    clicks_take_the_nearest_enemy(cat, c, ground);
    let n = clicks_take_the_nearest_node(c.nodes@, ground);
    let h = clicks_take_the_nearest_building(cat, c.buildings@, ground, WhichBuilding::OurHall);
    let all = groups_are_there(c.units@);
    let a = parts_are_parts(c.units@, loaded(), |u: ClickUnit| u.carrying);
    let b = parts_are_parts(c.units@, unloaded(), |u: ClickUnit| !u.carrying);
    let i = choose|i: int|
        0 <= i < c.units@.len() && (#[trigger] c.units@[i]).selected && c.units@[i].own
            && c.units@[i].carrying;
    assert(a.contains(i));
    assert(any_selected(c.units@));
    assert(right_step(cat, c, m, false, ui).1 =~= seq![
        Said::Return { units: ids_at(c.units@, a) },
    ] + to_them(b, Said::Move { units: ids_at(c.units@, b), at: ground }));
    (a, b)
}

/// A right click on a hall with nothing to bring home is one like any other: on
/// a unit of ours it makes the others follow that one, and else everybody walks
/// to the point.
pub proof fn friends_are_followed_and_ground_is_walked_to(
    cat: &Catalog,
    c: &Clickables,
    m: Mouse,
    ui: UiView,
    ground: Pos,
) -> (at: (Seq<int>, Seq<int>))
    requires
        asks_for_context(m, ui, ground),
        any_selected(c.units@),
        !any_enemy(cat, c, ground),
        !any_node(c.nodes@, ground),
        !any_building(cat, c.buildings@, ground, WhichBuilding::OurHall) || forall|i: int|
            0 <= i < c.units@.len() && (#[trigger] c.units@[i]).selected && c.units@[i].own
                ==> !c.units@[i].carrying,
    ensures
        ({
            let leader = unit_hit(cat, c.units@, Whose::Ours);
            &&& selected_who(c.units@, at.0, |u: ClickUnit| true)
            &&& selected_who(c.units@, at.1, |u: ClickUnit| leader is Some && u.id != leader->0)
            &&& leader is Some <==> any_unit(cat, c.units@, Whose::Ours)
            &&& right_step(cat, c, m, false, ui) == (
                ui,
                if at.1.len() > 0 {
                    seq![Said::Follow { units: ids_at(c.units@, at.1), target: leader->0 }]
                } else {
                    seq![Said::Move { units: ids_at(c.units@, at.0), at: ground }]
                },
            )
        }),
{
    clicks_take_the_nearest_enemy(cat, c, ground);
    let n = clicks_take_the_nearest_node(c.nodes@, ground);
    let h = clicks_take_the_nearest_building(cat, c.buildings@, ground, WhichBuilding::OurHall);
    let u = clicks_take_the_nearest_unit(cat, c.units@, Whose::Ours);
    let all = groups_are_there(c.units@);
    let a = parts_are_parts(c.units@, loaded(), |u: ClickUnit| u.carrying);
    let leader = unit_hit(cat, c.units@, Whose::Ours);
    assert(any_building(cat, c.buildings@, ground, WhichBuilding::OurHall) ==> a.len() == 0) by {
        if a.len() > 0 {
            let i = a[0];
            assert(c.units@[i].carrying);
        }
    }
    let b = match leader {
        Some(id) => parts_are_parts(c.units@, not_leader(id), |u: ClickUnit| u.id != id),
        None => Seq::empty(),
    };
    (all, b)
}

/// With no unit selected, a right click sets the rally point of every selected
/// building of ours that trains anything, and of no other: to a node that is
/// hit, else to a unit of ours that is hit, else to the point.
pub proof fn buildings_rally(
    cat: &Catalog,
    c: &Clickables,
    m: Mouse,
    ui: UiView,
    ground: Pos,
) -> (at: Seq<int>)
    requires
        asks_for_context(m, ui, ground),
        !any_selected(c.units@),
    ensures
        ({
            let node = node_hit(c.nodes@, ground);
            let friend = unit_hit(cat, c.units@, Whose::Ours);
            let to = if any_node(c.nodes@, ground) {
                RallyTo::Entity(node->0)
            } else if any_unit(cat, c.units@, Whose::Ours) {
                RallyTo::Entity(friend->0)
            } else {
                RallyTo::Ground(ground)
            };
            let (after, spoken) = right_step(cat, c, m, false, ui);
            &&& any_node(c.nodes@, ground) ==> node is Some
            &&& any_unit(cat, c.units@, Whose::Ours) ==> friend is Some
            &&& after == ui
            &&& spoken.len() == at.len()
            &&& forall|k: int|
                0 <= k < at.len() ==> {
                    let b = c.buildings@[#[trigger] at[k]];
                    &&& 0 <= at[k] < c.buildings@.len()
                    &&& b.selected && b.own && cat.building_row(b.kind).trains@.len() > 0
                    &&& spoken[k] == (Said::Rally { building: b.id, to })
                }
            &&& forall|k: int, l: int|
                0 <= k < l < at.len() ==> #[trigger] at[k] < #[trigger] at[l]
            &&& forall|i: int|
                0 <= i < c.buildings@.len() && (#[trigger] c.buildings@[i]).selected
                    && c.buildings@[i].own && cat.building_row(c.buildings@[i].kind).trains@.len()
                    > 0 ==> at.contains(i)
        }),
{
    let n = clicks_take_the_nearest_node(c.nodes@, ground);
    let u = clicks_take_the_nearest_unit(cat, c.units@, Whose::Ours);
    let all = groups_are_there(c.units@);
    let to = if any_node(c.nodes@, ground) {
        RallyTo::Entity(node_hit(c.nodes@, ground)->0)
    } else if any_unit(cat, c.units@, Whose::Ours) {
        RallyTo::Entity(unit_hit(cat, c.units@, Whose::Ours)->0)
    } else {
        RallyTo::Ground(ground)
    };
    let f = rallies(cat, to);
    let at = picked_places(c.buildings@, f);
    assert(right_step(cat, c, m, false, ui).1 == picked(c.buildings@, f));
    assert forall|i: int|
        0 <= i < c.buildings@.len() && (#[trigger] c.buildings@[i]).selected && c.buildings@[i].own
            && cat.building_row(c.buildings@[i].kind).trains@.len() > 0 implies at.contains(i) by {
        assert(f(c.buildings@[i]) is Some);
    }
    at
}

/// A right click while something waits for a click calls that off, drops the
/// wall in progress and touches nothing else; off the world, or with the game
/// over, it does nothing at all.
pub proof fn right_clicks_call_off(cat: &Catalog, c: &Clickables, m: Mouse, game_over: bool, ui: UiView)
    ensures
        ({
            let (after, spoken) = right_step(cat, c, m, game_over, ui);
            let on_world = m.right_pressed && !game_over && m.cursor is Some && !on_hud(
                m.cursor->0,
                m.window,
                ui.notif_rows as nat,
                ui.prop_cards as nat,
                m.hud,
            );
            let waits = ui.attack_move_armed || ui.placement is Some || ui.posture_place is Some
                || ui.cast_place is Some || ui.region_place || ui.teleport_place is Some;
            &&& on_world && waits ==> spoken.len() == 0 && after == (UiView {
                attack_move_armed: false,
                placement: None,
                wall_chain: Seq::empty(),
                posture_place: None,
                cast_place: None,
                region_place: false,
                teleport_place: None,
                ..ui
            })
            &&& !on_world || (!waits && m.ground is None) ==> spoken.len() == 0 && after == ui
            &&& !waits ==> after == ui
        }),
{
}

} // verus!
