//! What the left button comes to: whom a box or a click selects, when a press
//! becomes a box, and what a press says for the mode that waits for it.

use vstd::prelude::*;

use crate::catalog::{BuildingKind, Catalog};
use crate::clicks::{
    any_building, any_unit, apart, clicks_take_the_nearest_building, clicks_take_the_nearest_unit,
    distances_fit, groups_are_the_selection, ids_at, selected_who, winners_are_nearest,
};
use crate::doctrine::PostureKind;
use crate::gestures::{
    box_selects, boxed_building, boxed_unit, builder, free_builder, left_step, DragBox, Mouse,
    Site,
};
use crate::intent::{CastTarget, PostureArm, PostureIntent, Said};
use crate::layout::{on_hud, Rect};
use crate::lists::{picked, picked_holds, picked_places};
use crate::map::{near_map, snapped, snapping_settles, Pos};
use crate::pick::{building_hit, unit_hit, ClickUnit, Clickables, WhichBuilding, Whose};
use crate::readouts::{lowest_mark, lowest_mark_is_lowest, mark_free, mark_text, Region};
use crate::text::dec;
use crate::ui_state::{Px, UiView};

verus! {

// ---------------------------------------------------------------------------
// Boxes
// ---------------------------------------------------------------------------

/// A point on the screen within given bounds, the bounds included.
pub open spec fn shown_within(on_screen: Option<Px>, x0: int, y0: int, x1: int, y1: int) -> bool {
    match on_screen {
        Some(p) => x0 <= p.x && p.x <= x1 && y0 <= p.y && p.y <= y1,
        None => false,
    }
}

/// A unit of ours with that id is shown within the bounds.
pub open spec fn catches_unit(c: &Clickables, r: Rect, id: u64) -> bool {
    exists|i: int|
        0 <= i < c.units@.len() && (#[trigger] c.units@[i]).own && c.units@[i].id == id
            && shown_within(
            c.units@[i].on_screen,
            r.x0 as int,
            r.y0 as int,
            r.x1 as int,
            r.y1 as int,
        )
}

/// A building of ours with that id is shown within the bounds.
pub open spec fn catches_building(c: &Clickables, r: Rect, id: u64) -> bool {
    exists|i: int|
        0 <= i < c.buildings@.len() && (#[trigger] c.buildings@[i]).own && c.buildings@[i].id == id
            && shown_within(
            c.buildings@[i].on_screen,
            r.x0 as int,
            r.y0 as int,
            r.x1 as int,
            r.y1 as int,
        )
}

proof fn boxed_units_are_caught(c: &Clickables, r: Rect, id: u64)
    ensures
        picked(c.units@, boxed_unit(r)).contains(id) <==> catches_unit(c, r, id),
{
    let f = boxed_unit(r);
    picked_holds(c.units@, f, id);
    if catches_unit(c, r, id) {
        let i = choose|i: int|
            0 <= i < c.units@.len() && (#[trigger] c.units@[i]).own && c.units@[i].id == id
                && shown_within(
                c.units@[i].on_screen,
                r.x0 as int,
                r.y0 as int,
                r.x1 as int,
                r.y1 as int,
            );
        assert(f(c.units@[i]) == Some(id));
    }
}

proof fn boxed_buildings_are_caught(c: &Clickables, r: Rect, id: u64)
    ensures
        picked(c.buildings@, boxed_building(r)).contains(id) <==> catches_building(c, r, id),
{
    let f = boxed_building(r);
    picked_holds(c.buildings@, f, id);
    if catches_building(c, r, id) {
        let i = choose|i: int|
            0 <= i < c.buildings@.len() && (#[trigger] c.buildings@[i]).own && c.buildings@[i].id
                == id && shown_within(
                c.buildings@[i].on_screen,
                r.x0 as int,
                r.y0 as int,
                r.x1 as int,
                r.y1 as int,
            );
        assert(f(c.buildings@[i]) == Some(id));
    }
}

/// A box selects exactly our units that are shown within its edges; where there
/// are none, exactly our buildings that are; and where there are none of those
/// either, nothing, unless it adds to the selection, which then stays.
pub proof fn boxes_select_what_they_hold(c: &Clickables, r: Rect, additive: bool)
    ensures
        ({
            let chosen = box_selects(c, r, additive);
            let units = exists|id: u64| catches_unit(c, r, id);
            let buildings = exists|id: u64| catches_building(c, r, id);
            &&& units ==> chosen is Some && forall|id: u64|
                #[trigger] (chosen->0).contains(id) <==> catches_unit(c, r, id)
            &&& !units && buildings ==> chosen is Some && forall|id: u64|
                #[trigger] (chosen->0).contains(id) <==> catches_building(c, r, id)
            &&& !units && !buildings ==> chosen == (if additive {
                None
            } else {
                Some(Seq::<u64>::empty())
            })
        }),
{
    let us = picked(c.units@, boxed_unit(r));
    let bs = picked(c.buildings@, boxed_building(r));
    assert forall|id: u64| us.contains(id) <==> catches_unit(c, r, id) by {
        boxed_units_are_caught(c, r, id);
    }
    assert forall|id: u64| bs.contains(id) <==> catches_building(c, r, id) by {
        boxed_buildings_are_caught(c, r, id);
    }
    if us.len() > 0 {
        assert(us.contains(us[0]));
        assert(catches_unit(c, r, us[0]));
    } else {
        assert forall|id: u64| !catches_unit(c, r, id) by {
            assert(!us.contains(id));
        }
    }
    if bs.len() > 0 {
        assert(bs.contains(bs[0]));
        assert(catches_building(c, r, bs[0]));
    } else {
        assert forall|id: u64| !catches_building(c, r, id) by {
            assert(!bs.contains(id));
        }
    }
}

/// No unit and no building is selected twice by one box.
pub proof fn boxes_select_nobody_twice(c: &Clickables, r: Rect, additive: bool, k: int, l: int)
    requires
        box_selects(c, r, additive) is Some,
        0 <= k < l < (box_selects(c, r, additive)->0).len(),
        forall|i: int, j: int|
            0 <= i < j < c.units@.len() ==> (#[trigger] c.units@[i]).id != (
            #[trigger] c.units@[j]).id,
        forall|i: int, j: int|
            0 <= i < j < c.buildings@.len() ==> (#[trigger] c.buildings@[i]).id != (
            #[trigger] c.buildings@[j]).id,
    ensures
        (box_selects(c, r, additive)->0)[k] != (box_selects(c, r, additive)->0)[l],
{
    let a = picked_places(c.units@, boxed_unit(r));
    let b = picked_places(c.buildings@, boxed_building(r));
    if picked(c.units@, boxed_unit(r)).len() > 0 {
        assert(a[k] < a[l]);
        assert(c.units@[a[k]].id != c.units@[a[l]].id);
    } else {
        assert(b[k] < b[l]);
        assert(c.buildings@[b[k]].id != c.buildings@[b[l]].id);
    }
}

/// The rectangle with these two points for opposite corners.
pub open spec fn has_corners(r: Rect, a: Px, b: Px) -> bool {
    &&& (r.x0 == a.x && r.x1 == b.x) || (r.x0 == b.x && r.x1 == a.x)
    &&& (r.y0 == a.y && r.y1 == b.y) || (r.y0 == b.y && r.y1 == a.y)
    &&& r.x0 <= r.x1
    &&& r.y0 <= r.y1
}

/// A press has gone eight pixels or farther.
pub open spec fn has_gone(a: Px, b: Px) -> bool {
    let dx = a.x - b.x;
    let dy = a.y - b.y;
    64_000_000 <= dx * dx + dy * dy
}

/// While the button is held, a press that has gone eight pixels is a box and
/// stays one; the box on the screen reaches from where the press was to the
/// cursor.
pub proof fn presses_become_boxes(
    cat: &Catalog,
    c: &Clickables,
    regions: Seq<Region>,
    m: Mouse,
    site: Site,
    ui: UiView,
    a: Px,
    b: Px,
    r: Rect,
)
    requires
        ui.drag_start == Some(a),
        m.cursor == Some(b),
        !m.left_pressed,
        m.left_held,
        !m.left_released,
        has_corners(r, a, b),
    ensures
        ({
            let step = left_step(cat, c, regions, m, site, false, ui);
            let boxes = ui.dragging || has_gone(a, b);
            &&& step.ui == (UiView { dragging: boxes, ..ui })
            &&& step.said.len() == 0
            &&& step.select is None
            &&& step.drag_box == (if boxes {
                DragBox::Show(r)
            } else {
                DragBox::Leave
            })
        }),
{
}

/// Letting go of a box selects what lies between where the press was and the
/// cursor, with shift held beside what was selected; either way the press is
/// over and the box is gone.
pub proof fn letting_go_selects_the_box(
    cat: &Catalog,
    c: &Clickables,
    regions: Seq<Region>,
    m: Mouse,
    site: Site,
    ui: UiView,
    a: Px,
    b: Px,
    r: Rect,
)
    requires
        ui.drag_start == Some(a),
        m.cursor == Some(b),
        !m.left_pressed,
        m.left_released,
        ui.dragging || (m.left_held && has_gone(a, b)),
        has_corners(r, a, b),
    ensures
        ({
            let step = left_step(cat, c, regions, m, site, false, ui);
            &&& step.ui == (UiView { drag_start: None, dragging: false, ..ui })
            &&& step.said.len() == 0
            &&& step.select == box_selects(c, r, m.shift)
            &&& step.drag_box == DragBox::Hide
        }),
{
}

/// Letting go of a press that is no box selects the unit of ours under it, else
/// the building of ours under it, else nothing, unless it adds to the selection,
/// which then stays. Over a panel, or off the ground, it selects nothing new.
pub proof fn letting_go_selects_what_is_clicked(
    cat: &Catalog,
    c: &Clickables,
    regions: Seq<Region>,
    m: Mouse,
    site: Site,
    ui: UiView,
    a: Px,
    b: Px,
)
    requires
        ui.drag_start == Some(a),
        m.cursor == Some(b),
        !m.left_pressed,
        m.left_released,
        !ui.dragging && (!m.left_held || !has_gone(a, b)),
    ensures
        ({
            let step = left_step(cat, c, regions, m, site, false, ui);
            let panel = on_hud(b, m.window, ui.notif_rows as nat, ui.prop_cards as nat, m.hud);
            &&& step.ui == (UiView { drag_start: None, dragging: false, ..ui })
            &&& step.said.len() == 0
            &&& step.drag_box == DragBox::Hide
            &&& panel || m.ground is None ==> step.select is None
            &&& !panel && m.ground is Some ==> {
                let g = m.ground->0;
                if any_unit(cat, c.units@, Whose::Ours) {
                    &&& unit_hit(cat, c.units@, Whose::Ours) is Some
                    &&& step.select == Some(seq![unit_hit(cat, c.units@, Whose::Ours)->0])
                } else if any_building(cat, c.buildings@, g, WhichBuilding::Ours) {
                    &&& building_hit(cat, c.buildings@, g, WhichBuilding::Ours) is Some
                    &&& step.select == Some(
                        seq![building_hit(cat, c.buildings@, g, WhichBuilding::Ours)->0],
                    )
                } else {
                    step.select == (if m.shift {
                        None
                    } else {
                        Some(Seq::<u64>::empty())
                    })
                }
            }
        }),
{
    let i = clicks_take_the_nearest_unit(cat, c.units@, Whose::Ours);
    if let Some(g) = m.ground {
        let j = clicks_take_the_nearest_building(cat, c.buildings@, g, WhichBuilding::Ours);
    }
}

/// A press on the world that no mode waits for is where a box would start; one
/// on a panel starts nothing; and once the game is over nothing happens but that
/// the box goes.
pub proof fn presses_start_on_the_world(
    cat: &Catalog,
    c: &Clickables,
    regions: Seq<Region>,
    m: Mouse,
    site: Site,
    game_over: bool,
    ui: UiView,
    b: Px,
)
    requires
        m.cursor == Some(b),
        m.left_pressed,
        !m.left_held,
        !m.left_released,
    ensures
        ({
            let step = left_step(cat, c, regions, m, site, game_over, ui);
            let panel = on_hud(b, m.window, ui.notif_rows as nat, ui.prop_cards as nat, m.hud);
            let waits = ui.attack_move_armed || (ui.placement is Some && m.ground is Some)
                || ui.posture_place is Some || ui.cast_place is Some || ui.region_place
                || ui.teleport_place is Some;
            &&& game_over || panel ==> step.ui == ui && step.said.len() == 0 && step.select is None
            &&& game_over ==> step.drag_box == DragBox::Hide
            &&& !game_over && !panel && !waits ==> step.ui == (UiView {
                drag_start: Some(b),
                dragging: false,
                ..ui
            }) && step.said.len() == 0 && step.select is None
            &&& !game_over && !panel && waits ==> step.ui.drag_start == ui.drag_start
                && step.select is None && step.drag_box == DragBox::Leave
        }),
{
}

// ---------------------------------------------------------------------------
// The modes that wait for a press
// ---------------------------------------------------------------------------

/// A left press on the world.
pub open spec fn presses_world(m: Mouse, ui: UiView) -> bool {
    &&& m.left_pressed
    &&& m.cursor is Some
    &&& !on_hud(m.cursor->0, m.window, ui.notif_rows as nat, ui.prop_cards as nat, m.hud)
}

/// A point pulled two units inside the map's edge.
pub open spec fn pulled_in(p: Pos) -> Pos {
    let x = if p.x < -98_000 {
        -98_000int
    } else if p.x > 98_000 {
        98_000
    } else {
        p.x as int
    };
    let z = if p.z < -98_000 {
        -98_000int
    } else if p.z > 98_000 {
        98_000
    } else {
        p.z as int
    };
    Pos { x: x as i32, z: z as i32 }
}

/// The unit at `i` is a selected worker of ours that is not busy, and none of
/// those is nearer to the point.
pub open spec fn nearest_hand(units: Seq<ClickUnit>, at: Pos, busy: Seq<u64>, i: int) -> bool {
    &&& 0 <= i < units.len()
    &&& is_free_hand(units[i], busy)
    &&& forall|j: int|
        0 <= j < units.len() && is_free_hand(#[trigger] units[j], busy) ==> apart(
            units[i].pos,
            at,
        ) <= apart(units[j].pos, at) && (j < i ==> apart(units[i].pos, at) < apart(
            units[j].pos,
            at,
        ))
}

pub open spec fn is_free_hand(u: ClickUnit, busy: Seq<u64>) -> bool {
    u.selected && u.own && u.worker && !busy.contains(u.id)
}

pub open spec fn any_free_hand(units: Seq<ClickUnit>, busy: Seq<u64>) -> bool {
    exists|i: int| 0 <= i < units.len() && is_free_hand(#[trigger] units[i], busy)
}

pub proof fn builders_are_nearest(units: Seq<ClickUnit>, at: Pos, busy: Seq<u64>) -> (i: int)
    ensures
        any_free_hand(units, busy) <==> builder(units, at, busy) is Some,
        any_free_hand(units, busy) ==> nearest_hand(units, at, busy, i) && builder(units, at, busy)
            == Some(units[i].id),
{
    let f = free_builder(at, busy);
    let i = winners_are_nearest(units, f);
    assert forall|j: int| 0 <= j < units.len() implies is_free_hand(#[trigger] units[j], busy) == (
    f(units[j]) is Some) && (f(units[j]) is Some ==> (f(units[j])->0).0 == units[j].id && (f(
        units[j],
    )->0).1 == apart(units[j].pos, at)) by {
        distances_fit(units[j].pos, at);
    }
    if builder(units, at, busy) is Some {
        assert(is_free_hand(units[i], busy));
    }
    i
}

/// A press for a building goes nowhere unless the ground is free and the price
/// is in hand. Then the nearest selected worker of ours builds it, on the
/// footprint nearest to the point whose edges lie on cell boundaries, and the
/// building no longer waits; with nobody to build it, it goes on waiting.
pub proof fn the_nearest_hand_builds_what_is_paid_for(
    cat: &Catalog,
    c: &Clickables,
    regions: Seq<Region>,
    m: Mouse,
    site: Site,
    ui: UiView,
    kind: BuildingKind,
    ground: Pos,
) -> (i: int)
    requires
        presses_world(m, ui),
        m.ground == Some(ground),
        near_map(ground),
        ui.placement == Some(kind),
        kind != BuildingKind::Wall,
        cat.wf(),
    ensures
        ({
            let step = left_step(cat, c, regions, m, site, false, ui);
            let row = cat.building_row(kind);
            let half = row.size as int / 2;
            let paid = row.cost_gold <= site.gold && row.cost_lumber <= site.lumber;
            let none = Seq::<u64>::empty();
            let built = site.free && paid && any_free_hand(c.units@, none);
            &&& built <==> step.said.len() > 0
            &&& !built ==> step.ui == ui
            &&& built ==> {
                &&& step.ui == (UiView { placement: None, ..ui })
                &&& step.said.len() == 1
                &&& step.said[0] is Build
                &&& step.said[0]->worker == c.units@[i].id
                &&& step.said[0]->kind == kind
                &&& lands_on_the_grid((step.said[0]->Build_at).x as int, ground.x as int, half)
                &&& lands_on_the_grid((step.said[0]->Build_at).z as int, ground.z as int, half)
                &&& nearest_hand(c.units@, step.said[0]->Build_at, none, i)
            }
        }),
{
    let size = cat.building_row(kind).size as int;
    snapping_settles(ground.x as int, size);
    snapping_settles(ground.z as int, size);
    builders_are_nearest(c.units@, snapped(ground, size), Seq::empty())
}

/// An edge half a footprint from `at` lies on a cell boundary, and `at` is
/// within half a cell of `v`.
pub open spec fn lands_on_the_grid(at: int, v: int, half: int) -> bool {
    (at - half) % 2_000 == 0 && -1_000 <= at - v <= 1_000
}

/// A press for a wall works in the same way, but goes on waiting for the next
/// one, and takes the nearest worker who has no segment yet; once all have one,
/// the turn begins anew.
pub proof fn walls_go_round_the_hands(
    cat: &Catalog,
    c: &Clickables,
    regions: Seq<Region>,
    m: Mouse,
    site: Site,
    ui: UiView,
    ground: Pos,
) -> (i: int)
    requires
        presses_world(m, ui),
        m.ground == Some(ground),
        ui.placement == Some(BuildingKind::Wall),
    ensures
        ({
            let step = left_step(cat, c, regions, m, site, false, ui);
            let row = cat.building_row(BuildingKind::Wall);
            let at = snapped(ground, row.size as int);
            let may = site.free && row.cost_gold <= site.gold && row.cost_lumber <= site.lumber;
            let busy = if any_free_hand(c.units@, ui.wall_chain) {
                ui.wall_chain
            } else {
                Seq::empty()
            };
            &&& !may ==> step.said.len() == 0 && step.ui == ui
            &&& may && !any_free_hand(c.units@, busy) ==> step.said.len() == 0 && step.ui == (
            UiView { wall_chain: Seq::empty(), ..ui })
            &&& may && any_free_hand(c.units@, busy) ==> {
                &&& nearest_hand(c.units@, at, busy, i)
                &&& step.said == seq![
                    Said::Build { worker: c.units@[i].id, kind: BuildingKind::Wall, at },
                ]
                &&& step.ui == (UiView { wall_chain: busy.push(c.units@[i].id), ..ui })
            }
        }),
{
    let at = snapped(ground, cat.building_row(BuildingKind::Wall).size as int);
    let i = builders_are_nearest(c.units@, at, ui.wall_chain);
    let j = builders_are_nearest(c.units@, at, Seq::empty());
    if any_free_hand(c.units@, ui.wall_chain) {
        i
    } else {
        j
    }
}

/// A posture that wants ground takes the point pressed, pulled inside the map,
/// for the squad it was armed for, and is done whether or not there was ground.
pub proof fn postures_take_the_point(
    cat: &Catalog,
    c: &Clickables,
    regions: Seq<Region>,
    m: Mouse,
    site: Site,
    ui: UiView,
    squad: u8,
    kind: PostureKind,
)
    requires
        presses_world(m, ui),
        ui.placement is None,
        ui.posture_place == Some(PostureArm { squad, kind }),
        kind != PostureKind::Escort,
    ensures
        ({
            let step = left_step(cat, c, regions, m, site, false, ui);
            let at = pulled_in(m.ground->0);
            &&& step.ui == (UiView { posture_place: None, ..ui })
            &&& m.ground is None ==> step.said.len() == 0
            &&& m.ground is Some ==> step.said == seq![
                Said::Posture {
                    id: squad,
                    posture: Some(
                        match kind {
                            PostureKind::Defend => PostureIntent::Defend { at, radius: 22_000 },
                            PostureKind::Push => PostureIntent::Push { at },
                            _ => PostureIntent::Forage { at },
                        },
                    ),
                },
            ]
        }),
{
}

/// An escort takes the unit of ours that is pressed, and goes on waiting where
/// there is none.
pub proof fn escorts_take_a_friend(
    cat: &Catalog,
    c: &Clickables,
    regions: Seq<Region>,
    m: Mouse,
    site: Site,
    ui: UiView,
    squad: u8,
)
    requires
        presses_world(m, ui),
        ui.placement is None,
        ui.posture_place == Some(PostureArm { squad, kind: PostureKind::Escort }),
    ensures
        ({
            let step = left_step(cat, c, regions, m, site, false, ui);
            let friend = unit_hit(cat, c.units@, Whose::Ours);
            if m.ground is Some && any_unit(cat, c.units@, Whose::Ours) {
                &&& friend is Some
                &&& step.ui == (UiView { posture_place: None, ..ui })
                &&& step.said == seq![
                    Said::Posture {
                        id: squad,
                        posture: Some(PostureIntent::Escort { unit: friend->0 }),
                    },
                ]
            } else {
                step.ui == ui && step.said.len() == 0
            }
        }),
{
    let i = clicks_take_the_nearest_unit(cat, c.units@, Whose::Ours);
}

/// A mark is set round the point pressed, pulled inside the map, with the
/// radius chosen or else the usual one, under the first of the eight names that
/// no region bears; with all eight borne, none is set. It is done either way.
pub proof fn marks_take_the_first_free_name(
    cat: &Catalog,
    c: &Clickables,
    regions: Seq<Region>,
    m: Mouse,
    site: Site,
    ui: UiView,
) -> (n: int)
    requires
        presses_world(m, ui),
        ui.placement is None,
        ui.posture_place is None,
        ui.region_place,
    ensures
        ({
            let step = left_step(cat, c, regions, m, site, false, ui);
            &&& step.ui == (UiView { region_place: false, ..ui })
            &&& step.said.len() > 0 <==> m.ground is Some && exists|k: int|
                1 <= k <= 8 && !#[trigger] borne(regions, k)
            &&& step.said.len() > 0 ==> {
                &&& 1 <= n <= 8
                &&& !borne(regions, n)
                &&& forall|k: int| 1 <= k < n ==> #[trigger] borne(regions, k)
                &&& step.said == seq![
                    Said::RegionSet {
                        name: "mark "@ + dec(n as nat),
                        at: pulled_in(m.ground->0),
                        radius: if ui.region_radius is Some {
                            ui.region_radius->0
                        } else {
                            22_000
                        },
                    },
                ]
            }
        }),
{
    lowest_mark_is_lowest(regions, 1);
    assert forall|k: int| #[trigger] borne(regions, k) == !mark_free(regions, k) by {
        if !mark_free(regions, k) {
            let i = choose|i: int|
                0 <= i < regions.len() && (#[trigger] regions[i]).key@ == mark_text(k);
            assert(regions[i].key@ == "mark "@ + dec(k as nat));
        }
    }
    match lowest_mark(regions, 1) {
        Some(n) => {
            assert(mark_free(regions, n as int));
            assert(!borne(regions, n as int));
            n as int
        },
        None => 0,
    }
}

/// Some region bears the name of the `k`th mark.
pub open spec fn borne(regions: Seq<Region>, k: int) -> bool {
    exists|i: int| 0 <= i < regions.len() && (#[trigger] regions[i]).key@ == "mark "@ + dec(k as nat)
}

/// A cast that wants ground is made by every armed caster at the point pressed,
/// and is done whether or not there was ground.
pub proof fn casts_take_the_point(
    cat: &Catalog,
    c: &Clickables,
    regions: Seq<Region>,
    m: Mouse,
    site: Site,
    ui: UiView,
)
    requires
        presses_world(m, ui),
        ui.placement is None,
        ui.posture_place is None,
        !ui.region_place,
        ui.cast_place is Some,
        !ui.cast_place->0.wants_unit,
    ensures
        ({
            let step = left_step(cat, c, regions, m, site, false, ui);
            let arm = ui.cast_place->0;
            &&& step.ui == (UiView { cast_place: None, ..ui })
            &&& m.ground is None ==> step.said.len() == 0
            &&& m.ground is Some ==> step.said.len() == arm.casters.len() && forall|k: int|
                0 <= k < arm.casters.len() ==> #[trigger] step.said[k] == (Said::Cast {
                    caster: arm.casters[k],
                    ability: arm.slot,
                    aim: Some(CastTarget::Point(m.ground->0)),
                })
        }),
{
}

/// A cast that wants a unit is made by every armed caster at the unit pressed,
/// ours or one in sight, and goes on waiting where there is none.
pub proof fn casts_take_a_unit(
    cat: &Catalog,
    c: &Clickables,
    regions: Seq<Region>,
    m: Mouse,
    site: Site,
    ui: UiView,
)
    requires
        presses_world(m, ui),
        ui.placement is None,
        ui.posture_place is None,
        !ui.region_place,
        ui.cast_place is Some,
        ui.cast_place->0.wants_unit,
    ensures
        ({
            let step = left_step(cat, c, regions, m, site, false, ui);
            let arm = ui.cast_place->0;
            let target = unit_hit(cat, c.units@, Whose::AnyoneSeen);
            if m.ground is Some && any_unit(cat, c.units@, Whose::AnyoneSeen) {
                &&& target is Some
                &&& step.ui == (UiView { cast_place: None, ..ui })
                &&& step.said.len() == arm.casters.len()
                &&& forall|k: int|
                    0 <= k < arm.casters.len() ==> #[trigger] step.said[k] == (Said::Cast {
                        caster: arm.casters[k],
                        ability: arm.slot,
                        aim: Some(CastTarget::Unit(target->0)),
                    })
            } else {
                step.ui == ui && step.said.len() == 0
            }
        }),
{
    let i = clicks_take_the_nearest_unit(cat, c.units@, Whose::AnyoneSeen);
}

/// A teleport takes the finished hall of ours that is pressed, and goes on
/// waiting where there is none.
pub proof fn teleports_take_a_hall(
    cat: &Catalog,
    c: &Clickables,
    regions: Seq<Region>,
    m: Mouse,
    site: Site,
    ui: UiView,
)
    requires
        presses_world(m, ui),
        ui.placement is None,
        ui.posture_place is None,
        !ui.region_place,
        ui.cast_place is None,
        ui.teleport_place is Some,
    ensures
        ({
            let step = left_step(cat, c, regions, m, site, false, ui);
            let arm = ui.teleport_place->0;
            let hall = building_hit(cat, c.buildings@, m.ground->0, WhichBuilding::OurHall);
            if m.ground is Some && any_building(
                cat,
                c.buildings@,
                m.ground->0,
                WhichBuilding::OurHall,
            ) {
                &&& hall is Some
                &&& step.ui == (UiView { teleport_place: None, ..ui })
                &&& step.said == seq![
                    Said::UseItem { slot: arm.slot, hero: arm.hero, destination: hall },
                ]
            } else {
                step.ui == ui && step.said.len() == 0
            }
        }),
{
    if let Some(g) = m.ground {
        let i = clicks_take_the_nearest_building(cat, c.buildings@, g, WhichBuilding::OurHall);
    }
}

/// An attack-move sends all of our selected units, in the order of their slots,
/// to the point pressed, and is done whether or not there was ground.
pub proof fn attack_moves_take_everybody(
    cat: &Catalog,
    c: &Clickables,
    regions: Seq<Region>,
    m: Mouse,
    site: Site,
    ui: UiView,
) -> (at: Seq<int>)
    requires
        presses_world(m, ui),
        ui.placement is None,
        ui.posture_place is None,
        !ui.region_place,
        ui.cast_place is None,
        ui.teleport_place is None,
        ui.attack_move_armed,
    ensures
        ({
            let step = left_step(cat, c, regions, m, site, false, ui);
            &&& selected_who(c.units@, at, |u: ClickUnit| true)
            &&& step.ui == (UiView { attack_move_armed: false, ..ui })
            &&& m.ground is None || at.len() == 0 ==> step.said.len() == 0
            &&& m.ground is Some && at.len() > 0 ==> step.said == seq![
                Said::AttackMove { units: ids_at(c.units@, at), at: m.ground->0 },
            ]
        }),
{
    groups_are_the_selection(c.units@)
}

} // verus!
