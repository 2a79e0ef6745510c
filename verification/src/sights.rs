//! What is shown comes to: where the panels lie, what the minimap draws and
//! where, how dark the fog is, what the cursor is over, and the marks on the
//! ground.

use vstd::prelude::*;

use crate::alerts::AlertPing;
use crate::catalog::{Catalog, ResourceKind};
use crate::clicks::{any_node, any_unit, apart, distances_fit, in_node, stands_on, under_cursor};
use crate::fog::{fade, painted, shade, state_at, CellVis};
use crate::gestures::{left_step, Mouse, Site};
use crate::intent::{posture_at, PostureArm, PostureIntent, Said};
use crate::layout::{console_height, minimap_edge, on_hud, to_minimap, HudLayout, Window};
use crate::lists::{
    first_some, first_some_is_first, nearest, nearest_is_nearest, picked, picked_holds,
    picked_places,
};
use crate::map::{rounded, rounded_is_bounded, rounded_is_close, snapped, Pos};
use crate::markers::{
    cache_dot, disc_radius, outlined, ping_ring, tile, transit, transit_radius, Sighting,
    Travelling,
};
use crate::minimap::{
    building_dot, circle, corners, dots, ghost_dot, high_x, high_z, hover, hovered_building,
    hovered_ghost, hovered_node, hovered_unit, low_x, low_z, outline, seen_corner, sighting_dot,
    unit_dot, Blip, Dot, Icon, Ring, Tone,
};
use crate::motion::{destination, Order};
use crate::pick::{ClickBuilding, Clickables, Whose};
use crate::notices::rings_open_as_they_age;
use crate::presses::{any_free_hand, builders_are_nearest, presses_world};
use crate::readouts::Region;
use crate::spawn::{first_said, Rally};
use crate::ui_state::{Px, UiView};
use crate::walking::column;

verus! {

// ---------------------------------------------------------------------------
// Panels
// ---------------------------------------------------------------------------

/// A number kept between two others.
pub open spec fn kept(v: int, lo: int, hi: int) -> int {
    if v < lo {
        lo
    } else if v > hi {
        hi
    } else {
        v
    }
}

pub open spec fn smaller(a: int, b: int) -> int {
    if a <= b {
        a
    } else {
        b
    }
}

/// The console is a third of the window, a little more than a third, but always
/// high enough for the commands and never higher than a full minimap needs; the
/// minimap takes what the console leaves it, at most twenty-eight hundredths of
/// the window's width, within its legible range.
pub proof fn consoles_take_their_share(window: Window)
    requires
        window.width > 0,
        window.height > 0,
    ensures
        console_height(window) == kept(window.height * 34 / 100, 198_000, 202_000),
        minimap_edge(window) == kept(
            smaller(console_height(window) - 18_000, window.width * 28 / 100),
            120_000,
            184_000,
        ),
{
}

/// How wide the alert stack is.
pub open spec fn stack_width(window: Window) -> int {
    smaller(322_000, window.width * 52 / 100)
}

/// Where the alert stack starts.
pub open spec fn stack_left(window: Window) -> int {
    if window.width - 8_000 - stack_width(window) < 0 {
        0
    } else {
        window.width - 8_000 - stack_width(window)
    }
}

/// Where the proposals end.
pub open spec fn cards_right(window: Window) -> int {
    smaller(8_000 + smaller(360_000, window.width * 44 / 100), stack_left(window))
}

/// The world is everything but the bar on top, the console, and as much of the
/// two floating panels as there are rows and cards in them.
pub proof fn panels_cover_what_they_fill(
    cursor: Px,
    window: Window,
    rows: nat,
    cards: nat,
    hud: HudLayout,
)
    requires
        window.width > 0,
        rows <= 0xffff_ffff_ffff_ffff,
        cards <= 0xffff_ffff_ffff_ffff,
    ensures
        on_hud(cursor, window, rows, cards, hud) <==> {
            ||| cursor.y < 34_000
            ||| cursor.y > window.height - hud.console_h
            ||| rows > 0 && stack_left(window) <= cursor.x && cursor.x <= stack_left(window)
                + stack_width(window) && 42_000 <= cursor.y && cursor.y <= 42_000 + 41_000 * rows
            ||| cards > 0 && smaller(8_000, cards_right(window)) <= cursor.x && cursor.x
                <= cards_right(window) && 42_000 <= cursor.y && cursor.y <= 42_000 + 154_000 * cards
        },
{
}

// ---------------------------------------------------------------------------
// The minimap
// ---------------------------------------------------------------------------

/// A point of the map is drawn as far from the left and the top of the minimap
/// as it is from the west and the north of the map, in proportion.
pub proof fn points_are_drawn_in_proportion(p: Pos, px: int)
    requires
        0 <= px <= 1_000_000_000,
    ensures
        -200_000 <= 2 * (200_000 * to_minimap(p, px).0 - (p.x + 100_000) * px) <= 200_000,
        -200_000 <= 2 * (200_000 * to_minimap(p, px).1 - (100_000 - p.z) * px) <= 200_000,
        -0x1000_0000_0000_0000 <= to_minimap(p, px).0 <= 0x1000_0000_0000_0000,
        -0x1000_0000_0000_0000 <= to_minimap(p, px).1 <= 0x1000_0000_0000_0000,
{
    rounded_is_close((p.x + 100_000) * px, 200_000);
    rounded_is_close((100_000 - p.z) * px, 200_000);
    assert(-0x1_0000_0000 * 1_000_000_000 <= (p.x + 100_000) * px <= 0x1_0000_0000 * 1_000_000_000)
        by (nonlinear_arith)
        requires
            -0x1_0000_0000 <= p.x + 100_000 <= 0x1_0000_0000,
            0 <= px <= 1_000_000_000,
    ;
    assert(-0x1_0000_0000 * 1_000_000_000 <= (100_000 - p.z) * px <= 0x1_0000_0000 * 1_000_000_000)
        by (nonlinear_arith)
        requires
            -0x1_0000_0000 <= 100_000 - p.z <= 0x1_0000_0000,
            0 <= px <= 1_000_000_000,
    ;
}

/// A dot for that blip, of that size and lightness, where its point is drawn.
pub open spec fn marks(d: Dot, b: Blip, px: int, size: int, lighten: int) -> bool {
    &&& d.x == to_minimap(b.pos, px).0
    &&& d.y == to_minimap(b.pos, px).1
    &&& d.size == size
    &&& d.lighten == lighten
    &&& d.human == b.human
}

/// Some blip of a list, ours or in sight, has that dot.
pub open spec fn marks_a_unit(units: Seq<Blip>, d: Dot, px: int) -> bool {
    exists|i: int|
        0 <= i < units.len() && ((#[trigger] units[i]).human || units[i].seen) && (
        if units[i].hero {
            marks(d, units[i], px, 5_000, 350)
        } else {
            marks(d, units[i], px, 3_000, 0)
        })
}

pub open spec fn marks_a_building(buildings: Seq<Blip>, d: Dot, px: int) -> bool {
    exists|i: int|
        0 <= i < buildings.len() && ((#[trigger] buildings[i]).human || buildings[i].seen) && marks(
            d,
            buildings[i],
            px,
            6_000,
            120,
        )
}

pub open spec fn marks_a_ghost(ghosts: Seq<Blip>, d: Dot, px: int) -> bool {
    exists|i: int|
        0 <= i < ghosts.len() && marks(d, #[trigger] ghosts[i], px, 6_000, -350)
}

pub open spec fn marks_a_sighting(sightings: Seq<Blip>, d: Dot, px: int) -> bool {
    exists|i: int|
        0 <= i < sightings.len() && !(#[trigger] sightings[i]).seen && marks(
            d,
            sightings[i],
            px,
            2_000,
            -250,
        )
}

proof fn four_hold<T>(a: Seq<T>, b: Seq<T>, c: Seq<T>, d: Seq<T>, x: T)
    ensures
        (a + b + c + d).contains(x) <==> a.contains(x) || b.contains(x) || c.contains(x)
            || d.contains(x),
{
    two_hold(a, b, x);
    two_hold(a + b, c, x);
    two_hold(a + b + c, d, x);
}

proof fn two_hold<T>(a: Seq<T>, b: Seq<T>, x: T)
    ensures
        (a + b).contains(x) <==> a.contains(x) || b.contains(x),
{
    let all = a + b;
    if a.contains(x) {
        let i = choose|i: int| 0 <= i < a.len() && a[i] == x;
        assert(all[i] == x);
    }
    if b.contains(x) {
        let i = choose|i: int| 0 <= i < b.len() && b[i] == x;
        assert(all[a.len() + i] == x);
    }
    if all.contains(x) {
        let i = choose|i: int| 0 <= i < all.len() && all[i] == x;
        if i < a.len() {
            assert(a[i] == x);
        } else {
            assert(b[i - a.len()] == x);
        }
    }
}

/// The minimap draws a dot exactly for each unit and each building that is ours
/// or in sight, heroes larger and lighter; for each remembered building, dark;
/// and, small and dark, for each place where a unit was seen that is out of
/// sight now.
pub proof fn dots_mark_what_is_known(
    units: Seq<Blip>,
    buildings: Seq<Blip>,
    ghosts: Seq<Blip>,
    sightings: Seq<Blip>,
    px: int,
    d: Dot,
)
    requires
        0 <= px <= 1_000_000_000,
    ensures
        dots(units, buildings, ghosts, sightings, px).contains(d) <==> {
            ||| marks_a_unit(units, d, px)
            ||| marks_a_building(buildings, d, px)
            ||| marks_a_ghost(ghosts, d, px)
            ||| marks_a_sighting(sightings, d, px)
        },
{
    let (fu, fb, fg, fs) = (unit_dot(px), building_dot(px), ghost_dot(px), sighting_dot(px));
    four_hold(
        picked(units, fu),
        picked(buildings, fb),
        picked(ghosts, fg),
        picked(sightings, fs),
        d,
    );
    picked_holds(units, fu, d);
    picked_holds(buildings, fb, d);
    picked_holds(ghosts, fg, d);
    picked_holds(sightings, fs, d);
    assert forall|i: int| 0 <= i < units.len() implies (fu(#[trigger] units[i]) == Some(d) <==> (
    units[i].human || units[i].seen) && (if units[i].hero {
        marks(d, units[i], px, 5_000, 350)
    } else {
        marks(d, units[i], px, 3_000, 0)
    })) by {
        points_are_drawn_in_proportion(units[i].pos, px);
    }
    assert forall|i: int| 0 <= i < buildings.len() implies (fb(#[trigger] buildings[i]) == Some(d)
        <==> (buildings[i].human || buildings[i].seen) && marks(d, buildings[i], px, 6_000, 120)) by {
        points_are_drawn_in_proportion(buildings[i].pos, px);
    }
    assert forall|i: int| 0 <= i < ghosts.len() implies (fg(#[trigger] ghosts[i]) == Some(d)
        <==> marks(d, ghosts[i], px, 6_000, -350)) by {
        points_are_drawn_in_proportion(ghosts[i].pos, px);
    }
    assert forall|i: int| 0 <= i < sightings.len() implies (fs(#[trigger] sightings[i]) == Some(d)
        <==> !sightings[i].seen && marks(d, sightings[i], px, 2_000, -250)) by {
        points_are_drawn_in_proportion(sightings[i].pos, px);
    }
    if marks_a_unit(units, d, px) {
        let i = choose|i: int|
            0 <= i < units.len() && ((#[trigger] units[i]).human || units[i].seen) && (
            if units[i].hero {
                marks(d, units[i], px, 5_000, 350)
            } else {
                marks(d, units[i], px, 3_000, 0)
            });
        assert(fu(units[i]) == Some(d));
    }
    if marks_a_building(buildings, d, px) {
        let i = choose|i: int|
            0 <= i < buildings.len() && ((#[trigger] buildings[i]).human || buildings[i].seen)
                && marks(d, buildings[i], px, 6_000, 120);
        assert(fb(buildings[i]) == Some(d));
    }
    if marks_a_ghost(ghosts, d, px) {
        let i = choose|i: int|
            0 <= i < ghosts.len() && marks(d, #[trigger] ghosts[i], px, 6_000, -350);
        assert(fg(ghosts[i]) == Some(d));
    }
    if marks_a_sighting(sightings, d, px) {
        let i = choose|i: int|
            0 <= i < sightings.len() && !(#[trigger] sightings[i]).seen && marks(
                d,
                sightings[i],
                px,
                2_000,
                -250,
            );
        assert(fs(sightings[i]) == Some(d));
    }
    if picked(units, fu).contains(d) {
        let i = choose|i: int| 0 <= i < units.len() && fu(#[trigger] units[i]) == Some(d);
        assert(units[i].human || units[i].seen);
    }
    if picked(buildings, fb).contains(d) {
        let i = choose|i: int| 0 <= i < buildings.len() && fb(#[trigger] buildings[i]) == Some(d);
        assert(buildings[i].human || buildings[i].seen);
    }
    if picked(ghosts, fg).contains(d) {
        let i = choose|i: int| 0 <= i < ghosts.len() && fg(#[trigger] ghosts[i]) == Some(d);
        assert(marks(d, ghosts[i], px, 6_000, -350));
    }
    if picked(sightings, fs).contains(d) {
        let i = choose|i: int| 0 <= i < sightings.len() && fs(#[trigger] sightings[i]) == Some(d);
        assert(!sightings[i].seen);
    }
}

proof fn extremes_are_extreme(s: Seq<Pos>)
    requires
        s.len() > 0,
    ensures
        forall|i: int|
            0 <= i < s.len() ==> low_x(s) <= (#[trigger] s[i]).x <= high_x(s) && low_z(s) <= s[i].z
                <= high_z(s),
        exists|i: int| 0 <= i < s.len() && (#[trigger] s[i]).x == low_x(s),
        exists|i: int| 0 <= i < s.len() && (#[trigger] s[i]).x == high_x(s),
        exists|i: int| 0 <= i < s.len() && (#[trigger] s[i]).z == low_z(s),
        exists|i: int| 0 <= i < s.len() && (#[trigger] s[i]).z == high_z(s),
    decreases s.len(),
{
    if s.len() == 1 {
        assert(s[0].x == low_x(s) && s[0].x == high_x(s));
        assert(s[0].z == low_z(s) && s[0].z == high_z(s));
    } else {
        let front = s.drop_last();
        extremes_are_extreme(front);
        let last = s.len() - 1;
        assert forall|i: int|
            0 <= i < s.len() implies low_x(s) <= (#[trigger] s[i]).x <= high_x(s) && low_z(s)
            <= s[i].z <= high_z(s) by {
            if i < last {
                assert(front[i] == s[i]);
            }
        }
        let a = choose|i: int| 0 <= i < front.len() && (#[trigger] front[i]).x == low_x(front);
        let b = choose|i: int| 0 <= i < front.len() && (#[trigger] front[i]).x == high_x(front);
        let c = choose|i: int| 0 <= i < front.len() && (#[trigger] front[i]).z == low_z(front);
        let d = choose|i: int| 0 <= i < front.len() && (#[trigger] front[i]).z == high_z(front);
        assert(s[a] == front[a] && s[b] == front[b] && s[c] == front[c] && s[d] == front[d]);
        assert(s[last] == s.last());
    }
}

/// A corner of the view that meets the ground, no farther off than three hundred
/// units on either axis.
pub open spec fn corner_at(view: Seq<Option<Pos>>, i: int) -> Pos {
    Pos {
        x: kept((view[i]->0).x as int, -300_000, 300_000) as i32,
        z: kept((view[i]->0).z as int, -300_000, 300_000) as i32,
    }
}

/// The outline of the view is the smallest box round the corners that meet the
/// ground, and at least two pixels each way; there is none round fewer than two
/// corners.
pub proof fn outlines_hold_the_corners(view: Seq<Option<Pos>>, px: int) -> (w: Seq<int>)
    requires
        0 <= px <= 1_000_000_000,
    ensures
        outline(view, px) is None <==> forall|i: int, j: int|
            0 <= i < j < view.len() ==> (#[trigger] view[i]) is None || (
            #[trigger] view[j]) is None,
        outline(view, px) is Some ==> {
            let b = outline(view, px)->0;
            &&& w.len() == 4
            &&& forall|k: int| 0 <= k < 4 ==> 0 <= #[trigger] w[k] < view.len() && view[w[k]] is Some
            // The corners farthest west, east, north and south.
            &&& forall|i: int|
                0 <= i < view.len() && (#[trigger] view[i]) is Some ==> corner_at(view, w[0]).x
                    <= corner_at(view, i).x <= corner_at(view, w[1]).x && corner_at(view, w[3]).z
                    <= corner_at(view, i).z <= corner_at(view, w[2]).z
            &&& b.left == to_minimap(corner_at(view, w[0]), px).0
            &&& b.top == to_minimap(corner_at(view, w[2]), px).1
            &&& b.width == (if to_minimap(corner_at(view, w[1]), px).0 - b.left > 2_000 {
                to_minimap(corner_at(view, w[1]), px).0 - b.left
            } else {
                2_000
            })
            &&& b.height == (if to_minimap(corner_at(view, w[3]), px).1 - b.top > 2_000 {
                to_minimap(corner_at(view, w[3]), px).1 - b.top
            } else {
                2_000
            })
        },
{
    let f = seen_corner();
    let s = corners(view);
    let at = picked_places(view, f);
    if s.len() < 2 {
        assert forall|i: int, j: int| 0 <= i < j < view.len() implies (#[trigger] view[i]) is None
            || (#[trigger] view[j]) is None by {
            if view[i] is Some && view[j] is Some {
                assert(f(view[i]) is Some);
                assert(f(view[j]) is Some);
                assert(at.contains(i) && at.contains(j));
            }
        }
        Seq::empty()
    } else {
        assert(at[0] < at[1]);
        assert(f(view[at[0]]) is Some);
        assert(f(view[at[1]]) is Some);
        extremes_are_extreme(s);
        let a = choose|i: int| 0 <= i < s.len() && (#[trigger] s[i]).x == low_x(s);
        let b = choose|i: int| 0 <= i < s.len() && (#[trigger] s[i]).x == high_x(s);
        let c = choose|i: int| 0 <= i < s.len() && (#[trigger] s[i]).z == high_z(s);
        let d = choose|i: int| 0 <= i < s.len() && (#[trigger] s[i]).z == low_z(s);
        let w = seq![at[a], at[b], at[c], at[d]];
        assert forall|k: int| 0 <= k < s.len() implies view[#[trigger] at[k]] is Some && s[k]
            == corner_at(view, at[k]) by {
            assert(f(view[at[k]]) == Some(s[k]));
        }
        assert forall|i: int| 0 <= i < view.len() && (#[trigger] view[i]) is Some implies corner_at(
            view,
            w[0],
        ).x <= corner_at(view, i).x <= corner_at(view, w[1]).x && corner_at(view, w[3]).z
            <= corner_at(view, i).z <= corner_at(view, w[2]).z by {
            assert(f(view[i]) is Some);
            assert(at.contains(i));
            let k = choose|k: int| 0 <= k < at.len() && at[k] == i;
            assert(s[k] == corner_at(view, at[k]));
        }
        assert forall|k: int| 0 <= k < 4 implies 0 <= #[trigger] w[k] < view.len() && view[w[k]]
            is Some by {}
        points_are_drawn_in_proportion(
            Pos { x: low_x(s) as i32, z: high_z(s) as i32 },
            px,
        );
        points_are_drawn_in_proportion(
            Pos { x: high_x(s) as i32, z: low_z(s) as i32 },
            px,
        );
        assert(corner_at(view, w[0]) == s[a] && corner_at(view, w[1]) == s[b]);
        assert(corner_at(view, w[2]) == s[c] && corner_at(view, w[3]) == s[d]);
        let nw = Pos { x: low_x(s) as i32, z: high_z(s) as i32 };
        let se = Pos { x: high_x(s) as i32, z: low_z(s) as i32 };
        assert(to_minimap(nw, px).0 == to_minimap(s[a], px).0);
        assert(to_minimap(nw, px).1 == to_minimap(s[c], px).1);
        assert(to_minimap(se, px).0 == to_minimap(s[b], px).0);
        assert(to_minimap(se, px).1 == to_minimap(s[d], px).1);
        w
    }
}

/// The box of a circle of ground has the circle's middle for its middle and is
/// as wide as the circle, in proportion, but at least three pixels.
pub proof fn circles_are_drawn_to_scale(pos: Pos, radius: int, px: int, r: int)
    requires
        0 <= px <= 1_000_000_000,
        0 <= radius <= 1_000_000_000,
        -200_000 < 2 * (200_000 * r - radius * px) <= 200_000,
    ensures
        ({
            let half = if r > 1_500 {
                r
            } else {
                1_500
            };
            let b = circle(pos, radius, px);
            &&& b.left == to_minimap(pos, px).0 - half
            &&& b.top == to_minimap(pos, px).1 - half
            &&& b.width == 2 * half
            &&& b.height == 2 * half
        }),
{
    points_are_drawn_in_proportion(pos, px);
    rounded_is_close(radius * px, 200_000);
    let q = rounded(radius * px, 200_000);
    assert(q == r);
    assert(0 <= radius * px <= 1_000_000_000_000_000_000) by (nonlinear_arith)
        requires
            0 <= px <= 1_000_000_000,
            0 <= radius <= 1_000_000_000,
    ;
}

// ---------------------------------------------------------------------------
// Fog
// ---------------------------------------------------------------------------

/// What was never seen keeps twelve hundredths of its colour, what is remembered
/// fifty-six and what is seen all of it. The fog over a cell is the rest, in the
/// last of the four bytes of that cell's texel, and no other byte changes.
pub proof fn fog_lies_over_its_cell(cells: Seq<CellVis>, data: Seq<u8>, k: int)
    requires
        0 <= k < data.len(),
        4 * cells.len() <= data.len(),
    ensures
        shade(CellVis::Unexplored) == 120,
        shade(CellVis::Explored) == 560,
        shade(CellVis::Visible) == 1_000,
        painted(cells, data).len() == data.len(),
        k % 4 != 3 || k >= 4 * cells.len() ==> painted(cells, data)[k] == data[k],
        k % 4 == 3 && k < 4 * cells.len() ==> painted(cells, data)[k] == (match cells[k / 4] {
            CellVis::Unexplored => 224u8,
            CellVis::Explored => 112u8,
            CellVis::Visible => 0u8,
        }),
{
}

/// Scenery wears the shade of the cell it stands over, and none off the map.
pub proof fn scenery_wears_its_cell(cells: Seq<CellVis>, p: Pos)
    ensures
        state_at(cells, p) == (if -100_000 <= p.x && p.x < 100_000 && -100_000 <= p.z && p.z
            < 100_000 {
            Some(cells[column(p.z as int) * 100 + column(p.x as int)])
        } else {
            None
        }),
{
}

/// A memory goes through four steps of equal length and stays at the last.
pub proof fn memories_fade_evenly(age: int, ttl: int, step: int)
    requires
        0 < ttl,
        0 <= age < ttl,
        0 <= step < 4,
    ensures
        fade(age, ttl) == step <==> step * ttl <= 4 * age && 4 * age < (step + 1) * ttl,
{
    let q = age * 4 / ttl;
    assert((q == step) <==> (step * ttl <= 4 * age && 4 * age < (step + 1) * ttl)) by (
    nonlinear_arith)
        requires
            0 < ttl,
            q == age * 4 / ttl,
    ;
    if age <= 0 {
        assert(q == 0) by (nonlinear_arith)
            requires
                age == 0,
                0 < ttl,
                q == age * 4 / ttl,
        ;
    }
}

/// A tile marks each place out of sight where a unit was seen, faded by the age
/// of that memory.
pub proof fn tiles_mark_what_is_remembered(list: Seq<Sighting>, ttl: i64, p: Pos, step: usize)
    requires
        0 < ttl,
    ensures
        picked(list, tile(ttl)).contains((p, step)) <==> exists|i: int|
            0 <= i < list.len() && !(#[trigger] list[i]).seen && list[i].pos == p && fade(
                list[i].age as int,
                ttl as int,
            ) as usize == step,
{
    let f = tile(ttl);
    picked_holds(list, f, (p, step));
    if exists|i: int|
        0 <= i < list.len() && !(#[trigger] list[i]).seen && list[i].pos == p && fade(
            list[i].age as int,
            ttl as int,
        ) as usize == step {
        let i = choose|i: int|
            0 <= i < list.len() && !(#[trigger] list[i]).seen && list[i].pos == p && fade(
                list[i].age as int,
                ttl as int,
            ) as usize == step;
        assert(f(list[i]) == Some((p, step)));
    }
    if picked(list, f).contains((p, step)) {
        let i = choose|i: int| 0 <= i < list.len() && f(#[trigger] list[i]) == Some((p, step));
        assert(!list[i].seen);
    }
}

// ---------------------------------------------------------------------------
// Under the cursor
// ---------------------------------------------------------------------------

/// The cursor is over the world with nothing in the way: no panel, no building
/// waiting, no drag, no end of the game.
pub open spec fn looks_at_ground(m: Mouse, game_over: bool, ui: UiView) -> bool {
    &&& !game_over
    &&& ui.placement is None
    &&& !ui.dragging
    &&& m.cursor is Some
    &&& m.ground is Some
    &&& !on_hud(m.cursor->0, m.window, ui.notif_rows as nat, ui.prop_cards as nat, m.hud)
}

/// The cursor shows what a click would mean: a cross while an attack-move waits
/// or over an enemy, a hand over one of ours, a grip over a node, else an arrow.
pub proof fn cursors_show_what_they_are_over(
    cat: &Catalog,
    c: &Clickables,
    m: Mouse,
    game_over: bool,
    workers: bool,
    ui: UiView,
)
    ensures
        ({
            let (ring, icon) = hover(cat, c, m, game_over, workers, ui);
            &&& !looks_at_ground(m, game_over, ui) ==> ring is None
            &&& icon == (if ui.attack_move_armed && !game_over {
                Icon::Crosshair
            } else if ring is None {
                Icon::Arrow
            } else if ring->0.tone == Tone::Friendly {
                Icon::Pointer
            } else if ring->0.tone == Tone::Hostile {
                Icon::Crosshair
            } else {
                Icon::Grab
            })
        }),
{
}

proof fn nearest_of_picked<T, U>(s: Seq<T>, f: spec_fn(T) -> Option<(U, i128)>) -> (i: int)
    ensures
        match nearest(picked(s, f)) {
            None => forall|j: int| 0 <= j < s.len() ==> f(#[trigger] s[j]) is None,
            Some(best) => {
                &&& 0 <= i < s.len()
                &&& f(s[i]) == Some(best)
                &&& forall|j: int|
                    0 <= j < s.len() && f(#[trigger] s[j]) is Some ==> best.1 <= (f(s[j])->0).1
            },
        },
{
    let list = picked(s, f);
    let at = picked_places(s, f);
    if list.len() == 0 {
        assert forall|j: int| 0 <= j < s.len() implies f(#[trigger] s[j]) is None by {
            if f(s[j]) is Some {
                assert(at.contains(j));
            }
        }
        0
    } else {
        let k = nearest_is_nearest(list);
        assert forall|j: int| 0 <= j < s.len() && f(#[trigger] s[j]) is Some implies list[k].1 <= (
        f(s[j])->0).1 by {
            assert(at.contains(j));
            let l = choose|l: int| 0 <= l < at.len() && at[l] == j;
            assert(list[k].1 <= list[l].1);
        }
        at[k]
    }
}

/// A ring round the unit under the cursor, ours or in sight, nearest to it: half
/// as wide again as its body and a little, in the colour of whose it is.
pub proof fn units_are_ringed_first(
    cat: &Catalog,
    c: &Clickables,
    m: Mouse,
    workers: bool,
    ui: UiView,
) -> (i: int)
    requires
        cat.wf(),
        looks_at_ground(m, false, ui),
        any_unit(cat, c.units@, Whose::AnyoneSeen),
    ensures
        under_cursor(cat, c.units@[i], Whose::AnyoneSeen),
        0 <= i < c.units@.len(),
        forall|j: int|
            0 <= j < c.units@.len() && under_cursor(
                cat,
                #[trigger] c.units@[j],
                Whose::AnyoneSeen,
            ) ==> c.units@[i].reach <= c.units@[j].reach,
        hover(cat, c, m, false, workers, ui).0 == Some(
            Ring {
                pos: c.units@[i].pos,
                radius: (cat.unit_radius * 155 / 100) as i64,
                tone: if c.units@[i].own {
                    Tone::Friendly
                } else {
                    Tone::Hostile
                },
            },
        ),
{
    let f = hovered_unit(cat);
    let i = nearest_of_picked(c.units@, f);
    assert forall|j: int| 0 <= j < c.units@.len() implies under_cursor(
        cat,
        #[trigger] c.units@[j],
        Whose::AnyoneSeen,
    ) == (f(c.units@[j]) is Some) by {}
    i
}

/// Where no unit is under the cursor, a ring round the building it is over, ours
/// or in sight, nearest to it: a little wider than half its footprint.
pub proof fn buildings_are_ringed_next(
    cat: &Catalog,
    c: &Clickables,
    m: Mouse,
    workers: bool,
    ui: UiView,
) -> (i: int)
    requires
        cat.wf(),
        looks_at_ground(m, false, ui),
        !any_unit(cat, c.units@, Whose::AnyoneSeen),
        exists|j: int|
            0 <= j < c.buildings@.len() && over_building(
                cat,
                #[trigger] c.buildings@[j],
                m.ground->0,
            ),
    ensures
        0 <= i < c.buildings@.len(),
        over_building(cat, c.buildings@[i], m.ground->0),
        forall|j: int|
            0 <= j < c.buildings@.len() && over_building(
                cat,
                #[trigger] c.buildings@[j],
                m.ground->0,
            ) ==> apart(c.buildings@[i].pos, m.ground->0) <= apart(
                c.buildings@[j].pos,
                m.ground->0,
            ),
        hover(cat, c, m, false, workers, ui).0 == Some(
            Ring {
                pos: c.buildings@[i].pos,
                radius: (cat.building_row(c.buildings@[i].kind).size * 62 / 100) as i64,
                tone: if c.buildings@[i].own {
                    Tone::Friendly
                } else {
                    Tone::Hostile
                },
            },
        ),
{
    let ground = m.ground->0;
    let fu = hovered_unit(cat);
    let u = nearest_of_picked(c.units@, fu);
    if nearest(picked(c.units@, fu)) is Some {
        assert(under_cursor(cat, c.units@[u], Whose::AnyoneSeen));
    }
    let f = hovered_building(cat, ground);
    let i = nearest_of_picked(c.buildings@, f);
    assert forall|j: int| 0 <= j < c.buildings@.len() implies over_building(
        cat,
        #[trigger] c.buildings@[j],
        ground,
    ) == (f(c.buildings@[j]) is Some) && (f(c.buildings@[j]) is Some ==> (f(
        c.buildings@[j],
    )->0).1 == apart(c.buildings@[j].pos, ground)) by {
        distances_fit(c.buildings@[j].pos, ground);
    }
    i
}

/// A point is on a building of ours or one in sight.
pub open spec fn over_building(cat: &Catalog, b: ClickBuilding, ground: Pos) -> bool {
    (b.own || b.seen) && stands_on(cat, b.kind, b.pos, ground)
}

/// Where neither a unit nor a building in sight is under the cursor, a hostile
/// ring round the remembered building it is over, nearest to it.
pub proof fn memories_are_ringed_next(
    cat: &Catalog,
    c: &Clickables,
    m: Mouse,
    workers: bool,
    ui: UiView,
) -> (i: int)
    requires
        cat.wf(),
        looks_at_ground(m, false, ui),
        !any_unit(cat, c.units@, Whose::AnyoneSeen),
        forall|j: int|
            0 <= j < c.buildings@.len() ==> !over_building(
                cat,
                #[trigger] c.buildings@[j],
                m.ground->0,
            ),
        exists|j: int|
            0 <= j < c.ghosts@.len() && stands_on(
                cat,
                (#[trigger] c.ghosts@[j]).kind,
                c.ghosts@[j].pos,
                m.ground->0,
            ),
    ensures
        0 <= i < c.ghosts@.len(),
        stands_on(cat, c.ghosts@[i].kind, c.ghosts@[i].pos, m.ground->0),
        forall|j: int|
            0 <= j < c.ghosts@.len() && stands_on(
                cat,
                (#[trigger] c.ghosts@[j]).kind,
                c.ghosts@[j].pos,
                m.ground->0,
            ) ==> apart(c.ghosts@[i].pos, m.ground->0) <= apart(c.ghosts@[j].pos, m.ground->0),
        hover(cat, c, m, false, workers, ui).0 == Some(
            Ring {
                pos: c.ghosts@[i].pos,
                radius: (cat.building_row(c.ghosts@[i].kind).size * 62 / 100) as i64,
                tone: Tone::Hostile,
            },
        ),
{
    let ground = m.ground->0;
    let fu = hovered_unit(cat);
    let u = nearest_of_picked(c.units@, fu);
    if nearest(picked(c.units@, fu)) is Some {
        assert(under_cursor(cat, c.units@[u], Whose::AnyoneSeen));
    }
    let fb = hovered_building(cat, ground);
    let b = nearest_of_picked(c.buildings@, fb);
    if nearest(picked(c.buildings@, fb)) is Some {
        assert(over_building(cat, c.buildings@[b], ground));
    }
    let f = hovered_ghost(cat, ground);
    let i = nearest_of_picked(c.ghosts@, f);
    assert forall|j: int| 0 <= j < c.ghosts@.len() implies stands_on(
        cat,
        (#[trigger] c.ghosts@[j]).kind,
        c.ghosts@[j].pos,
        ground,
    ) == (f(c.ghosts@[j]) is Some) && (f(c.ghosts@[j]) is Some ==> (f(c.ghosts@[j])->0).1
        == apart(c.ghosts@[j].pos, ground)) by {
        distances_fit(c.ghosts@[j].pos, ground);
    }
    i
}

/// Over a node there is a ring only while a worker is selected and neither a
/// unit nor a building, seen or remembered, is under the cursor; else there is
/// none.
pub proof fn nodes_are_ringed_for_workers(
    cat: &Catalog,
    c: &Clickables,
    m: Mouse,
    workers: bool,
    ui: UiView,
)
    requires
        cat.wf(),
        looks_at_ground(m, false, ui),
        !any_unit(cat, c.units@, Whose::AnyoneSeen),
        forall|j: int|
            0 <= j < c.buildings@.len() ==> !over_building(
                cat,
                #[trigger] c.buildings@[j],
                m.ground->0,
            ),
        forall|j: int|
            0 <= j < c.ghosts@.len() ==> !stands_on(
                cat,
                (#[trigger] c.ghosts@[j]).kind,
                c.ghosts@[j].pos,
                m.ground->0,
            ),
    ensures
        ({
            let ring = hover(cat, c, m, false, workers, ui).0;
            &&& ring is Some <==> workers && any_node(c.nodes@, m.ground->0)
            &&& ring is Some ==> ring->0.tone == Tone::Resource && exists|i: int|
                0 <= i < c.nodes@.len() && in_node(#[trigger] c.nodes@[i], m.ground->0)
                    && ring->0.pos == c.nodes@[i].pos && ring->0.radius == (match c.nodes@[i].kind {
                    ResourceKind::Gold => 2_800int,
                    ResourceKind::Lumber => 1_600int,
                })
        }),
{
    let ground = m.ground->0;
    let fu = hovered_unit(cat);
    let u = nearest_of_picked(c.units@, fu);
    if nearest(picked(c.units@, fu)) is Some {
        assert(under_cursor(cat, c.units@[u], Whose::AnyoneSeen));
    }
    let fb = hovered_building(cat, ground);
    let b = nearest_of_picked(c.buildings@, fb);
    if nearest(picked(c.buildings@, fb)) is Some {
        assert(over_building(cat, c.buildings@[b], ground));
    }
    let fg = hovered_ghost(cat, ground);
    let g = nearest_of_picked(c.ghosts@, fg);
    if nearest(picked(c.ghosts@, fg)) is Some {
        assert(stands_on(cat, c.ghosts@[g].kind, c.ghosts@[g].pos, ground));
    }
    let f = hovered_node(ground);
    first_some_is_first(c.nodes@, f);
    assert forall|j: int| 0 <= j < c.nodes@.len() implies in_node(#[trigger] c.nodes@[j], ground)
        == (f(c.nodes@[j]) is Some) by {
        let r = crate::pick::node_radius(c.nodes@[j].kind);
        if c.nodes@[j].kind == ResourceKind::Gold {
            assert(r * r == 12_250_000) by (nonlinear_arith)
                requires
                    r == 3_500,
            ;
        } else {
            assert(r * r == 4_000_000) by (nonlinear_arith)
                requires
                    r == 2_000,
            ;
        }
    }
    match first_some(c.nodes@, f) {
        Some(ring) => {
            let i = choose|i: int| 0 <= i < c.nodes@.len() && f(#[trigger] c.nodes@[i]) == Some(ring);
            assert(in_node(c.nodes@[i], ground));
        },
        None => {
            if any_node(c.nodes@, ground) {
                let i = choose|i: int| 0 <= i < c.nodes@.len() && in_node(#[trigger] c.nodes@[i], ground);
                assert(f(c.nodes@[i]) is None);
            }
        },
    }
}

// ---------------------------------------------------------------------------
// Orders on their way, and first orders
// ---------------------------------------------------------------------------

/// The ring of an order closes evenly from five units to one and a fifth while
/// the order travels, and is no narrower afterwards.
pub proof fn transit_rings_close_evenly(left: int, link: int)
    requires
        0 < link,
    ensures
        left >= link ==> transit_radius(left, link) == 5_000,
        left <= 0 ==> transit_radius(left, link) == 1_200,
        0 <= left <= link ==> -link <= 2 * (link * (transit_radius(left, link) - 1_200) - 3_800
            * left) <= link,
{
    let l = kept(left, 0, link);
    rounded_is_close(3_800 * l, link);
    let q = rounded(3_800 * l, link);
    assert(-link <= 2 * (link * q - 3_800 * l) <= link) by (nonlinear_arith)
        requires
            2 * (3_800 * l) - link < 2 * link * q <= 2 * (3_800 * l) + link,
    ;
    if left >= link {
        rounded_is_bounded(3_800 * link, link, 3_800, 3_800);
    }
    if left <= 0 {
        rounded_is_bounded(0, link, 0, 0);
    }
}

/// Only an order of ours that names a place has a ring, and it is there.
pub proof fn transit_rings_stand_where_orders_lead(list: Seq<Travelling>, now: i64, p: Pos)
    ensures
        (exists|k: int|
            0 <= k < picked(list, transit(now)).len() && (#[trigger] picked(list, transit(now))[k]).0
                == p) <==> exists|i: int|
            0 <= i < list.len() && (#[trigger] list[i]).human && destination(
                list[i].order,
                list[i].target,
            ) == Some(p),
{
    let f = transit(now);
    let s = picked(list, f);
    let at = picked_places(list, f);
    if exists|k: int| 0 <= k < s.len() && (#[trigger] s[k]).0 == p {
        let k = choose|k: int| 0 <= k < s.len() && (#[trigger] s[k]).0 == p;
        assert(f(list[at[k]]) == Some(s[k]));
        assert(list[at[k]].human);
    }
    if exists|i: int|
        0 <= i < list.len() && (#[trigger] list[i]).human && destination(
            list[i].order,
            list[i].target,
        ) == Some(p) {
        let i = choose|i: int|
            0 <= i < list.len() && (#[trigger] list[i]).human && destination(
                list[i].order,
                list[i].target,
            ) == Some(p);
        assert(f(list[i]) is Some);
        assert(at.contains(i));
        let k = choose|k: int| 0 <= k < at.len() && at[k] == i;
        assert(s[k].0 == p);
    }
}

/// Where a rally point stands while what it is set on does.
pub open spec fn banner(rally: Rally) -> Option<Pos> {
    match rally {
        Rally::Nowhere => None,
        Rally::Ground(p) => Some(p),
        Rally::Node(_, at) => at,
        Rally::Unit(_, at) => at,
    }
}

/// A recruit's first order leads to where its building's banner stands, and it
/// has none where no banner does. It follows a unit, works a node if it is a
/// worker, and else walks.
pub proof fn recruits_go_to_the_banner(rally: Rally, worker: bool)
    ensures
        destination(first_said(rally, worker), banner(rally)) == banner(rally),
        banner(rally) is None ==> first_said(rally, worker) == Order::Idle,
        rally is Unit && banner(rally) is Some ==> first_said(rally, worker) == Order::Follow(
            rally->Unit_0,
        ),
        rally is Node && banner(rally) is Some && worker ==> first_said(rally, worker)
            == Order::Harvest(rally->Node_0),
        banner(rally) is Some && !(rally is Unit) && !(rally is Node && worker) ==> first_said(
            rally,
            worker,
        ) == Order::Move(banner(rally)->0),
        crate::markers::rally_at(rally) == banner(rally),
{
}

// ---------------------------------------------------------------------------
// Marks before a click
// ---------------------------------------------------------------------------

/// The outline of a building shows what a press would do: with a worker of ours
/// selected the press builds exactly where the outline is marked as good, and on
/// the very spot of the outline. There is one while a building waits over
/// ground, and none otherwise.
pub proof fn outlines_show_what_a_press_does(
    cat: &Catalog,
    c: &Clickables,
    regions: Seq<Region>,
    m: Mouse,
    site: Site,
    ui: UiView,
)
    requires
        presses_world(m, ui),
        any_free_hand(c.units@, Seq::empty()),
    ensures
        ({
            let mark = outlined(cat, ui.placement, m.ground, site);
            let spoken = left_step(cat, c, regions, m, site, false, ui).said;
            &&& mark is Some <==> ui.placement is Some && m.ground is Some
            &&& mark is Some ==> {
                &&& mark->0.size == cat.building_row(ui.placement->0).size
                &&& mark->0.ok <==> spoken.len() == 1
                &&& mark->0.ok ==> spoken[0] is Build && spoken[0]->kind == ui.placement->0
                    && spoken[0]->Build_at == mark->0.pos
            }
        }),
{
    if ui.placement is Some && m.ground is Some {
        let kind = ui.placement->0;
        let at = snapped(m.ground->0, cat.building_row(kind).size as int);
        let i = builders_are_nearest(c.units@, at, Seq::empty());
        let j = builders_are_nearest(c.units@, at, ui.wall_chain);
    }
}

/// The disc of a waiting posture is as wide as the circle the order would name,
/// three units for an order that names a point, and missing where it names a
/// unit.
pub proof fn discs_show_what_an_order_names(arm: PostureArm, ground: Pos)
    ensures
        match posture_at(arm, ground) {
            None => disc_radius(arm.kind) is None,
            Some(Said::Posture { posture: Some(PostureIntent::Defend { radius, .. }), .. }) =>
                disc_radius(arm.kind) == Some(radius),
            Some(_) => disc_radius(arm.kind) == Some(3_000i64),
        },
{
}

/// Treasure is marked on the minimap where it lies, exactly while the player
/// sees it.
pub proof fn treasure_is_marked_while_seen(list: Seq<(Pos, bool)>, px: int, x: i64, y: i64)
    requires
        0 <= px <= 1_000_000_000,
    ensures
        picked(list, cache_dot(px)).contains((x, y)) <==> exists|i: int|
            0 <= i < list.len() && (#[trigger] list[i]).1 && to_minimap(list[i].0, px).0 == x
                && to_minimap(list[i].0, px).1 == y,
{
    let f = cache_dot(px);
    picked_holds(list, f, (x, y));
    assert forall|i: int| 0 <= i < list.len() implies (f(#[trigger] list[i]) == Some((x, y)) <==> (
    list[i]).1 && to_minimap(list[i].0, px).0 == x && to_minimap(list[i].0, px).1 == y) by {
        points_are_drawn_in_proportion(list[i].0, px);
    }
    if picked(list, f).contains((x, y)) {
        let i = choose|i: int| 0 <= i < list.len() && f(#[trigger] list[i]) == Some((x, y));
        assert((list[i]).1);
    }
    if exists|i: int|
        0 <= i < list.len() && (#[trigger] list[i]).1 && to_minimap(list[i].0, px).0 == x
            && to_minimap(list[i].0, px).1 == y {
        let i = choose|i: int|
            0 <= i < list.len() && (#[trigger] list[i]).1 && to_minimap(list[i].0, px).0 == x
                && to_minimap(list[i].0, px).1 == y;
        assert(f(list[i]) == Some((x, y)));
    }
}

/// Every ring on the minimap stands where its alert was, in order, in the colour
/// of how bad it was, and as large and as faint as its age makes it.
pub proof fn alerts_are_ringed_where_they_were(list: Seq<AlertPing>, now: i64, px: int, i: int)
    requires
        0 <= px <= 1_000_000_000,
        0 <= i < list.len(),
        0 <= now - list[i].born <= 3_000,
    ensures
        ({
            let rings = picked(list, ping_ring(now, px));
            let left = 3_000 - (now - list[i].born);
            &&& rings.len() == list.len()
            &&& rings[i].x == to_minimap(list[i].pos, px).0
            &&& rings[i].y == to_minimap(list[i].pos, px).1
            &&& rings[i].severity == list[i].severity
            &&& 3 * rings[i].alpha <= left < 3 * rings[i].alpha + 3
            &&& -9_000_000 <= 2 * (9_000_000 * (rings[i].size - 5_000) - 29_000 * (9_000_000 - left
                * left)) <= 9_000_000
        }),
{
    let f = ping_ring(now, px);
    everybody_is_picked(list, f, i);
    points_are_drawn_in_proportion(list[i].pos, px);
    rings_open_as_they_age(now - list[i].born);
    let left = 3_000 - (now - list[i].born);
    assert(0 <= left * left <= 9_000_000) by (nonlinear_arith)
        requires
            0 <= left <= 3_000,
    ;
}

proof fn everybody_is_picked<T, U>(s: Seq<T>, f: spec_fn(T) -> Option<U>, i: int)
    requires
        0 <= i < s.len(),
        forall|x: T| #[trigger] f(x) is Some,
    ensures
        picked(s, f).len() == s.len(),
        f(s[i]) == Some(picked(s, f)[i]),
    decreases s.len(),
{
    let front = s.drop_last();
    assert(f(s.last()) is Some);
    if i < front.len() {
        everybody_is_picked(front, f, i);
        assert(front[i] == s[i]);
    } else if front.len() > 0 {
        everybody_is_picked(front, f, 0);
    } else {
        assert(picked(front, f).len() == 0);
    }
}

} // verus!
