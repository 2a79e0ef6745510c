//! What is drawn on the minimap, and what the cursor is told it is over.
//!
//! Screen lengths are thousandths of a pixel.

use vstd::prelude::*;

use crate::alerts::Rgb;
use crate::catalog::{Catalog, ResourceKind};
use crate::gestures::Mouse;
use crate::layout::{cursor_over_hud, on_hud, to_minimap, world_to_minimap};
use crate::lists::{find_nearest, first_some, first_some_step, first_stays, nearest, picked, picked_step};
use crate::map::{clamp, clamped, dist2, dist_sq, round_div, rounded, Pos, MAP_HALF};
use crate::pick::{
    node_radius, on_footprint, touches, ClickBuilding, ClickNode, ClickUnit, Clickables, Remembered,
    PICK_SLACK,
};
use crate::ui_state::{UiState, UiView};

verus! {

// ---------------------------------------------------------------------------
// Dots
// ---------------------------------------------------------------------------

/// A unit or building as the minimap sees it.
#[derive(Clone, Copy, PartialEq, Eq, Debug, Structural)]
pub struct Blip {
    pub pos: Pos,
    pub human: bool,
    /// The fog shows its place now.
    pub seen: bool,
    pub hero: bool,
}

/// A dot: where its middle is, how large it is, whose it is, and how much
/// lighter than its side's colour it is drawn, in thousandths.
#[derive(Clone, Copy, PartialEq, Eq, Debug, Structural)]
pub struct Dot {
    pub x: i64,
    pub y: i64,
    pub size: i64,
    pub human: bool,
    pub lighten: i64,
}

pub open spec fn dot(pos: Pos, px: int, size: i64, human: bool, lighten: i64) -> Dot {
    Dot {
        x: to_minimap(pos, px).0 as i64,
        y: to_minimap(pos, px).1 as i64,
        size,
        human,
        lighten,
    }
}

pub open spec fn unit_dot(px: int) -> spec_fn(Blip) -> Option<Dot> {
    |b: Blip|
        if b.human || b.seen {
            Some(
                if b.hero {
                    dot(b.pos, px, 5_000, b.human, 350)
                } else {
                    dot(b.pos, px, 3_000, b.human, 0)
                },
            )
        } else {
            None
        }
}

pub open spec fn building_dot(px: int) -> spec_fn(Blip) -> Option<Dot> {
    |b: Blip|
        if b.human || b.seen {
            Some(dot(b.pos, px, 6_000, b.human, 120))
        } else {
            None
        }
}

pub open spec fn ghost_dot(px: int) -> spec_fn(Blip) -> Option<Dot> {
    |b: Blip| Some(dot(b.pos, px, 6_000, b.human, (-350) as i64))
}

pub open spec fn sighting_dot(px: int) -> spec_fn(Blip) -> Option<Dot> {
    |b: Blip|
        if b.seen {
            None
        } else {
            Some(dot(b.pos, px, 2_000, b.human, (-250) as i64))
        }
}

/// The dots, in the order in which they are drawn: units, buildings, remembered
/// buildings, and where units were last seen. Ours are always there, theirs
/// while seen; a memory gives way to sight.
pub open spec fn dots(
    units: Seq<Blip>,
    buildings: Seq<Blip>,
    ghosts: Seq<Blip>,
    sightings: Seq<Blip>,
    px: int,
) -> Seq<Dot> {
    picked(units, unit_dot(px)) + picked(buildings, building_dot(px)) + picked(
        ghosts,
        ghost_dot(px),
    ) + picked(sightings, sighting_dot(px))
}

/// An enemy that is not seen leaves no dot of its own.
pub proof fn the_unseen_leave_no_dot(b: Blip, px: int)
    requires
        !b.human,
        !b.seen,
    ensures
        unit_dot(px)(b) is None,
        building_dot(px)(b) is None,
{
}

fn make_dot(pos: Pos, px: i64, size: i64, human: bool, lighten: i64) -> (r: Dot)
    requires
        0 <= px <= 1_000_000_000,
    ensures
        r == dot(pos, px as int, size, human, lighten),
{
    let (x, y) = world_to_minimap(pos, px);
    Dot { x, y, size, human, lighten }
}

/// A colour channel, made lighter or darker.
pub open spec fn shifted(v: int, amount: int) -> int {
    clamped(v + amount, 0, 1_000)
}

fn shift(v: u16, amount: i64) -> (r: u16)
    requires
        -1_000 <= amount <= 1_000,
    ensures
        r == shifted(v as int, amount as int),
{
    let sum: i64 = v as i64 + amount;
    if sum < 0 {
        0
    } else if sum > 1_000 {
        1_000
    } else {
        sum as u16
    }
}

/// A colour, made lighter by a number of thousandths of full, or darker by a
/// negative one.
pub fn lighten(c: Rgb, amount: i64) -> (r: Rgb)
    requires
        -1_000 <= amount <= 1_000,
    ensures
        r.r == shifted(c.r as int, amount as int),
        r.g == shifted(c.g as int, amount as int),
        r.b == shifted(c.b as int, amount as int),
{
    Rgb { r: shift(c.r, amount), g: shift(c.g, amount), b: shift(c.b, amount) }
}

/// The dots of the minimap.
pub fn minimap_dots(
    units: &Vec<Blip>,
    buildings: &Vec<Blip>,
    ghosts: &Vec<Blip>,
    sightings: &Vec<Blip>,
    px: i64,
) -> (r: Vec<Dot>)
    requires
        0 <= px <= 1_000_000_000,
    ensures
        r@ == dots(units@, buildings@, ghosts@, sightings@, px as int),
{
    let mut out: Vec<Dot> = Vec::new();
    let mut i: usize = 0;
    while i < units.len()
        invariant
            0 <= px <= 1_000_000_000,
            i <= units.len(),
            out@ == picked(units@.take(i as int), unit_dot(px as int)),
        decreases units.len() - i,
    {
        proof {
            picked_step(units@, i as int, unit_dot(px as int));
        }
        let b = units[i];
        if b.human || b.seen {
            if b.hero {
                out.push(make_dot(b.pos, px, 5_000, b.human, 350));
            } else {
                out.push(make_dot(b.pos, px, 3_000, b.human, 0));
            }
        }
        i = i + 1;
    }
    assert(units@.take(i as int) =~= units@);
    let mut next = building_dots(buildings, px);
    out.append(&mut next);
    let mut next = ghost_dots(ghosts, px);
    out.append(&mut next);
    let mut next = sighting_dots(sightings, px);
    out.append(&mut next);
    out
}

fn building_dots(list: &Vec<Blip>, px: i64) -> (out: Vec<Dot>)
    requires
        0 <= px <= 1_000_000_000,
    ensures
        out@ == picked(list@, building_dot(px as int)),
{
    let mut out: Vec<Dot> = Vec::new();
    let mut i: usize = 0;
    while i < list.len()
        invariant
            0 <= px <= 1_000_000_000,
            i <= list.len(),
            out@ == picked(list@.take(i as int), building_dot(px as int)),
        decreases list.len() - i,
    {
        proof {
            picked_step(list@, i as int, building_dot(px as int));
        }
        let b = list[i];
        if b.human || b.seen {
            out.push(make_dot(b.pos, px, 6_000, b.human, 120));
        }
        i = i + 1;
    }
    assert(list@.take(i as int) =~= list@);
    out
}

fn ghost_dots(list: &Vec<Blip>, px: i64) -> (out: Vec<Dot>)
    requires
        0 <= px <= 1_000_000_000,
    ensures
        out@ == picked(list@, ghost_dot(px as int)),
{
    let mut out: Vec<Dot> = Vec::new();
    let mut i: usize = 0;
    while i < list.len()
        invariant
            0 <= px <= 1_000_000_000,
            i <= list.len(),
            out@ == picked(list@.take(i as int), ghost_dot(px as int)),
        decreases list.len() - i,
    {
        proof {
            picked_step(list@, i as int, ghost_dot(px as int));
        }
        let b = list[i];
        out.push(make_dot(b.pos, px, 6_000, b.human, -350));
        i = i + 1;
    }
    assert(list@.take(i as int) =~= list@);
    out
}

fn sighting_dots(list: &Vec<Blip>, px: i64) -> (out: Vec<Dot>)
    requires
        0 <= px <= 1_000_000_000,
    ensures
        out@ == picked(list@, sighting_dot(px as int)),
{
    let mut out: Vec<Dot> = Vec::new();
    let mut i: usize = 0;
    while i < list.len()
        invariant
            0 <= px <= 1_000_000_000,
            i <= list.len(),
            out@ == picked(list@.take(i as int), sighting_dot(px as int)),
        decreases list.len() - i,
    {
        proof {
            picked_step(list@, i as int, sighting_dot(px as int));
        }
        let b = list[i];
        if !b.seen {
            out.push(make_dot(b.pos, px, 2_000, b.human, -250));
        }
        i = i + 1;
    }
    assert(list@.take(i as int) =~= list@);
    out
}

// ---------------------------------------------------------------------------
// The outline of what the camera shows
// ---------------------------------------------------------------------------

/// A box on the minimap.
#[derive(Clone, Copy, PartialEq, Eq, Debug, Structural)]
pub struct MapBox {
    pub left: i64,
    pub top: i64,
    pub width: i64,
    pub height: i64,
}

/// How far off the map a corner of the view may count.
pub const VIEW_LIMIT: i32 = 300_000;

pub open spec fn near1(v: int) -> int {
    clamped(v, -VIEW_LIMIT, VIEW_LIMIT as int)
}

pub open spec fn seen_corner() -> spec_fn(Option<Pos>) -> Option<Pos> {
    |c: Option<Pos>|
        match c {
            Some(p) => Some(Pos { x: near1(p.x as int) as i32, z: near1(p.z as int) as i32 }),
            None => None,
        }
}

/// The corners of the view that meet the ground.
pub open spec fn corners(view: Seq<Option<Pos>>) -> Seq<Pos> {
    picked(view, seen_corner())
}

pub open spec fn low_x(s: Seq<Pos>) -> int
    decreases s.len(),
{
    if s.len() <= 1 {
        s[0].x as int
    } else {
        crate::layout::least(low_x(s.drop_last()), s.last().x as int)
    }
}

pub open spec fn high_x(s: Seq<Pos>) -> int
    decreases s.len(),
{
    if s.len() <= 1 {
        s[0].x as int
    } else {
        crate::layout::most(high_x(s.drop_last()), s.last().x as int)
    }
}

pub open spec fn low_z(s: Seq<Pos>) -> int
    decreases s.len(),
{
    if s.len() <= 1 {
        s[0].z as int
    } else {
        crate::layout::least(low_z(s.drop_last()), s.last().z as int)
    }
}

pub open spec fn high_z(s: Seq<Pos>) -> int
    decreases s.len(),
{
    if s.len() <= 1 {
        s[0].z as int
    } else {
        crate::layout::most(high_z(s.drop_last()), s.last().z as int)
    }
}

/// The outline of the view: the box round its corners on the ground, where at
/// least two of them are. North is up, so the corners swap.
pub open spec fn outline(view: Seq<Option<Pos>>, px: int) -> Option<MapBox> {
    let s = corners(view);
    if s.len() < 2 {
        None
    } else {
        let a = to_minimap(Pos { x: low_x(s) as i32, z: high_z(s) as i32 }, px);
        let b = to_minimap(Pos { x: high_x(s) as i32, z: low_z(s) as i32 }, px);
        Some(
            MapBox {
                left: a.0 as i64,
                top: a.1 as i64,
                width: crate::layout::most(b.0 - a.0, 2_000) as i64,
                height: crate::layout::most(b.1 - a.1, 2_000) as i64,
            },
        )
    }
}

fn list_corners(view: &Vec<Option<Pos>>) -> (r: Vec<Pos>)
    ensures
        r@ == corners(view@),
        forall|i: int|
            0 <= i < r@.len() ==> -VIEW_LIMIT <= (#[trigger] r@[i]).x <= VIEW_LIMIT && -VIEW_LIMIT
                <= r@[i].z <= VIEW_LIMIT,
{
    let mut out: Vec<Pos> = Vec::new();
    let mut i: usize = 0;
    while i < view.len()
        invariant
            i <= view.len(),
            out@ == picked(view@.take(i as int), seen_corner()),
            forall|i: int|
                0 <= i < out@.len() ==> -VIEW_LIMIT <= (#[trigger] out@[i]).x <= VIEW_LIMIT
                    && -VIEW_LIMIT <= out@[i].z <= VIEW_LIMIT,
        decreases view.len() - i,
    {
        proof {
            picked_step(view@, i as int, seen_corner());
        }
        if let Some(p) = view[i] {
            out.push(
                Pos {
                    x: clamp(p.x, -VIEW_LIMIT, VIEW_LIMIT),
                    z: clamp(p.z, -VIEW_LIMIT, VIEW_LIMIT),
                },
            );
        }
        i = i + 1;
    }
    assert(view@.take(i as int) =~= view@);
    out
}

/// The outline of the view.
pub fn viewport_box(view: &Vec<Option<Pos>>, px: i64) -> (r: Option<MapBox>)
    requires
        0 <= px <= 1_000_000_000,
    ensures
        r == outline(view@, px as int),
{
    let s = list_corners(view);
    if s.len() < 2 {
        return None;
    }
    let mut lx: i32 = s[0].x;
    let mut hx: i32 = s[0].x;
    let mut lz: i32 = s[0].z;
    let mut hz: i32 = s[0].z;
    let mut i: usize = 1;
    assert(s@.take(1)[0] == s@[0]);
    while i < s.len()
        invariant
            1 <= i <= s.len(),
            lx == low_x(s@.take(i as int)),
            hx == high_x(s@.take(i as int)),
            lz == low_z(s@.take(i as int)),
            hz == high_z(s@.take(i as int)),
        decreases s.len() - i,
    {
        assert(s@.take(i + 1).drop_last() =~= s@.take(i as int));
        assert(s@.take(i + 1).last() == s@[i as int]);
        if s[i].x < lx {
            lx = s[i].x;
        }
        if hx < s[i].x {
            hx = s[i].x;
        }
        if s[i].z < lz {
            lz = s[i].z;
        }
        if hz < s[i].z {
            hz = s[i].z;
        }
        i = i + 1;
    }
    assert(s@.take(i as int) =~= s@);
    let (ax, ay) = world_to_minimap(Pos { x: lx, z: hz }, px);
    let (bx, by) = world_to_minimap(Pos { x: hx, z: lz }, px);
    Some(
        MapBox {
            left: ax,
            top: ay,
            width: if bx - ax < 2_000 {
                2_000
            } else {
                bx - ax
            },
            height: if by - ay < 2_000 {
                2_000
            } else {
                by - ay
            },
        },
    )
}

/// The box of a named circle of ground: never smaller than three pixels.
pub open spec fn circle(pos: Pos, radius: int, px: int) -> MapBox {
    let r = crate::layout::most(rounded(radius * px, 2 * MAP_HALF), 1_500);
    MapBox {
        left: (to_minimap(pos, px).0 - r) as i64,
        top: (to_minimap(pos, px).1 - r) as i64,
        width: (2 * r) as i64,
        height: (2 * r) as i64,
    }
}

/// The box of a named circle of ground.
pub fn region_circle(pos: Pos, radius: i64, px: i64) -> (r: MapBox)
    requires
        0 <= px <= 1_000_000_000,
        0 <= radius <= 1_000_000_000,
    ensures
        r == circle(pos, radius as int, px as int),
{
    let (x, y) = world_to_minimap(pos, px);
    assert(0 <= radius * px <= 1_000_000_000 * 1_000_000_000) by (nonlinear_arith)
        requires
            0 <= px <= 1_000_000_000,
            0 <= radius <= 1_000_000_000,
    ;
    proof {
        crate::map::rounded_is_bounded(radius * px, 200_000, 0, 5_000_000_000_000);
    }
    let scaled: i64 = round_div(radius as i128 * px as i128, 200_000) as i64;
    let r: i64 = if scaled < 1_500 {
        1_500
    } else {
        scaled
    };
    MapBox { left: x - r, top: y - r, width: 2 * r, height: 2 * r }
}

// ---------------------------------------------------------------------------
// Hovering
// ---------------------------------------------------------------------------

/// What a ring under the cursor means.
#[derive(Clone, Copy, PartialEq, Eq, Debug, Structural)]
pub enum Tone {
    Friendly,
    Hostile,
    Resource,
}

/// The cursor's shape.
#[derive(Clone, Copy, PartialEq, Eq, Debug, Structural)]
pub enum Icon {
    Arrow,
    Pointer,
    Crosshair,
    Grab,
}

/// A ring under the cursor.
#[derive(Clone, Copy, PartialEq, Eq, Debug, Structural)]
pub struct Ring {
    pub pos: Pos,
    pub radius: i64,
    pub tone: Tone,
}

pub open spec fn hovered_unit(cat: &Catalog) -> spec_fn(ClickUnit) -> Option<(ClickUnit, i128)> {
    |u: ClickUnit|
        if (u.own || u.seen) && u.reach <= cat.unit_radius + PICK_SLACK {
            Some((u, u.reach as i128))
        } else {
            None
        }
}

pub open spec fn hovered_building(cat: &Catalog, ground: Pos) -> spec_fn(ClickBuilding) -> Option<
    (Ring, i128),
> {
    |b: ClickBuilding|
        if (b.own || b.seen) && on_footprint(cat, b.kind, b.pos, ground) {
            Some(
                (
                    structure_ring(cat, b.pos, b.kind, b.own),
                    dist2(b.pos, ground) as i128,
                ),
            )
        } else {
            None
        }
}

pub open spec fn hovered_ghost(cat: &Catalog, ground: Pos) -> spec_fn(Remembered) -> Option<
    (Ring, i128),
> {
    |g: Remembered|
        if on_footprint(cat, g.kind, g.pos, ground) {
            Some(
                (
                    structure_ring(cat, g.pos, g.kind, false),
                    dist2(g.pos, ground) as i128,
                ),
            )
        } else {
            None
        }
}

/// The ring of a building: a little wider than its footprint.
pub open spec fn structure_ring(
    cat: &Catalog,
    pos: Pos,
    kind: crate::catalog::BuildingKind,
    own: bool,
) -> Ring {
    Ring {
        pos,
        radius: (cat.building_row(kind).size * 62 / 100) as i64,
        tone: if own {
            Tone::Friendly
        } else {
            Tone::Hostile
        },
    }
}

pub open spec fn hovered_node(ground: Pos) -> spec_fn(ClickNode) -> Option<Ring> {
    |n: ClickNode|
        if dist2(n.pos, ground) <= node_radius(n.kind) * node_radius(n.kind) {
            Some(
                Ring {
                    pos: n.pos,
                    radius: (node_radius(n.kind) * 8 / 10) as i64,
                    tone: Tone::Resource,
                },
            )
        } else {
            None
        }
}

/// What the cursor is over: a unit first, then a building we see, then one we
/// remember, then, while a worker is selected, a resource node. What the fog
/// hides is never under the cursor.
pub open spec fn under_cursor(
    cat: &Catalog,
    c: &Clickables,
    ground: Pos,
    workers: bool,
) -> Option<Ring> {
    match nearest(picked(c.units@, hovered_unit(cat))) {
        Some(u) => Some(
            Ring {
                pos: u.0.pos,
                radius: (cat.unit_radius * 155 / 100) as i64,
                tone: if u.0.own {
                    Tone::Friendly
                } else {
                    Tone::Hostile
                },
            },
        ),
        None => match nearest(picked(c.buildings@, hovered_building(cat, ground))) {
            Some(b) => Some(b.0),
            None => match nearest(picked(c.ghosts@, hovered_ghost(cat, ground))) {
                Some(g) => Some(g.0),
                None => if workers {
                    first_some(c.nodes@, hovered_node(ground))
                } else {
                    None
                },
            },
        },
    }
}

/// The ring and the cursor's shape.
pub open spec fn hover(
    cat: &Catalog,
    c: &Clickables,
    m: Mouse,
    game_over: bool,
    workers: bool,
    ui: UiView,
) -> (Option<Ring>, Icon) {
    let ring = match (m.cursor, m.ground) {
        (Some(cursor), Some(ground)) if !game_over && ui.placement is None && !ui.dragging
            && !on_hud(
            cursor,
            m.window,
            ui.notif_rows as nat,
            ui.prop_cards as nat,
            m.hud,
        ) => under_cursor(cat, c, ground, workers),
        _ => None,
    };
    (
        ring,
        if ui.attack_move_armed && !game_over {
            Icon::Crosshair
        } else {
            match ring {
                Some(r) => match r.tone {
                    Tone::Friendly => Icon::Pointer,
                    Tone::Hostile => Icon::Crosshair,
                    Tone::Resource => Icon::Grab,
                },
                None => Icon::Arrow,
            }
        },
    )
}

fn find_hovered_unit(cat: &Catalog, units: &Vec<ClickUnit>) -> (r: Option<(ClickUnit, i128)>)
    requires
        cat.wf(),
    ensures
        r == nearest(picked(units@, hovered_unit(cat))),
{
    let mut list: Vec<(ClickUnit, i128)> = Vec::new();
    let mut i: usize = 0;
    while i < units.len()
        invariant
            cat.wf(),
            i <= units.len(),
            list@ == picked(units@.take(i as int), hovered_unit(cat)),
        decreases units.len() - i,
    {
        proof {
            picked_step(units@, i as int, hovered_unit(cat));
        }
        let u = units[i];
        if (u.own || u.seen) && u.reach <= cat.unit_radius + PICK_SLACK {
            list.push((u, u.reach as i128));
        }
        i = i + 1;
    }
    assert(units@.take(i as int) =~= units@);
    find_nearest(&list)
}

fn make_ring(cat: &Catalog, pos: Pos, kind: crate::catalog::BuildingKind, own: bool) -> (r: Ring)
    requires
        cat.wf(),
    ensures
        r == structure_ring(cat, pos, kind, own),
{
    Ring {
        pos,
        radius: cat.building(kind).size * 62 / 100,
        tone: if own {
            Tone::Friendly
        } else {
            Tone::Hostile
        },
    }
}

fn find_hovered_structure(cat: &Catalog, c: &Clickables, ground: Pos) -> (r: Option<Ring>)
    requires
        cat.wf(),
    ensures
        r == (match nearest(picked(c.buildings@, hovered_building(cat, ground))) {
            Some(b) => Some(b.0),
            None => match nearest(picked(c.ghosts@, hovered_ghost(cat, ground))) {
                Some(g) => Some(g.0),
                None => None,
            },
        }),
{
    let mut list: Vec<(Ring, i128)> = Vec::new();
    let mut i: usize = 0;
    while i < c.buildings.len()
        invariant
            cat.wf(),
            i <= c.buildings.len(),
            list@ == picked(c.buildings@.take(i as int), hovered_building(cat, ground)),
        decreases c.buildings.len() - i,
    {
        proof {
            picked_step(c.buildings@, i as int, hovered_building(cat, ground));
        }
        let b = c.buildings[i];
        if (b.own || b.seen) && touches(cat, b.kind, b.pos, ground) {
            list.push((make_ring(cat, b.pos, b.kind, b.own), dist_sq(b.pos, ground)));
        }
        i = i + 1;
    }
    assert(c.buildings@.take(i as int) =~= c.buildings@);
    if let Some(b) = find_nearest(&list) {
        return Some(b.0);
    }
    let mut list: Vec<(Ring, i128)> = Vec::new();
    let mut j: usize = 0;
    while j < c.ghosts.len()
        invariant
            cat.wf(),
            j <= c.ghosts.len(),
            list@ == picked(c.ghosts@.take(j as int), hovered_ghost(cat, ground)),
        decreases c.ghosts.len() - j,
    {
        proof {
            picked_step(c.ghosts@, j as int, hovered_ghost(cat, ground));
        }
        let g = c.ghosts[j];
        if touches(cat, g.kind, g.pos, ground) {
            list.push((make_ring(cat, g.pos, g.kind, false), dist_sq(g.pos, ground)));
        }
        j = j + 1;
    }
    assert(c.ghosts@.take(j as int) =~= c.ghosts@);
    match find_nearest(&list) {
        Some(g) => Some(g.0),
        None => None,
    }
}

fn find_hovered_node(nodes: &Vec<ClickNode>, ground: Pos) -> (r: Option<Ring>)
    ensures
        r == first_some(nodes@, hovered_node(ground)),
{
    let mut i: usize = 0;
    while i < nodes.len()
        invariant
            i <= nodes.len(),
            first_some(nodes@.take(i as int), hovered_node(ground)) is None,
        decreases nodes.len() - i,
    {
        proof {
            first_some_step(nodes@, i as int, hovered_node(ground));
        }
        let n = nodes[i];
        let r: i64 = match n.kind {
            ResourceKind::Gold => 3_500,
            ResourceKind::Lumber => 2_000,
        };
        let square: i128 = match n.kind {
            ResourceKind::Gold => 3_500 * 3_500,
            ResourceKind::Lumber => 2_000 * 2_000,
        };
        let d: i128 = dist_sq(n.pos, ground);
        if d <= square {
            proof {
                first_stays(nodes@, i + 1, hovered_node(ground));
            }
            return Some(Ring { pos: n.pos, radius: r * 8 / 10, tone: Tone::Resource });
        }
        i = i + 1;
    }
    assert(nodes@.take(i as int) =~= nodes@);
    None
}

/// What the cursor is over, and the shape it takes. `workers` says that a
/// worker is selected.
pub fn hover_feedback(
    cat: &Catalog,
    c: &Clickables,
    m: &Mouse,
    game_over: bool,
    workers: bool,
    ui: &UiState,
) -> (r: (Option<Ring>, Icon))
    requires
        cat.wf(),
    ensures
        r == hover(cat, c, *m, game_over, workers, ui@),
{
    let mut ring: Option<Ring> = None;
    if !game_over && ui.placement.is_none() && !ui.dragging {
        if let Some(cursor) = m.cursor {
            if let Some(ground) = m.ground {
                if !cursor_over_hud(cursor, m.window, ui.notif_rows, ui.prop_cards, m.hud) {
                    if let Some(u) = find_hovered_unit(cat, &c.units) {
                        ring = Some(
                            Ring {
                                pos: u.0.pos,
                                radius: cat.unit_radius * 155 / 100,
                                tone: if u.0.own {
                                    Tone::Friendly
                                } else {
                                    Tone::Hostile
                                },
                            },
                        );
                    } else if let Some(found) = find_hovered_structure(cat, c, ground) {
                        ring = Some(found);
                    } else if workers {
                        ring = find_hovered_node(&c.nodes, ground);
                    }
                }
            }
        }
    }
    let icon = if ui.attack_move_armed && !game_over {
        Icon::Crosshair
    } else {
        match ring {
            Some(r) => match r.tone {
                Tone::Friendly => Icon::Pointer,
                Tone::Hostile => Icon::Crosshair,
                Tone::Resource => Icon::Grab,
            },
            None => Icon::Arrow,
        }
    };
    (ring, icon)
}

} // verus!
