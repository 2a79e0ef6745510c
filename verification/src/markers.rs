//! Marks on the ground and on the minimap: banners, rings, ghosts and pings.
//!
//! Lengths are thousandths of a world unit, times thousandths of a second.

use vstd::prelude::*;

use crate::alerts::{
    ping_alpha, ping_shape, ping_size, AlertPing, EventSeverity, PING_LIFETIME,
};
use crate::catalog::{BuildingKind, Catalog};
use crate::doctrine::PostureKind;
use crate::fog::{fade, intel_fade_step};
use crate::gestures::{may_build, placement_valid, Site};
use crate::layout::{to_minimap, world_to_minimap};
use crate::lists::{picked, picked_step};
use crate::map::{
    clamp_to_map, clamped, near_map, on_map, round_div, rounded, rounded_is_bounded, snap_footprint, snapped,
    Pos,
};
use crate::motion::{destination, order_destination, Order};
use crate::pick::Remembered;
use crate::spawn::Rally;

verus! {

// ---------------------------------------------------------------------------
// Under the cursor
// ---------------------------------------------------------------------------

/// A building that is about to be placed, as it is drawn.
#[derive(Clone, Copy, PartialEq, Eq, Debug, Structural)]
pub struct Outline {
    pub pos: Pos,
    pub size: i64,
    /// It could go up there.
    pub ok: bool,
}

/// The building under the cursor while one waits to be placed.
pub open spec fn outlined(
    cat: &Catalog,
    placement: Option<BuildingKind>,
    ground: Option<Pos>,
    site: Site,
) -> Option<Outline> {
    match (placement, ground) {
        (Some(kind), Some(at)) => Some(
            Outline {
                pos: snapped(at, cat.building_row(kind).size as int),
                size: cat.building_row(kind).size,
                ok: may_build(cat, kind, site),
            },
        ),
        _ => None,
    }
}

/// The building under the cursor while one waits to be placed: on the spot
/// where a click would put it, and marked by whether the click would be taken.
pub fn update_ghost(
    cat: &Catalog,
    placement: Option<BuildingKind>,
    ground: Option<Pos>,
    site: Site,
) -> (r: Option<Outline>)
    requires
        cat.wf(),
        match ground {
            Some(at) => near_map(at),
            None => true,
        },
    ensures
        r == outlined(cat, placement, ground, site),
{
    match placement {
        Some(kind) => match ground {
            Some(at) => {
                let size: i64 = cat.building(kind).size;
                Some(
                    Outline {
                        pos: snap_footprint(at, size),
                        size,
                        ok: placement_valid(cat, kind, site),
                    },
                )
            },
            None => None,
        },
        None => None,
    }
}

/// How wide the disc of a waiting posture is drawn: the circle a squad would
/// hold, a puck for a single point, and none for a unit.
pub open spec fn disc_radius(kind: PostureKind) -> Option<i64> {
    match kind {
        PostureKind::Defend => Some(crate::doctrine::DEFEND_RADIUS),
        PostureKind::Push => Some(3_000i64),
        PostureKind::Forage => Some(3_000i64),
        PostureKind::Escort => None,
    }
}

/// How wide the disc of a waiting posture is drawn.
pub fn posture_marker_radius(kind: PostureKind) -> (r: Option<i64>)
    ensures
        r == disc_radius(kind),
{
    match kind {
        PostureKind::Defend => Some(crate::doctrine::DEFEND_RADIUS),
        PostureKind::Push => Some(3_000),
        PostureKind::Forage => Some(3_000),
        PostureKind::Escort => None,
    }
}

/// The disc of a waiting posture: on the very spot the order would name.
pub fn update_posture_marker(waiting: Option<PostureKind>, ground: Option<Pos>) -> (r: Option<
    (Pos, i64),
>)
    ensures
        r == (match (waiting, ground) {
            (Some(kind), Some(at)) => match disc_radius(kind) {
                Some(radius) => Some((on_map(at), radius)),
                None => None,
            },
            _ => None,
        }),
{
    match waiting {
        Some(kind) => match ground {
            Some(at) => match posture_marker_radius(kind) {
                Some(radius) => Some((clamp_to_map(at), radius)),
                None => None,
            },
            None => None,
        },
        None => None,
    }
}

/// The ring under something selected: a little wider than a building's
/// footprint, and one size for every unit.
pub fn selection_ring_radius(cat: &Catalog, building: Option<BuildingKind>) -> (r: i64)
    requires
        cat.wf(),
    ensures
        r == (match building {
            Some(kind) => cat.building_row(kind).size * 62 / 100,
            None => 1_100,
        }),
{
    match building {
        Some(kind) => cat.building(kind).size * 62 / 100,
        None => 1_100,
    }
}

// ---------------------------------------------------------------------------
// The rally banner
// ---------------------------------------------------------------------------

/// Whether a rally point has lost what it was set on.
pub fn rally_is_gone(rally: Rally) -> (r: bool)
    ensures
        r == (match rally {
            Rally::Node(_, at) => at is None,
            Rally::Unit(_, at) => at is None,
            _ => false,
        }),
{
    match rally {
        Rally::Node(_, at) => at.is_none(),
        Rally::Unit(_, at) => at.is_none(),
        Rally::Nowhere | Rally::Ground(_) => false,
    }
}

/// A selected building, as the banner sees it.
#[derive(Clone, Copy, PartialEq, Eq, Debug, Structural)]
pub struct Rallied {
    pub human: bool,
    pub rally: Rally,
}

/// Where a rally point is.
pub open spec fn rally_at(rally: Rally) -> Option<Pos> {
    match rally {
        Rally::Nowhere => None,
        Rally::Ground(p) => Some(p),
        Rally::Node(_, at) => at,
        Rally::Unit(_, at) => at,
    }
}

/// Where the banner stands: at the rally of the one building selected, where it
/// is ours and no unit is selected with it.
pub fn rally_banner(buildings: &Vec<Rallied>, units: bool) -> (r: Option<Pos>)
    ensures
        r == (if !units && buildings@.len() == 1 && buildings@[0].human {
            rally_at(buildings@[0].rally)
        } else {
            None
        }),
{
    if units || buildings.len() != 1 || !buildings[0].human {
        return None;
    }
    match buildings[0].rally {
        Rally::Nowhere => None,
        Rally::Ground(p) => Some(p),
        Rally::Node(_, at) => at,
        Rally::Unit(_, at) => at,
    }
}

// ---------------------------------------------------------------------------
// Orders on their way
// ---------------------------------------------------------------------------

/// The ring of an order on its way, when it is spoken and when it lands.
pub const TRANSIT_RING_MAX: i64 = 5_000;

pub const TRANSIT_RING_MIN: i64 = 1_200;

/// An order that has not reached a selected unit yet.
#[derive(Clone, Copy, PartialEq, Eq, Debug, Structural)]
pub struct Travelling {
    pub human: bool,
    pub order: Order,
    /// Where the entity that the order is about stands, while it does.
    pub target: Option<Pos>,
    pub ready_at: i64,
    /// How long the order takes in all.
    pub link: i64,
}

/// The ring of an order with `left` of `link` to go: it closes as the order
/// arrives, and never to nothing.
pub open spec fn transit_radius(left: int, link: int) -> int {
    TRANSIT_RING_MIN + rounded(3_800 * clamped(left, 0, link), link)
}

pub open spec fn transit(now: i64) -> spec_fn(Travelling) -> Option<(Pos, i64)> {
    |t: Travelling|
        if t.human {
            match destination(t.order, t.target) {
                Some(p) => Some((p, transit_radius(t.ready_at - now, t.link as int) as i64)),
                None => None,
            }
        } else {
            None
        }
}

fn find_transit_radius(ready_at: i64, now: i64, link: i64) -> (r: i64)
    requires
        0 < link,
    ensures
        r == transit_radius(ready_at - now, link as int),
{
    let left: i128 = ready_at as i128 - now as i128;
    let left: i128 = if left < 0 {
        0
    } else if left > link as i128 {
        link as i128
    } else {
        left
    };
    proof {
        rounded_is_bounded(3_800 * left, link as int, 0, 3_800);
    }
    TRANSIT_RING_MIN + round_div(3_800 * left, link as i128) as i64
}

/// A ring where each selected unit's order will land, closing as it arrives.
/// An order that names no place, and one of the other side's, has none.
pub fn transit_markers(list: &Vec<Travelling>, now: i64) -> (r: Vec<(Pos, i64)>)
    requires
        forall|i: int| 0 <= i < list@.len() ==> 0 < (#[trigger] list@[i]).link,
    ensures
        r@ == picked(list@, transit(now)),
{
    let mut out: Vec<(Pos, i64)> = Vec::new();
    let mut i: usize = 0;
    while i < list.len()
        invariant
            forall|i: int| 0 <= i < list@.len() ==> 0 < (#[trigger] list@[i]).link,
            i <= list.len(),
            out@ == picked(list@.take(i as int), transit(now)),
        decreases list.len() - i,
    {
        proof {
            picked_step(list@, i as int, transit(now));
        }
        let t = list[i];
        if t.human {
            if let Some(p) = order_destination(t.order, t.target) {
                out.push((p, find_transit_radius(t.ready_at, now, t.link)));
            }
        }
        i = i + 1;
    }
    assert(list@.take(i as int) =~= list@);
    out
}

/// The ring is widest when the order is spoken and narrowest when it lands, and
/// it never widens in between.
pub proof fn rings_close(early: int, late: int, link: int)
    requires
        0 < link,
        late <= early,
    ensures
        transit_radius(link, link) == TRANSIT_RING_MAX,
        transit_radius(0, link) == TRANSIT_RING_MIN,
        transit_radius(late, link) <= transit_radius(early, link),
{
    rounded_is_bounded(3_800 * link, link, 3_800, 3_800);
    rounded_is_bounded(0, link, 0, 0);
    let a = 3_800 * clamped(early, 0, link);
    let b = 3_800 * clamped(late, 0, link);
    vstd::arithmetic::div_mod::lemma_div_is_ordered(2 * b + link, 2 * a + link, 2 * link);
}

// ---------------------------------------------------------------------------
// Named places
// ---------------------------------------------------------------------------

/// A circle of ground with a name.
#[derive(Clone, Copy, PartialEq, Eq, Debug, Structural)]
pub struct Circle {
    pub pos: Pos,
    pub radius: i64,
    /// The player named it; the map did not.
    pub mine: bool,
}

pub open spec fn circle_of(mine: bool) -> spec_fn((Pos, i64)) -> Option<Circle> {
    |c: (Pos, i64)| Some(Circle { pos: c.0, radius: c.1, mine })
}

fn push_circles(out: &mut Vec<Circle>, list: &Vec<(Pos, i64)>, mine: bool)
    ensures
        final(out)@ == old(out)@ + picked(list@, circle_of(mine)),
{
    let mut i: usize = 0;
    assert(out@ =~= old(out)@ + picked(list@.take(0), circle_of(mine)));
    while i < list.len()
        invariant
            i <= list.len(),
            out@ == old(out)@ + picked(list@.take(i as int), circle_of(mine)),
        decreases list.len() - i,
    {
        proof {
            picked_step(list@, i as int, circle_of(mine));
        }
        let ghost before = picked(list@.take(i as int), circle_of(mine));
        out.push(Circle { pos: list[i].0, radius: list[i].1, mine });
        i = i + 1;
        assert(out@ =~= old(out)@ + picked(list@.take(i as int), circle_of(mine)));
    }
    assert(list@.take(i as int) =~= list@);
}

/// The circles of the named places: the map's own first, so that the player's
/// are drawn over them.
pub fn region_rings(builtin: &Vec<(Pos, i64)>, own: &Vec<(Pos, i64)>) -> (r: Vec<Circle>)
    ensures
        r@ == picked(builtin@, circle_of(false)) + picked(own@, circle_of(true)),
{
    let mut out: Vec<Circle> = Vec::new();
    push_circles(&mut out, builtin, false);
    push_circles(&mut out, own, true);
    assert(out@ =~= picked(builtin@, circle_of(false)) + picked(own@, circle_of(true)));
    out
}

// ---------------------------------------------------------------------------
// Memories
// ---------------------------------------------------------------------------

/// A unit the player saw once.
#[derive(Clone, Copy, PartialEq, Eq, Debug, Structural)]
pub struct Sighting {
    pub pos: Pos,
    pub age: i64,
    /// The fog shows the place now.
    pub seen: bool,
}

pub open spec fn tile(ttl: i64) -> spec_fn(Sighting) -> Option<(Pos, usize)> {
    |s: Sighting|
        if s.seen {
            None
        } else {
            Some((s.pos, fade(s.age as int, ttl as int) as usize))
        }
}

/// The tiles where the player remembers a unit, and how far each has faded.
/// Sight beats memory, and without fog there is nothing to remember.
pub fn intel_markers(fog: bool, list: &Vec<Sighting>, ttl: i64) -> (r: Vec<(Pos, usize)>)
    requires
        0 < ttl,
    ensures
        r@ == (if fog {
            picked(list@, tile(ttl))
        } else {
            Seq::empty()
        }),
{
    let mut out: Vec<(Pos, usize)> = Vec::new();
    if !fog {
        return out;
    }
    let mut i: usize = 0;
    while i < list.len()
        invariant
            0 < ttl,
            i <= list.len(),
            out@ == picked(list@.take(i as int), tile(ttl)),
        decreases list.len() - i,
    {
        proof {
            picked_step(list@, i as int, tile(ttl));
        }
        let s = list[i];
        if !s.seen {
            out.push((s.pos, intel_fade_step(s.age, ttl)));
        }
        i = i + 1;
    }
    assert(list@.take(i as int) =~= list@);
    out
}

/// A remembered building, as it is drawn: a box as wide as its footprint and
/// three fifths as tall.
#[derive(Clone, Copy, PartialEq, Eq, Debug, Structural)]
pub struct GhostBox {
    pub pos: Pos,
    pub size: i64,
    pub height: i64,
}

pub open spec fn ghost_box(cat: &Catalog) -> spec_fn(Remembered) -> Option<GhostBox> {
    |g: Remembered|
        Some(
            GhostBox {
                pos: g.pos,
                size: cat.building_row(g.kind).size,
                height: (cat.building_row(g.kind).size * 6 / 10) as i64,
            },
        )
}

/// The boxes where the player remembers buildings.
pub fn building_ghosts(cat: &Catalog, fog: bool, list: &Vec<Remembered>) -> (r: Vec<GhostBox>)
    requires
        cat.wf(),
    ensures
        r@ == (if fog {
            picked(list@, ghost_box(cat))
        } else {
            Seq::empty()
        }),
{
    let mut out: Vec<GhostBox> = Vec::new();
    if !fog {
        return out;
    }
    let mut i: usize = 0;
    while i < list.len()
        invariant
            cat.wf(),
            i <= list.len(),
            out@ == picked(list@.take(i as int), ghost_box(cat)),
        decreases list.len() - i,
    {
        proof {
            picked_step(list@, i as int, ghost_box(cat));
        }
        let size: i64 = cat.building(list[i].kind).size;
        out.push(GhostBox { pos: list[i].pos, size, height: size * 6 / 10 });
        i = i + 1;
    }
    assert(list@.take(i as int) =~= list@);
    out
}

// ---------------------------------------------------------------------------
// On the minimap
// ---------------------------------------------------------------------------

pub open spec fn cache_dot(px: int) -> spec_fn((Pos, bool)) -> Option<(i64, i64)> {
    |c: (Pos, bool)|
        if c.1 {
            Some((to_minimap(c.0, px).0 as i64, to_minimap(c.0, px).1 as i64))
        } else {
            None
        }
}

/// Where the minimap marks treasure: each cache, with whether the player sees
/// it. Treasure is nobody's, but noticing it is not free.
pub fn bounty_markers(list: &Vec<(Pos, bool)>, px: i64) -> (r: Vec<(i64, i64)>)
    requires
        0 <= px <= 1_000_000_000,
    ensures
        r@ == picked(list@, cache_dot(px as int)),
{
    let mut out: Vec<(i64, i64)> = Vec::new();
    let mut i: usize = 0;
    while i < list.len()
        invariant
            0 <= px <= 1_000_000_000,
            i <= list.len(),
            out@ == picked(list@.take(i as int), cache_dot(px as int)),
        decreases list.len() - i,
    {
        proof {
            picked_step(list@, i as int, cache_dot(px as int));
        }
        if list[i].1 {
            out.push(world_to_minimap(list[i].0, px));
        }
        i = i + 1;
    }
    assert(list@.take(i as int) =~= list@);
    out
}

/// A ring on the minimap, as it is drawn.
#[derive(Clone, Copy, PartialEq, Eq, Debug, Structural)]
pub struct PingRing {
    pub x: i64,
    pub y: i64,
    pub size: i64,
    pub alpha: i64,
    pub severity: EventSeverity,
}

pub open spec fn ping_ring(now: i64, px: int) -> spec_fn(AlertPing) -> Option<PingRing> {
    |p: AlertPing|
        Some(
            PingRing {
                x: to_minimap(p.pos, px).0 as i64,
                y: to_minimap(p.pos, px).1 as i64,
                size: ping_size(now - p.born) as i64,
                alpha: ping_alpha(now - p.born) as i64,
                severity: p.severity,
            },
        )
}

/// The rings on the minimap.
pub fn ping_rings(list: &Vec<AlertPing>, now: i64, px: i64) -> (r: Vec<PingRing>)
    requires
        0 <= px <= 1_000_000_000,
    ensures
        r@ == picked(list@, ping_ring(now, px as int)),
{
    let mut out: Vec<PingRing> = Vec::new();
    let mut i: usize = 0;
    while i < list.len()
        invariant
            0 <= px <= 1_000_000_000,
            i <= list.len(),
            out@ == picked(list@.take(i as int), ping_ring(now, px as int)),
        decreases list.len() - i,
    {
        proof {
            picked_step(list@, i as int, ping_ring(now, px as int));
        }
        let p = list[i];
        let age: i128 = now as i128 - p.born as i128;
        let (size, alpha) = ping_shape(
            if age < 0 {
                0
            } else if age > PING_LIFETIME as i128 {
                PING_LIFETIME
            } else {
                age as i64
            },
        );
        let (x, y) = world_to_minimap(p.pos, px);
        out.push(PingRing { x, y, size, alpha, severity: p.severity });
        i = i + 1;
    }
    assert(list@.take(i as int) =~= list@);
    out
}

} // verus!
