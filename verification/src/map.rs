//! Ground: points, the map's edge, footprints and nearness.
//!
//! Lengths are thousandths of a world unit.

use vstd::prelude::*;

verus! {

/// A point on the ground.
#[derive(Clone, Copy, PartialEq, Eq, Debug, Structural)]
pub struct Pos {
    pub x: i32,
    pub z: i32,
}

/// Half the edge of the square map.
pub const MAP_HALF: i32 = 100_000;

/// The edge of one navigation cell.
pub const CELL: i32 = 2_000;

/// How close to the map's edge an order may point.
pub const EDGE: i32 = 2_000;

/// The corner the human player starts in.
pub open spec fn home() -> Pos {
    Pos { x: (-70_000) as i32, z: (-70_000) as i32 }
}

/// The corner the human player starts in.
pub fn human_base() -> (r: Pos)
    ensures
        r == home(),
{
    Pos { x: -70_000, z: -70_000 }
}

pub open spec fn clamped(v: int, lo: int, hi: int) -> int {
    if v < lo {
        lo
    } else if v > hi {
        hi
    } else {
        v
    }
}

pub fn clamp(v: i32, lo: i32, hi: i32) -> (r: i32)
    requires
        lo <= hi,
    ensures
        r == clamped(v as int, lo as int, hi as int),
{
    if v < lo {
        lo
    } else if v > hi {
        hi
    } else {
        v
    }
}

/// The nearest point an order may name.
pub open spec fn on_map(p: Pos) -> Pos {
    Pos {
        x: clamped(p.x as int, -MAP_HALF + EDGE, MAP_HALF - EDGE) as i32,
        z: clamped(p.z as int, -MAP_HALF + EDGE, MAP_HALF - EDGE) as i32,
    }
}

/// Pulls a point inside the map, clear of its edge.
pub fn clamp_to_map(p: Pos) -> (r: Pos)
    ensures
        r == on_map(p),
        -98_000 <= r.x <= 98_000,
        -98_000 <= r.z <= 98_000,
{
    Pos {
        x: clamp(p.x, -MAP_HALF + EDGE, MAP_HALF - EDGE),
        z: clamp(p.z, -MAP_HALF + EDGE, MAP_HALF - EDGE),
    }
}

/// Clamping twice is clamping once, and a point inside stays where it is.
pub proof fn clamping_is_settled(p: Pos)
    ensures
        on_map(on_map(p)) == on_map(p),
        (-98_000 <= p.x <= 98_000 && -98_000 <= p.z <= 98_000) ==> on_map(p) == p,
{
}

/// The square of the distance between two points.
pub open spec fn dist2(a: Pos, b: Pos) -> int {
    (a.x - b.x) * (a.x - b.x) + (a.z - b.z) * (a.z - b.z)
}

/// The square of the distance between two points.
pub fn dist_sq(a: Pos, b: Pos) -> (r: i128)
    ensures
        r == dist2(a, b),
        r >= 0,
{
    let dx: i128 = a.x as i128 - b.x as i128;
    let dz: i128 = a.z as i128 - b.z as i128;
    assert(0 <= dx * dx <= 0xffff_ffff * 0xffff_ffff) by (nonlinear_arith)
        requires
            -0xffff_ffff <= dx <= 0xffff_ffff,
    ;
    assert(0 <= dz * dz <= 0xffff_ffff * 0xffff_ffff) by (nonlinear_arith)
        requires
            -0xffff_ffff <= dz <= 0xffff_ffff,
    ;
    dx * dx + dz * dz
}

/// `n / d`, rounded to the nearest whole number and upward on a tie.
pub open spec fn rounded(n: int, d: int) -> int {
    (2 * n + d) / (2 * d)
}

/// A rounded quotient is at most half a unit off.
pub proof fn rounded_is_close(n: int, d: int)
    requires
        d > 0,
    ensures
        2 * n - d < 2 * d * rounded(n, d) <= 2 * n + d,
{
    let q = rounded(n, d);
    assert(2 * n - d < 2 * d * q <= 2 * n + d) by (nonlinear_arith)
        requires
            d > 0,
            q == (2 * n + d) / (2 * d),
    ;
}

/// A rounded quotient stays between whole bounds.
pub proof fn rounded_is_bounded(n: int, d: int, lo: int, hi: int)
    requires
        d > 0,
        lo * d <= n <= hi * d,
    ensures
        lo <= rounded(n, d) <= hi,
{
    assert(lo <= (2 * n + d) / (2 * d) <= hi) by (nonlinear_arith)
        requires
            d > 0,
            lo * d <= n <= hi * d,
    ;
}

/// `n / d`, rounded to the nearest whole number and upward on a tie.
pub fn round_div(n: i128, d: i128) -> (r: i128)
    requires
        0 < d <= 0x1_0000_0000_0000_0000,
        -0x1000_0000_0000_0000_0000_0000_0000_0000 < n < 0x1000_0000_0000_0000_0000_0000_0000_0000,
    ensures
        r == rounded(n as int, d as int),
{
    let num: i128 = 2 * n + d;
    let den: i128 = 2 * d;
    if num >= 0 {
        num / den
    } else {
        let up: i128 = -num + den - 1;
        proof {
            let q = num as int / den as int;
            assert(-((-num + den - 1) as int / den as int) == q) by (nonlinear_arith)
                requires
                    den > 0,
                    q == num as int / den as int,
            ;
        }
        -(up / den)
    }
}

/// Points on or near the map, far inside what a machine word holds.
pub open spec fn near_map(p: Pos) -> bool {
    -1_000_000_000 <= p.x <= 1_000_000_000 && -1_000_000_000 <= p.z <= 1_000_000_000
}

/// `n / d`, rounded to the nearest whole number and away from zero on a tie.
pub open spec fn round_away(n: int, d: int) -> int {
    if n >= 0 {
        (2 * n + d) / (2 * d)
    } else {
        -((2 * (-n) + d) / (2 * d))
    }
}

/// One coordinate of a footprint's centre, with its edges on cell boundaries.
pub open spec fn snapped1(v: int, size: int) -> int {
    round_away(v - size / 2, CELL as int) * CELL + size / 2
}

/// A footprint's centre, with its edges on cell boundaries.
pub open spec fn snapped(p: Pos, size: int) -> Pos {
    Pos { x: snapped1(p.x as int, size) as i32, z: snapped1(p.z as int, size) as i32 }
}

fn snap1(v: i32, size: i64) -> (r: i32)
    requires
        -1_000_000_000 <= v <= 1_000_000_000,
        0 <= size <= 1_000_000,
    ensures
        r == snapped1(v as int, size as int),
{
    let n: i64 = v as i64 - size / 2;
    let cells: i64 = if n >= 0 {
        (2 * n + 2_000) / 4_000
    } else {
        -((2 * (-n) + 2_000) / 4_000)
    };
    (cells * 2_000 + size / 2) as i32
}

/// Snaps a footprint so that its edges land on cell boundaries.
pub fn snap_footprint(p: Pos, size: i64) -> (r: Pos)
    requires
        near_map(p),
        0 <= size <= 1_000_000,
    ensures
        r == snapped(p, size as int),
{
    Pos { x: snap1(p.x, size), z: snap1(p.z, size) }
}

/// A snapped footprint starts on a cell boundary, is within half a cell of
/// where it was asked for, and does not move when snapped again.
pub proof fn snapping_settles(v: int, size: int)
    requires
        0 <= size,
    ensures
        (snapped1(v, size) - size / 2) % (CELL as int) == 0,
        -(CELL as int) <= 2 * (snapped1(v, size) - v) <= CELL,
        snapped1(snapped1(v, size), size) == snapped1(v, size),
{
    let n = v - size / 2;
    let k = round_away(n, CELL as int);
    assert((k * 2_000) % 2_000 == 0) by (nonlinear_arith);
    assert(round_away(k * 2_000, CELL as int) == k) by {
        if k >= 0 {
            assert((2 * (k * 2_000) + 2_000) / 4_000 == k);
        } else {
            assert((2 * (-(k * 2_000)) + 2_000) / 4_000 == -k);
        }
    }
}

} // verus!
