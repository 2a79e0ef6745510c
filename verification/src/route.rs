//! Routes across the ground: from a point to a point, round what is in the way.

use vstd::prelude::*;

use crate::map::{clamp, clamped, dist2, dist_sq, round_div, rounded, rounded_is_bounded, Pos, CELL, MAP_HALF};
use crate::nav::{answer, astar, cell_of, gap, is_good_path, reachable, Cell, NavGrid, PathScratch, CELLS};

verus! {

/// How far a blocked cell looks for a free one, in rings.
pub const RINGS: usize = 25;

/// How many waypoints ahead a shortcut may reach.
pub const LOOKAHEAD: usize = 24;

/// How close to the map's edge a route may end.
pub const ROUTE_EDGE: i32 = 500;

// ---------------------------------------------------------------------------
// Cells and the ground
// ---------------------------------------------------------------------------

/// The cell a point lies in; points off the map lie in none.
pub open spec fn cell_at(x: int, z: int) -> Option<Cell> {
    if -MAP_HALF <= x < MAP_HALF && -MAP_HALF <= z < MAP_HALF {
        Some(
            Cell { x: ((x + MAP_HALF) / (CELL as int)) as usize, z: ((z + MAP_HALF) / (CELL as int)) as usize },
        )
    } else {
        None
    }
}

/// The middle of a cell.
pub open spec fn middle(c: Cell) -> Pos {
    Pos {
        x: (c.x * CELL + CELL / 2 - MAP_HALF) as i32,
        z: (c.z * CELL + CELL / 2 - MAP_HALF) as i32,
    }
}

/// Whether a point is on the map and in a free cell.
pub open spec fn open_at(nav: &NavGrid, x: int, z: int) -> bool {
    match cell_at(x, z) {
        Some(c) => nav.is_free(c),
        None => false,
    }
}

/// The middle of a cell lies in that cell.
pub proof fn middles_lie_inside(c: Cell)
    requires
        c.in_grid(),
    ensures
        cell_at(middle(c).x as int, middle(c).z as int) == Some(c),
{
}

impl NavGrid {
    /// The cell a point lies in.
    pub fn world_to_cell(p: Pos) -> (r: Option<Cell>)
        ensures
            r == cell_at(p.x as int, p.z as int),
            match r {
                Some(c) => c.in_grid(),
                None => true,
            },
    {
        cell_under(p.x as i64, p.z as i64)
    }

    /// The middle of a cell.
    pub fn cell_to_world(c: Cell) -> (r: Pos)
        requires
            c.in_grid(),
        ensures
            r == middle(c),
    {
        Pos {
            x: c.x as i32 * CELL + CELL / 2 - MAP_HALF,
            z: c.z as i32 * CELL + CELL / 2 - MAP_HALF,
        }
    }

    /// Whether a point is off the map or in a blocked cell.
    pub fn is_blocked_world(&self, x: i64, z: i64) -> (r: bool)
        requires
            self.wf(),
        ensures
            r == !open_at(self, x as int, z as int),
    {
        match cell_under(x, z) {
            Some(c) => self.is_blocked(c),
            None => true,
        }
    }
}

fn cell_under(x: i64, z: i64) -> (r: Option<Cell>)
    ensures
        r == cell_at(x as int, z as int),
        match r {
            Some(c) => c.in_grid(),
            None => true,
        },
{
    if x < -100_000 || z < -100_000 || x >= 100_000 || z >= 100_000 {
        return None;
    }
    Some(Cell { x: ((x + 100_000) / 2_000) as usize, z: ((z + 100_000) / 2_000) as usize })
}

// ---------------------------------------------------------------------------
// The nearest free cell
// ---------------------------------------------------------------------------

/// Which square ring round a cell another lies on.
pub open spec fn ring(from: Cell, c: Cell) -> int {
    let dx = gap(from.x as int, c.x as int);
    let dz = gap(from.z as int, c.z as int);
    if dx < dz {
        dz
    } else {
        dx
    }
}

/// The square of the distance between two cells.
pub open spec fn cell_dist2(from: Cell, c: Cell) -> int {
    (c.x - from.x) * (c.x - from.x) + (c.z - from.z) * (c.z - from.z)
}

/// Row by row, and along a row.
pub open spec fn scanned_before(a: Cell, b: Cell) -> bool {
    a.z < b.z || (a.z == b.z && a.x < b.x)
}

/// Whether one cell is chosen over another: the inner ring, then the smaller
/// distance, then the one scanned first.
pub open spec fn preferred(from: Cell, a: Cell, b: Cell) -> bool {
    ||| ring(from, a) < ring(from, b)
    ||| ring(from, a) == ring(from, b) && cell_dist2(from, a) < cell_dist2(from, b)
    ||| ring(from, a) == ring(from, b) && cell_dist2(from, a) == cell_dist2(from, b)
        && scanned_before(a, b)
}

/// Whether a cell is free, close enough, and chosen over every other.
pub open spec fn is_refuge(nav: &NavGrid, from: Cell, c: Cell) -> bool {
    &&& nav.is_free(c)
    &&& ring(from, c) <= RINGS
    &&& forall|d: Cell| #[trigger] nav.is_free(d) && d != c ==> preferred(from, c, d)
}

/// The nearest free cell, where one is close enough.
pub open spec fn nearest_free(nav: &NavGrid, from: Cell) -> Option<Cell> {
    if exists|c: Cell| is_refuge(nav, from, c) {
        Some(choose|c: Cell| is_refuge(nav, from, c))
    } else {
        None
    }
}

/// There is at most one nearest free cell.
pub proof fn refuge_is_unique(nav: &NavGrid, from: Cell, a: Cell, b: Cell)
    requires
        is_refuge(nav, from, a),
        is_refuge(nav, from, b),
    ensures
        a == b,
{
    if a != b {
        assert(preferred(from, a, b));
        assert(preferred(from, b, a));
    }
}

/// A free cell within the rings means that there is a nearest one.
spec fn best_of_ring(nav: &NavGrid, from: Cell, radius: int, c: Cell) -> bool {
    &&& nav.is_free(c)
    &&& ring(from, c) == radius
    &&& forall|d: Cell| #[trigger]
        nav.is_free(d) && ring(from, d) == radius && d != c ==> preferred(from, c, d)
}

fn search_ring(nav: &NavGrid, from: Cell, radius: usize) -> (r: Option<Cell>)
    requires
        nav.wf(),
        from.in_grid(),
        radius <= RINGS,
    ensures
        match r {
            Some(c) => best_of_ring(nav, from, radius as int, c),
            None => forall|d: Cell| #[trigger] nav.is_free(d) ==> ring(from, d) != radius,
        },
{
    let z0: usize = if from.z >= radius {
        from.z - radius
    } else {
        0
    };
    let x0: usize = if from.x >= radius {
        from.x - radius
    } else {
        0
    };
    let z1: usize = if from.z + radius < 99 {
        from.z + radius
    } else {
        99
    };
    let x1: usize = if from.x + radius < 99 {
        from.x + radius
    } else {
        99
    };
    let mut best: Option<Cell> = None;
    let mut best_d: i64 = 0;
    let mut z: usize = z0;
    while z <= z1
        invariant
            nav.wf(),
            from.in_grid(),
            radius <= RINGS,
            z0 <= z <= z1 + 1,
            z1 <= 99,
            x1 <= 99,
            x0 == (if from.x >= radius { from.x - radius } else { 0 }),
            z0 == (if from.z >= radius { from.z - radius } else { 0 }),
            x1 == (if from.x + radius < 99 { from.x + radius } else { 99 }),
            z1 == (if from.z + radius < 99 { from.z + radius } else { 99 }),
            match best {
                Some(c) => {
                    &&& nav.is_free(c)
                    &&& ring(from, c) == radius
                    &&& c.z < z
                    &&& best_d == cell_dist2(from, c)
                    &&& forall|d: Cell| #[trigger]
                        nav.is_free(d) && ring(from, d) == radius && d.z < z && d != c
                            ==> preferred(from, c, d)
                },
                None => forall|d: Cell| #[trigger]
                    nav.is_free(d) && d.z < z ==> ring(from, d) != radius,
            },
        decreases z1 + 1 - z,
    {
        let mut x: usize = x0;
        while x <= x1
            invariant
                nav.wf(),
                from.in_grid(),
                radius <= RINGS,
                z0 <= z <= z1,
                x0 <= x <= x1 + 1,
                z1 <= 99,
                x1 <= 99,
                x0 == (if from.x >= radius { from.x - radius } else { 0 }),
                x1 == (if from.x + radius < 99 { from.x + radius } else { 99 }),
                match best {
                    Some(c) => {
                        &&& nav.is_free(c)
                        &&& ring(from, c) == radius
                        &&& scanned_before(c, Cell { x, z })
                        &&& best_d == cell_dist2(from, c)
                        &&& forall|d: Cell| #[trigger]
                            nav.is_free(d) && ring(from, d) == radius && scanned_before(
                                d,
                                Cell { x, z },
                            ) && d != c ==> preferred(from, c, d)
                    },
                    None => forall|d: Cell| #[trigger]
                        nav.is_free(d) && scanned_before(d, Cell { x, z }) ==> ring(from, d)
                            != radius,
                },
            decreases x1 + 1 - x,
        {
            let c = Cell { x, z };
            let dx: i64 = x as i64 - from.x as i64;
            let dz: i64 = z as i64 - from.z as i64;
            let r: i64 = radius as i64;
            if (dx == r || dx == -r || dz == r || dz == -r) && !(dx > r || dx < -r || dz > r || dz
                < -r) && !nav.is_blocked(c) {
                assert(ring(from, c) == radius);
                assert(0 <= dx * dx <= 99 * 99 && 0 <= dz * dz <= 99 * 99) by (nonlinear_arith)
                    requires
                        -99 <= dx <= 99,
                        -99 <= dz <= 99,
                ;
                let d2: i64 = dx * dx + dz * dz;
                assert(d2 == cell_dist2(from, c));
                let better: bool = match best {
                    Some(_) => d2 < best_d,
                    None => true,
                };
                if better {
                    best = Some(c);
                    best_d = d2;
                }
            } else {
                assert(!(nav.is_free(c) && ring(from, c) == radius));
            }
            proof {
                assert forall|d: Cell|
                    scanned_before(d, Cell { x: (x + 1) as usize, z }) implies scanned_before(
                    d,
                    Cell { x, z },
                ) || d == c by {}
            }
            x = x + 1;
        }
        proof {
            assert forall|d: Cell| #[trigger]
                nav.is_free(d) && ring(from, d) == radius && d.z < z + 1 implies scanned_before(
                d,
                Cell { x, z },
            ) by {}
        }
        z = z + 1;
    }
    proof {
        assert forall|d: Cell| #[trigger]
            nav.is_free(d) && ring(from, d) == radius implies d.z < z by {}
    }
    best
}

/// The nearest free cell: ring by ring, the closest of the first ring that has
/// one.
pub fn nearest_free_cell(nav: &NavGrid, from: Cell) -> (r: Option<Cell>)
    requires
        nav.wf(),
        from.in_grid(),
    ensures
        r == nearest_free(nav, from),
        match r {
            Some(c) => nav.is_free(c) && c.in_grid(),
            None => true,
        },
        r is None <==> forall|d: Cell| #[trigger] nav.is_free(d) ==> ring(from, d) > RINGS,
{
    let mut radius: usize = 0;
    while radius <= RINGS
        invariant
            nav.wf(),
            from.in_grid(),
            radius <= RINGS + 1,
            forall|d: Cell| #[trigger] nav.is_free(d) ==> ring(from, d) >= radius,
        decreases RINGS + 1 - radius,
    {
        if let Some(c) = search_ring(nav, from, radius) {
            proof {
                assert(is_refuge(nav, from, c)) by {
                    assert forall|d: Cell| #[trigger]
                        nav.is_free(d) && d != c implies preferred(from, c, d) by {}
                }
                refuge_is_unique(nav, from, c, nearest_free(nav, from)->0);
            }
            return Some(c);
        }
        radius = radius + 1;
    }
    proof {
        assert forall|c: Cell| !is_refuge(nav, from, c) by {}
    }
    None
}

// ---------------------------------------------------------------------------
// Line of sight
// ---------------------------------------------------------------------------

/// Whether `r` is the whole part of the square root of `n`.
pub open spec fn is_root(n: int, r: int) -> bool {
    0 <= r && r * r <= n < (r + 1) * (r + 1)
}

/// The whole part of a square root.
pub open spec fn root(n: int) -> int {
    choose|r: int| is_root(n, r)
}

proof fn root_is_unique(n: int, a: int, b: int)
    requires
        is_root(n, a),
        is_root(n, b),
    ensures
        a == b,
{
    assert(a == b) by (nonlinear_arith)
        requires
            0 <= a,
            0 <= b,
            a * a <= n < (a + 1) * (a + 1),
            b * b <= n < (b + 1) * (b + 1),
    ;
}

/// Every number has one.
pub proof fn roots_exist(n: int)
    requires
        0 <= n,
    ensures
        is_root(n, root(n)),
    decreases n,
{
    if n == 0 {
        assert(is_root(0, 0));
    } else {
        roots_exist(n - 1);
        let r = root(n - 1);
        if n < (r + 1) * (r + 1) {
            assert(is_root(n, r));
        } else {
            assert(n < (r + 2) * (r + 2)) by (nonlinear_arith)
                requires
                    n - 1 < (r + 1) * (r + 1),
                    0 <= r,
            ;
            assert(is_root(n, r + 1));
        }
    }
}

/// The whole part of a square root.
pub fn isqrt(n: u128) -> (r: u128)
    ensures
        r == root(n as int),
        is_root(n as int, r as int),
        r < 0x1_0000_0000_0000_0000,
{
    let mut lo: u128 = 0;
    let mut hi: u128 = 0x1_0000_0000_0000_0000;
    while hi - lo > 1
        invariant
            lo < hi <= 0x1_0000_0000_0000_0000,
            lo * lo <= n,
            n < hi * hi,
        decreases hi - lo,
    {
        let mid: u128 = lo + (hi - lo) / 2;
        assert(mid * mid <= u128::MAX) by (nonlinear_arith)
            requires
                mid < 0x1_0000_0000_0000_0000,
        ;
        if mid * mid <= n {
            lo = mid;
        } else {
            hi = mid;
        }
    }
    proof {
        assert(hi == lo + 1);
        assert(is_root(n as int, lo as int));
        root_is_unique(n as int, lo as int, root(n as int));
    }
    lo
}

/// How many pieces a line is cut into: none is longer than two fifths of a
/// cell.
pub open spec fn pieces(d2: int) -> int {
    let r = root(d2);
    let up = if r * r == d2 {
        r
    } else {
        r + 1
    };
    let n = (up + 799) / 800;
    if n < 1 {
        1
    } else {
        n
    }
}

/// One coordinate of the point `i` pieces along a line of `n`.
pub open spec fn along(a: int, b: int, i: int, n: int) -> int {
    a + rounded((b - a) * i, n)
}

/// One coordinate of a body's half width across a line.
pub open spec fn across(delta: int, radius: int, d2: int) -> int {
    rounded(delta * radius * 800, root(d2 * 1_000_000))
}

/// Whether a body can pass a point: its middle and both its sides are clear.
pub open spec fn clear_at(nav: &NavGrid, x: int, z: int, sx: int, sz: int) -> bool {
    open_at(nav, x, z) && open_at(nav, x + sx, z + sz) && open_at(nav, x - sx, z - sz)
}

/// Whether a body of a given radius can walk a straight line.
pub open spec fn clear_line(nav: &NavGrid, a: Pos, b: Pos, radius: int) -> bool {
    let d2 = dist2(a, b);
    let n = pieces(d2);
    d2 == 0 || forall|i: int|
        0 <= i <= n ==> #[trigger] clear_at(
            nav,
            along(a.x as int, b.x as int, i, n),
            along(a.z as int, b.z as int, i, n),
            across(-(b.z - a.z), radius, d2),
            across(b.x - a.x, radius, d2),
        )
}

fn pieces_of(d2: i128) -> (r: i128)
    requires
        0 <= d2 <= 0x2_0000_0000_0000_0000,
    ensures
        r == pieces(d2 as int),
        1 <= r <= 0x1_0000_0000,
{
    let r: i128 = isqrt(d2 as u128) as i128;
    assert(r <= 0x1_8000_0000) by (nonlinear_arith)
        requires
            0 <= r,
            r * r <= 0x2_0000_0000_0000_0000,
    ;
    let up: i128 = if r * r == d2 {
        r
    } else {
        r + 1
    };
    let n: i128 = (up + 799) / 800;
    if n < 1 {
        1
    } else {
        n
    }
}

fn point_along(a: i32, b: i32, i: i128, n: i128) -> (r: i64)
    requires
        0 <= i <= n,
        1 <= n <= 0x1_0000_0000,
    ensures
        r == along(a as int, b as int, i as int, n as int),
        -0x1_0000_0000 <= r <= 0x1_0000_0000,
{
    let d: i128 = b as i128 - a as i128;
    proof {
        let t = d * i;
        if d >= 0 {
            assert(0 <= t <= d * n) by (nonlinear_arith)
                requires
                    t == d * i,
                    d >= 0,
                    0 <= i <= n,
            ;
            rounded_is_bounded(t, n as int, 0, d as int);
        } else {
            assert(d * n <= t <= 0) by (nonlinear_arith)
                requires
                    t == d * i,
                    d < 0,
                    0 <= i <= n,
            ;
            rounded_is_bounded(t, n as int, d as int, 0);
        }
        assert(-0x1_0000_0000 * 0x1_0000_0000 <= t <= 0x1_0000_0000 * 0x1_0000_0000)
            by (nonlinear_arith)
            requires
                t == d * i,
                -0x1_0000_0000 <= d <= 0x1_0000_0000,
                0 <= i <= 0x1_0000_0000,
        ;
    }
    a as i64 + round_div(d * i, n) as i64
}

fn half_width(delta: i128, radius: i64, d2: i128) -> (r: i64)
    requires
        0 < d2 <= 0x2_0000_0000_0000_0000,
        delta * delta <= d2,
        0 <= radius <= 1_000_000_000,
    ensures
        r == across(delta as int, radius as int, d2 as int),
        -0x100_0000_0000 <= r <= 0x100_0000_0000,
{
    let dist: i128 = isqrt((d2 * 1_000_000) as u128) as i128;
    proof {
        assert(-0x1_8000_0000 <= delta <= 0x1_8000_0000) by (nonlinear_arith)
            requires
                delta * delta <= 0x2_0000_0000_0000_0000,
        ;
        assert(dist >= 1000) by (nonlinear_arith)
            requires
                d2 >= 1,
                d2 * 1_000_000 < (dist + 1) * (dist + 1),
                dist >= 0,
        ;
        // The width is a fraction of the radius.
        let n = delta * radius * 800;
        let e = 1000 * delta;
        assert(e * e <= d2 * 1_000_000) by (nonlinear_arith)
            requires
                e == 1000 * delta,
                delta * delta <= d2,
        ;
        assert(-dist <= e <= dist) by (nonlinear_arith)
            requires
                e * e < (dist + 1) * (dist + 1),
                dist >= 0,
        ;
        assert(5 * n == 4 * (e * radius)) by (nonlinear_arith)
            requires
                n == delta * radius * 800,
                e == 1000 * delta,
        ;
        assert(-(dist * radius) <= e * radius <= dist * radius) by (nonlinear_arith)
            requires
                -dist <= e <= dist,
                0 <= radius,
        ;
        assert(dist * radius >= 0) by (nonlinear_arith)
            requires
                dist >= 0,
                radius >= 0,
        ;
        assert(-(radius as int) * dist == -(dist * radius) && radius * dist == dist * radius)
            by (nonlinear_arith);
        rounded_is_bounded(n, dist as int, -(radius as int), radius as int);
        assert(-0x1_8000_0000 * 1_000_000_000 <= delta * radius <= 0x1_8000_0000 * 1_000_000_000)
            by (nonlinear_arith)
            requires
                -0x1_8000_0000 <= delta <= 0x1_8000_0000,
                0 <= radius <= 1_000_000_000,
        ;
    }
    round_div(delta * radius as i128 * 800, dist) as i64
}

/// Whether a body of a given radius can walk a straight line.
pub fn has_line_of_sight(nav: &NavGrid, a: Pos, b: Pos, radius: i64) -> (r: bool)
    requires
        nav.wf(),
        0 <= radius <= 1_000_000_000,
    ensures
        r == clear_line(nav, a, b, radius as int),
{
    let d2: i128 = dist_sq(a, b);
    if d2 == 0 {
        return true;
    }
    let dx: i128 = b.x as i128 - a.x as i128;
    let dz: i128 = b.z as i128 - a.z as i128;
    proof {
        assert(dx * dx + dz * dz == d2) by (nonlinear_arith)
            requires
                d2 == (-dx) * (-dx) + (-dz) * (-dz),
        ;
        assert(dx * dx >= 0 && dz * dz >= 0 && dx * dx <= 0x1_0000_0000 * 0x1_0000_0000 && dz * dz
            <= 0x1_0000_0000 * 0x1_0000_0000) by (nonlinear_arith)
            requires
                -0x1_0000_0000 <= dx <= 0x1_0000_0000,
                -0x1_0000_0000 <= dz <= 0x1_0000_0000,
        ;
        assert((-dz) * (-dz) == dz * dz) by (nonlinear_arith);
    }
    let n: i128 = pieces_of(d2);
    let sx: i64 = half_width(-dz, radius, d2);
    let sz: i64 = half_width(dx, radius, d2);
    let mut i: i128 = 0;
    while i <= n
        invariant
            nav.wf(),
            d2 == dist2(a, b),
            d2 != 0,
            n == pieces(d2 as int),
            1 <= n <= 0x1_0000_0000,
            0 <= i <= n + 1,
            sx == across(-(b.z - a.z), radius as int, d2 as int),
            sz == across(b.x - a.x, radius as int, d2 as int),
            -0x100_0000_0000 <= sx <= 0x100_0000_0000,
            -0x100_0000_0000 <= sz <= 0x100_0000_0000,
            forall|k: int|
                0 <= k < i ==> #[trigger] clear_at(
                    nav,
                    along(a.x as int, b.x as int, k, n as int),
                    along(a.z as int, b.z as int, k, n as int),
                    sx as int,
                    sz as int,
                ),
        decreases n + 1 - i,
    {
        let x: i64 = point_along(a.x, b.x, i, n);
        let z: i64 = point_along(a.z, b.z, i, n);
        let ghost here = clear_at(
            nav,
            along(a.x as int, b.x as int, i as int, n as int),
            along(a.z as int, b.z as int, i as int, n as int),
            sx as int,
            sz as int,
        );
        if nav.is_blocked_world(x, z) || nav.is_blocked_world(x + sx, z + sz)
            || nav.is_blocked_world(x - sx, z - sz) {
            assert(!here);
            return false;
        }
        assert(here);
        i = i + 1;
    }
    true
}

/// The ends of a clear line are clear themselves.
pub proof fn clear_lines_are_clear(nav: &NavGrid, a: Pos, b: Pos, radius: int)
    requires
        clear_line(nav, a, b, radius),
        dist2(a, b) != 0,
    ensures
        open_at(nav, a.x as int, a.z as int),
        open_at(nav, b.x as int, b.z as int),
{
    let d2 = dist2(a, b);
    let n = pieces(d2);
    assert(clear_at(
        nav,
        along(a.x as int, b.x as int, 0, n),
        along(a.z as int, b.z as int, 0, n),
        across(-(b.z - a.z), radius, d2),
        across(b.x - a.x, radius, d2),
    ));
    assert(clear_at(
        nav,
        along(a.x as int, b.x as int, n, n),
        along(a.z as int, b.z as int, n, n),
        across(-(b.z - a.z), radius, d2),
        across(b.x - a.x, radius, d2),
    ));
    ends_of_line(a.x as int, b.x as int, n);
    ends_of_line(a.z as int, b.z as int, n);
}

proof fn ends_of_line(a: int, b: int, n: int)
    requires
        n >= 1,
    ensures
        along(a, b, 0, n) == a,
        along(a, b, n, n) == b,
{
    let d = b - a;
    assert(rounded(d * 0, n) == 0) by (nonlinear_arith)
        requires
            n >= 1,
            rounded(d * 0, n) == (2 * (d * 0) + n) / (2 * n),
    ;
    assert((2 * (d * n) + n) / (2 * n) == d) by (nonlinear_arith)
        requires
            n >= 1,
    ;
}

// ---------------------------------------------------------------------------
// Pulling a route straight
// ---------------------------------------------------------------------------

/// The farthest of the next waypoints that can be walked to in a line; the
/// first where none can. `j` is the farthest still to be tried.
pub open spec fn farthest(nav: &NavGrid, anchor: Pos, points: Seq<Pos>, radius: int, j: int) -> int
    decreases j,
{
    if j <= 0 {
        0
    } else if clear_line(nav, anchor, points[j], radius) {
        j
    } else {
        farthest(nav, anchor, points, radius, j - 1)
    }
}

/// How far ahead a shortcut may reach.
pub open spec fn horizon(points: Seq<Pos>) -> int {
    if LOOKAHEAD < points.len() - 1 {
        LOOKAHEAD as int
    } else {
        points.len() - 1
    }
}

pub proof fn farthest_bounds(nav: &NavGrid, anchor: Pos, points: Seq<Pos>, radius: int, j: int)
    requires
        0 <= j,
    ensures
        0 <= farthest(nav, anchor, points, radius, j) <= j,
        farthest(nav, anchor, points, radius, j) > 0 ==> clear_line(
            nav,
            anchor,
            points[farthest(nav, anchor, points, radius, j)],
            radius,
        ),
    decreases j,
{
    if j > 0 && !clear_line(nav, anchor, points[j], radius) {
        farthest_bounds(nav, anchor, points, radius, j - 1);
    }
}

/// A route with the waypoints left out that a straight line skips.
pub open spec fn pulled(nav: &NavGrid, anchor: Pos, points: Seq<Pos>, radius: int) -> Seq<Pos>
    decreases points.len(),
{
    if points.len() == 0 {
        Seq::empty()
    } else {
        let best = farthest(nav, anchor, points, radius, horizon(points));
        if 0 <= best < points.len() {
            seq![points[best]] + pulled(nav, points[best], points.skip(best + 1), radius)
        } else {
            Seq::empty()
        }
    }
}

/// Pulling a route keeps its destination.
pub proof fn pulling_keeps_the_destination(nav: &NavGrid, anchor: Pos, points: Seq<Pos>, radius: int)
    ensures
        points.len() > 0 ==> pulled(nav, anchor, points, radius).len() > 0 && pulled(
            nav,
            anchor,
            points,
            radius,
        ).last() == points.last(),
        pulled(nav, anchor, points, radius).len() <= points.len(),
    decreases points.len(),
{
    if points.len() > 0 {
        let h = horizon(points);
        farthest_bounds(nav, anchor, points, radius, h);
        let best = farthest(nav, anchor, points, radius, h);
        let rest = points.skip(best + 1);
        pulling_keeps_the_destination(nav, points[best], rest, radius);
        if rest.len() > 0 {
            assert(rest.last() == points.last());
        } else {
            assert(pulled(nav, points[best], rest, radius).len() == 0);
        }
    }
}

/// Every waypoint that pulling keeps is a waypoint of the route.
pub proof fn pulling_adds_nothing(nav: &NavGrid, anchor: Pos, points: Seq<Pos>, radius: int, p: Pos)
    requires
        pulled(nav, anchor, points, radius).contains(p),
    ensures
        points.contains(p),
    decreases points.len(),
{
    if points.len() > 0 {
        let h = horizon(points);
        farthest_bounds(nav, anchor, points, radius, h);
        let best = farthest(nav, anchor, points, radius, h);
        let rest = points.skip(best + 1);
        let out = pulled(nav, anchor, points, radius);
        let tail = pulled(nav, points[best], rest, radius);
        let k = choose|k: int| 0 <= k < out.len() && out[k] == p;
        if k > 0 {
            assert(tail[k - 1] == p);
            pulling_adds_nothing(nav, points[best], rest, radius, p);
            let m = choose|m: int| 0 <= m < rest.len() && rest[m] == p;
            assert(points[best + 1 + m] == p);
        }
    }
}

/// Pulls a route straight.
pub fn simplify_path(nav: &NavGrid, from: Pos, points: &Vec<Pos>, radius: i64) -> (r: Vec<Pos>)
    requires
        nav.wf(),
        0 <= radius <= 1_000_000_000,
    ensures
        r@ == pulled(nav, from, points@, radius as int),
{
    let mut out: Vec<Pos> = Vec::new();
    let mut anchor = from;
    let mut i: usize = 0;
    assert(points@.skip(0) =~= points@);
    assert(out@ + pulled(nav, from, points@, radius as int) =~= pulled(
        nav,
        from,
        points@,
        radius as int,
    ));
    while i < points.len()
        invariant
            nav.wf(),
            0 <= radius <= 1_000_000_000,
            i <= points.len(),
            out@ + pulled(nav, anchor, points@.skip(i as int), radius as int) == pulled(
                nav,
                from,
                points@,
                radius as int,
            ),
        decreases points.len() - i,
    {
        let ghost left = points@.skip(i as int);
        let ahead: usize = points.len() - 1 - i;
        let mut j: usize = if LOOKAHEAD < ahead {
            LOOKAHEAD
        } else {
            ahead
        };
        assert(j == horizon(left));
        let ghost top = j as int;
        while j > 0 && !has_line_of_sight(nav, anchor, points[i + j], radius)
            invariant
                nav.wf(),
                0 <= radius <= 1_000_000_000,
                i < points.len(),
                left == points@.skip(i as int),
                j <= top,
                i + top < points.len(),
                farthest(nav, anchor, left, radius as int, j as int) == farthest(
                    nav,
                    anchor,
                    left,
                    radius as int,
                    top,
                ),
            decreases j,
        {
            assert(left[j as int] == points@[i + j]);
            j = j - 1;
        }
        proof {
            if j > 0 {
                assert(left[j as int] == points@[i + j]);
            }
            assert(j == farthest(nav, anchor, left, radius as int, top));
            assert(left[j as int] == points@[i + j]);
            assert(left.skip(j + 1) =~= points@.skip(i + j + 1));
        }
        let best = points[i + j];
        let ghost before = out@;
        out.push(best);
        assert(out@ + pulled(nav, best, points@.skip(i + j + 1), radius as int) =~= before + (
        seq![best] + pulled(nav, best, points@.skip(i + j + 1), radius as int)));
        anchor = best;
        i = i + j + 1;
    }
    assert(points@.skip(i as int) =~= Seq::empty());
    assert(out@ + Seq::<Pos>::empty() =~= out@);
    out
}

// ---------------------------------------------------------------------------
// The whole route
// ---------------------------------------------------------------------------

/// Where a route may end: inside the map, clear of its edge.
pub open spec fn route_end(p: Pos) -> Pos {
    Pos {
        x: clamped(p.x as int, -MAP_HALF + ROUTE_EDGE, MAP_HALF - ROUTE_EDGE) as i32,
        z: clamped(p.z as int, -MAP_HALF + ROUTE_EDGE, MAP_HALF - ROUTE_EDGE) as i32,
    }
}

/// Keeps a destination inside the map. A flyer's route is this point alone.
pub fn clamp_to_map_xz(p: Pos) -> (r: Pos)
    ensures
        r == route_end(p),
{
    Pos {
        x: clamp(p.x, -MAP_HALF + ROUTE_EDGE, MAP_HALF - ROUTE_EDGE),
        z: clamp(p.z, -MAP_HALF + ROUTE_EDGE, MAP_HALF - ROUTE_EDGE),
    }
}

/// The cell itself where it is free, else the nearest free one.
pub open spec fn footing(nav: &NavGrid, c: Cell) -> Option<Cell> {
    if nav.is_free(c) {
        Some(c)
    } else {
        nearest_free(nav, c)
    }
}

fn find_footing(nav: &NavGrid, c: Cell) -> (r: Option<Cell>)
    requires
        nav.wf(),
        c.in_grid(),
    ensures
        r == footing(nav, c),
        match r {
            Some(f) => nav.is_free(f) && f.in_grid(),
            None => true,
        },
{
    if nav.is_blocked(c) {
        nearest_free_cell(nav, c)
    } else {
        Some(c)
    }
}

/// The cell a route starts from.
pub open spec fn route_start_cell(nav: &NavGrid, from: Pos) -> Option<Cell> {
    match cell_at(from.x as int, from.z as int) {
        Some(c) => footing(nav, c),
        None => None,
    }
}

/// The cell a route ends in.
pub open spec fn route_goal_cell(nav: &NavGrid, to: Pos) -> Option<Cell> {
    match cell_at(route_end(to).x as int, route_end(to).z as int) {
        Some(c) => footing(nav, c),
        None => None,
    }
}

/// Where a route ends: the very spot where it is walkable, else the middle of
/// the goal cell.
pub open spec fn last_point(nav: &NavGrid, to: Pos, goal: Cell) -> Pos {
    if open_at(nav, route_end(to).x as int, route_end(to).z as int) {
        route_end(to)
    } else {
        middle(goal)
    }
}

/// The waypoints of a path of cells: their middles, and the last point.
pub open spec fn waypoints(path: Seq<Cell>, end: Pos) -> Seq<Pos> {
    Seq::new(
        path.len(),
        |i: int|
            if i == path.len() - 1 {
                end
            } else {
                middle(path[i])
            },
    )
}

/// The route that answers a request: none where the ground gives no footing or
/// no way, a single point within one cell, and otherwise the search's path of
/// cells, pulled straight.
pub open spec fn planned(nav: &NavGrid, from: Pos, to: Pos, radius: int) -> Option<Seq<Pos>> {
    match (route_start_cell(nav, from), route_goal_cell(nav, to)) {
        (Some(s), Some(g)) => if s == g {
            Some(seq![last_point(nav, to, g)])
        } else {
            match answer(nav, s, g) {
                Some(path) => Some(
                    pulled(nav, from, waypoints(path, last_point(nav, to, g)), radius),
                ),
                None => None,
            }
        },
        _ => None,
    }
}

/// Whether a route answers a request well: none where the ground gives no
/// footing or no way, a single point within one cell, and otherwise a good path
/// of cells, pulled straight.
pub open spec fn answers(
    nav: &NavGrid,
    from: Pos,
    to: Pos,
    radius: int,
    route: Option<Seq<Pos>>,
) -> bool {
    match (route_start_cell(nav, from), route_goal_cell(nav, to)) {
        (Some(s), Some(g)) => if s == g {
            route == Some(seq![last_point(nav, to, g)])
        } else {
            match route {
                Some(points) => exists|path: Seq<Cell>| #[trigger]
                    is_good_path(nav, path, s, g) && points == pulled(
                        nav,
                        from,
                        waypoints(path, last_point(nav, to, g)),
                        radius,
                    ),
                None => !reachable(nav, s, g),
            }
        },
        _ => route is None,
    }
}

/// The points of an optional route.
pub open spec fn route_view(r: Option<Vec<Pos>>) -> Option<Seq<Pos>> {
    match r {
        Some(v) => Some(v@),
        None => None,
    }
}

fn cells_to_points(path: &Vec<Cell>, end: Pos) -> (r: Vec<Pos>)
    requires
        forall|i: int| 0 <= i < path@.len() ==> (#[trigger] path@[i]).in_grid(),
    ensures
        r@ == waypoints(path@, end),
{
    let mut out: Vec<Pos> = Vec::new();
    let mut i: usize = 0;
    while i < path.len()
        invariant
            forall|i: int| 0 <= i < path@.len() ==> (#[trigger] path@[i]).in_grid(),
            i <= path.len(),
            out@ == waypoints(path@, end).take(i as int),
        decreases path.len() - i,
    {
        if i == path.len() - 1 {
            out.push(end);
        } else {
            out.push(NavGrid::cell_to_world(path[i]));
        }
        i = i + 1;
        assert(out@ =~= waypoints(path@, end).take(i as int));
    }
    assert(out@ =~= waypoints(path@, end));
    out
}

/// Plans a route. There is none where either end gives no footing, or no walk
/// joins them.
pub fn plan_path(
    nav: &NavGrid,
    scratch: &mut PathScratch,
    from: Pos,
    to: Pos,
    radius: i64,
) -> (r: Option<Vec<Pos>>)
    requires
        nav.wf(),
        old(scratch).wf(),
        0 <= radius <= 1_000_000_000,
    ensures
        final(scratch).wf(),
        route_view(r) == planned(nav, from, to, radius as int),
        answers(nav, from, to, radius as int, route_view(r)),
{
    let target = clamp_to_map_xz(to);
    let s0 = match NavGrid::world_to_cell(from) {
        Some(c) => c,
        None => {
            return None;
        },
    };
    let g0 = match NavGrid::world_to_cell(target) {
        Some(c) => c,
        None => {
            return None;
        },
    };
    let s = match find_footing(nav, s0) {
        Some(c) => c,
        None => {
            return None;
        },
    };
    let g = match find_footing(nav, g0) {
        Some(c) => c,
        None => {
            return None;
        },
    };
    let end = if nav.is_blocked(g0) {
        NavGrid::cell_to_world(g)
    } else {
        target
    };
    assert(end == last_point(nav, to, g));
    if s == g {
        let mut one: Vec<Pos> = Vec::new();
        one.push(end);
        assert(one@ =~= seq![end]);
        return Some(one);
    }
    match astar(nav, scratch, s, g) {
        None => None,
        Some(path) => {
            proof {
                let whole = seq![s] + path@;
                assert forall|i: int| 0 <= i < path@.len() implies (
                #[trigger] path@[i]).in_grid() by {
                    assert(crate::nav::step(nav, whole[i], whole[i + 1]));
                    assert(whole[i + 1] == path@[i]);
                }
            }
            let points = cells_to_points(&path, end);
            let route = simplify_path(nav, from, &points, radius);
            assert(is_good_path(nav, path@, s, g));
            Some(route)
        },
    }
}

/// Whether a point lies on a footprint.
pub open spec fn on_site(at: Pos, size: int, p: Pos) -> bool {
    &&& at.x - size / 2 <= p.x <= at.x + size / 2
    &&& at.z - size / 2 <= p.z <= at.z + size / 2
}

/// Whether a footprint lies on the map and every cell whose middle is on it is
/// free.
pub open spec fn site_clear(nav: &NavGrid, at: Pos, size: int) -> bool {
    &&& -MAP_HALF <= at.x - size / 2
    &&& at.x + size / 2 <= MAP_HALF
    &&& -MAP_HALF <= at.z - size / 2
    &&& at.z + size / 2 <= MAP_HALF
    &&& forall|i: int|
        0 <= i < CELLS && #[trigger] on_site(at, size, middle(cell_of(i))) ==> !nav.blocked@[i]
}

/// Whether a footprint is free. What "free" means is this function's own: the
/// footprint lies on the map, edge and all, and no cell whose middle it covers
/// is blocked.
pub fn footprint_free(nav: &NavGrid, at: Pos, size: i64) -> (r: bool)
    requires
        nav.wf(),
        0 <= size <= 1_000_000,
    ensures
        r == site_clear(nav, at, size as int),
{
    let half: i64 = size / 2;
    let (x, z): (i64, i64) = (at.x as i64, at.z as i64);
    if x - half < -100_000 || x + half > 100_000 || z - half < -100_000 || z + half > 100_000 {
        return false;
    }
    let mut i: usize = 0;
    while i < CELLS
        invariant
            nav.wf(),
            i <= CELLS,
            half == size / 2,
            0 <= size <= 1_000_000,
            x == at.x,
            z == at.z,
            forall|j: int|
                0 <= j < i && #[trigger] on_site(at, size as int, middle(cell_of(j)))
                    ==> !nav.blocked@[j],
        decreases CELLS - i,
    {
        let c = Cell { x: i % 100, z: i / 100 };
        assert(c == cell_of(i as int));
        let m = NavGrid::cell_to_world(c);
        let covered: bool = x - half <= m.x as i64 && m.x as i64 <= x + half && z - half
            <= m.z as i64 && m.z as i64 <= z + half;
        assert(covered == on_site(at, size as int, middle(cell_of(i as int))));
        if covered && nav.blocked[i] {
            return false;
        }
        i = i + 1;
    }
    true
}

/// A route never ends short: its last waypoint is where it was asked to go.
pub proof fn routes_end_where_asked(nav: &NavGrid, from: Pos, to: Pos, radius: int, route: Seq<Pos>)
    requires
        answers(nav, from, to, radius, Some(route)),
    ensures
        route.len() > 0,
        route.last() == last_point(nav, to, route_goal_cell(nav, to)->0),
{
    let s = route_start_cell(nav, from)->0;
    let g = route_goal_cell(nav, to)->0;
    if s != g {
        let path = choose|path: Seq<Cell>| #[trigger]
            is_good_path(nav, path, s, g) && route == pulled(
                nav,
                from,
                waypoints(path, last_point(nav, to, g)),
                radius,
            );
        pulling_keeps_the_destination(
            nav,
            from,
            waypoints(path, last_point(nav, to, g)),
            radius,
        );
    }
}

} // verus!
