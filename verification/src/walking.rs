//! What walking comes to: which ground is open, when a line is clear, how a
//! route is pulled straight, and how its legs run.
//!
//! The laws speak of coordinates and of the grid's flags alone.

use vstd::prelude::*;

use crate::map::{dist2, rounded, rounded_is_bounded, rounded_is_close, Pos};
use crate::nav::{is_good_path, is_walk, reachable, step, walk_cost, Cell, NavGrid};
use crate::route::{
    across, along, cell_at, clear_at, clear_line, farthest, farthest_bounds, horizon, is_refuge,
    last_point, middle, middles_lie_inside, nearest_free, open_at, pieces, pulled, root,
    roots_exist, route_goal_cell, route_start_cell, waypoints,
};

verus! {

// ---------------------------------------------------------------------------
// Ground
// ---------------------------------------------------------------------------

/// The column or row of the grid a coordinate lies in.
pub open spec fn column(v: int) -> int {
    (v + 100_000) / 2_000
}

/// A point of the map whose cell's flag is not set.
pub open spec fn is_ground(nav: &NavGrid, x: int, z: int) -> bool {
    &&& -100_000 <= x < 100_000
    &&& -100_000 <= z < 100_000
    &&& !nav.blocked@[column(z) * 100 + column(x)]
}

/// Open ground is where the map is and no flag is set, and nowhere else.
pub proof fn ground_is_what_the_grid_says(nav: &NavGrid, x: int, z: int)
    ensures
        open_at(nav, x, z) <==> is_ground(nav, x, z),
{
}

// ---------------------------------------------------------------------------
// Lines
// ---------------------------------------------------------------------------

/// A line that is clear runs over open ground: wherever on it one looks, the
/// nearest spot that was tried is open and is less than half a unit away on
/// either axis.
pub proof fn clear_lines_run_over_ground(
    nav: &NavGrid,
    a: Pos,
    b: Pos,
    radius: int,
    t: int,
    n: int,
) -> (p: (int, int))
    requires
        clear_line(nav, a, b, radius),
        a != b,
        0 <= t <= n,
        0 < n,
    ensures
        is_ground(nav, p.0, p.1),
        -402 * n <= n * (p.0 - a.x) - (b.x - a.x) * t <= 402 * n,
        -402 * n <= n * (p.1 - a.z) - (b.z - a.z) * t <= 402 * n,
{
    let d2 = dist2(a, b);
    apart(a, b);
    let m = pieces(d2);
    pieces_are_short(a, b);
    let i = rounded(t * m, n);
    assert(0 * n <= t * m <= m * n) by (nonlinear_arith)
        requires
            0 <= t <= n,
            0 < m,
    ;
    rounded_is_bounded(t * m, n, 0, m);
    rounded_is_close(t * m, n);
    assert(clear_at(
        nav,
        along(a.x as int, b.x as int, i, m),
        along(a.z as int, b.z as int, i, m),
        across(-(b.z - a.z), radius, d2),
        across(b.x - a.x, radius, d2),
    ));
    sample_is_near(b.x - a.x, i, m, t, n);
    sample_is_near(b.z - a.z, i, m, t, n);
    (along(a.x as int, b.x as int, i, m), along(a.z as int, b.z as int, i, m))
}

proof fn apart(a: Pos, b: Pos)
    requires
        a != b,
    ensures
        dist2(a, b) > 0,
{
    let dx = a.x - b.x;
    let dz = a.z - b.z;
    assert(dx * dx >= 0 && dz * dz >= 0) by (nonlinear_arith);
    assert(dx != 0 ==> dx * dx > 0) by (nonlinear_arith);
    assert(dz != 0 ==> dz * dz > 0) by (nonlinear_arith);
}

proof fn pieces_are_short(a: Pos, b: Pos)
    requires
        a != b,
    ensures
        ({
            let m = pieces(dist2(a, b));
            &&& m >= 1
            &&& -800 * m <= b.x - a.x <= 800 * m
            &&& -800 * m <= b.z - a.z <= 800 * m
        }),
{
    let d2 = dist2(a, b);
    apart(a, b);
    roots_exist(d2);
    let r = root(d2);
    let up = if r * r == d2 {
        r
    } else {
        r + 1
    };
    assert(d2 <= up * up && 0 <= up) by (nonlinear_arith)
        requires
            0 <= r,
            r * r <= d2 < (r + 1) * (r + 1),
            up == (if r * r == d2 { r } else { r + 1 }),
    ;
    let m = pieces(d2);
    assert(up <= 800 * m);
    let dx = b.x - a.x;
    let dz = b.z - a.z;
    assert(d2 == dx * dx + dz * dz) by (nonlinear_arith)
        requires
            d2 == (-dx) * (-dx) + (-dz) * (-dz),
    ;
    assert(-up <= dx <= up && -up <= dz <= up) by (nonlinear_arith)
        requires
            dx * dx + dz * dz <= up * up,
            0 <= up,
    ;
}

proof fn sample_is_near(d: int, i: int, m: int, t: int, n: int)
    requires
        0 < m,
        0 < n,
        -800 * m <= d <= 800 * m,
        2 * (t * m) - n < 2 * n * i <= 2 * (t * m) + n,
    ensures
        -402 * n <= n * rounded(d * i, m) - d * t <= 402 * n,
{
    rounded_is_close(d * i, m);
    let r = rounded(d * i, m);
    let off = n * i - t * m;
    assert(-n <= 2 * off <= n) by (nonlinear_arith)
        requires
            off == n * i - t * m,
            2 * (t * m) - n < 2 * n * i <= 2 * (t * m) + n,
    ;
    assert(-(800 * m * n) <= 2 * (d * off) <= 800 * m * n) by (nonlinear_arith)
        requires
            -n <= 2 * off <= n,
            -800 * m <= d <= 800 * m,
            0 < m,
            0 < n,
    ;
    let e = m * r - d * i;
    assert(-m <= 2 * e <= m) by (nonlinear_arith)
        requires
            2 * (d * i) - m < 2 * m * r <= 2 * (d * i) + m,
            e == m * r - d * i,
    ;
    let g = n * r - d * t;
    assert(m * g == n * e + d * off) by (nonlinear_arith)
        requires
            g == n * r - d * t,
            e == m * r - d * i,
            off == n * i - t * m,
    ;
    assert(-(m * n) <= 2 * (n * e) <= m * n) by (nonlinear_arith)
        requires
            -m <= 2 * e <= m,
            0 < n,
    ;
    assert(800 * m * n == 800 * (m * n)) by (nonlinear_arith);
    assert(-402 * n <= g <= 402 * n) by (nonlinear_arith)
        requires
            -(801 * (m * n)) <= 2 * (m * g) <= 801 * (m * n),
            0 < m,
            0 < n,
    ;
}

/// The ends of a body's width lie square to the line, four fifths of its radius
/// out.
pub proof fn bodies_are_as_wide_as_they_are(delta: int, radius: int, d2: int, q: int)
    requires
        0 < d2,
        0 <= q,
        q * q <= d2 * 1_000_000 < (q + 1) * (q + 1),
    ensures
        -q <= 2 * (q * across(delta, radius, d2) - delta * radius * 800) <= q,
        delta * delta <= d2 && 0 <= radius ==> -radius <= across(delta, radius, d2) <= radius,
{
    roots_exist(d2 * 1_000_000);
    let r = root(d2 * 1_000_000);
    assert(r == q) by (nonlinear_arith)
        requires
            0 <= r,
            0 <= q,
            r * r <= d2 * 1_000_000 < (r + 1) * (r + 1),
            q * q <= d2 * 1_000_000 < (q + 1) * (q + 1),
    ;
    assert(q > 0) by (nonlinear_arith)
        requires
            0 < d2,
            d2 * 1_000_000 < (q + 1) * (q + 1),
            0 <= q,
    ;
    let w = delta * radius * 800;
    rounded_is_close(w, q);
    let c = across(delta, radius, d2);
    assert(-q <= 2 * (q * c - w) <= q) by (nonlinear_arith)
        requires
            2 * w - q < 2 * q * c <= 2 * w + q,
    ;
    if delta * delta <= d2 && 0 <= radius {
        let e = 1_000 * delta;
        assert(e * e <= d2 * 1_000_000) by (nonlinear_arith)
            requires
                e == 1_000 * delta,
                delta * delta <= d2,
        ;
        assert(-q <= e <= q) by (nonlinear_arith)
            requires
                e * e < (q + 1) * (q + 1),
                0 <= q,
        ;
        assert(-(radius * q) <= w <= radius * q) by (nonlinear_arith)
            requires
                w == delta * radius * 800,
                e == 1_000 * delta,
                -q <= e <= q,
                0 <= radius,
        ;
        assert(-radius * q == -(radius * q)) by (nonlinear_arith);
        rounded_is_bounded(w, q, -radius, radius);
    }
}

/// A line is clear where all the ground about it is.
pub proof fn lines_over_open_ground_are_clear(nav: &NavGrid, a: Pos, b: Pos, radius: int)
    requires
        0 <= radius,
        forall|x: int, z: int|
            (a.x - radius <= x <= b.x + radius || b.x - radius <= x <= a.x + radius) && (a.z
                - radius <= z <= b.z + radius || b.z - radius <= z <= a.z + radius)
                ==> #[trigger] is_ground(nav, x, z),
    ensures
        clear_line(nav, a, b, radius),
{
    let d2 = dist2(a, b);
    if a != b {
        apart(a, b);
        pieces_are_short(a, b);
        let n = pieces(d2);
        let dx = b.x - a.x;
        let dz = b.z - a.z;
        let sx = across(-(b.z - a.z), radius, d2);
        let sz = across(b.x - a.x, radius, d2);
        assert(d2 == dx * dx + dz * dz && d2 == dx * dx + (-dz) * (-dz) && dx * dx >= 0 && (-dz)
            * (-dz) >= 0) by (nonlinear_arith)
            requires
                d2 == (-dx) * (-dx) + (-dz) * (-dz),
        ;
        roots_exist(d2 * 1_000_000);
        bodies_are_as_wide_as_they_are(-dz, radius, d2, root(d2 * 1_000_000));
        bodies_are_as_wide_as_they_are(dx, radius, d2, root(d2 * 1_000_000));
        assert forall|i: int| 0 <= i <= n implies #[trigger] clear_at(
            nav,
            along(a.x as int, b.x as int, i, n),
            along(a.z as int, b.z as int, i, n),
            sx,
            sz,
        ) by {
            stays_between(dx, i, n);
            stays_between(dz, i, n);
            let x = along(a.x as int, b.x as int, i, n);
            let z = along(a.z as int, b.z as int, i, n);
            assert(is_ground(nav, x, z));
            assert(is_ground(nav, x + sx, z + sz));
            assert(is_ground(nav, x - sx, z - sz));
        }
    }
}

proof fn stays_between(d: int, i: int, n: int)
    requires
        0 <= i <= n,
        0 < n,
    ensures
        0 <= d ==> 0 <= rounded(d * i, n) <= d,
        d <= 0 ==> d <= rounded(d * i, n) <= 0,
{
    if 0 <= d {
        assert(0 * n <= d * i <= d * n) by (nonlinear_arith)
            requires
                0 <= d,
                0 <= i <= n,
        ;
        rounded_is_bounded(d * i, n, 0, d);
    }
    if d <= 0 {
        assert(d * n <= d * i <= 0 * n) by (nonlinear_arith)
            requires
                d <= 0,
                0 <= i <= n,
        ;
        rounded_is_bounded(d * i, n, d, 0);
    }
}

// ---------------------------------------------------------------------------
// Pulling
// ---------------------------------------------------------------------------

/// The position in the old route of the waypoint a leg sets out from; before
/// the first of all for the first leg.
pub open spec fn before(at: Seq<int>, k: int) -> int {
    if k <= 0 {
        -1
    } else {
        at[k - 1]
    }
}

/// Where a leg of a route sets out.
pub open spec fn sets_out(from: Pos, route: Seq<Pos>, k: int) -> Pos {
    if k <= 0 {
        from
    } else {
        route[k - 1]
    }
}

/// Leg `k` of a pulled route. It goes to the next waypoint of the old route or
/// along a clear line, at most twenty-five waypoints on; and none that near and
/// farther on could have been walked to in a line.
pub open spec fn runs_far(
    nav: &NavGrid,
    from: Pos,
    points: Seq<Pos>,
    radius: int,
    route: Seq<Pos>,
    at: Seq<int>,
    k: int,
) -> bool {
    let start = sets_out(from, route, k);
    &&& -1 <= before(at, k) < at[k] < points.len()
    &&& at[k] <= before(at, k) + 25
    &&& route[k] == points[at[k]]
    &&& at[k] == before(at, k) + 1 || clear_line(nav, start, route[k], radius)
    &&& forall|q: int|
        at[k] < q < points.len() && q <= before(at, k) + 25 ==> !clear_line(
            nav,
            start,
            #[trigger] points[q],
            radius,
        )
}

proof fn legs_shift(
    nav: &NavGrid,
    from: Pos,
    points: Seq<Pos>,
    radius: int,
    best: int,
    tail: Seq<Pos>,
    sub: Seq<int>,
    j: int,
)
    requires
        0 <= best < points.len(),
        0 <= j < sub.len(),
        sub.len() == tail.len(),
        runs_far(nav, points[best], points.skip(best + 1), radius, tail, sub, j),
    ensures
        runs_far(
            nav,
            from,
            points,
            radius,
            seq![points[best]] + tail,
            seq![best] + sub.map_values(|i: int| i + best + 1),
            j + 1,
        ),
{
    let rest = points.skip(best + 1);
    let out = seq![points[best]] + tail;
    let at = seq![best] + sub.map_values(|i: int| i + best + 1);
    let k = j + 1;
    let start = sets_out(from, out, k);
    assert(at[k] == sub[j] + best + 1);
    assert(out[k] == tail[j]);
    assert(sets_out(points[best], tail, j) == start);
    assert(before(at, k) == before(sub, j) + best + 1);
    assert(rest[sub[j]] == points[at[k]]);
    assert forall|q: int| at[k] < q < points.len() && q <= before(at, k) + 25 implies !clear_line(
        nav,
        start,
        #[trigger] points[q],
        radius,
    ) by {
        assert(rest[q - best - 1] == points[q]);
    }
}

/// Pulling a route straight picks out some of its waypoints in order, the last
/// of them included, and every leg runs as far as it can be seen to be clear.
pub proof fn pulling_goes_as_far_as_it_sees(
    nav: &NavGrid,
    from: Pos,
    points: Seq<Pos>,
    radius: int,
) -> (at: Seq<int>)
    ensures
        at.len() == pulled(nav, from, points, radius).len(),
        points.len() > 0 ==> at.len() > 0 && at.last() == points.len() - 1,
        forall|k: int|
            0 <= k < at.len() ==> #[trigger] runs_far(
                nav,
                from,
                points,
                radius,
                pulled(nav, from, points, radius),
                at,
                k,
            ),
    decreases points.len(),
{
    let out = pulled(nav, from, points, radius);
    if points.len() == 0 {
        Seq::empty()
    } else {
        let h = horizon(points);
        farthest_bounds(nav, from, points, radius, h);
        let best = farthest(nav, from, points, radius, h);
        farthest_is_farthest(nav, from, points, radius, h);
        let rest = points.skip(best + 1);
        let tail = pulled(nav, points[best], rest, radius);
        let sub = pulling_goes_as_far_as_it_sees(nav, points[best], rest, radius);
        let at = seq![best] + sub.map_values(|i: int| i + best + 1);
        assert(out == seq![points[best]] + tail);
        assert forall|k: int| 0 <= k < at.len() implies #[trigger] runs_far(
            nav,
            from,
            points,
            radius,
            out,
            at,
            k,
        ) by {
            if k > 0 {
                assert(runs_far(nav, points[best], rest, radius, tail, sub, k - 1));
                legs_shift(nav, from, points, radius, best, tail, sub, k - 1);
            }
        }
        if rest.len() > 0 {
            assert(at.last() == sub.last() + best + 1);
        }
        at
    }
}

/// Every leg of a pulled route is walkable: along a clear line, or to the
/// waypoint that came next in the old route anyway.
pub proof fn every_leg_is_walkable(nav: &NavGrid, from: Pos, points: Seq<Pos>, radius: int, k: int)
    requires
        0 <= k < pulled(nav, from, points, radius).len(),
    ensures
        ({
            let out = pulled(nav, from, points, radius);
            let a = sets_out(from, out, k);
            clear_line(nav, a, out[k], radius) || exists|m: int|
                0 <= m < points.len() && #[trigger] points[m] == out[k] && (if k == 0 {
                    m == 0
                } else {
                    m > 0 && points[m - 1] == a
                })
        }),
{
    let at = pulling_goes_as_far_as_it_sees(nav, from, points, radius);
    let out = pulled(nav, from, points, radius);
    assert(runs_far(nav, from, points, radius, out, at, k));
    if k > 0 {
        assert(runs_far(nav, from, points, radius, out, at, k - 1));
    }
    if at[k] == before(at, k) + 1 {
        let m = at[k];
        assert(points[m] == out[k]);
        if k > 0 {
            assert(points[m - 1] == out[k - 1]);
        }
    }
}

proof fn farthest_is_farthest(nav: &NavGrid, anchor: Pos, points: Seq<Pos>, radius: int, j: int)
    requires
        0 <= j,
    ensures
        forall|q: int|
            farthest(nav, anchor, points, radius, j) < q <= j ==> !clear_line(
                nav,
                anchor,
                #[trigger] points[q],
                radius,
            ),
    decreases j,
{
    if j > 0 && !clear_line(nav, anchor, points[j], radius) {
        farthest_is_farthest(nav, anchor, points, radius, j - 1);
    }
}

// ---------------------------------------------------------------------------
// Paths of cells
// ---------------------------------------------------------------------------

/// A cell of the grid whose flag is not set.
pub open spec fn unset(nav: &NavGrid, x: int, z: int) -> bool {
    0 <= x < 100 && 0 <= z < 100 && !nav.blocked@[z * 100 + x]
}

/// A step from a cell to a neighbour that is free, with both cells beside a
/// slanted step free as well.
pub open spec fn strides(nav: &NavGrid, a: Cell, b: Cell) -> bool {
    &&& a.x < 100 && a.z < 100
    &&& unset(nav, b.x as int, b.z as int)
    &&& -1 <= a.x - b.x <= 1
    &&& -1 <= a.z - b.z <= 1
    &&& a.x != b.x || a.z != b.z
    &&& a.x == b.x || a.z == b.z || unset(nav, b.x as int, a.z as int) && unset(
        nav,
        a.x as int,
        b.z as int,
    )
}

/// Cells in a row, each a step from the one before.
pub open spec fn strolls(nav: &NavGrid, w: Seq<Cell>, a: Cell, b: Cell) -> bool {
    &&& w.len() > 0
    &&& w[0] == a
    &&& w[w.len() - 1] == b
    &&& forall|i: int| 0 <= i < w.len() - 1 ==> strides(nav, #[trigger] w[i], w[i + 1])
}

/// What a stroll costs: a cell's width a straight step, and the square root of
/// two as much a slanted one.
pub open spec fn price(w: Seq<Cell>) -> int
    decreases w.len(),
{
    if w.len() <= 1 {
        0
    } else {
        let a = w[w.len() - 2];
        let b = w[w.len() - 1];
        price(w.drop_last()) + (if a.x != b.x && a.z != b.z {
            11_863_283int
        } else {
            8_388_608int
        })
    }
}

proof fn strolls_are_walks(nav: &NavGrid, w: Seq<Cell>, a: Cell, b: Cell)
    ensures
        strolls(nav, w, a, b) <==> is_walk(nav, w, a, b),
{
    assert forall|c: Cell, d: Cell| strides(nav, c, d) <==> step(nav, c, d) by {}
    if strolls(nav, w, a, b) {
        assert forall|i: int| 0 <= i < w.len() - 1 implies step(nav, #[trigger] w[i], w[i + 1]) by {
            assert(strides(nav, w[i], w[i + 1]));
        }
    }
    if is_walk(nav, w, a, b) {
        assert forall|i: int| 0 <= i < w.len() - 1 implies strides(
            nav,
            #[trigger] w[i],
            w[i + 1],
        ) by {
            assert(step(nav, w[i], w[i + 1]));
        }
    }
}

proof fn prices_are_costs(w: Seq<Cell>)
    ensures
        price(w) == walk_cost(w),
    decreases w.len(),
{
    if w.len() > 1 {
        prices_are_costs(w.drop_last());
    }
}

/// One cell can be reached from another exactly where some stroll leads there.
pub proof fn reaching_is_strolling(nav: &NavGrid, a: Cell, b: Cell)
    ensures
        reachable(nav, a, b) <==> exists|w: Seq<Cell>| #[trigger] strolls(nav, w, a, b),
{
    if reachable(nav, a, b) {
        let w = choose|w: Seq<Cell>| is_walk(nav, w, a, b);
        strolls_are_walks(nav, w, a, b);
        assert(strolls(nav, w, a, b));
    }
    if exists|w: Seq<Cell>| #[trigger] strolls(nav, w, a, b) {
        let w = choose|w: Seq<Cell>| #[trigger] strolls(nav, w, a, b);
        strolls_are_walks(nav, w, a, b);
        assert(is_walk(nav, w, a, b));
    }
}

/// A good path strolls from its start to its goal, and costs no more than any
/// other stroll does beyond a sixty-fourth of a cell for each step of that one.
pub proof fn good_paths_are_cheap_strolls(
    nav: &NavGrid,
    path: Seq<Cell>,
    start: Cell,
    goal: Cell,
    other: Seq<Cell>,
)
    requires
        is_good_path(nav, path, start, goal),
        strolls(nav, other, start, goal),
    ensures
        strolls(nav, seq![start] + path, start, goal),
        path.len() > 0,
        price(seq![start] + path) <= price(other) + (other.len() - 1) * 131_072,
{
    strolls_are_walks(nav, seq![start] + path, start, goal);
    strolls_are_walks(nav, other, start, goal);
    prices_are_costs(seq![start] + path);
    prices_are_costs(other);
}

/// The larger of the two distances between cells along the axes.
pub open spec fn rings_apart(a: Cell, b: Cell) -> int {
    let dx = if a.x < b.x {
        b.x - a.x
    } else {
        a.x - b.x
    };
    let dz = if a.z < b.z {
        b.z - a.z
    } else {
        a.z - b.z
    };
    if dx < dz {
        dz
    } else {
        dx
    }
}

/// The cell that takes the place of a blocked one is free, at most twenty-five
/// rings out, and no free cell is on an inner ring, nor on the same ring and
/// nearer.
pub proof fn refuges_are_near(nav: &NavGrid, from: Cell, c: Cell, d: Cell)
    requires
        nearest_free(nav, from) == Some(c),
        unset(nav, d.x as int, d.z as int),
    ensures
        unset(nav, c.x as int, c.z as int),
        rings_apart(from, c) <= 25,
        rings_apart(from, c) <= rings_apart(from, d),
        rings_apart(from, c) == rings_apart(from, d) ==> (c.x - from.x) * (c.x - from.x) + (c.z
            - from.z) * (c.z - from.z) <= (d.x - from.x) * (d.x - from.x) + (d.z - from.z) * (d.z
            - from.z),
{
    assert(is_refuge(nav, from, c));
    assert(nav.is_free(d));
}

// ---------------------------------------------------------------------------
// Routes
// ---------------------------------------------------------------------------

/// Two points in the same cell or in neighbouring ones, with no blocked corner
/// between them.
pub open spec fn beside(nav: &NavGrid, a: Pos, b: Pos) -> bool {
    let (ax, az) = (column(a.x as int), column(a.z as int));
    let (bx, bz) = (column(b.x as int), column(b.z as int));
    &&& -1 <= ax - bx <= 1
    &&& -1 <= az - bz <= 1
    &&& ax == bx || az == bz || is_ground(nav, b.x as int, a.z as int) && is_ground(
        nav,
        a.x as int,
        b.z as int,
    )
}

proof fn ends_lie_in_their_cell(nav: &NavGrid, to: Pos, goal: Cell)
    requires
        route_goal_cell(nav, to) == Some(goal),
        nav.is_free(goal),
    ensures
        cell_at(last_point(nav, to, goal).x as int, last_point(nav, to, goal).z as int) == Some(
            goal,
        ),
{
    middles_lie_inside(goal);
}

proof fn cells_tell_ground(nav: &NavGrid, p: Pos, c: Cell)
    requires
        cell_at(p.x as int, p.z as int) == Some(c),
    ensures
        column(p.x as int) == c.x,
        column(p.z as int) == c.z,
        is_ground(nav, p.x as int, p.z as int) <==> unset(nav, c.x as int, c.z as int),
        c.x < 100,
        c.z < 100,
        -100_000 <= p.x < 100_000,
        -100_000 <= p.z < 100_000,
{
}

proof fn steps_lie_beside(nav: &NavGrid, a: Pos, b: Pos, ca: Cell, cb: Cell)
    requires
        cell_at(a.x as int, a.z as int) == Some(ca),
        cell_at(b.x as int, b.z as int) == Some(cb),
        ca == cb || strides(nav, ca, cb),
    ensures
        beside(nav, a, b),
{
    cells_tell_ground(nav, a, ca);
    cells_tell_ground(nav, b, cb);
    cells_tell_ground(nav, Pos { x: b.x, z: a.z }, Cell { x: cb.x, z: ca.z });
    cells_tell_ground(nav, Pos { x: a.x, z: b.z }, Cell { x: ca.x, z: cb.z });
}

/// A free cell is a refuge from itself, so footing is always free.
proof fn footing_is_free(nav: &NavGrid, c: Cell, f: Cell)
    requires
        crate::route::footing(nav, c) == Some(f),
    ensures
        nav.is_free(f),
{
    if !nav.is_free(c) {
        assert(is_refuge(nav, c, f));
    }
}

/// A route that sets out on open ground goes round what is in its way: every
/// waypoint is open ground, and every leg is a clear line or a step between
/// neighbouring cells that cuts no blocked corner.
#[verifier::spinoff_prover]
#[verifier::rlimit(60)]
pub proof fn routes_go_round_things(
    nav: &NavGrid,
    from: Pos,
    to: Pos,
    radius: int,
    route: Seq<Pos>,
    k: int,
)
    requires
        crate::route::answers(nav, from, to, radius, Some(route)),
        is_ground(nav, from.x as int, from.z as int),
        0 <= k < route.len(),
    ensures
        is_ground(nav, route[k].x as int, route[k].z as int),
        clear_line(nav, sets_out(from, route, k), route[k], radius) || beside(
            nav,
            sets_out(from, route, k),
            route[k],
        ),
{
    let s = route_start_cell(nav, from)->0;
    let g = route_goal_cell(nav, to)->0;
    let end = last_point(nav, to, g);
    let e = crate::route::route_end(to);
    footing_is_free(nav, cell_at(e.x as int, e.z as int)->0, g);
    ends_lie_in_their_cell(nav, to, g);
    assert(cell_at(from.x as int, from.z as int) == Some(s));
    cells_tell_ground(nav, end, g);
    if s == g {
        steps_lie_beside(nav, from, end, s, g);
    } else {
        let path = choose|path: Seq<Cell>| #[trigger]
            is_good_path(nav, path, s, g) && route == pulled(
                nav,
                from,
                waypoints(path, end),
                radius,
            );
        let points = waypoints(path, end);
        let whole = seq![s] + path;
        strolls_are_walks(nav, whole, s, g);
        let at = pulling_goes_as_far_as_it_sees(nav, from, points, radius);
        assert(runs_far(nav, from, points, radius, route, at, k));
        point_lies_in_its_cell(nav, path, s, g, end, at[k]);
        cells_tell_ground(nav, route[k], path[at[k]]);
        if !clear_line(nav, sets_out(from, route, k), route[k], radius) {
            let m = at[k];
            assert(strides(nav, whole[m], whole[m + 1]));
            assert(whole[m + 1] == path[m]);
            if k == 0 {
                assert(whole[0] == s);
                steps_lie_beside(nav, from, route[0], s, path[0]);
            } else {
                assert(runs_far(nav, from, points, radius, route, at, k - 1));
                point_lies_in_its_cell(nav, path, s, g, end, m - 1);
                assert(whole[m] == path[m - 1]);
                steps_lie_beside(nav, route[k - 1], route[k], path[m - 1], path[m]);
            }
        }
    }
}

proof fn point_lies_in_its_cell(
    nav: &NavGrid,
    path: Seq<Cell>,
    s: Cell,
    g: Cell,
    end: Pos,
    i: int,
)
    requires
        strolls(nav, seq![s] + path, s, g),
        cell_at(end.x as int, end.z as int) == Some(g),
        0 <= i < path.len(),
    ensures
        cell_at(waypoints(path, end)[i].x as int, waypoints(path, end)[i].z as int) == Some(
            path[i],
        ),
        unset(nav, path[i].x as int, path[i].z as int),
{
    let whole = seq![s] + path;
    assert(strides(nav, whole[i], whole[i + 1]));
    assert(whole[i + 1] == path[i]);
    if i == path.len() - 1 {
        assert(whole[whole.len() - 1] == path[i]);
    } else {
        middles_lie_inside(path[i]);
    }
}

/// A coordinate kept half a unit inside the map.
pub open spec fn kept_in(v: int) -> int {
    if v < -99_500 {
        -99_500
    } else if v > 99_500 {
        99_500
    } else {
        v
    }
}

/// A route ends at the very spot asked for where that is open ground, pulled
/// inside the map; and otherwise on open ground that no other is nearer than,
/// ring for ring.
pub proof fn routes_end_as_near_as_can_be(
    nav: &NavGrid,
    from: Pos,
    to: Pos,
    radius: int,
    route: Seq<Pos>,
    x: int,
    z: int,
)
    requires
        crate::route::answers(nav, from, to, radius, Some(route)),
        is_ground(nav, x, z),
    ensures
        route.len() > 0,
        ({
            let (ex, ez) = (kept_in(to.x as int), kept_in(to.z as int));
            let last = route[route.len() - 1];
            let wanted = Cell { x: column(ex) as usize, z: column(ez) as usize };
            let got = Cell { x: column(last.x as int) as usize, z: column(last.z as int) as usize };
            let other = Cell { x: column(x) as usize, z: column(z) as usize };
            &&& is_ground(nav, last.x as int, last.z as int)
            &&& is_ground(nav, ex, ez) ==> last.x == ex && last.z == ez
            &&& !is_ground(nav, ex, ez) ==> rings_apart(wanted, got) <= rings_apart(wanted, other)
        }),
{
    crate::route::routes_end_where_asked(nav, from, to, radius, route);
    let g = route_goal_cell(nav, to)->0;
    let e = crate::route::route_end(to);
    let c = cell_at(e.x as int, e.z as int)->0;
    footing_is_free(nav, c, g);
    ends_lie_in_their_cell(nav, to, g);
    cells_tell_ground(nav, last_point(nav, to, g), g);
    cells_tell_ground(nav, e, c);
    if !is_ground(nav, e.x as int, e.z as int) {
        refuges_are_near(nav, c, g, Cell { x: column(x) as usize, z: column(z) as usize });
    }
}

/// There is no route exactly where the walker has no footing, or the goal has
/// none, or nobody can stroll from the one to the other. On open ground at both
/// ends only the last can be.
pub proof fn routes_are_found_where_there_are_any(
    nav: &NavGrid,
    from: Pos,
    to: Pos,
    radius: int,
    route: Option<Seq<Pos>>,
)
    requires
        crate::route::answers(nav, from, to, radius, route),
        is_ground(nav, from.x as int, from.z as int),
        is_ground(nav, kept_in(to.x as int), kept_in(to.z as int)),
    ensures
        ({
            let a = Cell {
                x: column(from.x as int) as usize,
                z: column(from.z as int) as usize,
            };
            let b = Cell {
                x: column(kept_in(to.x as int)) as usize,
                z: column(kept_in(to.z as int)) as usize,
            };
            route is Some <==> a == b || exists|w: Seq<Cell>| #[trigger] strolls(nav, w, a, b)
        }),
{
    let s = route_start_cell(nav, from)->0;
    let g = route_goal_cell(nav, to)->0;
    let e = crate::route::route_end(to);
    cells_tell_ground(nav, from, cell_at(from.x as int, from.z as int)->0);
    cells_tell_ground(nav, e, cell_at(e.x as int, e.z as int)->0);
    reaching_is_strolling(nav, s, g);
    if s != g && route is Some {
        let path = choose|path: Seq<Cell>| #[trigger]
            is_good_path(nav, path, s, g) && route->0 == pulled(
                nav,
                from,
                waypoints(path, last_point(nav, to, g)),
                radius,
            );
        strolls_are_walks(nav, seq![s] + path, s, g);
        assert(strolls(nav, seq![s] + path, s, g));
    }
}

// ---------------------------------------------------------------------------
// Sites
// ---------------------------------------------------------------------------

/// A footprint that is free holds no blocked cell whose middle it covers, and
/// hangs over no edge; one that is not has a fault of one kind or the other.
pub proof fn free_sites_are_free(nav: &NavGrid, at: Pos, size: int, c: Cell)
    requires
        c.x < 100,
        c.z < 100,
        crate::route::site_clear(nav, at, size),
        at.x - size / 2 <= 2_000 * c.x - 99_000 <= at.x + size / 2,
        at.z - size / 2 <= 2_000 * c.z - 99_000 <= at.z + size / 2,
    ensures
        unset(nav, c.x as int, c.z as int),
        -100_000 <= at.x - size / 2 && at.x + size / 2 <= 100_000,
        -100_000 <= at.z - size / 2 && at.z + size / 2 <= 100_000,
{
    crate::nav::numbering(c.number(), c);
    assert(crate::route::on_site(at, size, middle(crate::nav::cell_of(c.number()))));
}

/// A footprint on the map with no blocked cell under it is free.
pub proof fn unblocked_sites_are_free(nav: &NavGrid, at: Pos, size: int)
    requires
        -100_000 <= at.x - size / 2 && at.x + size / 2 <= 100_000,
        -100_000 <= at.z - size / 2 && at.z + size / 2 <= 100_000,
        forall|c: Cell|
            c.x < 100 && c.z < 100 && at.x - size / 2 <= 2_000 * c.x - 99_000 <= at.x + size / 2
                && at.z - size / 2 <= 2_000 * c.z - 99_000 <= at.z + size / 2
                ==> #[trigger] unset(nav, c.x as int, c.z as int),
    ensures
        crate::route::site_clear(nav, at, size),
{
    assert forall|i: int|
        0 <= i < 10_000 && #[trigger] crate::route::on_site(
            at,
            size,
            middle(crate::nav::cell_of(i)),
        ) implies !nav.blocked@[i] by {
        let c = crate::nav::cell_of(i);
        crate::nav::numbering(i, c);
        assert(unset(nav, c.x as int, c.z as int));
    }
}

} // verus!
