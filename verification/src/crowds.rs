//! What keeping apart comes to: whom a unit gives way to, which way, and how
//! far.

use vstd::prelude::*;

use crate::map::{dist2, rounded, rounded_is_bounded, rounded_is_close, Pos};
use crate::motion::{limited, nudge1, push_limit, push_x, push_z, pushed, scaled, separated, Body};
use crate::nav::NavGrid;
use crate::route::{root, roots_exist};
use crate::walking::{column, ground_is_what_the_grid_says, is_ground};

verus! {

/// Two units in one layer, not on one spot, and closer than they want to be.
pub open spec fn crowd(a: Body, b: Body, sep: int) -> bool {
    let dx = a.pos.x - b.pos.x;
    let dz = a.pos.z - b.pos.z;
    &&& a.flying == b.flying
    &&& 0 < dx * dx + dz * dz < sep * sep
}

/// Two units that have nothing to do with each other: in different layers, or
/// far enough apart.
pub open spec fn clear_of(a: Body, b: Body, sep: int) -> bool {
    let dx = a.pos.x - b.pos.x;
    let dz = a.pos.z - b.pos.z;
    a.flying != b.flying || dx * dx + dz * dz >= sep * sep
}

proof fn scaling_keeps_the_side(delta: int, len: int, d2: int)
    requires
        0 <= len,
        0 < d2,
    ensures
        0 <= delta ==> 0 <= scaled(delta, len, d2),
        delta <= 0 ==> scaled(delta, len, d2) <= 0,
{
    roots_exist(d2 * 1_000_000);
    let q = root(d2 * 1_000_000);
    assert(q > 0) by (nonlinear_arith)
        requires
            0 < d2,
            d2 * 1_000_000 < (q + 1) * (q + 1),
            0 <= q,
    ;
    let n = delta * len * 1_000;
    if 0 <= delta {
        assert(0 * q <= n <= n * q) by (nonlinear_arith)
            requires
                n == delta * len * 1_000,
                0 <= delta,
                0 <= len,
                1 <= q,
        ;
        rounded_is_bounded(n, q, 0, n);
    }
    if delta <= 0 {
        assert(n * q <= n <= 0 * q) by (nonlinear_arith)
            requires
                n == delta * len * 1_000,
                delta <= 0,
                0 <= len,
                1 <= q,
        ;
        rounded_is_bounded(n, q, n, 0);
    }
}

proof fn overlap_is_positive(d2: int, sep: int)
    requires
        0 <= d2 < sep * sep,
        0 < sep,
    ensures
        0 < sep - root(d2),
        0 <= root(d2),
{
    roots_exist(d2);
    let r = root(d2);
    assert(r < sep) by (nonlinear_arith)
        requires
            0 <= r,
            r * r <= d2,
            d2 < sep * sep,
            0 < sep,
    ;
}

proof fn nudges_point_away(a: Body, b: Body, sep: int, delta: int, tie: int)
    requires
        0 < sep,
        crowd(a, b, sep) || clear_of(a, b, sep),
    ensures
        0 <= delta ==> 0 <= nudge1(a, b, sep, delta, tie),
        delta <= 0 ==> nudge1(a, b, sep, delta, tie) <= 0,
        clear_of(a, b, sep) ==> nudge1(a, b, sep, delta, tie) == 0,
{
    let d2 = dist2(a.pos, b.pos);
    if !clear_of(a, b, sep) {
        overlap_is_positive(d2, sep);
        let gap = sep - root(d2);
        assert(0 <= gap * 5 && 0 <= gap * 2);
        scaling_keeps_the_side(delta, gap * 5, d2);
        scaling_keeps_the_side(delta, gap * 2, d2);
    }
}

proof fn limiting_keeps_the_side(part: int, x: int, z: int, most: int)
    requires
        0 <= most,
    ensures
        0 <= part ==> 0 <= limited(part, x, z, most),
        part <= 0 ==> limited(part, x, z, most) <= 0,
{
    let d2 = x * x + z * z;
    let cut = if d2 > most * most {
        assert(most * most >= 0) by (nonlinear_arith);
        scaling_keeps_the_side(part, most, d2);
        scaled(part, most, d2)
    } else {
        part
    };
    if 0 <= cut {
        rounded_is_bounded(cut, 10, 0, cut);
    }
    if cut <= 0 {
        rounded_is_bounded(cut, 10, cut, 0);
    }
}

/// Whether everybody who crowds a unit is on its west side or level with it;
/// nobody stands on its very spot.
pub open spec fn crowded_from_the_west(bodies: Seq<Body>, i: int, sep: int) -> bool {
    forall|j: int|
        0 <= j < bodies.len() && j != i ==> clear_of(bodies[i], #[trigger] bodies[j], sep) || crowd(
            bodies[i],
            bodies[j],
            sep,
        ) && bodies[j].pos.x <= bodies[i].pos.x
}

pub open spec fn crowded_from_the_east(bodies: Seq<Body>, i: int, sep: int) -> bool {
    forall|j: int|
        0 <= j < bodies.len() && j != i ==> clear_of(bodies[i], #[trigger] bodies[j], sep) || crowd(
            bodies[i],
            bodies[j],
            sep,
        ) && bodies[i].pos.x <= bodies[j].pos.x
}

/// Whether everybody who crowds a unit is on the side of smaller `z`, or level
/// with it; nobody stands on its very spot.
pub open spec fn crowded_from_below(bodies: Seq<Body>, i: int, sep: int) -> bool {
    forall|j: int|
        0 <= j < bodies.len() && j != i ==> clear_of(bodies[i], #[trigger] bodies[j], sep) || crowd(
            bodies[i],
            bodies[j],
            sep,
        ) && bodies[j].pos.z <= bodies[i].pos.z
}

pub open spec fn crowded_from_above(bodies: Seq<Body>, i: int, sep: int) -> bool {
    forall|j: int|
        0 <= j < bodies.len() && j != i ==> clear_of(bodies[i], #[trigger] bodies[j], sep) || crowd(
            bodies[i],
            bodies[j],
            sep,
        ) && bodies[i].pos.z <= bodies[j].pos.z
}

proof fn sums_keep_the_side(bodies: Seq<Body>, i: int, sep: int, n: int)
    requires
        0 < sep,
        0 <= i < bodies.len(),
        0 <= n <= bodies.len(),
    ensures
        crowded_from_the_west(bodies, i, sep) ==> 0 <= push_x(bodies, i, sep, n),
        crowded_from_the_east(bodies, i, sep) ==> push_x(bodies, i, sep, n) <= 0,
        crowded_from_below(bodies, i, sep) ==> 0 <= push_z(bodies, i, sep, n),
        crowded_from_above(bodies, i, sep) ==> push_z(bodies, i, sep, n) <= 0,
    decreases n,
{
    if n > 0 {
        sums_keep_the_side(bodies, i, sep, n - 1);
        let a = bodies[i];
        let b = bodies[n - 1];
        if n - 1 != i && (crowd(a, b, sep) || clear_of(a, b, sep)) {
            nudges_point_away(a, b, sep, a.pos.x - b.pos.x, a.tie.x as int);
            nudges_point_away(a, b, sep, a.pos.z - b.pos.z, a.tie.z as int);
        }
    }
}

proof fn nobody_near_no_push(bodies: Seq<Body>, i: int, sep: int, n: int)
    requires
        0 < sep,
        0 <= i < bodies.len(),
        0 <= n <= bodies.len(),
        forall|j: int|
            0 <= j < bodies.len() && j != i ==> clear_of(bodies[i], #[trigger] bodies[j], sep),
    ensures
        push_x(bodies, i, sep, n) == 0,
        push_z(bodies, i, sep, n) == 0,
    decreases n,
{
    if n > 0 {
        nobody_near_no_push(bodies, i, sep, n - 1);
        if n - 1 != i {
            let a = bodies[i];
            let b = bodies[n - 1];
            nudges_point_away(a, b, sep, a.pos.x - b.pos.x, a.tie.x as int);
            nudges_point_away(a, b, sep, a.pos.z - b.pos.z, a.tie.z as int);
        }
    }
}

/// A unit is pushed away from its crowd on either axis and never into it: where
/// everybody who crowds it is to one side, it moves to the other side or not at
/// all along that axis. Nobody else counts, however many there are.
pub proof fn crowds_push_outward(
    nav: &NavGrid,
    bodies: Seq<Body>,
    i: int,
    sep: int,
    dt: int,
    p: Pos,
)
    requires
        0 <= i < bodies.len(),
        0 < sep,
        0 <= dt,
        -99_500 <= bodies[i].pos.x <= 99_500,
        -99_500 <= bodies[i].pos.z <= 99_500,
        separated(nav, bodies, i, sep, dt) == Some(p),
    ensures
        crowded_from_the_west(bodies, i, sep) ==> bodies[i].pos.x <= p.x,
        crowded_from_the_east(bodies, i, sep) ==> p.x <= bodies[i].pos.x,
        crowded_from_below(bodies, i, sep) ==> bodies[i].pos.z <= p.z,
        crowded_from_above(bodies, i, sep) ==> p.z <= bodies[i].pos.z,
{
    let x = push_x(bodies, i, sep, bodies.len() as int);
    let z = push_z(bodies, i, sep, bodies.len() as int);
    sums_keep_the_side(bodies, i, sep, bodies.len() as int);
    limiting_keeps_the_side(x, x, z, push_limit(dt));
    limiting_keeps_the_side(z, x, z, push_limit(dt));
}

/// A unit that nobody crowds, and nobody stands on, is left where it is.
pub proof fn loners_are_left_alone(nav: &NavGrid, bodies: Seq<Body>, i: int, sep: int, dt: int)
    requires
        0 <= i < bodies.len(),
        0 < sep,
        0 <= dt,
        forall|j: int|
            0 <= j < bodies.len() && j != i ==> clear_of(bodies[i], #[trigger] bodies[j], sep),
    ensures
        separated(nav, bodies, i, sep, dt) is None,
{
    nobody_near_no_push(bodies, i, sep, bodies.len() as int);
    limiting_keeps_the_side(0, 0, 0, push_limit(dt));
}

/// Where a unit is after a frame of keeping apart.
pub open spec fn stands_after(nav: &NavGrid, bodies: Seq<Body>, i: int, sep: int, dt: int) -> Pos {
    match separated(nav, bodies, i, sep, dt) {
        Some(p) => p,
        None => bodies[i].pos,
    }
}

/// How far apart two numbers are.
pub open spec fn between(a: int, b: int) -> int {
    if a < b {
        b - a
    } else {
        a - b
    }
}

/// Two units that crowd each other never come closer on either axis.
pub proof fn two_never_come_closer(nav: &NavGrid, bodies: Seq<Body>, sep: int, dt: int)
    requires
        bodies.len() == 2,
        0 < sep,
        0 <= dt,
        crowd(bodies[0], bodies[1], sep),
        -99_500 <= bodies[0].pos.x <= 99_500,
        -99_500 <= bodies[0].pos.z <= 99_500,
        -99_500 <= bodies[1].pos.x <= 99_500,
        -99_500 <= bodies[1].pos.z <= 99_500,
    ensures
        ({
            let p = stands_after(nav, bodies, 0, sep, dt);
            let q = stands_after(nav, bodies, 1, sep, dt);
            &&& between(bodies[0].pos.x as int, bodies[1].pos.x as int) <= between(
                p.x as int,
                q.x as int,
            )
            &&& between(bodies[0].pos.z as int, bodies[1].pos.z as int) <= between(
                p.z as int,
                q.z as int,
            )
        }),
{
    let a = bodies[0].pos;
    let b = bodies[1].pos;
    assert((a.x - b.x) * (a.x - b.x) == (b.x - a.x) * (b.x - a.x)) by (nonlinear_arith);
    assert((a.z - b.z) * (a.z - b.z) == (b.z - a.z) * (b.z - a.z)) by (nonlinear_arith);
    assert(crowd(bodies[1], bodies[0], sep));
    if let Some(p) = separated(nav, bodies, 0, sep, dt) {
        crowds_push_outward(nav, bodies, 0, sep, dt, p);
    }
    if let Some(q) = separated(nav, bodies, 1, sep, dt) {
        crowds_push_outward(nav, bodies, 1, sep, dt, q);
    }
}

// ---------------------------------------------------------------------------
// How far
// ---------------------------------------------------------------------------

/// How hard one unit pushes another: half of what they are too close by between
/// friends and two fifths of that between enemies, in ten-thousandths, and along
/// the line between them.
pub proof fn nudges_are_half_the_overlap(
    a: Body,
    b: Body,
    sep: int,
    delta: int,
    tie: int,
    r: int,
    q: int,
)
    requires
        0 < sep,
        crowd(a, b, sep),
        0 <= r,
        0 <= q,
        ({
            let dx = a.pos.x - b.pos.x;
            let dz = a.pos.z - b.pos.z;
            let d2 = dx * dx + dz * dz;
            r * r <= d2 < (r + 1) * (r + 1) && q * q <= d2 * 1_000_000 < (q + 1) * (q + 1)
        }),
    ensures
        ({
            let n = nudge1(a, b, sep, delta, tie);
            let k: int = if a.human == b.human {
                5
            } else {
                2
            };
            -q <= 2 * (q * n - delta * ((sep - r) * k) * 1_000) <= q
        }),
{
    let d2 = dist2(a.pos, b.pos);
    one_root(d2, r);
    one_root(d2 * 1_000_000, q);
    assert(q > 0) by (nonlinear_arith)
        requires
            0 < d2,
            d2 * 1_000_000 < (q + 1) * (q + 1),
            0 <= q,
    ;
    let k: int = if a.human == b.human {
        5
    } else {
        2
    };
    let w = delta * ((sep - r) * k) * 1_000;
    rounded_is_close(w, q);
    let n = rounded(w, q);
    assert(-q <= 2 * (q * n - w) <= q) by (nonlinear_arith)
        requires
            2 * w - q < 2 * q * n <= 2 * w + q,
    ;
}

proof fn one_root(n: int, r: int)
    requires
        0 <= n,
        0 <= r,
        r * r <= n < (r + 1) * (r + 1),
    ensures
        root(n) == r,
{
    roots_exist(n);
    let s = root(n);
    assert(s == r) by (nonlinear_arith)
        requires
            0 <= s,
            0 <= r,
            s * s <= n < (s + 1) * (s + 1),
            r * r <= n < (r + 1) * (r + 1),
    ;
}

proof fn scaling_is_bounded(part: int, len: int, d2: int)
    requires
        0 < d2,
        part * part <= d2,
        0 <= len,
    ensures
        -len <= scaled(part, len, d2) <= len,
{
    roots_exist(d2 * 1_000_000);
    let q = root(d2 * 1_000_000);
    assert(q > 0) by (nonlinear_arith)
        requires
            0 < d2,
            d2 * 1_000_000 < (q + 1) * (q + 1),
            0 <= q,
    ;
    let e = 1_000 * part;
    assert(e * e <= d2 * 1_000_000) by (nonlinear_arith)
        requires
            e == 1_000 * part,
            part * part <= d2,
    ;
    assert(-q <= e <= q) by (nonlinear_arith)
        requires
            e * e < (q + 1) * (q + 1),
            0 <= q,
    ;
    let n = part * len * 1_000;
    assert(-len * q <= n <= len * q) by (nonlinear_arith)
        requires
            n == part * len * 1_000,
            e == 1_000 * part,
            -q <= e <= q,
            0 <= len,
    ;
    rounded_is_bounded(n, q, -len, len);
}

proof fn limits_hold(part: int, x: int, z: int, most: int)
    requires
        0 <= most,
        part == x || part == z,
    ensures
        -(most + 5) <= 10 * limited(part, x, z, most) <= most + 5,
{
    let d2 = x * x + z * z;
    assert(part * part <= d2 && x * x >= 0 && z * z >= 0) by (nonlinear_arith)
        requires
            part == x || part == z,
            d2 == x * x + z * z,
    ;
    let cut = if d2 > most * most {
        assert(most * most >= 0) by (nonlinear_arith);
        scaling_is_bounded(part, most, d2);
        scaled(part, most, d2)
    } else {
        assert(-most <= part <= most) by (nonlinear_arith)
            requires
                part * part <= most * most,
                0 <= most,
        ;
        part
    };
    rounded_is_close(cut, 10);
}

/// In a frame nobody is pushed faster than two and a half units a second along
/// either axis, however hard the crowd presses.
pub proof fn pushes_have_a_top_speed(
    nav: &NavGrid,
    bodies: Seq<Body>,
    i: int,
    sep: int,
    dt: int,
    p: Pos,
)
    requires
        0 <= i < bodies.len(),
        0 < sep,
        0 <= dt,
        -99_500 <= bodies[i].pos.x <= 99_500,
        -99_500 <= bodies[i].pos.z <= 99_500,
        separated(nav, bodies, i, sep, dt) == Some(p),
    ensures
        10 * between(p.x as int, bodies[i].pos.x as int) <= 25 * dt + 5,
        10 * between(p.z as int, bodies[i].pos.z as int) <= 25 * dt + 5,
{
    let x = push_x(bodies, i, sep, bodies.len() as int);
    let z = push_z(bodies, i, sep, bodies.len() as int);
    limits_hold(x, x, z, push_limit(dt));
    limits_hold(z, x, z, push_limit(dt));
}

proof fn scaling_reaches(delta: int, len: int, d2: int)
    requires
        0 < d2 <= 2 * (delta * delta),
        20 <= len,
    ensures
        0 < delta ==> scaled(delta, len, d2) >= 14,
        delta < 0 ==> scaled(delta, len, d2) <= -14,
{
    roots_exist(d2 * 1_000_000);
    let q = root(d2 * 1_000_000);
    assert(q > 0) by (nonlinear_arith)
        requires
            0 < d2,
            d2 * 1_000_000 < (q + 1) * (q + 1),
            0 <= q,
    ;
    let m = if delta < 0 {
        -delta
    } else {
        delta
    };
    assert(m * m == delta * delta) by (nonlinear_arith)
        requires
            m == delta || m == -delta,
    ;
    assert(q * q <= 2_000_000 * (m * m)) by (nonlinear_arith)
        requires
            q * q <= d2 * 1_000_000,
            d2 <= 2 * (m * m),
    ;
    assert(q <= 1_415 * m) by (nonlinear_arith)
        requires
            q * q <= 2_000_000 * (m * m),
            0 <= m,
            0 < q,
    ;
    let n = delta * len * 1_000;
    if 0 < delta {
        assert(14 * q <= n <= n * q) by (nonlinear_arith)
            requires
                q <= 1_415 * delta,
                1 <= q,
                n == delta * len * 1_000,
                20 <= len,
                0 < delta,
        ;
        rounded_is_bounded(n, q, 14, n);
    }
    if delta < 0 {
        assert(n * q <= n <= -14 * q) by (nonlinear_arith)
            requires
                q <= 1_415 * -delta,
                1 <= q,
                n == delta * len * 1_000,
                20 <= len,
                delta < 0,
        ;
        rounded_is_bounded(n, q, n, -14);
    }
}

proof fn one_neighbour_pushes(bodies: Seq<Body>, i: int, j: int, sep: int, n: int)
    requires
        0 < sep,
        0 <= i < bodies.len(),
        0 <= j < bodies.len(),
        i != j,
        0 <= n <= bodies.len(),
        forall|k: int|
            0 <= k < bodies.len() && k != i && k != j ==> clear_of(
                bodies[i],
                #[trigger] bodies[k],
                sep,
            ),
    ensures
        push_x(bodies, i, sep, n) == (if j < n {
            nudge1(
                bodies[i],
                bodies[j],
                sep,
                bodies[i].pos.x - bodies[j].pos.x,
                bodies[i].tie.x as int,
            )
        } else {
            0
        }),
        push_z(bodies, i, sep, n) == (if j < n {
            nudge1(
                bodies[i],
                bodies[j],
                sep,
                bodies[i].pos.z - bodies[j].pos.z,
                bodies[i].tie.z as int,
            )
        } else {
            0
        }),
    decreases n,
{
    if n > 0 {
        one_neighbour_pushes(bodies, i, j, sep, n - 1);
        if n - 1 != i && n - 1 != j {
            let a = bodies[i];
            let b = bodies[n - 1];
            nudges_point_away(a, b, sep, a.pos.x - b.pos.x, a.tie.x as int);
            nudges_point_away(a, b, sep, a.pos.z - b.pos.z, a.tie.z as int);
        }
    }
}

proof fn strong_pushes_move(x: int, z: int, dt: int)
    requires
        1 <= dt,
        x >= 14 || x <= -14 || z >= 14 || z <= -14,
    ensures
        limited(x, x, z, 25 * dt) != 0 || limited(z, x, z, 25 * dt) != 0,
{
    let most = 25 * dt;
    let d2 = x * x + z * z;
    let m = if z * z <= x * x {
        x
    } else {
        z
    };
    assert(m * m <= d2 <= 2 * (m * m) && (m >= 14 || m <= -14) && d2 > 0) by (nonlinear_arith)
        requires
            x >= 14 || x <= -14 || z >= 14 || z <= -14,
            m == (if z * z <= x * x { x } else { z }),
            d2 == x * x + z * z,
    ;
    let cut = if d2 > most * most {
        scaling_reaches(m, most, d2);
        scaled(m, most, d2)
    } else {
        m
    };
    if cut >= 14 {
        rounded_is_bounded(cut, 10, 1, cut);
    } else {
        rounded_is_bounded(cut, 10, cut, -1);
    }
}

/// A unit with one neighbour that is too close by a hundredth of a unit or more
/// is moved, whatever the order in which the units are listed, as long as the
/// ground about it is open.
pub proof fn crowded_units_give_way(
    nav: &NavGrid,
    bodies: Seq<Body>,
    i: int,
    j: int,
    sep: int,
    dt: int,
)
    requires
        10 < sep,
        1 <= dt,
        0 <= i < bodies.len(),
        0 <= j < bodies.len(),
        i != j,
        crowd(bodies[i], bodies[j], sep - 10),
        forall|k: int|
            0 <= k < bodies.len() && k != i && k != j ==> clear_of(
                bodies[i],
                #[trigger] bodies[k],
                sep,
            ),
        -99_500 + 3 * dt < bodies[i].pos.x < 99_500 - 3 * dt,
        -99_500 + 3 * dt < bodies[i].pos.z < 99_500 - 3 * dt,
        bodies[i].flying || forall|x: int, z: int|
            between(x, bodies[i].pos.x as int) <= 3 * dt && between(z, bodies[i].pos.z as int) <= 3
                * dt ==> #[trigger] is_ground(nav, x, z),
    ensures
        separated(nav, bodies, i, sep, dt) is Some,
        separated(nav, bodies, i, sep, dt)->0 != bodies[i].pos,
{
    let a = bodies[i];
    let b = bodies[j];
    let dx = a.pos.x - b.pos.x;
    let dz = a.pos.z - b.pos.z;
    let d2 = dist2(a.pos, b.pos);
    one_neighbour_pushes(bodies, i, j, sep, bodies.len() as int);
    let x = push_x(bodies, i, sep, bodies.len() as int);
    let z = push_z(bodies, i, sep, bodies.len() as int);
    overlap_is_positive(d2, sep - 10);
    assert((sep - 10) * (sep - 10) < sep * sep) by (nonlinear_arith)
        requires
            10 < sep,
    ;
    let gap = sep - root(d2);
    assert(gap * 5 >= 20 && gap * 2 >= 20);
    assert(dx * dx + dz * dz <= 2 * (dx * dx) || dx * dx + dz * dz <= 2 * (dz * dz));
    if dx * dx + dz * dz <= 2 * (dx * dx) {
        scaling_reaches(dx, gap * 5, d2);
        scaling_reaches(dx, gap * 2, d2);
        assert(dx != 0) by (nonlinear_arith)
            requires
                0 < dx * dx + dz * dz <= 2 * (dx * dx),
        ;
    } else {
        scaling_reaches(dz, gap * 5, d2);
        scaling_reaches(dz, gap * 2, d2);
        assert(dz != 0) by (nonlinear_arith)
            requires
                0 < dx * dx + dz * dz <= 2 * (dz * dz),
        ;
    }
    strong_pushes_move(x, z, dt);
    let px = limited(x, x, z, 25 * dt);
    let pz = limited(z, x, z, 25 * dt);
    limits_hold(x, x, z, 25 * dt);
    limits_hold(z, x, z, 25 * dt);
    ground_is_what_the_grid_says(nav, a.pos.x + px, a.pos.z + pz);
}

/// Two units on the very same spot give way in the directions they keep for
/// that.
pub proof fn stacked_units_part(nav: &NavGrid, bodies: Seq<Body>, i: int, sep: int, dt: int, p: Pos)
    requires
        bodies.len() == 2,
        0 <= i < 2,
        0 < sep,
        0 <= dt,
        bodies[0].pos == bodies[1].pos,
        bodies[0].flying == bodies[1].flying,
        -99_500 <= bodies[i].pos.x <= 99_500,
        -99_500 <= bodies[i].pos.z <= 99_500,
        separated(nav, bodies, i, sep, dt) == Some(p),
    ensures
        0 <= bodies[i].tie.x ==> bodies[i].pos.x <= p.x,
        bodies[i].tie.x <= 0 ==> p.x <= bodies[i].pos.x,
        0 <= bodies[i].tie.z ==> bodies[i].pos.z <= p.z,
        bodies[i].tie.z <= 0 ==> p.z <= bodies[i].pos.z,
{
    let j = 1 - i;
    one_neighbour_pushes(bodies, i, j, sep, 2);
    let x = push_x(bodies, i, sep, 2);
    let z = push_z(bodies, i, sep, 2);
    ties_keep_the_side(bodies[i].tie.x as int, sep, 5);
    ties_keep_the_side(bodies[i].tie.x as int, sep, 2);
    ties_keep_the_side(bodies[i].tie.z as int, sep, 5);
    ties_keep_the_side(bodies[i].tie.z as int, sep, 2);
    assert(0 < sep * sep) by (nonlinear_arith)
        requires
            0 < sep,
    ;
    limiting_keeps_the_side(x, x, z, push_limit(dt));
    limiting_keeps_the_side(z, x, z, push_limit(dt));
}

proof fn ties_keep_the_side(tie: int, sep: int, k: int)
    requires
        0 < sep,
        0 < k,
    ensures
        0 <= tie ==> 0 <= rounded(tie * sep * k, 1_000),
        tie <= 0 ==> rounded(tie * sep * k, 1_000) <= 0,
{
    let n = tie * sep * k;
    assert((0 <= tie ==> 0 <= n) && (tie <= 0 ==> n <= 0)) by (nonlinear_arith)
        requires
            n == tie * sep * k,
            0 < sep,
            0 < k,
    ;
    if 0 <= tie {
        rounded_is_bounded(n, 1_000, 0, n);
    }
    if tie <= 0 {
        rounded_is_bounded(n, 1_000, n, 0);
    }
}

// ---------------------------------------------------------------------------
// Walls
// ---------------------------------------------------------------------------

/// A coordinate kept half a unit inside the map.
pub open spec fn reined(v: int) -> int {
    if v < -99_500 {
        -99_500
    } else if v > 99_500 {
        99_500
    } else {
        v
    }
}

/// A push goes where it points where a walker can stand there; else along
/// whichever axis of it leads somewhere a walker can stand, east-west first;
/// else nowhere. A flyer goes where it points. Nobody leaves the map.
pub proof fn pushes_slide_along_walls(nav: &NavGrid, old: Pos, px: int, pz: int, flying: bool)
    requires
        px != 0 || pz != 0,
    ensures
        ({
            let (x, z) = (old.x + px, old.z + pz);
            let r = pushed(nav, old, px, pz, flying);
            if flying || is_ground(nav, x, z) {
                r is Some && r->0.x == reined(x) && r->0.z == reined(z)
            } else if is_ground(nav, x, old.z as int) {
                r is Some && r->0.x == reined(x) && r->0.z == reined(old.z as int)
            } else if is_ground(nav, old.x as int, z) {
                r is Some && r->0.x == reined(old.x as int) && r->0.z == reined(z)
            } else {
                r is None
            }
        }),
{
    ground_is_what_the_grid_says(nav, old.x + px, old.z + pz);
    ground_is_what_the_grid_says(nav, old.x + px, old.z as int);
    ground_is_what_the_grid_says(nav, old.x as int, old.z + pz);
}

/// The last half unit before the edge is no cell of its own.
proof fn reining_keeps_the_ground(nav: &NavGrid, x: int, z: int)
    requires
        is_ground(nav, x, z),
    ensures
        is_ground(nav, reined(x), reined(z)),
{
    assert(column(reined(x)) == column(x));
    assert(column(reined(z)) == column(z));
}

/// Nobody on foot is ever pushed off open ground.
pub proof fn nobody_is_pushed_into_anything(
    nav: &NavGrid,
    bodies: Seq<Body>,
    i: int,
    sep: int,
    dt: int,
    p: Pos,
)
    requires
        0 <= i < bodies.len(),
        !bodies[i].flying,
        separated(nav, bodies, i, sep, dt) == Some(p),
    ensures
        is_ground(nav, p.x as int, p.z as int),
{
    let at = bodies[i].pos;
    let x = push_x(bodies, i, sep, bodies.len() as int);
    let z = push_z(bodies, i, sep, bodies.len() as int);
    let px = limited(x, x, z, push_limit(dt));
    let pz = limited(z, x, z, push_limit(dt));
    pushes_slide_along_walls(nav, at, px, pz, false);
    if is_ground(nav, at.x + px, at.z + pz) {
        reining_keeps_the_ground(nav, at.x + px, at.z + pz);
    } else if is_ground(nav, at.x + px, at.z as int) {
        reining_keeps_the_ground(nav, at.x + px, at.z as int);
    } else {
        reining_keeps_the_ground(nav, at.x as int, at.z + pz);
    }
}

} // verus!
