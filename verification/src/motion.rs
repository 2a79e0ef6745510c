//! How units carry out being somewhere else: orders that move, following,
//! steering along a route, teleports, and keeping out of each other's way.
//!
//! Times are thousandths of a second, lengths thousandths of a world unit.

use vstd::prelude::*;

use crate::lists::{first_some, first_some_step, first_stays, picked, picked_step};
use crate::map::{clamped, dist2, dist_sq, round_div, rounded, rounded_is_bounded, Pos};
use crate::nav::{Cell, NavGrid, PathScratch};
use crate::route::{
    answers, cell_at, isqrt, roots_exist, middle, nearest_free, nearest_free_cell, open_at, root,
    route_end, clamp_to_map_xz, plan_path, planned,
};

verus! {

/// How close to the target counts as arrived.
pub const ARRIVE_RADIUS: i64 = 1_500;

/// How close to a waypoint counts as past it.
pub const WAYPOINT_RADIUS: i64 = 550;

/// How often the stuck detector looks.
pub const STUCK_SAMPLE: u64 = 500;

/// Time of barely moving before a new route is asked for.
pub const STUCK_TIME: u64 = 1_500;

/// Travel between two looks that counts as moving.
pub const STUCK_EPSILON: i64 = 250;

/// New routes in a row before a unit gives up.
pub const MAX_REPATHS: u32 = 3;

/// How close a follower comes.
pub const FOLLOW_STOP_DIST: i64 = 4_500;

/// Time between two new targets while following.
pub const FOLLOW_INTERVAL: i64 = 330;

/// Drift of the one followed that calls for a new target at once.
pub const FOLLOW_MOVE_EPSILON: i64 = 2_000;

/// How far short of the one followed a follower stands.
pub const FOLLOW_STAND: i64 = 2_700;

/// How far from the destination a passenger may arrive.
pub const SPREAD: i64 = 3_000;

// ---------------------------------------------------------------------------
// Orders
// ---------------------------------------------------------------------------

/// What a unit is told to do.
#[derive(Clone, Copy, PartialEq, Eq, Debug, Structural)]
pub enum Order {
    Idle,
    Move(Pos),
    AttackMove(Pos),
    Attack(u64),
    Harvest(u64),
    ReturnResources,
    Follow(u64),
    Build(Pos),
}

/// Where an order sends a unit at once, if it moves it at all.
pub fn orders_to_movement(order: Order) -> (r: Option<Pos>)
    ensures
        r == (match order {
            Order::Move(p) => Some(p),
            Order::AttackMove(p) => Some(p),
            _ => None,
        }),
{
    match order {
        Order::Move(p) => Some(p),
        Order::AttackMove(p) => Some(p),
        _ => None,
    }
}

/// Where an order is sending a unit, if it names a place at all. `target` is
/// where the entity that the order is about stands, while it does.
pub open spec fn destination(order: Order, target: Option<Pos>) -> Option<Pos> {
    match order {
        Order::Move(p) => Some(p),
        Order::AttackMove(p) => Some(p),
        Order::Build(p) => Some(p),
        Order::Attack(_) => target,
        Order::Harvest(_) => target,
        Order::Follow(_) => target,
        Order::Idle => None,
        Order::ReturnResources => None,
    }
}

/// Where an order is sending a unit, if it names a place at all.
pub fn order_destination(order: Order, target: Option<Pos>) -> (r: Option<Pos>)
    ensures
        r == destination(order, target),
{
    match order {
        Order::Move(p) => Some(p),
        Order::AttackMove(p) => Some(p),
        Order::Build(p) => Some(p),
        Order::Attack(_) | Order::Harvest(_) | Order::Follow(_) => target,
        Order::Idle | Order::ReturnResources => None,
    }
}

// ---------------------------------------------------------------------------
// Steering
// ---------------------------------------------------------------------------

/// A unit on its way.
#[derive(Debug)]
pub struct PathFollow {
    pub waypoints: Vec<Pos>,
    pub index: usize,
    pub last_sample_pos: Pos,
    pub sample_timer: u64,
    pub stuck_time: u64,
    pub repaths: u32,
}

pub struct FollowView {
    pub waypoints: Seq<Pos>,
    pub index: int,
    pub last_sample_pos: Pos,
    pub sample_timer: int,
    pub stuck_time: int,
    pub repaths: int,
}

impl View for PathFollow {
    type V = FollowView;

    open spec fn view(&self) -> FollowView {
        FollowView {
            waypoints: self.waypoints@,
            index: self.index as int,
            last_sample_pos: self.last_sample_pos,
            sample_timer: self.sample_timer as int,
            stuck_time: self.stuck_time as int,
            repaths: self.repaths as int,
        }
    }
}

impl FollowView {
    /// The detector has looked as often as it should, and no unit has asked for
    /// more new routes than it may.
    pub open spec fn wf(self) -> bool {
        &&& 0 <= self.sample_timer < STUCK_SAMPLE
        &&& 0 <= self.stuck_time < STUCK_TIME
        &&& 0 <= self.repaths <= MAX_REPATHS
        &&& 0 <= self.index
    }
}

impl PathFollow {
    /// A fresh route. The count of new routes in a row is carried over.
    pub fn start(waypoints: Vec<Pos>, from: Pos, repaths: u32) -> (r: PathFollow)
        requires
            repaths <= MAX_REPATHS,
        ensures
            r@ == (FollowView {
                waypoints: waypoints@,
                index: 0,
                last_sample_pos: from,
                sample_timer: 0,
                stuck_time: 0,
                repaths: repaths as int,
            }),
            r@.wf(),
    {
        PathFollow {
            waypoints,
            index: 0,
            last_sample_pos: from,
            sample_timer: 0,
            stuck_time: 0,
            repaths,
        }
    }
}

/// Whether a unit is sent on its way as it should be: a flyer straight to where
/// it is going, over everything, and a walker along a route, where there is one.
pub open spec fn sent(
    nav: &NavGrid,
    from: Pos,
    to: Pos,
    flying: bool,
    radius: int,
    repaths: int,
    r: Option<FollowView>,
) -> bool {
    &&& r is Some ==> r->0 == (FollowView {
        waypoints: r->0.waypoints,
        index: 0,
        last_sample_pos: from,
        sample_timer: 0,
        stuck_time: 0,
        repaths,
    })
    &&& if flying {
        r is Some && r->0.waypoints == seq![route_end(to)]
    } else {
        &&& way_of(r) == planned(nav, from, to, radius)
        &&& answers(nav, from, to, radius, way_of(r))
    }
}

/// The waypoints of a unit on its way.
pub open spec fn way_of(r: Option<FollowView>) -> Option<Seq<Pos>> {
    match r {
        Some(f) => Some(f.waypoints),
        None => None,
    }
}

pub open spec fn follow_view(r: Option<PathFollow>) -> Option<FollowView> {
    match r {
        Some(f) => Some(f@),
        None => None,
    }
}

/// Sends a unit on its way, if there is one.
pub fn compute_path(
    nav: &NavGrid,
    scratch: &mut PathScratch,
    from: Pos,
    to: Pos,
    flying: bool,
    radius: i64,
    repaths: u32,
) -> (r: Option<PathFollow>)
    requires
        nav.wf(),
        old(scratch).wf(),
        0 <= radius <= 1_000_000_000,
        repaths <= MAX_REPATHS,
    ensures
        final(scratch).wf(),
        sent(nav, from, to, flying, radius as int, repaths as int, follow_view(r)),
{
    if flying {
        let mut one: Vec<Pos> = Vec::new();
        one.push(clamp_to_map_xz(to));
        assert(one@ =~= seq![route_end(to)]);
        return Some(PathFollow::start(one, from, repaths));
    }
    match plan_path(nav, scratch, from, to, radius) {
        Some(points) => Some(PathFollow::start(points, from, repaths)),
        None => None,
    }
}

/// A unit that is sent on its way has somewhere to go, and a flyer always is.
pub proof fn travellers_have_somewhere_to_go(
    nav: &NavGrid,
    from: Pos,
    to: Pos,
    flying: bool,
    radius: int,
    repaths: int,
    r: Option<FollowView>,
)
    requires
        sent(nav, from, to, flying, radius, repaths, r),
    ensures
        flying ==> r is Some,
        r is Some ==> r->0.waypoints.len() > 0,
{
    if !flying && r is Some {
        crate::route::routes_end_where_asked(nav, from, to, radius, r->0.waypoints);
    }
}

/// Whether two points are within a distance; nothing is within less than none.
pub open spec fn within(a: Pos, b: Pos, d: int) -> bool {
    0 <= d && dist2(a, b) <= d * d
}

fn is_within(a: Pos, b: Pos, d: i64) -> (r: bool)
    ensures
        r == within(a, b, d as int),
{
    if d < 0 {
        return false;
    }
    assert(0 <= d * d <= 0x8000_0000_0000_0000 * 0x8000_0000_0000_0000) by (nonlinear_arith)
        requires
            0 <= d <= 0x8000_0000_0000_0000,
    ;
    dist_sq(a, b) <= d as i128 * d as i128
}

/// The next waypoint that is not behind the unit.
pub open spec fn next_waypoint(pos: Pos, waypoints: Seq<Pos>, i: int) -> int
    decreases waypoints.len() - i,
{
    if i >= waypoints.len() {
        i
    } else if within(pos, waypoints[i], WAYPOINT_RADIUS as int) {
        next_waypoint(pos, waypoints, i + 1)
    } else {
        i
    }
}

/// What a unit on its way does next.
#[derive(Clone, Copy, PartialEq, Eq, Debug, Structural)]
pub enum Steer {
    /// It is there, or its route has run out.
    Arrived,
    /// The way ahead is blocked.
    Repath,
    /// It walks towards a waypoint.
    Walk(Pos),
}

/// What a unit on its way does next, and the waypoint it is at.
pub open spec fn steered(
    nav: &NavGrid,
    f: FollowView,
    pos: Pos,
    target: Pos,
    flying: bool,
) -> (Steer, int) {
    let i = next_waypoint(pos, f.waypoints, f.index);
    if within(pos, target, ARRIVE_RADIUS as int) {
        (Steer::Arrived, f.index)
    } else if i >= f.waypoints.len() {
        (Steer::Arrived, i)
    } else if !flying && !open_at(nav, f.waypoints[i].x as int, f.waypoints[i].z as int) {
        (Steer::Repath, i)
    } else {
        (Steer::Walk(f.waypoints[i]), i)
    }
}

/// What a unit on its way does next. A flyer's way is never blocked.
pub fn steer(nav: &NavGrid, f: &mut PathFollow, pos: Pos, target: Pos, flying: bool) -> (r: Steer)
    requires
        nav.wf(),
    ensures
        (r, final(f)@.index) == steered(nav, old(f)@, pos, target, flying),
        final(f)@ == (FollowView { index: final(f)@.index, ..old(f)@ }),
{
    if is_within(pos, target, ARRIVE_RADIUS) {
        return Steer::Arrived;
    }
    while f.index < f.waypoints.len() && is_within(pos, f.waypoints[f.index], WAYPOINT_RADIUS)
        invariant
            next_waypoint(pos, old(f)@.waypoints, old(f)@.index) == next_waypoint(
                pos,
                f@.waypoints,
                f@.index,
            ),
            f@ == (FollowView { index: f@.index, ..old(f)@ }),
        decreases f.waypoints.len() - f.index,
    {
        f.index = f.index + 1;
    }
    if f.index >= f.waypoints.len() {
        return Steer::Arrived;
    }
    let waypoint = f.waypoints[f.index];
    if !flying && nav.is_blocked_world(waypoint.x as i64, waypoint.z as i64) {
        return Steer::Repath;
    }
    Steer::Walk(waypoint)
}

/// What the stuck detector decides.
#[derive(Clone, Copy, PartialEq, Eq, Debug, Structural)]
pub enum Stuck {
    Fine,
    /// A new route is asked for.
    Repath,
    /// The unit stops trying.
    GiveUp,
}

/// The detector after a look: time adds up while the unit barely moves, and
/// real movement forgives what came before.
pub open spec fn looked(f: FollowView, pos: Pos, elapsed: int) -> FollowView {
    let slow = !closer_than(f.last_sample_pos, pos, STUCK_EPSILON as int);
    FollowView {
        sample_timer: 0,
        last_sample_pos: pos,
        stuck_time: if slow {
            0
        } else {
            f.stuck_time + elapsed
        },
        repaths: if slow && !within(f.last_sample_pos, pos, 1_000) {
            0
        } else {
            f.repaths
        },
        ..f
    }
}

/// Whether two points are closer than a distance.
pub open spec fn closer_than(a: Pos, b: Pos, d: int) -> bool {
    dist2(a, b) < d * d
}

/// A frame of the stuck detector.
pub open spec fn detected(f: FollowView, pos: Pos, dt: int) -> (FollowView, Stuck) {
    let timer = f.sample_timer + dt;
    if timer < STUCK_SAMPLE {
        (FollowView { sample_timer: timer, ..f }, Stuck::Fine)
    } else {
        let after = looked(f, pos, timer);
        if after.stuck_time < STUCK_TIME {
            (after, Stuck::Fine)
        } else if after.repaths >= MAX_REPATHS {
            (FollowView { stuck_time: 0, ..after }, Stuck::GiveUp)
        } else {
            (
                FollowView { stuck_time: 0, repaths: after.repaths + 1, ..after },
                Stuck::Repath,
            )
        }
    }
}

/// A frame of the stuck detector, after the unit has moved to `pos`.
pub fn detect_stuck(f: &mut PathFollow, pos: Pos, dt: u32) -> (r: Stuck)
    requires
        old(f)@.wf(),
    ensures
        (final(f)@, r) == detected(old(f)@, pos, dt as int),
        final(f)@.wf(),
{
    let timer: u64 = f.sample_timer + dt as u64;
    if timer < STUCK_SAMPLE {
        f.sample_timer = timer;
        return Stuck::Fine;
    }
    let moved: i128 = dist_sq(f.last_sample_pos, pos);
    f.sample_timer = 0;
    f.last_sample_pos = pos;
    if moved < 62_500 {
        f.stuck_time = f.stuck_time + timer;
    } else {
        f.stuck_time = 0;
        if moved > 1_000_000 {
            f.repaths = 0;
        }
    }
    if f.stuck_time >= STUCK_TIME {
        f.stuck_time = 0;
        if f.repaths >= MAX_REPATHS {
            return Stuck::GiveUp;
        }
        f.repaths = f.repaths + 1;
        return Stuck::Repath;
    }
    Stuck::Fine
}

/// A unit asks for at most so many new routes in a row: it gives up exactly
/// when it is stuck once more after the last of them.
pub proof fn stuck_units_give_up(f: FollowView, pos: Pos, dt: int)
    requires
        f.wf(),
        0 <= dt,
    ensures
        detected(f, pos, dt).1 == Stuck::GiveUp ==> f.repaths == MAX_REPATHS,
        detected(f, pos, dt).1 == Stuck::Repath ==> detected(f, pos, dt).0.repaths == f.repaths + 1,
        detected(f, pos, dt).0.repaths <= MAX_REPATHS,
        dist2(f.last_sample_pos, pos) > 1_000_000 && f.sample_timer + dt >= STUCK_SAMPLE
            ==> detected(f, pos, dt).0.repaths == 0,
{
}

// ---------------------------------------------------------------------------
// Following
// ---------------------------------------------------------------------------

/// The throttle of a follower.
#[derive(Clone, Copy, PartialEq, Eq, Debug, Structural)]
pub struct FollowState {
    /// Time left before the next target.
    pub cooldown: i64,
    /// Where the one followed stood at the last target.
    pub last_target_pos: Pos,
}

/// What a follower does.
#[derive(Clone, Copy, PartialEq, Eq, Debug, Structural)]
pub enum FollowAct {
    /// It follows nobody.
    NotFollowing,
    /// The one followed is gone.
    Lost,
    /// Nothing, for now.
    Wait,
    /// It walks to a point short of the one followed.
    Chase(Pos),
    /// It is close enough and stops.
    Release,
    /// It is close enough and stands already.
    Hold,
}

/// The point at a distance from `b` in the direction of `a`, one coordinate:
/// `delta` is the difference of that coordinate and `d2` the square of the
/// distance between the two.
pub open spec fn scaled(delta: int, len: int, d2: int) -> int {
    rounded(delta * len * 1_000, root(d2 * 1_000_000))
}

/// A coordinate that an order may name, one unit inside the map.
pub open spec fn inside1(v: int) -> int {
    clamped(v, -99_000, 99_000)
}

/// Where a follower goes: towards the one followed, but short of it.
pub open spec fn stand(pos: Pos, target: Pos) -> Pos {
    let d2 = dist2(pos, target);
    Pos {
        x: inside1(target.x + scaled(pos.x - target.x, FOLLOW_STAND as int, d2)) as i32,
        z: inside1(target.z + scaled(pos.z - target.z, FOLLOW_STAND as int, d2)) as i32,
    }
}

fn scale(delta: i128, len: i64, d2: i128) -> (r: i128)
    requires
        0 < d2 <= 1_000_000_000_000_000_000_000_000_000_000,
        delta * delta <= d2,
        0 <= len <= 1_000_000_000_000,
    ensures
        r == scaled(delta as int, len as int, d2 as int),
        -len <= r <= len,
{
    let dist: i128 = isqrt((d2 * 1_000_000) as u128) as i128;
    proof {
        assert(-1_000_000_000_000_000 <= delta <= 1_000_000_000_000_000) by (nonlinear_arith)
            requires
                delta * delta <= 1_000_000_000_000_000_000_000_000_000_000,
        ;
        assert(dist >= 1000) by (nonlinear_arith)
            requires
                d2 >= 1,
                d2 * 1_000_000 < (dist + 1) * (dist + 1),
                dist >= 0,
        ;
        let e = 1000 * delta;
        assert(e * e <= d2 * 1_000_000) by (nonlinear_arith)
            requires
                e == 1000 * delta,
                delta * delta <= d2,
        ;
        assert(-dist <= e <= dist) by (nonlinear_arith)
            requires
                e * e < (dist + 1) * (dist + 1),
                dist >= 0,
        ;
        let n = delta * len * 1_000;
        assert(n == e * len) by (nonlinear_arith)
            requires
                n == delta * len * 1_000,
                e == 1000 * delta,
        ;
        assert(-(len * dist) <= e * len <= len * dist) by (nonlinear_arith)
            requires
                -dist <= e <= dist,
                0 <= len,
        ;
        assert((-(len as int)) * dist == -(len * dist)) by (nonlinear_arith);
        rounded_is_bounded(n, dist as int, -(len as int), len as int);
        assert(-1_000_000_000_000_000 * 1_000_000_000_000 <= delta * len <= 1_000_000_000_000_000
            * 1_000_000_000_000) by (nonlinear_arith)
            requires
                -1_000_000_000_000_000 <= delta <= 1_000_000_000_000_000,
                0 <= len <= 1_000_000_000_000,
        ;
    }
    round_div(delta * len as i128 * 1_000, dist)
}

proof fn parts_fit(a: Pos, b: Pos)
    ensures
        (a.x - b.x) * (a.x - b.x) <= dist2(a, b),
        (a.z - b.z) * (a.z - b.z) <= dist2(a, b),
        0 <= dist2(a, b) <= 0x2_0000_0000_0000_0000,
{
    let dx = a.x - b.x;
    let dz = a.z - b.z;
    assert(0 <= dx * dx <= 0x1_0000_0000 * 0x1_0000_0000) by (nonlinear_arith)
        requires
            -0x1_0000_0000 <= dx <= 0x1_0000_0000,
    ;
    assert(0 <= dz * dz <= 0x1_0000_0000 * 0x1_0000_0000) by (nonlinear_arith)
        requires
            -0x1_0000_0000 <= dz <= 0x1_0000_0000,
    ;
}

fn clamp_inside(v: i128) -> (r: i32)
    ensures
        r == inside1(v as int),
{
    if v < -99_000 {
        -99_000
    } else if v > 99_000 {
        99_000
    } else {
        v as i32
    }
}

fn stand_off(pos: Pos, target: Pos) -> (r: Pos)
    requires
        dist2(pos, target) > 0,
    ensures
        r == stand(pos, target),
{
    proof {
        parts_fit(pos, target);
    }
    let d2: i128 = dist_sq(pos, target);
    let sx: i128 = scale(pos.x as i128 - target.x as i128, FOLLOW_STAND, d2);
    let sz: i128 = scale(pos.z as i128 - target.z as i128, FOLLOW_STAND, d2);
    Pos { x: clamp_inside(target.x as i128 + sx), z: clamp_inside(target.z as i128 + sz) }
}

/// Where a stride of length `reach` takes a unit: onto the waypoint where that
/// is in reach, else straight towards it.
pub open spec fn strode(pos: Pos, to: Pos, reach: int) -> Pos {
    let d2 = dist2(pos, to);
    if d2 <= reach * reach {
        to
    } else {
        Pos {
            x: (pos.x + scaled(to.x - pos.x, reach, d2)) as i32,
            z: (pos.z + scaled(to.z - pos.z, reach, d2)) as i32,
        }
    }
}

/// A share of a way that is shorter than the way.
pub proof fn strides_fall_short(delta: int, reach: int, d2: int)
    requires
        0 <= reach,
        reach * reach < d2,
    ensures
        0 <= delta ==> 0 <= scaled(delta, reach, d2) <= delta,
        delta <= 0 ==> delta <= scaled(delta, reach, d2) <= 0,
{
    let dist = root(d2 * 1_000_000);
    let step = 1_000 * reach;
    assert(d2 >= 1) by (nonlinear_arith)
        requires
            0 <= reach,
            reach * reach < d2,
    ;
    roots_exist(d2 * 1_000_000);
    assert(step * step < d2 * 1_000_000) by (nonlinear_arith)
        requires
            step == 1_000 * reach,
            reach * reach < d2,
    ;
    assert(step <= dist) by (nonlinear_arith)
        requires
            step * step < (dist + 1) * (dist + 1),
            0 <= step,
            0 <= dist,
    ;
    assert(dist > 0) by (nonlinear_arith)
        requires
            d2 >= 1,
            d2 * 1_000_000 < (dist + 1) * (dist + 1),
            0 <= dist,
    ;
    let n = delta * reach * 1_000;
    assert(n == delta * step) by (nonlinear_arith)
        requires
            n == delta * reach * 1_000,
            step == 1_000 * reach,
    ;
    if 0 <= delta {
        assert(0 <= delta * step <= delta * dist) by (nonlinear_arith)
            requires
                0 <= delta,
                0 <= step <= dist,
        ;
        rounded_is_bounded(n, dist, 0, delta);
    }
    if delta <= 0 {
        assert(delta * dist <= delta * step <= 0) by (nonlinear_arith)
            requires
                delta <= 0,
                0 <= step <= dist,
        ;
        rounded_is_bounded(n, dist, delta, 0);
    }
}

/// Takes a stride towards a waypoint.
pub fn stride(pos: Pos, to: Pos, reach: i64) -> (r: Pos)
    requires
        0 <= reach,
    ensures
        r == strode(pos, to, reach as int),
{
    if reach > 10_000_000_000 {
        proof {
            parts_fit(pos, to);
            assert(10_000_000_000 * 10_000_000_000 <= reach * reach) by (nonlinear_arith)
                requires
                    10_000_000_000 <= reach,
            ;
        }
        return to;
    }
    if is_within(pos, to, reach) {
        return to;
    }
    proof {
        parts_fit(to, pos);
        parts_fit(pos, to);
        assert(dist2(pos, to) == dist2(to, pos)) by (nonlinear_arith);
        let d2 = dist2(pos, to);
        assert(reach * reach >= 0) by (nonlinear_arith);
    }
    let d2: i128 = dist_sq(pos, to);
    let sx: i128 = scale(to.x as i128 - pos.x as i128, reach, d2);
    let sz: i128 = scale(to.z as i128 - pos.z as i128, reach, d2);
    proof {
        strides_fall_short(to.x - pos.x, reach as int, d2 as int);
        strides_fall_short(to.z - pos.z, reach as int, d2 as int);
    }
    Pos { x: (pos.x as i128 + sx) as i32, z: (pos.z as i128 + sz) as i32 }
}

/// A stride never overshoots: each coordinate stays between where the unit is
/// and where it goes, and a waypoint in reach is reached.
pub proof fn strides_never_overshoot(pos: Pos, to: Pos, reach: int)
    requires
        0 <= reach,
    ensures
        dist2(pos, to) <= reach * reach ==> strode(pos, to, reach) == to,
        pos.x <= to.x ==> pos.x <= strode(pos, to, reach).x <= to.x,
        to.x <= pos.x ==> to.x <= strode(pos, to, reach).x <= pos.x,
        pos.z <= to.z ==> pos.z <= strode(pos, to, reach).z <= to.z,
        to.z <= pos.z ==> to.z <= strode(pos, to, reach).z <= pos.z,
{
    let d2 = dist2(pos, to);
    if d2 > reach * reach {
        strides_fall_short(to.x - pos.x, reach, d2);
        strides_fall_short(to.z - pos.z, reach, d2);
    }
}

/// What a frame of travel leads to.
#[derive(Clone, Copy, PartialEq, Eq, Debug, Structural)]
pub enum Travel {
    /// The journey is over.
    Arrived,
    /// The unit stands here and wants a new route.
    Repath(Pos),
    /// The unit stands here and stops trying.
    GaveUp(Pos),
    /// The unit is here and goes on.
    On(Pos),
}

/// A frame of travel: past the waypoints it has reached, a stride towards the
/// next, and a look at whether it gets anywhere.
pub open spec fn travelled(
    nav: &NavGrid,
    f: FollowView,
    pos: Pos,
    target: Pos,
    flying: bool,
    reach: int,
    dt: int,
) -> (Travel, FollowView) {
    let (act, index) = steered(nav, f, pos, target, flying);
    let g = FollowView { index, ..f };
    match act {
        Steer::Arrived => (Travel::Arrived, g),
        Steer::Repath => (Travel::Repath(pos), g),
        Steer::Walk(waypoint) => {
            let p = strode(pos, waypoint, reach);
            let (h, stuck) = detected(g, p, dt);
            (
                match stuck {
                    Stuck::Fine => Travel::On(p),
                    Stuck::Repath => Travel::Repath(p),
                    Stuck::GiveUp => Travel::GaveUp(p),
                },
                h,
            )
        },
    }
}

/// A frame of travel. `reach` is how far the unit comes in it.
pub fn steer_unit(
    nav: &NavGrid,
    f: &mut PathFollow,
    pos: Pos,
    target: Pos,
    flying: bool,
    reach: i64,
    dt: u32,
) -> (r: Travel)
    requires
        nav.wf(),
        old(f)@.wf(),
        0 <= reach,
    ensures
        (r, final(f)@) == travelled(
            nav,
            old(f)@,
            pos,
            target,
            flying,
            reach as int,
            dt as int,
        ),
        final(f)@.wf(),
{
    match steer(nav, f, pos, target, flying) {
        Steer::Arrived => Travel::Arrived,
        Steer::Repath => Travel::Repath(pos),
        Steer::Walk(waypoint) => {
            let p = stride(pos, waypoint, reach);
            match detect_stuck(f, p, dt) {
                Stuck::Fine => Travel::On(p),
                Stuck::Repath => Travel::Repath(p),
                Stuck::GiveUp => Travel::GaveUp(p),
            }
        },
    }
}

/// A frame of following: who follows nobody has no throttle; a lost leader ends
/// it; inside the throttle nothing happens unless the leader has drifted; and
/// then the follower chases, or stops where it is close enough.
pub open spec fn follow_step(
    order: Order,
    me: u64,
    leader: Option<Pos>,
    pos: Pos,
    state: Option<FollowState>,
    dt: int,
    moving: bool,
) -> (FollowAct, Option<FollowState>) {
    match order {
        Order::Follow(id) => match leader {
            Some(target) if id != me => {
                let fresh = FollowState { cooldown: FOLLOW_INTERVAL, last_target_pos: target };
                let waiting = match state {
                    Some(s) => s.cooldown - dt > 0 && within(
                        s.last_target_pos,
                        target,
                        FOLLOW_MOVE_EPSILON as int,
                    ),
                    None => false,
                };
                if waiting {
                    (
                        FollowAct::Wait,
                        Some(
                            FollowState {
                                cooldown: (state->0.cooldown - dt) as i64,
                                ..state->0
                            },
                        ),
                    )
                } else if !within(pos, target, FOLLOW_STOP_DIST as int) {
                    (FollowAct::Chase(stand(pos, target)), Some(fresh))
                } else if moving {
                    (FollowAct::Release, Some(fresh))
                } else {
                    (FollowAct::Hold, Some(fresh))
                }
            },
            _ => (FollowAct::Lost, None),
        },
        _ => (FollowAct::NotFollowing, None),
    }
}

/// A frame of following. `leader` is where the unit followed stands, while it
/// does.
pub fn follow_orders(
    order: Order,
    me: u64,
    leader: Option<Pos>,
    pos: Pos,
    state: Option<FollowState>,
    dt: u32,
    moving: bool,
) -> (r: (FollowAct, Option<FollowState>))
    requires
        match state {
            Some(s) => s.cooldown <= FOLLOW_INTERVAL && s.cooldown >= 0,
            None => true,
        },
    ensures
        r == follow_step(order, me, leader, pos, state, dt as int, moving),
        match r.1 {
            Some(s) => 0 <= s.cooldown <= FOLLOW_INTERVAL,
            None => true,
        },
{
    let id: u64 = match order {
        Order::Follow(id) => id,
        _ => {
            return (FollowAct::NotFollowing, None);
        },
    };
    let target = match leader {
        Some(p) => p,
        None => {
            return (FollowAct::Lost, None);
        },
    };
    if id == me {
        return (FollowAct::Lost, None);
    }
    if let Some(s) = state {
        let left: i64 = s.cooldown - dt as i64;
        if left > 0 && is_within(s.last_target_pos, target, FOLLOW_MOVE_EPSILON) {
            return (
                FollowAct::Wait,
                Some(FollowState { cooldown: left, last_target_pos: s.last_target_pos }),
            );
        }
    }
    let fresh = FollowState { cooldown: FOLLOW_INTERVAL, last_target_pos: target };
    if !is_within(pos, target, FOLLOW_STOP_DIST) {
        return (FollowAct::Chase(stand_off(pos, target)), Some(fresh));
    }
    if moving {
        (FollowAct::Release, Some(fresh))
    } else {
        (FollowAct::Hold, Some(fresh))
    }
}

// ---------------------------------------------------------------------------
// Teleports and arrivals
// ---------------------------------------------------------------------------

/// A point at least one unit inside the map.
pub open spec fn inside(x: int, z: int) -> Pos {
    Pos { x: inside1(x) as i32, z: inside1(z) as i32 }
}

/// Where a unit that is put down ends up: where it was put, unless a walker
/// would stand in something, and then in the nearest free cell there is.
pub open spec fn landed(nav: &NavGrid, spot: Pos, flying: bool) -> Pos {
    if flying || open_at(nav, spot.x as int, spot.z as int) {
        spot
    } else {
        match cell_at(spot.x as int, spot.z as int) {
            Some(c) => match nearest_free(nav, c) {
                Some(free) => middle(free),
                None => spot,
            },
            None => spot,
        }
    }
}

/// Puts a unit down.
pub fn land(nav: &NavGrid, spot: Pos, flying: bool) -> (r: Pos)
    requires
        nav.wf(),
    ensures
        r == landed(nav, spot, flying),
{
    if flying || !nav.is_blocked_world(spot.x as i64, spot.z as i64) {
        return spot;
    }
    if let Some(c) = NavGrid::world_to_cell(spot) {
        if let Some(free) = nearest_free_cell(nav, c) {
            return NavGrid::cell_to_world(free);
        }
    }
    spot
}

/// A walker that lands stands on free ground wherever there is some close by.
pub proof fn walkers_land_on_free_ground(nav: &NavGrid, spot: Pos, c: Cell)
    requires
        nav.wf(),
        cell_at(spot.x as int, spot.z as int) == Some(c),
        nearest_free(nav, c) is Some,
    ensures
        open_at(nav, landed(nav, spot, false).x as int, landed(nav, spot, false).z as int),
{
    if !open_at(nav, spot.x as int, spot.z as int) {
        let free = nearest_free(nav, c)->0;
        assert(crate::route::is_refuge(nav, c, free));
        crate::route::middles_lie_inside(free);
    }
}

/// A unit as a teleport sees it.
#[derive(Clone, Copy, PartialEq, Eq, Debug, Structural)]
pub struct Passenger {
    pub id: u64,
    /// Which side it is on.
    pub human: bool,
    pub alive: bool,
    pub worker: bool,
    pub flying: bool,
    pub pos: Pos,
}

/// A teleport: everybody of one side within a radius goes along.
#[derive(Clone, Copy, PartialEq, Eq, Debug, Structural)]
pub struct TeleportRequest {
    pub center: u64,
    pub dest: Pos,
    pub radius: i64,
    /// Workers stay behind.
    pub army_only: bool,
}

/// Whether a unit goes along: the caster always does.
pub open spec fn rides(req: TeleportRequest, caster: Passenger, u: Passenger) -> bool {
    u.id == req.center || (u.human == caster.human && u.alive && !(req.army_only && u.worker)
        && within(u.pos, caster.pos, req.radius as int))
}

/// One coordinate of a passenger's place beside the caster, pulled in to the
/// spread.
pub open spec fn offset1(delta: int, d2: int) -> int {
    if d2 > SPREAD * SPREAD {
        scaled(delta, SPREAD as int, d2)
    } else {
        delta
    }
}

/// Where a passenger arrives.
pub open spec fn arrival(
    nav: &NavGrid,
    req: TeleportRequest,
    caster: Passenger,
    u: Passenger,
) -> Pos {
    let d2 = dist2(u.pos, caster.pos);
    let dest = crate::map::on_map(req.dest);
    landed(
        nav,
        inside(
            dest.x + offset1(u.pos.x - caster.pos.x, d2),
            dest.z + offset1(u.pos.z - caster.pos.z, d2),
        ),
        u.flying,
    )
}

pub open spec fn named(id: u64) -> spec_fn(Passenger) -> Option<Passenger> {
    |u: Passenger|
        if u.id == id {
            Some(u)
        } else {
            None
        }
}

pub open spec fn carried(nav: &NavGrid, req: TeleportRequest, caster: Passenger) -> spec_fn(
    Passenger,
) -> Option<(u64, Pos)> {
    |u: Passenger|
        if rides(req, caster, u) {
            Some((u.id, arrival(nav, req, caster, u)))
        } else {
            None
        }
}

/// Who is moved where: nobody once the caster is gone or dead.
pub open spec fn teleported(nav: &NavGrid, req: TeleportRequest, units: Seq<Passenger>) -> Seq<
    (u64, Pos),
> {
    match first_some(units, named(req.center)) {
        Some(caster) if caster.alive => picked(units, carried(nav, req, caster)),
        _ => Seq::empty(),
    }
}

fn find_passenger(units: &Vec<Passenger>, id: u64) -> (r: Option<Passenger>)
    ensures
        r == first_some(units@, named(id)),
{
    let mut i: usize = 0;
    while i < units.len()
        invariant
            i <= units.len(),
            first_some(units@.take(i as int), named(id)) is None,
        decreases units.len() - i,
    {
        proof {
            first_some_step(units@, i as int, named(id));
        }
        if units[i].id == id {
            let found = units[i];
            proof {
                first_stays(units@, i + 1, named(id));
            }
            return Some(found);
        }
        i = i + 1;
    }
    assert(units@.take(i as int) =~= units@);
    None
}

fn arrive(nav: &NavGrid, req: &TeleportRequest, caster: &Passenger, u: &Passenger) -> (r: Pos)
    requires
        nav.wf(),
    ensures
        r == arrival(nav, *req, *caster, *u),
{
    proof {
        parts_fit(u.pos, caster.pos);
    }
    let dest = crate::map::clamp_to_map(req.dest);
    let d2: i128 = dist_sq(u.pos, caster.pos);
    let dx: i128 = u.pos.x as i128 - caster.pos.x as i128;
    let dz: i128 = u.pos.z as i128 - caster.pos.z as i128;
    let (ox, oz): (i128, i128) = if d2 > 9_000_000 {
        (scale(dx, SPREAD, d2), scale(dz, SPREAD, d2))
    } else {
        (dx, dz)
    };
    let spot = Pos { x: clamp_inside(dest.x as i128 + ox), z: clamp_inside(dest.z as i128 + oz) };
    land(nav, spot, u.flying)
}

/// Carries out a teleport: who is moved where. The rest of a passenger's march
/// is forgotten.
pub fn handle_teleports(nav: &NavGrid, req: &TeleportRequest, units: &Vec<Passenger>) -> (r: Vec<
    (u64, Pos),
>)
    requires
        nav.wf(),
    ensures
        r@ == teleported(nav, *req, units@),
{
    let mut out: Vec<(u64, Pos)> = Vec::new();
    assert(out@ =~= Seq::<(u64, Pos)>::empty());
    let caster = match find_passenger(units, req.center) {
        Some(c) => c,
        None => {
            return out;
        },
    };
    if !caster.alive {
        return out;
    }
    let ghost f = carried(nav, *req, caster);
    let mut i: usize = 0;
    while i < units.len()
        invariant
            nav.wf(),
            i <= units.len(),
            f == carried(nav, *req, caster),
            out@ == picked(units@.take(i as int), f),
        decreases units.len() - i,
    {
        proof {
            picked_step(units@, i as int, f);
        }
        let u = units[i];
        if u.id == req.center || (u.human == caster.human && u.alive && !(req.army_only && u.worker)
            && is_within(u.pos, caster.pos, req.radius)) {
            out.push((u.id, arrive(nav, req, &caster, &u)));
        }
        i = i + 1;
    }
    assert(units@.take(i as int) =~= units@);
    out
}

/// A recall of the army leaves every worker but the caster where it is.
pub proof fn army_recalls_spare_workers(
    nav: &NavGrid,
    req: TeleportRequest,
    caster: Passenger,
    u: Passenger,
)
    requires
        req.army_only,
        u.worker,
        u.id != req.center,
    ensures
        carried(nav, req, caster)(u) is None,
{
}

// ---------------------------------------------------------------------------
// Separation
// ---------------------------------------------------------------------------

/// A unit as its neighbours see it.
#[derive(Clone, Copy, PartialEq, Eq, Debug, Structural)]
pub struct Body {
    pub pos: Pos,
    pub human: bool,
    pub flying: bool,
    /// The direction it gives way in when another stands on the very same
    /// spot: a unit vector, in thousandths.
    pub tie: Pos,
}

/// Where a pushed unit ends up: the place pushed to, or along one axis of it
/// where that is in something, or nowhere new; always inside the map. A flyer
/// is pushed over anything.
pub open spec fn pushed(nav: &NavGrid, old: Pos, px: int, pz: int, flying: bool) -> Option<Pos> {
    let x = old.x + px;
    let z = old.z + pz;
    if px == 0 && pz == 0 {
        None
    } else if flying || open_at(nav, x, z) {
        Some(settled(x, z))
    } else if open_at(nav, x, old.z as int) {
        Some(settled(x, old.z as int))
    } else if open_at(nav, old.x as int, z) {
        Some(settled(old.x as int, z))
    } else {
        None
    }
}

/// A point half a unit inside the map.
pub open spec fn settled(x: int, z: int) -> Pos {
    Pos { x: clamped(x, -99_500, 99_500) as i32, z: clamped(z, -99_500, 99_500) as i32 }
}

fn settle(x: i64, z: i64) -> (r: Pos)
    ensures
        r == settled(x as int, z as int),
{
    Pos {
        x: if x < -99_500 {
            -99_500
        } else if x > 99_500 {
            99_500
        } else {
            x as i32
        },
        z: if z < -99_500 {
            -99_500
        } else if z > 99_500 {
            99_500
        } else {
            z as i32
        },
    }
}

/// Pushes a unit without pushing it into anything.
pub fn shove(nav: &NavGrid, old: Pos, px: i64, pz: i64, flying: bool) -> (r: Option<Pos>)
    requires
        nav.wf(),
        -1_000_000_000_000 <= px <= 1_000_000_000_000,
        -1_000_000_000_000 <= pz <= 1_000_000_000_000,
    ensures
        r == pushed(nav, old, px as int, pz as int, flying),
{
    if px == 0 && pz == 0 {
        return None;
    }
    let x: i64 = old.x as i64 + px;
    let z: i64 = old.z as i64 + pz;
    if flying || !nav.is_blocked_world(x, z) {
        return Some(settle(x, z));
    }
    if !nav.is_blocked_world(x, old.z as i64) {
        return Some(settle(x, old.z as i64));
    }
    if !nav.is_blocked_world(old.x as i64, z) {
        return Some(settle(old.x as i64, z));
    }
    None
}

/// A walker is never pushed out of free ground into anything.
pub proof fn pushes_stay_on_free_ground(nav: &NavGrid, old: Pos, px: int, pz: int)
    requires
        -99_500 <= old.x + px <= 99_500,
        -99_500 <= old.z + pz <= 99_500,
        -99_500 <= old.x <= 99_500,
        -99_500 <= old.z <= 99_500,
    ensures
        match pushed(nav, old, px, pz, false) {
            Some(p) => open_at(nav, p.x as int, p.z as int),
            None => true,
        },
{
}

/// How hard one unit pushes another away: half of how much too close they are
/// for friends, less for enemies, in ten-thousandths of a unit per step of
/// `gap`.
pub open spec fn strength(a: Body, b: Body) -> int {
    if a.human == b.human {
        5
    } else {
        2
    }
}

/// One coordinate of the push of a neighbour. Walkers and flyers pass each
/// other by, and so do units that are far enough apart.
pub open spec fn nudge1(a: Body, b: Body, sep: int, delta: int, tie: int) -> int {
    let d2 = dist2(a.pos, b.pos);
    if a.flying != b.flying || d2 >= sep * sep {
        0
    } else if d2 == 0 {
        rounded(tie * sep * strength(a, b), 1_000)
    } else {
        scaled(delta, (sep - root(d2)) * strength(a, b), d2)
    }
}

/// The east-west push of everybody before `n` on unit `i`.
pub open spec fn push_x(bodies: Seq<Body>, i: int, sep: int, n: int) -> int
    decreases n,
{
    if n <= 0 {
        0
    } else {
        push_x(bodies, i, sep, n - 1) + (if n - 1 == i {
            0
        } else {
            nudge1(
                bodies[i],
                bodies[n - 1],
                sep,
                bodies[i].pos.x - bodies[n - 1].pos.x,
                bodies[i].tie.x as int,
            )
        })
    }
}

/// The north-south push of everybody before `n` on unit `i`.
pub open spec fn push_z(bodies: Seq<Body>, i: int, sep: int, n: int) -> int
    decreases n,
{
    if n <= 0 {
        0
    } else {
        push_z(bodies, i, sep, n - 1) + (if n - 1 == i {
            0
        } else {
            nudge1(
                bodies[i],
                bodies[n - 1],
                sep,
                bodies[i].pos.z - bodies[n - 1].pos.z,
                bodies[i].tie.z as int,
            )
        })
    }
}

/// One coordinate of a push, no longer than a frame allows.
pub open spec fn limited(part: int, x: int, z: int, most: int) -> int {
    let d2 = x * x + z * z;
    rounded(
        if d2 > most * most {
            scaled(part, most, d2)
        } else {
            part
        },
        10,
    )
}

/// How far a push may move a unit in a frame, in ten-thousandths.
pub open spec fn push_limit(dt: int) -> int {
    25 * dt
}

/// Where the others push a unit in a frame.
pub open spec fn separated(nav: &NavGrid, bodies: Seq<Body>, i: int, sep: int, dt: int) -> Option<
    Pos,
> {
    let x = push_x(bodies, i, sep, bodies.len() as int);
    let z = push_z(bodies, i, sep, bodies.len() as int);
    if dt <= 0 || bodies.len() < 2 {
        None
    } else {
        pushed(
            nav,
            bodies[i].pos,
            limited(x, x, z, push_limit(dt)),
            limited(z, x, z, push_limit(dt)),
            bodies[i].flying,
        )
    }
}

/// A tie-breaking direction is no longer than a unit.
pub open spec fn ties_fit(bodies: Seq<Body>) -> bool {
    forall|i: int|
        0 <= i < bodies.len() ==> -1_000 <= (#[trigger] bodies[i]).tie.x <= 1_000 && -1_000
            <= bodies[i].tie.z <= 1_000
}

fn one_nudge(a: &Body, b: &Body, sep: i64, x: bool) -> (r: i128)
    requires
        0 < sep <= 1_000_000,
        -1_000 <= a.tie.x <= 1_000,
        -1_000 <= a.tie.z <= 1_000,
    ensures
        x ==> r == nudge1(*a, *b, sep as int, a.pos.x - b.pos.x, a.tie.x as int),
        !x ==> r == nudge1(*a, *b, sep as int, a.pos.z - b.pos.z, a.tie.z as int),
        -5_000_000 <= r <= 5_000_000,
{
    proof {
        parts_fit(a.pos, b.pos);
        assert(0 <= sep * sep <= 1_000_000 * 1_000_000) by (nonlinear_arith)
            requires
                0 < sep <= 1_000_000,
        ;
    }
    let d2: i128 = dist_sq(a.pos, b.pos);
    if a.flying != b.flying || d2 >= sep as i128 * sep as i128 {
        return 0;
    }
    let k: i64 = if a.human == b.human {
        5
    } else {
        2
    };
    if d2 == 0 {
        let tie: i128 = if x {
            a.tie.x as i128
        } else {
            a.tie.z as i128
        };
        assert(-1_000 * 1_000_000 <= tie * sep <= 1_000 * 1_000_000) by (nonlinear_arith)
            requires
                -1_000 <= tie <= 1_000,
                0 < sep <= 1_000_000,
        ;
        let reach: i128 = tie * sep as i128;
        assert(reach * 5 == 5 * reach && reach * 2 == 2 * reach);
        let whole: i128 = if k == 5 {
            5 * reach
        } else {
            2 * reach
        };
        proof {
            rounded_is_bounded(whole as int, 1_000, -5_000_000, 5_000_000);
        }
        return round_div(whole, 1_000);
    }
    let dist: i128 = isqrt(d2 as u128) as i128;
    proof {
        assert(0 <= dist < sep) by (nonlinear_arith)
            requires
                0 <= dist,
                dist * dist <= d2,
                d2 < sep * sep,
                0 < sep,
        ;
    }
    let len: i64 = (sep - dist as i64) * k;
    if x {
        scale(a.pos.x as i128 - b.pos.x as i128, len, d2)
    } else {
        scale(a.pos.z as i128 - b.pos.z as i128, len, d2)
    }
}

fn limit(part: i128, x: i128, z: i128, most: i64) -> (r: i64)
    requires
        -500_000_000_000_000 <= x <= 500_000_000_000_000,
        -500_000_000_000_000 <= z <= 500_000_000_000_000,
        part == x || part == z,
        0 <= most <= 200_000_000_000,
    ensures
        r == limited(part as int, x as int, z as int, most as int),
        -200_000_000_000 <= r <= 200_000_000_000,
{
    proof {
        assert(0 <= x * x <= 500_000_000_000_000 * 500_000_000_000_000) by (nonlinear_arith)
            requires
                -500_000_000_000_000 <= x <= 500_000_000_000_000,
        ;
        assert(0 <= z * z <= 500_000_000_000_000 * 500_000_000_000_000) by (nonlinear_arith)
            requires
                -500_000_000_000_000 <= z <= 500_000_000_000_000,
        ;
        assert(0 <= most * most <= 200_000_000_000 * 200_000_000_000) by (nonlinear_arith)
            requires
                0 <= most <= 200_000_000_000,
        ;
    }
    let d2: i128 = x * x + z * z;
    let cut: i128 = if d2 > most as i128 * most as i128 {
        scale(part, most, d2)
    } else {
        assert(-200_000_000_000 <= part <= 200_000_000_000) by (nonlinear_arith)
            requires
                part * part <= most * most,
                0 <= most <= 200_000_000_000,
        ;
        part
    };
    proof {
        rounded_is_bounded(cut as int, 10, -200_000_000_000, 200_000_000_000);
    }
    round_div(cut, 10) as i64
}

fn separate_one(nav: &NavGrid, bodies: &Vec<Body>, i: usize, sep: i64, dt: u32) -> (r: Option<Pos>)
    requires
        nav.wf(),
        i < bodies@.len() <= 100_000_000,
        2 <= bodies@.len(),
        ties_fit(bodies@),
        0 < sep <= 1_000_000,
        0 < dt,
    ensures
        r == separated(nav, bodies@, i as int, sep as int, dt as int),
{
    let mut x: i128 = 0;
    let mut z: i128 = 0;
    let mut j: usize = 0;
    while j < bodies.len()
        invariant
            i < bodies@.len() <= 100_000_000,
            ties_fit(bodies@),
            0 < sep <= 1_000_000,
            j <= bodies.len(),
            x == push_x(bodies@, i as int, sep as int, j as int),
            z == push_z(bodies@, i as int, sep as int, j as int),
            -5_000_000 * j <= x <= 5_000_000 * j,
            -5_000_000 * j <= z <= 5_000_000 * j,
        decreases bodies.len() - j,
    {
        if j != i {
            x = x + one_nudge(&bodies[i], &bodies[j], sep, true);
            z = z + one_nudge(&bodies[i], &bodies[j], sep, false);
        }
        j = j + 1;
    }
    let most: i64 = 25 * dt as i64;
    let px: i64 = limit(x, x, z, most);
    let pz: i64 = limit(z, x, z, most);
    shove(nav, bodies[i].pos, px, pz, bodies[i].flying)
}

/// Keeps units out of each other's way: where each is moved to this frame, if
/// anywhere. `sep` is how far apart two of them want to be.
pub fn separate_units(nav: &NavGrid, bodies: &Vec<Body>, sep: i64, dt: u32) -> (r: Vec<Option<Pos>>)
    requires
        nav.wf(),
        bodies@.len() <= 100_000_000,
        ties_fit(bodies@),
        0 < sep <= 1_000_000,
    ensures
        r@.len() == bodies@.len(),
        forall|i: int|
            0 <= i < bodies@.len() ==> #[trigger] r@[i] == separated(
                nav,
                bodies@,
                i,
                sep as int,
                dt as int,
            ),
{
    let mut out: Vec<Option<Pos>> = Vec::new();
    let mut i: usize = 0;
    while i < bodies.len()
        invariant
            nav.wf(),
            bodies@.len() <= 100_000_000,
            ties_fit(bodies@),
            0 < sep <= 1_000_000,
                i <= bodies.len(),
            out@.len() == i,
            forall|k: int|
                0 <= k < i ==> #[trigger] out@[k] == separated(
                    nav,
                    bodies@,
                    k,
                    sep as int,
                    dt as int,
                ),
        decreases bodies.len() - i,
    {
        if dt == 0 || bodies.len() < 2 {
            out.push(None);
        } else {
            out.push(separate_one(nav, bodies, i, sep, dt));
        }
        i = i + 1;
    }
    out
}

/// Units that are far enough apart, or in different layers, never push.
pub proof fn distant_units_do_not_push(a: Body, b: Body, sep: int, delta: int, tie: int)
    requires
        a.flying != b.flying || dist2(a.pos, b.pos) >= sep * sep,
    ensures
        nudge1(a, b, sep, delta, tie) == 0,
{
}

} // verus!
