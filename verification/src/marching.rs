//! What marching comes to: where a stride leads, when a march is over, when a
//! unit is stuck, whom a follower keeps up with, and who goes along with a
//! teleport.

use vstd::prelude::*;

use crate::crowds::between;
use crate::lists::{first_some, first_some_is_first, picked_places};
use crate::map::{dist2, rounded, rounded_is_close, Pos};
use crate::motion::{
    carried, destination, detected, follow_step, landed, named, next_waypoint, scaled, sent,
    steered, strode, teleported, travelled, FollowAct, FollowState, FollowView, Order, Passenger,
    Steer, Stuck, TeleportRequest, Travel,
};
use crate::nav::NavGrid;
use crate::route::{cell_at, is_refuge, middles_lie_inside, nearest_free, root, roots_exist};
use crate::spawn::birthplace;
use crate::walking::{ground_is_what_the_grid_says, is_ground, kept_in};

verus! {

/// Whether two points are no farther apart than a length.
pub open spec fn near(a: Pos, b: Pos, d: int) -> bool {
    let dx = a.x - b.x;
    let dz = a.z - b.z;
    dx * dx + dz * dz <= d * d
}

/// `share` is `len` out along a line whose own share is `delta`: the two stand
/// in the ratio of `len` to the line's length, of which `q` is the whole part
/// in millionths.
pub open spec fn in_ratio(share: int, delta: int, len: int, q: int) -> bool {
    -q <= 2 * (q * share - delta * len * 1_000) <= q
}

/// Whether `q` is the whole part of the distance between two points, in
/// thousandths of what they are measured in.
pub open spec fn spans(a: Pos, b: Pos, q: int) -> bool {
    let dx = a.x - b.x;
    let dz = a.z - b.z;
    let n = (dx * dx + dz * dz) * 1_000_000;
    0 < q && q * q <= n < (q + 1) * (q + 1)
}

proof fn scaling_is_in_ratio(delta: int, len: int, d2: int, q: int)
    requires
        0 < d2,
        0 < q,
        q * q <= d2 * 1_000_000 < (q + 1) * (q + 1),
    ensures
        in_ratio(scaled(delta, len, d2), delta, len, q),
{
    roots_exist(d2 * 1_000_000);
    let r = root(d2 * 1_000_000);
    assert(r == q) by (nonlinear_arith)
        requires
            0 <= r,
            0 <= q,
            r * r <= d2 * 1_000_000 < (r + 1) * (r + 1),
            q * q <= d2 * 1_000_000 < (q + 1) * (q + 1),
    ;
    let w = delta * len * 1_000;
    rounded_is_close(w, q);
    let n = rounded(w, q);
    assert(-q <= 2 * (q * n - w) <= q) by (nonlinear_arith)
        requires
            2 * w - q < 2 * q * n <= 2 * w + q,
    ;
}

// ---------------------------------------------------------------------------
// Strides and steering
// ---------------------------------------------------------------------------

/// A stride ends on a waypoint in reach, and else lies on the straight way to
/// it, as long as the reach.
pub proof fn strides_are_as_long_as_they_reach(pos: Pos, to: Pos, reach: int, q: int)
    requires
        0 <= reach,
        spans(pos, to, q),
    ensures
        near(pos, to, reach) ==> strode(pos, to, reach) == to,
        !near(pos, to, reach) ==> in_ratio(
            strode(pos, to, reach).x - pos.x,
            to.x - pos.x,
            reach,
            q,
        ) && in_ratio(strode(pos, to, reach).z - pos.z, to.z - pos.z, reach, q),
{
    let d2 = dist2(pos, to);
    if !near(pos, to, reach) {
        assert(reach * reach >= 0) by (nonlinear_arith);
        scaling_is_in_ratio(to.x - pos.x, reach, d2, q);
        scaling_is_in_ratio(to.z - pos.z, reach, d2, q);
        crate::motion::strides_never_overshoot(pos, to, reach);
        let r = strode(pos, to, reach);
        crate::motion::strides_fall_short(to.x - pos.x, reach, d2);
        crate::motion::strides_fall_short(to.z - pos.z, reach, d2);
    }
}

proof fn next_is_next(pos: Pos, waypoints: Seq<Pos>, i: int)
    requires
        0 <= i <= waypoints.len(),
    ensures
        ({
            let n = next_waypoint(pos, waypoints, i);
            &&& i <= n <= waypoints.len()
            &&& forall|k: int| i <= k < n ==> near(pos, #[trigger] waypoints[k], 550)
            &&& n < waypoints.len() ==> !near(pos, waypoints[n], 550)
        }),
    decreases waypoints.len() - i,
{
    if i < waypoints.len() && near(pos, waypoints[i], 550) {
        next_is_next(pos, waypoints, i + 1);
    }
}

/// A march is over within a unit and a half of its target, or once every
/// waypoint still ahead is within a little over half a unit; until then the
/// unit makes for the first waypoint ahead that is not, unless it walks and
/// that waypoint has been built over.
pub proof fn marchers_make_for_the_next_waypoint(
    nav: &NavGrid,
    f: FollowView,
    pos: Pos,
    target: Pos,
    flying: bool,
)
    requires
        0 <= f.index <= f.waypoints.len(),
    ensures
        ({
            let (act, index) = steered(nav, f, pos, target, flying);
            let done = near(pos, target, 1_500) || forall|k: int|
                f.index <= k < f.waypoints.len() ==> near(pos, #[trigger] f.waypoints[k], 550);
            &&& act == Steer::Arrived <==> done
            &&& !done ==> {
                &&& f.index <= index < f.waypoints.len()
                &&& !near(pos, f.waypoints[index], 550)
                &&& forall|k: int|
                    f.index <= k < index ==> near(pos, #[trigger] f.waypoints[k], 550)
                &&& act == (if flying || is_ground(
                    nav,
                    f.waypoints[index].x as int,
                    f.waypoints[index].z as int,
                ) {
                    Steer::Walk(f.waypoints[index])
                } else {
                    Steer::Repath
                })
            }
        }),
{
    next_is_next(pos, f.waypoints, f.index);
    let n = next_waypoint(pos, f.waypoints, f.index);
    if n < f.waypoints.len() {
        ground_is_what_the_grid_says(nav, f.waypoints[n].x as int, f.waypoints[n].z as int);
    }
}

/// A unit that is on its way comes no farther than it can reach and never past
/// the waypoint it makes for, along either axis.
pub proof fn marchers_come_closer(
    nav: &NavGrid,
    f: FollowView,
    pos: Pos,
    target: Pos,
    flying: bool,
    reach: int,
    dt: int,
    p: Pos,
    w: Pos,
)
    requires
        0 <= reach,
        travelled(nav, f, pos, target, flying, reach, dt).0 == Travel::On(p),
        steered(nav, f, pos, target, flying).0 == Steer::Walk(w),
    ensures
        between(p.x as int, w.x as int) <= between(pos.x as int, w.x as int),
        between(p.z as int, w.z as int) <= between(pos.z as int, w.z as int),
        near(pos, w, reach) ==> p == w,
{
    crate::motion::strides_never_overshoot(pos, w, reach);
}

/// A unit is looked at every half second. One that has come less than a quarter
/// of a unit since the last look is stuck for that long; after a second and a
/// half of it in a row the unit asks for a new route, and gives up after the
/// third. Coming a quarter of a unit ends the spell, and coming more than a
/// unit forgives the routes asked for.
pub proof fn the_stuck_are_noticed(f: FollowView, pos: Pos, dt: int)
    requires
        f.wf(),
        0 <= dt,
    ensures
        ({
            let (g, verdict) = detected(f, pos, dt);
            let timer = f.sample_timer + dt;
            let dx = f.last_sample_pos.x - pos.x;
            let dz = f.last_sample_pos.z - pos.z;
            let d2 = dx * dx + dz * dz;
            let spell = if d2 < 62_500 {
                f.stuck_time + timer
            } else {
                0
            };
            let asked = if d2 > 1_000_000 {
                0
            } else {
                f.repaths
            };
            &&& g.waypoints == f.waypoints && g.index == f.index
            &&& timer < 500 ==> verdict == Stuck::Fine && g == (FollowView {
                sample_timer: timer,
                ..f
            })
            &&& timer >= 500 ==> {
                &&& g.sample_timer == 0
                &&& g.last_sample_pos == pos
                &&& verdict == Stuck::Fine <==> spell < 1_500
                &&& verdict == Stuck::GiveUp <==> spell >= 1_500 && asked >= 3
                &&& g.stuck_time == (if spell < 1_500 {
                    spell
                } else {
                    0
                })
                &&& g.repaths == (if verdict == Stuck::Repath {
                    asked + 1
                } else {
                    asked
                })
            }
        }),
{
}

// ---------------------------------------------------------------------------
// Following
// ---------------------------------------------------------------------------

/// A coordinate kept one unit inside the map.
pub open spec fn tucked_in(v: int) -> int {
    if v < -99_000 {
        -99_000
    } else if v > 99_000 {
        99_000
    } else {
        v
    }
}

/// A follower looks at its leader again after a third of a second, or at once
/// when the leader has come more than two units. Farther than four and a half
/// units off it goes after the leader, to two point seven units on its own side
/// of it; closer it stops. It never follows itself, nor one who is gone.
pub proof fn followers_keep_up(
    id: u64,
    me: u64,
    leader: Option<Pos>,
    pos: Pos,
    state: Option<FollowState>,
    dt: int,
    moving: bool,
)
    ensures
        ({
            let (act, after) = follow_step(Order::Follow(id), me, leader, pos, state, dt, moving);
            let lost = leader is None || id == me;
            let at = leader->0;
            let waits = state is Some && state->0.cooldown > dt && near(
                state->0.last_target_pos,
                at,
                2_000,
            );
            &&& lost ==> act == FollowAct::Lost && after is None
            &&& !lost && waits ==> act == FollowAct::Wait && after is Some
                && after->0.last_target_pos == state->0.last_target_pos
            &&& !lost && waits && 0 <= dt ==> after->0.cooldown == state->0.cooldown - dt
            &&& !lost && !waits ==> {
                &&& after == Some(FollowState { cooldown: 330, last_target_pos: at })
                &&& act is Chase <==> !near(pos, at, 4_500)
                &&& act == FollowAct::Release <==> near(pos, at, 4_500) && moving
                &&& act == FollowAct::Hold <==> near(pos, at, 4_500) && !moving
            }
        }),
{
}

/// A unit with any other order follows nobody.
pub proof fn only_followers_follow(
    order: Order,
    me: u64,
    leader: Option<Pos>,
    pos: Pos,
    state: Option<FollowState>,
    dt: int,
    moving: bool,
)
    requires
        !(order is Follow),
    ensures
        follow_step(order, me, leader, pos, state, dt, moving).0 == FollowAct::NotFollowing,
        follow_step(order, me, leader, pos, state, dt, moving).1 is None,
{
}

/// Where a follower goes: two point seven units from its leader, on the line
/// between the two, and inside the map.
pub proof fn followers_stop_short(
    id: u64,
    me: u64,
    at: Pos,
    pos: Pos,
    state: Option<FollowState>,
    dt: int,
    moving: bool,
    p: Pos,
    q: int,
    x: int,
    z: int,
)
    requires
        follow_step(Order::Follow(id), me, Some(at), pos, state, dt, moving).0 == FollowAct::Chase(
            p,
        ),
        spans(pos, at, q),
        in_ratio(x, pos.x - at.x, 2_700, q),
        in_ratio(z, pos.z - at.z, 2_700, q),
    ensures
        -1 <= p.x - tucked_in(at.x + x) <= 1,
        -1 <= p.z - tucked_in(at.z + z) <= 1,
{
    let d2 = dist2(pos, at);
    scaling_is_in_ratio(pos.x - at.x, 2_700, d2, q);
    scaling_is_in_ratio(pos.z - at.z, 2_700, d2, q);
    ratios_agree(scaled(pos.x - at.x, 2_700, d2), x, pos.x - at.x, 2_700, q);
    ratios_agree(scaled(pos.z - at.z, 2_700, d2), z, pos.z - at.z, 2_700, q);
}

proof fn ratios_agree(a: int, b: int, delta: int, len: int, q: int)
    requires
        0 < q,
        in_ratio(a, delta, len, q),
        in_ratio(b, delta, len, q),
    ensures
        -1 <= a - b <= 1,
{
    let w = delta * len * 1_000;
    assert(-1 <= a - b <= 1) by (nonlinear_arith)
        requires
            0 < q,
            -q <= 2 * (q * a - w) <= q,
            -q <= 2 * (q * b - w) <= q,
    ;
}

// ---------------------------------------------------------------------------
// Putting down
// ---------------------------------------------------------------------------

/// A unit is put down where it should be, unless it walks and something stands
/// there; then it stands on open ground if there is any within twenty-five
/// cells.
pub proof fn nobody_is_put_down_in_anything(nav: &NavGrid, spot: Pos, flying: bool)
    requires
        -100_000 <= spot.x < 100_000,
        -100_000 <= spot.z < 100_000,
    ensures
        flying || is_ground(nav, spot.x as int, spot.z as int) ==> landed(nav, spot, flying)
            == spot,
        !flying && nearest_free(nav, cell_at(spot.x as int, spot.z as int)->0) is Some
            ==> is_ground(
            nav,
            landed(nav, spot, flying).x as int,
            landed(nav, spot, flying).z as int,
        ),
{
    ground_is_what_the_grid_says(nav, spot.x as int, spot.z as int);
    let here = cell_at(spot.x as int, spot.z as int)->0;
    if let Some(free) = nearest_free(nav, here) {
        assert(is_refuge(nav, here, free));
        middles_lie_inside(free);
        let p = crate::route::middle(free);
        ground_is_what_the_grid_says(nav, p.x as int, p.z as int);
    }
}

/// A unit is born where its building puts it, pulled one unit inside the map,
/// and never inside anything where there is room.
pub proof fn recruits_stand_clear(nav: &NavGrid, at: Pos, flying: bool)
    ensures
        ({
            let (x, z) = (tucked_in(at.x as int), tucked_in(at.z as int));
            let p = birthplace(nav, at, flying);
            &&& flying || is_ground(nav, x, z) ==> p.x == x && p.z == z
            &&& !flying && nearest_free(nav, cell_at(x, z)->0) is Some ==> is_ground(
                nav,
                p.x as int,
                p.z as int,
            )
        }),
{
    let spot = crate::motion::inside(at.x as int, at.z as int);
    nobody_is_put_down_in_anything(nav, spot, flying);
}

// ---------------------------------------------------------------------------
// Teleports
// ---------------------------------------------------------------------------

/// Who goes along with a caster: the caster, and everybody alive on its side
/// within the radius, but for the workers where an army is called.
pub open spec fn comes_along(req: TeleportRequest, caster: Passenger, u: Passenger) -> bool {
    ||| u.id == req.center
    ||| u.human == caster.human && u.alive && (!req.army_only || !u.worker) && 0 <= req.radius
        && near(u.pos, caster.pos, req.radius as int)
}

/// A teleport moves exactly those who come along, each once and in the order in
/// which they were listed; and nobody where the caster is gone or dead.
pub proof fn teleports_carry_whom_they_should(
    nav: &NavGrid,
    req: TeleportRequest,
    units: Seq<Passenger>,
    c: int,
) -> (at: Seq<int>)
    requires
        0 <= c < units.len(),
        units[c].id == req.center,
        forall|j: int| 0 <= j < c ==> (#[trigger] units[j]).id != req.center,
    ensures
        ({
            let moved = teleported(nav, req, units);
            &&& !units[c].alive ==> moved.len() == 0
            &&& units[c].alive ==> {
                &&& at.len() == moved.len()
                &&& forall|k: int|
                    0 <= k < at.len() ==> 0 <= #[trigger] at[k] < units.len() && comes_along(
                        req,
                        units[c],
                        units[at[k]],
                    ) && moved[k].0 == units[at[k]].id
                &&& forall|k: int, l: int|
                    0 <= k < l < at.len() ==> #[trigger] at[k] < #[trigger] at[l]
                &&& forall|i: int|
                    0 <= i < units.len() && comes_along(req, units[c], #[trigger] units[i])
                        ==> at.contains(i)
            }
        }),
{
    first_some_is_first(units, named(req.center));
    let who = first_some(units, named(req.center));
    if who is None {
        assert(named(req.center)(units[c]) is None);
    } else {
        let i = choose|i: int|
            0 <= i < units.len() && named(req.center)(#[trigger] units[i]) == who && forall|j: int|
                0 <= j < i ==> named(req.center)(#[trigger] units[j]) is None;
        if i > c {
            assert(named(req.center)(units[c]) is None);
        }
        assert(i == c);
    }
    let f = carried(nav, req, units[c]);
    let at = picked_places(units, f);
    if units[c].alive {
        assert forall|i: int|
            0 <= i < units.len() && comes_along(req, units[c], #[trigger] units[i]) implies
            at.contains(i) by {
            assert(f(units[i]) is Some);
        }
    }
    at
}

/// A teleport to nobody carries nobody.
pub proof fn teleports_need_a_caster(nav: &NavGrid, req: TeleportRequest, units: Seq<Passenger>)
    requires
        forall|j: int| 0 <= j < units.len() ==> (#[trigger] units[j]).id != req.center,
    ensures
        teleported(nav, req, units).len() == 0,
{
    first_some_is_first(units, named(req.center));
    if first_some(units, named(req.center)) is Some {
        let i = choose|i: int|
            0 <= i < units.len() && named(req.center)(#[trigger] units[i]) == first_some(
                units,
                named(req.center),
            );
        assert(units[i].id == req.center);
    }
}

/// Where those who come along end up, before they are put down: as they stood
/// round the caster where that is within three units, and else on the same side
/// three units out; all of it round the destination, inside the map.
pub proof fn teleports_keep_formation(
    nav: &NavGrid,
    req: TeleportRequest,
    caster: Passenger,
    u: Passenger,
    q: int,
    x: int,
    z: int,
)
    requires
        u.flying,
        near(u.pos, caster.pos, 3_000) ==> x == u.pos.x - caster.pos.x && z == u.pos.z
            - caster.pos.z,
        !near(u.pos, caster.pos, 3_000) ==> spans(u.pos, caster.pos, q) && in_ratio(
            x,
            u.pos.x - caster.pos.x,
            3_000,
            q,
        ) && in_ratio(z, u.pos.z - caster.pos.z, 3_000, q),
    ensures
        ({
            let p = crate::motion::arrival(nav, req, caster, u);
            let home = crate::map::on_map(req.dest);
            &&& -1 <= p.x - tucked_in(home.x + x) <= 1
            &&& -1 <= p.z - tucked_in(home.z + z) <= 1
        }),
{
    let d2 = dist2(u.pos, caster.pos);
    if !near(u.pos, caster.pos, 3_000) {
        scaling_is_in_ratio(u.pos.x - caster.pos.x, 3_000, d2, q);
        scaling_is_in_ratio(u.pos.z - caster.pos.z, 3_000, d2, q);
        ratios_agree(scaled(u.pos.x - caster.pos.x, 3_000, d2), x, u.pos.x - caster.pos.x, 3_000, q);
        ratios_agree(scaled(u.pos.z - caster.pos.z, 3_000, d2), z, u.pos.z - caster.pos.z, 3_000, q);
    }
}

/// A walker that comes along is put down where a flyer would arrive, so never in
/// anything where there is room.
pub proof fn walkers_arrive_where_flyers_would(
    nav: &NavGrid,
    req: TeleportRequest,
    caster: Passenger,
    u: Passenger,
)
    ensures
        crate::motion::arrival(nav, req, caster, u) == landed(
            nav,
            crate::motion::arrival(nav, req, caster, Passenger { flying: true, ..u }),
            u.flying,
        ),
{
}

// ---------------------------------------------------------------------------
// Setting out
// ---------------------------------------------------------------------------

/// A flyer goes straight to where it is sent, half a unit inside the map; it
/// starts afresh, and a walker with a route does too.
pub proof fn flyers_go_straight(
    nav: &NavGrid,
    from: Pos,
    to: Pos,
    flying: bool,
    radius: int,
    repaths: int,
    r: Option<FollowView>,
)
    requires
        sent(nav, from, to, flying, radius, repaths, r),
    ensures
        flying ==> r is Some && r->0.waypoints.len() == 1 && r->0.waypoints[0].x == kept_in(
            to.x as int,
        ) && r->0.waypoints[0].z == kept_in(to.z as int),
        r is Some ==> r->0.index == 0 && r->0.last_sample_pos == from && r->0.sample_timer == 0
            && r->0.stuck_time == 0 && r->0.repaths == repaths,
        !flying && r is Some ==> crate::route::answers(
            nav,
            from,
            to,
            radius,
            Some(r->0.waypoints),
        ),
        !flying && r is None ==> crate::route::answers(nav, from, to, radius, None),
{
}

/// Every order leads where it says: to its point where it names one, to its
/// target where it names one, and nowhere else.
pub proof fn orders_lead_where_they_say(order: Order, target: Option<Pos>)
    ensures
        match destination(order, target) {
            Some(p) => order == Order::Move(p) || order == Order::AttackMove(p) || order
                == Order::Build(p) || ((order is Attack || order is Harvest || order is Follow)
                && target == Some(p)),
            None => order is Idle || order is ReturnResources || ((order is Attack
                || order is Harvest || order is Follow) && target is None),
        },
{
}

} // verus!
