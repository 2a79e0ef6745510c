//! Walking: the grid, routes, steering, following, teleports and crowds.

use bridgehead::catalog::{BuildingKind, TargetClass, UnitKind};
use bridgehead::doctrine::DoctrineTemplate;
use bridgehead::heap::MinHeap;
use bridgehead::map::{clamp_to_map, snap_footprint, Pos};
use bridgehead::motion::{
    compute_path, detect_stuck, follow_orders, handle_teleports, land, separate_units, steer, steer_unit,
    stride, Body, FollowAct, Order, Passenger, PathFollow, Steer, Stuck, TeleportRequest, Travel,
};
use bridgehead::nav::{astar, octile, Cell, NavGrid, PathScratch, DIAGONAL, STRAIGHT};
use bridgehead::route::{
    clamp_to_map_xz, footprint_free, has_line_of_sight, isqrt, nearest_free_cell, plan_path, simplify_path,
};
use bridgehead::spawn::{
    entity_name, first_order, head_height, spawn_point, spawn_reason, stamp, unit_height,
    unit_root_scale, unit_y, Producer, Rally, SpawnReason,
};

const RADIUS: i64 = 450;

fn pos(x: i32, z: i32) -> Pos {
    Pos { x: x * 1_000, z: z * 1_000 }
}

fn open_ground() -> NavGrid {
    NavGrid { blocked: vec![false; 10_000] }
}

fn block(nav: &mut NavGrid, x: usize, z: usize) {
    nav.blocked[NavGrid::idx(Cell { x, z })] = true;
}

/// A wall across the map with one gap.
fn walled(gap: usize) -> NavGrid {
    let mut nav = open_ground();
    for z in 0..100 {
        if z != gap {
            block(&mut nav, 50, z);
        }
    }
    nav
}

#[test]
fn cells_and_the_ground_agree() {
    let c = NavGrid::world_to_cell(Pos { x: -100_000, z: -100_000 }).unwrap();
    assert_eq!(c, Cell { x: 0, z: 0 });
    assert_eq!(NavGrid::cell_to_world(c), Pos { x: -99_000, z: -99_000 });
    assert_eq!(NavGrid::world_to_cell(Pos { x: 99_999, z: 0 }), Some(Cell { x: 99, z: 50 }));
    assert_eq!(NavGrid::world_to_cell(Pos { x: 100_000, z: 0 }), None);
    let nav = open_ground();
    assert!(nav.is_blocked_world(200_000, 0), "off the map is no ground");
    assert!(!nav.is_blocked_world(0, 0));
}

#[test]
fn distances_on_the_grid_are_octile() {
    let a = Cell { x: 10, z: 10 };
    assert_eq!(octile(a, Cell { x: 13, z: 10 }), 3 * STRAIGHT);
    assert_eq!(octile(a, Cell { x: 13, z: 12 }), STRAIGHT + 2 * DIAGONAL);
    assert_eq!(octile(a, a), 0);
}

#[test]
fn the_search_goes_round_and_cuts_no_corner() {
    let nav = walled(90);
    let mut scratch = PathScratch::new();
    let start = Cell { x: 40, z: 50 };
    let goal = Cell { x: 60, z: 50 };
    let path = astar(&nav, &mut scratch, start, goal).expect("there is a gap");
    assert_eq!(path.last(), Some(&goal));
    assert!(path.contains(&Cell { x: 50, z: 90 }), "the gap is the only way");
    let mut at = start;
    for c in &path {
        let (dx, dz) = (c.x.abs_diff(at.x), c.z.abs_diff(at.z));
        assert!(dx <= 1 && dz <= 1 && dx + dz > 0);
        assert!(!nav.is_blocked(*c));
        if dx + dz == 2 {
            assert!(!nav.is_blocked(Cell { x: c.x, z: at.z }), "no corner is cut");
            assert!(!nav.is_blocked(Cell { x: at.x, z: c.z }), "no corner is cut");
        }
        at = *c;
    }
    let closed = walled(1_000);
    assert!(astar(&closed, &mut scratch, start, goal).is_none());
    assert!(astar(&nav, &mut scratch, start, start).is_none());
    let again = astar(&nav, &mut scratch, start, goal).unwrap();
    assert_eq!(again, path, "the scratch carries nothing over");
}

#[test]
fn open_ground_is_crossed_in_a_straight_line() {
    let nav = open_ground();
    let mut scratch = PathScratch::new();
    let route = plan_path(&nav, &mut scratch, pos(-50, -50), pos(30, 10), RADIUS).unwrap();
    assert_eq!(route.last(), Some(&pos(30, 10)));
    let near = plan_path(&nav, &mut scratch, pos(0, 0), Pos { x: 500, z: 500 }, RADIUS).unwrap();
    assert_eq!(near, vec![Pos { x: 500, z: 500 }]);
    let off = plan_path(&nav, &mut scratch, pos(0, 0), pos(500, 0), RADIUS).unwrap();
    assert_eq!(off.last(), Some(&Pos { x: 99_500, z: 0 }));
    assert_eq!(clamp_to_map_xz(pos(-500, 3)), Pos { x: -99_500, z: 3_000 });
    assert!(plan_path(&nav, &mut scratch, pos(500, 0), pos(0, 0), RADIUS).is_none());
}

#[test]
fn a_path_crosses_open_ground_in_the_fewest_steps() {
    let nav = open_ground();
    let mut scratch = PathScratch::new();
    for (start, goal) in [
        (Cell { x: 10, z: 10 }, Cell { x: 30, z: 17 }),
        (Cell { x: 30, z: 17 }, Cell { x: 10, z: 10 }),
        (Cell { x: 99, z: 0 }, Cell { x: 0, z: 99 }),
        (Cell { x: 5, z: 5 }, Cell { x: 5, z: 6 }),
    ] {
        let path = astar(&nav, &mut scratch, start, goal).unwrap();
        let (dx, dz) = (start.x.abs_diff(goal.x), start.z.abs_diff(goal.z));
        assert_eq!(path.len(), dx.max(dz));
        let mut slants = 0;
        let mut cost = 0;
        let mut at = start;
        for c in &path {
            if c.x != at.x && c.z != at.z {
                slants += 1;
                cost += DIAGONAL;
            } else {
                cost += STRAIGHT;
            }
            at = *c;
        }
        assert_eq!(slants, dx.min(dz));
        assert_eq!(cost, octile(start, goal));
        let fresh = astar(&nav, &mut PathScratch::new(), start, goal);
        assert_eq!(fresh, Some(path), "earlier searches change no answer");
    }
}

#[test]
fn a_path_never_crosses_itself() {
    let mut nav = walled(90);
    for z in 5..100 {
        block(&mut nav, 44, z);
    }
    let start = Cell { x: 40, z: 50 };
    let path = astar(&nav, &mut PathScratch::new(), start, Cell { x: 60, z: 50 }).unwrap();
    let mut whole = vec![start];
    whole.extend(path);
    for (i, c) in whole.iter().enumerate() {
        assert!(!whole[i + 1..].contains(c), "{c:?} is walked over twice");
    }
}

#[test]
fn a_blocked_goal_is_approached() {
    let mut nav = open_ground();
    block(&mut nav, 60, 50);
    let mut scratch = PathScratch::new();
    let goal = NavGrid::cell_to_world(Cell { x: 60, z: 50 });
    let route = plan_path(&nav, &mut scratch, pos(0, 0), goal, RADIUS).unwrap();
    let end = NavGrid::world_to_cell(*route.last().unwrap()).unwrap();
    assert!(!nav.is_blocked(end));
    assert!(end.x.abs_diff(60) <= 1 && end.z.abs_diff(50) <= 1);
    assert_eq!(nearest_free_cell(&nav, Cell { x: 60, z: 50 }), Some(end));
    let full = NavGrid { blocked: vec![true; 10_000] };
    assert_eq!(nearest_free_cell(&full, Cell { x: 5, z: 5 }), None);
}

#[test]
fn a_site_is_free_when_all_its_cells_are() {
    let mut nav = open_ground();
    block(&mut nav, 51, 51);
    assert!(footprint_free(&nav, pos(0, 0), 4_000));
    assert!(!footprint_free(&nav, pos(2, 2), 4_000));
    assert!(footprint_free(&nav, pos(6, 6), 4_000));
    assert!(!footprint_free(&nav, pos(99, 0), 4_000), "it hangs over the edge");
}

#[test]
fn sight_is_blocked_by_walls() {
    let nav = walled(0);
    assert!(!has_line_of_sight(&nav, pos(-10, 0), pos(10, 0), RADIUS));
    assert!(has_line_of_sight(&nav, pos(-40, 0), pos(-10, 0), RADIUS));
    assert!(has_line_of_sight(&nav, pos(-40, 0), pos(-40, 0), RADIUS));
    let bent = vec![pos(-30, 0), pos(-20, 0), pos(-10, 0)];
    assert_eq!(simplify_path(&nav, pos(-40, 0), &bent, RADIUS), vec![pos(-10, 0)]);
    assert_eq!(isqrt(0), 0);
    assert_eq!(isqrt(99), 9);
    assert_eq!(isqrt(100), 10);
}

#[test]
fn a_flyer_goes_straight_and_a_walker_goes_round() {
    let nav = walled(1_000);
    let mut scratch = PathScratch::new();
    let fly = compute_path(&nav, &mut scratch, pos(-20, 0), pos(20, 0), true, RADIUS, 1).unwrap();
    assert_eq!(fly.waypoints, vec![pos(20, 0)]);
    assert_eq!((fly.index, fly.repaths, fly.last_sample_pos), (0, 1, pos(-20, 0)));
    let walk = compute_path(&nav, &mut scratch, pos(-20, 0), pos(20, 0), false, RADIUS, 0);
    assert!(walk.is_none(), "no way through");
}

#[test]
fn steering_passes_waypoints_and_arrives() {
    let nav = open_ground();
    let mut f = PathFollow::start(vec![pos(0, 0), pos(10, 0)], pos(-1, 0), 0);
    assert_eq!(steer(&nav, &mut f, pos(0, 0), pos(10, 0), false), Steer::Walk(pos(10, 0)));
    assert_eq!(f.index, 1);
    assert_eq!(steer(&nav, &mut f, pos(9, 0), pos(10, 0), false), Steer::Arrived);
    let mut blocked = open_ground();
    block(&mut blocked, 55, 50);
    let mut f = PathFollow::start(vec![Pos { x: 11_000, z: 1_000 }], pos(0, 0), 0);
    assert_eq!(steer(&blocked, &mut f, pos(0, 0), pos(30, 0), false), Steer::Repath);
    assert_eq!(
        steer(&blocked, &mut f, pos(0, 0), pos(30, 0), true),
        Steer::Walk(Pos { x: 11_000, z: 1_000 })
    );
}

#[test]
fn a_stuck_unit_asks_again_and_then_gives_up() {
    let here = pos(0, 0);
    let mut f = PathFollow::start(vec![pos(50, 0)], here, 0);
    let mut said: Vec<Stuck> = Vec::new();
    for _ in 0..40 {
        let s = detect_stuck(&mut f, here, 500);
        if s != Stuck::Fine {
            said.push(s);
        }
        if s == Stuck::GiveUp {
            break;
        }
    }
    assert_eq!(said, vec![Stuck::Repath, Stuck::Repath, Stuck::Repath, Stuck::GiveUp]);
    let mut f = PathFollow::start(vec![pos(50, 0)], here, 0);
    for i in 1..20 {
        assert_eq!(detect_stuck(&mut f, Pos { x: i * 1_000, z: 0 }, 500), Stuck::Fine);
    }
}

#[test]
fn a_walk_gets_there_without_overshooting() {
    assert_eq!(stride(pos(0, 0), pos(3, 4), 2_500), Pos { x: 1_500, z: 2_000 });
    assert_eq!(stride(pos(0, 0), pos(3, 4), 5_000), pos(3, 4));
    assert_eq!(stride(pos(0, 0), pos(0, 0), 10), pos(0, 0));
    assert_eq!(stride(pos(0, 0), pos(3, 4), i64::MAX), pos(3, 4));

    let nav = open_ground();
    let mut f = PathFollow::start(vec![pos(4, 0), pos(4, 8)], pos(0, 0), 0);
    let mut at = pos(0, 0);
    let mut frames = 0;
    loop {
        match steer_unit(&nav, &mut f, at, pos(4, 8), false, 100, 16) {
            Travel::On(p) => at = p,
            Travel::Arrived => break,
            other => panic!("the way is clear: {other:?}"),
        }
        frames += 1;
        assert!(frames < 200);
    }
    assert!((at.x - 4_000).abs() <= 600 && (at.z - 8_000).abs() <= 1_500, "{at:?}");
}

#[test]
fn followers_stand_short_of_whom_they_follow() {
    let (act, state) = follow_orders(Order::Follow(9), 1, Some(pos(20, 0)), pos(0, 0), None, 16, false);
    match act {
        FollowAct::Chase(p) => assert_eq!(p, Pos { x: 17_300, z: 0 }),
        other => panic!("not a chase: {other:?}"),
    }
    assert!(state.is_some());
    let (act, _) = follow_orders(Order::Follow(9), 1, Some(pos(20, 0)), pos(0, 0), state, 16, true);
    assert_eq!(act, FollowAct::Wait);
    let (act, _) = follow_orders(Order::Follow(9), 1, None, pos(0, 0), state, 16, true);
    assert_eq!(act, FollowAct::Lost);
    let (act, state) = follow_orders(Order::Idle, 1, None, pos(0, 0), state, 16, true);
    assert_eq!((act, state.is_none()), (FollowAct::NotFollowing, true));
}

#[test]
fn a_recall_takes_the_army_and_leaves_the_workers() {
    let nav = open_ground();
    let rider = |id: u64, human: bool, worker: bool, at: Pos| Passenger {
        id,
        human,
        alive: true,
        worker,
        flying: false,
        pos: at,
    };
    let units = vec![
        rider(1, true, false, pos(0, 0)),
        rider(2, true, false, pos(2, 0)),
        rider(3, true, true, pos(1, 0)),
        rider(4, false, false, pos(1, 1)),
        rider(5, true, false, pos(40, 0)),
    ];
    let mut req = TeleportRequest { center: 1, dest: pos(-70, -70), radius: 10_000, army_only: true };
    let moved: Vec<u64> = handle_teleports(&nav, &req, &units).iter().map(|m| m.0).collect();
    assert_eq!(moved, vec![1, 2]);
    req.army_only = false;
    let moved = handle_teleports(&nav, &req, &units);
    assert_eq!(moved.iter().map(|m| m.0).collect::<Vec<u64>>(), vec![1, 2, 3]);
    assert_eq!(moved[0].1, pos(-70, -70));
    assert_eq!(moved[1].1, pos(-68, -70), "formation is kept");
    req.center = 99;
    assert!(handle_teleports(&nav, &req, &units).is_empty());
}

#[test]
fn a_radius_below_zero_carries_the_caster_alone() {
    let nav = open_ground();
    let rider = |id: u64| Passenger {
        id,
        human: true,
        alive: true,
        worker: false,
        flying: false,
        pos: pos(0, 0),
    };
    let went = |radius: i64| -> Vec<u64> {
        let req = TeleportRequest { center: 1, dest: pos(20, 20), radius, army_only: false };
        let moved = handle_teleports(&nav, &req, &vec![rider(1), rider(2)]);
        moved.iter().map(|m| m.0).collect()
    };
    assert_eq!(went(-1), vec![1]);
    assert_eq!(went(i64::MIN), vec![1]);
    assert_eq!(went(0), vec![1, 2]);
    assert_eq!(went(i64::MAX), vec![1, 2]);
}

#[test]
fn a_recruit_knows_what_it_is_for() {
    let hall = Producer { id: 7, kind: BuildingKind::TownHall, template: true };
    let sent = spawn_reason(Some(hall), first_order(Rally::Ground(pos(1, 1)), false));
    assert_eq!(
        sent,
        SpawnReason { producer: Some((7, BuildingKind::TownHall)), templated: true, rallied: true }
    );
    let plain = Producer { template: false, ..hall };
    let gone = spawn_reason(Some(plain), first_order(Rally::Unit(9, None), false));
    assert_eq!((gone.templated, gone.rallied), (false, false), "a lost rally is no reason");
    let orphan = spawn_reason(None, Order::Idle);
    assert_eq!(orphan, SpawnReason { producer: None, templated: false, rallied: false });
}

#[test]
fn landings_are_on_free_ground() {
    let mut nav = open_ground();
    block(&mut nav, 50, 50);
    let spot = NavGrid::cell_to_world(Cell { x: 50, z: 50 });
    assert_eq!(land(&nav, spot, true), spot);
    let down = land(&nav, spot, false);
    assert!(!nav.is_blocked_world(down.x as i64, down.z as i64));
    assert_eq!(spawn_point(&nav, pos(500, 0), true), Pos { x: 99_000, z: 0 });
}

#[test]
fn crowds_push_apart_and_never_into_walls() {
    let nav = open_ground();
    let body = |at: Pos, human: bool, flying: bool| Body {
        pos: at,
        human,
        flying,
        tie: Pos { x: 1_000, z: 0 },
    };
    let out = separate_units(
        &nav,
        &vec![body(pos(0, 0), true, false), body(Pos { x: 500, z: 0 }, true, false)],
        1_800,
        16,
    );
    let (a, b) = (out[0].unwrap(), out[1].unwrap());
    assert!(a.x < 0 && b.x > 500, "{a:?} {b:?}");
    let apart = separate_units(
        &nav,
        &vec![body(pos(0, 0), true, false), body(pos(5, 0), true, false)],
        1_800,
        16,
    );
    assert_eq!(apart, vec![None, None]);
    let layers = separate_units(
        &nav,
        &vec![body(pos(0, 0), true, false), body(Pos { x: 500, z: 0 }, true, true)],
        1_800,
        16,
    );
    assert_eq!(layers, vec![None, None], "a flyer and a walker pass each other");
    let hitch = separate_units(
        &nav,
        &vec![body(pos(0, 0), true, false), body(Pos { x: 500, z: 0 }, true, false)],
        1_000_000,
        u32::MAX,
    );
    for p in hitch.iter().flatten() {
        assert!(!nav.is_blocked_world(p.x as i64, p.z as i64), "{p:?} is off the map");
    }
}

#[test]
fn a_recruit_is_born_with_orders_and_doctrine() {
    assert_eq!(first_order(Rally::Nowhere, false), Order::Idle);
    assert_eq!(first_order(Rally::Ground(pos(1, 1)), false), Order::Move(pos(1, 1)));
    assert_eq!(first_order(Rally::Node(4, Some(pos(2, 2))), true), Order::Harvest(4));
    assert_eq!(first_order(Rally::Node(4, Some(pos(2, 2))), false), Order::Move(pos(2, 2)));
    assert_eq!(first_order(Rally::Node(4, None), true), Order::Idle);
    assert_eq!(first_order(Rally::Unit(4, Some(pos(2, 2))), true), Order::Follow(4));
    assert_eq!(first_order(Rally::Unit(4, None), false), Order::Idle);

    let template = Some(DoctrineTemplate {
        squad: Some(2),
        retreat: Some(350),
        priority: Some(vec![TargetClass::Hero]),
        autocast: Some(4),
    });
    let s = stamp(&template, true, None);
    assert_eq!((s.squad, s.retreat, s.autocast), (Some(2), Some(350), Some((0, 4))));
    assert_eq!(s.priority, Some(vec![TargetClass::Hero]));
    assert_eq!(stamp(&template, false, Some((1, 2))).autocast, Some((1, 2)));
    assert_eq!(stamp(&None, true, Some((1, 2))).autocast, Some((1, 2)));
}

#[test]
fn bodies_have_heights() {
    assert_eq!(unit_height(UnitKind::Footman), Some(1_480));
    assert_eq!(unit_height(UnitKind::Grunt), None);
    assert_eq!(head_height(UnitKind::Footman), Some(690));
    assert_eq!(head_height(UnitKind::Knight), Some(500));
    assert_eq!(head_height(UnitKind::Catapult), None);
    assert_eq!(entity_name(UnitKind::Hero), Some("Champion"));
    assert_eq!(entity_name(UnitKind::Grunt), None);
    assert_eq!(unit_root_scale(true, 2_000), 2_300);
    assert_eq!(unit_y(UnitKind::Worker, false, false, 1_000, 6_000), Some(600));
    assert_eq!(unit_y(UnitKind::GryphonRider, false, true, 1_000, 6_000), Some(6_700));
}

#[test]
fn points_are_pulled_onto_the_map_and_footprints_onto_the_grid() {
    assert_eq!(clamp_to_map(pos(500, -500)), Pos { x: 98_000, z: -98_000 });
    assert_eq!(snap_footprint(Pos { x: 700, z: -700 }, 4_000), pos(0, 0));
    assert_eq!(snap_footprint(Pos { x: 700, z: -700 }, 6_000), pos(1, -1));
}

#[test]
fn the_heap_gives_the_least_first() {
    let mut heap = MinHeap::new();
    for v in [5u64, 1, 4, 1, 3] {
        heap.push(v);
    }
    let mut out: Vec<u64> = Vec::new();
    while let Some(v) = heap.pop() {
        out.push(v);
    }
    assert_eq!(out, vec![1, 1, 3, 4, 5]);
}
