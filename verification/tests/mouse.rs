//! The mouse: context orders, clicks that answer a waiting mode, boxes, the
//! minimap and the panel.

use bridgehead::card::CardPage;
use bridgehead::catalog::{BuildingKind, BuildingRow, Catalog, ItemRow, ResourceKind, TechTier, UnitRow};
use bridgehead::controls::{minimap_input, panel_clicks, PanelClick, PanelFacts};
use bridgehead::doctrine::PostureKind;
use bridgehead::gestures::{
    apply_selection, left_mouse, placement_valid, right_mouse, site_at, LeftOut, Mouse, Site,
};
use bridgehead::intent::{CastTarget, Intent, PostureArm, PostureIntent, RallyTo};
use bridgehead::layout::{hud_layout, world_to_minimap, Window};
use bridgehead::map::Pos;
use bridgehead::markers::{
    bounty_markers, building_ghosts, intel_markers, ping_rings, rally_banner, rally_is_gone,
    region_rings, selection_ring_radius, transit_markers, update_ghost, update_posture_marker,
    Circle, GhostBox, Rallied, Sighting, Travelling,
};
use bridgehead::alerts::{AlertPing, EventSeverity, Rgb};
use bridgehead::minimap::{
    hover_feedback, lighten, minimap_dots, region_circle, viewport_box, Blip, Icon, MapBox, Tone,
};
use bridgehead::motion::Order;
use bridgehead::nav::{Cell, NavGrid};
use bridgehead::pick::{ClickBuilding, ClickNode, ClickUnit, Clickables, Remembered};
use bridgehead::readouts::Region;
use bridgehead::spawn::Rally;
use bridgehead::ui_state::{CastArm, Px, TeleportArm, UiState};

const BASE: u64 = 0x1_0000_0000;

fn pos(x: i32, z: i32) -> Pos {
    Pos { x: x * 1_000, z: z * 1_000 }
}

fn catalog() -> Catalog {
    let mut units: Vec<UnitRow> = Vec::new();
    for _ in 0..21 {
        units.push(UnitRow {
            id: "Unit",
            cost_gold: 100,
            cost_lumber: 20,
            requires: Vec::new(),
            abilities: Vec::new(),
            hero: false,
            worker: false,
        });
    }
    let mut buildings: Vec<BuildingRow> = Vec::new();
    for _ in 0..19 {
        buildings.push(BuildingRow {
            cost_gold: 150,
            cost_lumber: 50,
            size: 6_000,
            requires: Vec::new(),
            counts_as: Vec::new(),
            trains: Vec::new(),
            researches: Vec::new(),
            abilities: Vec::new(),
            upgrade: None,
            hall: false,
        });
    }
    let items =
        vec![ItemRow { cost_gold: 1, tier: TechTier::T1, chooses_destination: false }; 5];
    let mut cat = Catalog {
        units,
        buildings,
        items,
        research_max: 3,
        region_radius_min: 4_000,
        region_radius_max: 60_000,
        unit_radius: 900,
    };
    cat.buildings[BuildingKind::TownHall.index()].hall = true;
    cat.buildings[BuildingKind::Barracks.index()].trains =
        vec![bridgehead::catalog::UnitKind::Footman];
    cat
}

fn unit(n: u64, own: bool, at: Pos, reach: i64) -> ClickUnit {
    ClickUnit {
        id: BASE + n,
        own,
        selected: false,
        worker: false,
        carrying: false,
        seen: true,
        pos: at,
        reach,
        on_screen: Some(Px { x: at.x, y: at.z }),
    }
}

fn chosen(u: ClickUnit) -> ClickUnit {
    ClickUnit { selected: true, ..u }
}

fn hand(u: ClickUnit, carrying: bool) -> ClickUnit {
    ClickUnit { worker: true, carrying, ..u }
}

fn building(n: u64, kind: BuildingKind, own: bool, at: Pos) -> ClickBuilding {
    ClickBuilding {
        id: BASE + n,
        kind,
        own,
        selected: false,
        unfinished: false,
        seen: true,
        pos: at,
        on_screen: Some(Px { x: at.x, y: at.z }),
    }
}

fn empty() -> Clickables {
    Clickables { units: Vec::new(), buildings: Vec::new(), nodes: Vec::new(), ghosts: Vec::new() }
}

fn still() -> Mouse {
    let window = Window { width: 1_280_000, height: 800_000 };
    Mouse {
        window,
        hud: hud_layout(window),
        cursor: Some(Px { x: 600_000, y: 300_000 }),
        ground: Some(pos(0, 0)),
        left_pressed: false,
        left_held: false,
        left_released: false,
        right_pressed: false,
        shift: false,
    }
}

fn right_at(ground: Pos) -> Mouse {
    Mouse { right_pressed: true, ground: Some(ground), ..still() }
}

fn press_at(ground: Pos) -> Mouse {
    Mouse { left_pressed: true, left_held: true, ground: Some(ground), ..still() }
}

fn site(free: bool) -> Site {
    Site { free, gold: 1_000, lumber: 1_000 }
}

fn left(c: &Clickables, m: &Mouse, ui: &mut UiState) -> LeftOut {
    left_mouse(&catalog(), c, &Vec::new(), m, site(true), false, ui)
}

fn click(c: &Clickables, ground: Pos, ui: &mut UiState) -> LeftOut {
    left(c, &press_at(ground), ui);
    left(c, &Mouse { left_released: true, ground: Some(ground), ..still() }, ui)
}

// ---------------------------------------------------------------------------
// Right button
// ---------------------------------------------------------------------------

#[test]
fn bare_ground_is_a_move() {
    let mut c = empty();
    c.units = vec![chosen(unit(2, true, pos(1, 1), 90_000)), chosen(unit(1, true, pos(2, 2), 90_000))];
    let mut ui = UiState::new();
    let said = right_mouse(&catalog(), &c, &right_at(pos(10, 10)), false, &mut ui);
    assert_eq!(said, vec![Intent::Move { units: vec![BASE + 1, BASE + 2], at: pos(10, 10) }]);
    assert!(right_mouse(&catalog(), &c, &right_at(pos(10, 10)), true, &mut ui).is_empty());
}

#[test]
fn an_enemy_in_sight_is_attacked_and_one_in_the_fog_is_not() {
    let mut c = empty();
    c.units = vec![chosen(unit(1, true, pos(0, 0), 90_000)), unit(7, false, pos(10, 10), 200)];
    let mut ui = UiState::new();
    assert_eq!(
        right_mouse(&catalog(), &c, &right_at(pos(10, 10)), false, &mut ui),
        vec![Intent::Attack { units: vec![BASE + 1], target: BASE + 7 }]
    );
    c.units[1].seen = false;
    assert_eq!(
        right_mouse(&catalog(), &c, &right_at(pos(10, 10)), false, &mut ui),
        vec![Intent::Move { units: vec![BASE + 1], at: pos(10, 10) }]
    );
}

#[test]
fn a_remembered_building_is_still_a_target() {
    let mut c = empty();
    c.units = vec![chosen(unit(1, true, pos(0, 0), 90_000))];
    c.ghosts = vec![Remembered { id: BASE + 9, kind: BuildingKind::Farm, pos: pos(20, 0) }];
    let mut ui = UiState::new();
    assert_eq!(
        right_mouse(&catalog(), &c, &right_at(pos(21, 0)), false, &mut ui),
        vec![Intent::Attack { units: vec![BASE + 1], target: BASE + 9 }]
    );
}

#[test]
fn workers_work_a_node_and_the_rest_walk() {
    let mut c = empty();
    c.units = vec![
        chosen(hand(unit(1, true, pos(0, 0), 90_000), false)),
        chosen(unit(2, true, pos(0, 0), 90_000)),
    ];
    c.nodes = vec![ClickNode { id: BASE + 5, kind: ResourceKind::Gold, pos: pos(30, 30) }];
    let mut ui = UiState::new();
    let said = right_mouse(&catalog(), &c, &right_at(pos(31, 30)), false, &mut ui);
    assert!(said.contains(&Intent::Harvest { units: vec![BASE + 1], target: BASE + 5 }));
    assert!(said.contains(&Intent::Move { units: vec![BASE + 2], at: pos(31, 30) }));
}

#[test]
fn a_right_click_cancels_before_it_orders() {
    let mut c = empty();
    c.units = vec![chosen(unit(1, true, pos(0, 0), 90_000))];
    let mut ui = UiState::new();
    ui.placement = Some(BuildingKind::Farm);
    assert!(right_mouse(&catalog(), &c, &right_at(pos(9, 9)), false, &mut ui).is_empty());
    assert_eq!(ui.placement, None);
}

#[test]
fn a_selected_barracks_sets_its_rally() {
    let mut c = empty();
    c.buildings = vec![ClickBuilding {
        selected: true,
        ..building(3, BuildingKind::Barracks, true, pos(-50, -50))
    }];
    let mut ui = UiState::new();
    assert_eq!(
        right_mouse(&catalog(), &c, &right_at(pos(9, 9)), false, &mut ui),
        vec![Intent::Rally { building: BASE + 3, to: RallyTo::Ground(pos(9, 9)) }]
    );
}

// ---------------------------------------------------------------------------
// Left button
// ---------------------------------------------------------------------------

#[test]
fn an_armed_attack_move_takes_the_click() {
    let mut c = empty();
    c.units = vec![chosen(unit(1, true, pos(0, 0), 90_000))];
    let mut ui = UiState::new();
    ui.attack_move_armed = true;
    let out = left(&c, &press_at(pos(40, 0)), &mut ui);
    assert_eq!(out.intents, vec![Intent::AttackMove { units: vec![BASE + 1], at: pos(40, 0) }]);
    assert!(!ui.attack_move_armed);
}

#[test]
fn an_armed_posture_takes_the_ground_it_is_given() {
    let c = empty();
    let mut ui = UiState::new();
    ui.posture_place = Some(PostureArm { squad: 2, kind: PostureKind::Push });
    let out = left(&c, &press_at(pos(40, 0)), &mut ui);
    assert_eq!(
        out.intents,
        vec![Intent::Posture { id: 2, posture: Some(PostureIntent::Push { at: pos(40, 0) }) }]
    );
    assert_eq!(ui.posture_place, None);
}

#[test]
fn an_escort_waits_for_a_unit() {
    let mut c = empty();
    let mut ui = UiState::new();
    ui.posture_place = Some(PostureArm { squad: 1, kind: PostureKind::Escort });
    let out = left(&c, &press_at(pos(40, 0)), &mut ui);
    assert!(out.intents.is_empty());
    assert!(ui.posture_place.is_some(), "a miss keeps trying");
    c.units = vec![unit(4, true, pos(40, 0), 100)];
    let out = left(&c, &press_at(pos(40, 0)), &mut ui);
    assert_eq!(
        out.intents,
        vec![Intent::Posture { id: 1, posture: Some(PostureIntent::Escort { unit: BASE + 4 }) }]
    );
}

#[test]
fn an_aimed_cast_goes_where_it_is_clicked() {
    let c = empty();
    let mut ui = UiState::new();
    ui.cast_place = Some(CastArm {
        casters: vec![BASE + 1, BASE + 2],
        slot: 1,
        name: "Meteor",
        wants_unit: false,
    });
    let out = left(&c, &press_at(pos(5, 5)), &mut ui);
    let aim = Some(CastTarget::Point(pos(5, 5)));
    assert_eq!(
        out.intents,
        vec![
            Intent::Cast { caster: BASE + 1, ability: 1, aim },
            Intent::Cast { caster: BASE + 2, ability: 1, aim },
        ]
    );
}

#[test]
fn a_cast_cannot_name_what_the_fog_hides() {
    let mut c = empty();
    c.units = vec![
        ClickUnit { seen: false, ..unit(1, false, pos(0, 0), 100) },
        unit(2, false, pos(0, 0), 400),
        ClickUnit { seen: false, ..unit(3, true, pos(0, 0), 600) },
    ];
    let armed = || {
        let mut ui = UiState::new();
        ui.cast_place = Some(CastArm {
            casters: vec![BASE + 7],
            slot: 1,
            name: "Slow",
            wants_unit: true,
        });
        ui
    };
    let aimed = |c: &Clickables, ui: &mut UiState| left(c, &press_at(pos(0, 0)), ui).intents;
    let at = |n: u64| {
        vec![Intent::Cast { caster: BASE + 7, ability: 1, aim: Some(CastTarget::Unit(BASE + n)) }]
    };
    assert_eq!(aimed(&c, &mut armed()), at(2), "the seen one, though another is nearer");
    c.units.remove(1);
    assert_eq!(aimed(&c, &mut armed()), at(3), "ours are always known");
    c.units.remove(1);
    let mut ui = armed();
    assert_eq!(aimed(&c, &mut ui), Vec::<Intent>::new());
    assert!(ui.cast_place.is_some(), "a miss leaves it armed");
}

#[test]
fn a_teleport_names_the_hall_it_goes_to() {
    let mut c = empty();
    c.buildings = vec![building(6, BuildingKind::TownHall, true, pos(60, 60))];
    let mut ui = UiState::new();
    ui.teleport_place = Some(TeleportArm { hero: BASE + 1, slot: 0, name: "Portal" });
    let out = left(&c, &press_at(pos(0, 0)), &mut ui);
    assert!(out.intents.is_empty());
    assert!(ui.teleport_place.is_some());
    let out = left(&c, &press_at(pos(60, 61)), &mut ui);
    assert_eq!(
        out.intents,
        vec![Intent::UseItem { slot: 0, hero: BASE + 1, destination: Some(BASE + 6) }]
    );
}

#[test]
fn a_mark_is_named_where_it_is_clicked() {
    let c = empty();
    let mut ui = UiState::new();
    ui.region_place = true;
    ui.page = CardPage::Doctrine;
    let taken =
        vec![Region { name: "mark 1".to_string(), key: "mark 1".to_string(), radius: 20_000 }];
    let out =
        left_mouse(&catalog(), &c, &taken, &press_at(pos(12, 34)), site(true), false, &mut ui);
    assert_eq!(
        out.intents,
        vec![Intent::RegionSet { name: "mark 2".to_string(), at: pos(12, 34), radius: 22_000 }]
    );
    assert!(!ui.region_place);
}

#[test]
fn walls_are_placed_one_worker_after_another() {
    let mut c = empty();
    c.units = vec![
        chosen(hand(unit(1, true, pos(0, 0), 90_000), false)),
        chosen(hand(unit(2, true, pos(50, 0), 90_000), false)),
    ];
    let mut ui = UiState::new();
    ui.placement = Some(BuildingKind::Wall);
    let first = left(&c, &press_at(pos(3, 3)), &mut ui);
    let second = left(&c, &press_at(pos(3, 9)), &mut ui);
    let workers: Vec<u64> = first
        .intents
        .iter()
        .chain(second.intents.iter())
        .map(|i| match i {
            Intent::Build { worker, kind: BuildingKind::Wall, .. } => *worker,
            other => panic!("not a wall: {other:?}"),
        })
        .collect();
    assert_eq!(workers, vec![BASE + 1, BASE + 2]);
    assert_eq!(ui.placement, Some(BuildingKind::Wall), "placement stays armed");

    ui.placement = Some(BuildingKind::Farm);
    let out = left_mouse(&catalog(), &c, &Vec::new(), &press_at(pos(3, 3)), site(false), false, &mut ui);
    assert!(out.intents.is_empty(), "the ground is taken");
}

#[test]
fn every_worker_builds_once_before_any_builds_again() {
    let mut c = empty();
    c.units = vec![
        chosen(hand(unit(1, true, pos(40, 0), 90_000), false)),
        chosen(hand(unit(2, true, pos(10, 0), 90_000), false)),
        chosen(hand(unit(3, true, pos(-20, 0), 90_000), false)),
        chosen(unit(4, true, pos(0, 0), 90_000)),
    ];
    let mut ui = UiState::new();
    ui.placement = Some(BuildingKind::Wall);
    let mut built: Vec<u64> = Vec::new();
    for at in [pos(12, 3), pos(12, 3), pos(12, 3), pos(38, 3), pos(38, 3), pos(38, 3)] {
        let out = left(&c, &press_at(at), &mut ui);
        assert_eq!(out.intents.len(), 1);
        match &out.intents[0] {
            Intent::Build { worker, kind: BuildingKind::Wall, .. } => built.push(*worker - BASE),
            other => panic!("not a wall: {other:?}"),
        }
        assert_eq!(ui.placement, Some(BuildingKind::Wall));
    }
    assert_eq!(built, vec![2, 1, 3, 1, 2, 3], "the nearest whose turn it still is");
}

#[test]
fn the_site_is_where_the_click_would_snap_it() {
    let cat = catalog();
    let mut nav = NavGrid { blocked: vec![false; 10_000] };
    let kind = BuildingKind::Farm;
    let open = site_at(&nav, &cat, kind, pos(0, 0), 7, 9);
    assert_eq!((open.free, open.gold, open.lumber), (true, 7, 9));
    nav.blocked[NavGrid::idx(Cell { x: 51, z: 51 })] = true;
    assert!(!site_at(&nav, &cat, kind, Pos { x: 1_400, z: 1_400 }, 7, 9).free);
    assert!(site_at(&nav, &cat, kind, pos(20, 20), 7, 9).free);
    assert!(!site_at(&nav, &cat, kind, pos(500, 0), 7, 9).free, "off the map is no ground");
}

#[test]
fn a_click_selects_and_a_shift_click_adds() {
    let mut c = empty();
    c.units = vec![unit(1, true, pos(0, 0), 100)];
    let mut ui = UiState::new();
    let out = click(&c, pos(0, 0), &mut ui);
    assert_eq!(out.select, Some(vec![BASE + 1]));
    assert!(!out.additive);
    assert_eq!(apply_selection(&vec![1, 2], &vec![2, 3], true), vec![1, 2, 3]);
    assert_eq!(apply_selection(&vec![1, 2], &vec![2, 3], false), vec![2, 3]);
}

#[test]
fn sites_have_to_be_free_and_paid_for() {
    let cat = catalog();
    let kind = BuildingKind::Farm;
    assert!(placement_valid(&cat, kind, Site { free: true, gold: 150, lumber: 50 }));
    assert!(!placement_valid(&cat, kind, Site { free: false, gold: 150, lumber: 50 }));
    assert!(!placement_valid(&cat, kind, Site { free: true, gold: 149, lumber: 50 }));
    assert!(!placement_valid(&cat, kind, Site { free: true, gold: 150, lumber: 49 }));
}

// ---------------------------------------------------------------------------
// The minimap and the panel
// ---------------------------------------------------------------------------

#[test]
fn a_right_click_on_the_minimap_is_an_order() {
    let mut c = empty();
    c.units = vec![chosen(unit(1, true, pos(0, 0), 90_000))];
    let mut ui = UiState::new();
    let base = still();
    let (u, v) = world_to_minimap(pos(50, -50), base.hud.minimap_px);
    let m = Mouse {
        right_pressed: true,
        cursor: Some(Px { x: 8_000 + u as i32, y: 606_000 + v as i32 }),
        ..base
    };
    let out = minimap_input(&catalog(), &c, &m, false, &mut ui);
    match &out.intents[..] {
        [Intent::Move { units, at }] => {
            assert_eq!(units, &vec![BASE + 1]);
            assert!((at.x - 50_000).abs() < 10 && (at.z + 50_000).abs() < 10, "{at:?}");
        }
        other => panic!("not one move: {other:?}"),
    }
}

#[test]
fn panel_tiles_select_and_cancel() {
    let mut ui = UiState::new();
    ui.card_entities = vec![BASE + 1, BASE + 2];
    ui.queue_len = 2;
    let f = PanelFacts { game_over: false, alive: vec![BASE + 2], queues: vec![(BASE + 9, 2)] };
    let out = panel_clicks(&f, &vec![PanelClick::Card(0), PanelClick::Card(1)], &ui);
    assert_eq!(out.select, vec![BASE + 2], "the dead cannot be selected");
    let out = panel_clicks(&f, &vec![PanelClick::QueueTile(1), PanelClick::QueueTile(5)], &ui);
    assert_eq!(out.intents, vec![Intent::Cancel { building: BASE + 9, index: 1 }]);
    let over = PanelFacts { game_over: true, ..f };
    assert!(panel_clicks(&over, &vec![PanelClick::Card(1)], &ui).select.is_empty());
}

#[test]
fn the_minimap_shows_ours_and_what_is_seen() {
    let blip = |human: bool, seen: bool, hero: bool| Blip { pos: pos(0, 0), human, seen, hero };
    let dots = minimap_dots(
        &vec![blip(true, false, true), blip(false, false, false), blip(false, true, false)],
        &vec![blip(false, false, false), blip(true, false, false)],
        &vec![blip(false, false, false)],
        &vec![blip(false, true, false), blip(false, false, false)],
        184_000,
    );
    let drawn: Vec<(i64, bool, i64)> = dots.iter().map(|d| (d.size, d.human, d.lighten)).collect();
    assert_eq!(
        drawn,
        vec![
            (5_000, true, 350),
            (3_000, false, 0),
            (6_000, true, 120),
            (6_000, false, -350),
            (2_000, false, -250),
        ]
    );
    assert_eq!((dots[0].x, dots[0].y), (92_000, 92_000));
    assert_eq!(
        lighten(Rgb { r: 200, g: 900, b: 100 }, 350),
        Rgb { r: 550, g: 1_000, b: 450 }
    );
    assert_eq!(lighten(Rgb { r: 200, g: 900, b: 100 }, -250), Rgb { r: 0, g: 650, b: 0 });
}

#[test]
fn the_fog_gives_nothing_away() {
    let cat = catalog();
    let mut c = empty();
    c.units = vec![chosen(unit(1, true, pos(0, 0), 90_000))];
    let mut d = empty();
    d.units = vec![
        ClickUnit { seen: false, ..unit(7, false, pos(10, 10), 0) },
        chosen(unit(1, true, pos(0, 0), 90_000)),
    ];
    d.buildings = vec![ClickBuilding {
        seen: false,
        ..building(8, BuildingKind::Farm, false, pos(10, 10))
    }];
    let mut ui = UiState::new();
    assert_eq!(
        right_mouse(&cat, &c, &right_at(pos(10, 10)), false, &mut ui),
        right_mouse(&cat, &d, &right_at(pos(10, 10)), false, &mut ui)
    );
    assert_eq!(
        hover_feedback(&cat, &c, &still(), false, false, &ui),
        hover_feedback(&cat, &d, &still(), false, false, &ui)
    );
    let hidden = Blip { pos: pos(1, 1), human: false, seen: false, hero: true };
    let none: Vec<Blip> = Vec::new();
    assert!(minimap_dots(&vec![hidden], &vec![hidden], &none, &none, 184_000).is_empty());
}

#[test]
fn the_view_is_outlined_on_the_minimap() {
    let px = 200_000;
    let view = vec![Some(pos(-20, 10)), Some(pos(20, 10)), Some(pos(-10, -10)), Some(pos(10, -10))];
    assert_eq!(
        viewport_box(&view, px),
        Some(MapBox { left: 80_000, top: 90_000, width: 40_000, height: 20_000 })
    );
    assert_eq!(viewport_box(&vec![Some(pos(0, 0)), None], px), None);
    assert_eq!(
        viewport_box(&vec![Some(pos(0, 0)), Some(pos(0, 0))], px),
        Some(MapBox { left: 100_000, top: 100_000, width: 2_000, height: 2_000 })
    );
    let far = viewport_box(&vec![Some(pos(0, 0)), Some(pos(2_000, 0))], px).unwrap();
    assert_eq!(far.width, 300_000, "a corner counts only so far off the map");
    assert_eq!(
        region_circle(pos(0, 0), 20_000, px),
        MapBox { left: 80_000, top: 80_000, width: 40_000, height: 40_000 }
    );
    assert_eq!(region_circle(pos(0, 0), 1, px).width, 3_000);
}

#[test]
fn the_cursor_says_what_it_is_over() {
    let cat = catalog();
    let mut c = empty();
    let ui = UiState::new();
    let over = |c: &Clickables, workers: bool, ui: &UiState| {
        hover_feedback(&cat, c, &still(), false, workers, ui)
    };
    assert_eq!(over(&c, true, &ui), (None, Icon::Arrow));
    c.nodes = vec![ClickNode { id: BASE + 5, kind: ResourceKind::Lumber, pos: pos(1, 0) }];
    assert_eq!(over(&c, false, &ui).1, Icon::Arrow);
    assert_eq!(over(&c, true, &ui).1, Icon::Grab);
    c.ghosts = vec![Remembered { id: BASE + 9, kind: BuildingKind::Farm, pos: pos(1, 1) }];
    let (ring, icon) = over(&c, true, &ui);
    assert_eq!(icon, Icon::Crosshair);
    assert_eq!(ring.unwrap().radius, 3_720);
    c.buildings = vec![building(3, BuildingKind::Farm, true, pos(1, 1))];
    assert_eq!(over(&c, true, &ui).0.unwrap().tone, Tone::Friendly);
    c.units = vec![ClickUnit { seen: false, ..unit(7, false, pos(0, 0), 100) }];
    assert_eq!(over(&c, true, &ui).1, Icon::Pointer, "the fog hides the unit");
    c.units[0].seen = true;
    let (ring, icon) = over(&c, true, &ui);
    assert_eq!((ring.unwrap().radius, icon), (1_395, Icon::Crosshair));

    let mut armed = UiState::new();
    armed.attack_move_armed = true;
    assert_eq!(over(&empty(), false, &armed), (None, Icon::Crosshair));
    let mut placing = UiState::new();
    placing.placement = Some(BuildingKind::Farm);
    assert_eq!(over(&c, true, &placing), (None, Icon::Arrow));
}

// ---------------------------------------------------------------------------
// Marks on the ground
// ---------------------------------------------------------------------------

#[test]
fn the_ghost_stands_where_the_click_would_build() {
    let cat = catalog();
    let g = update_ghost(&cat, Some(BuildingKind::Farm), Some(Pos { x: 700, z: 0 }), site(true));
    let g = g.unwrap();
    assert_eq!((g.pos, g.size, g.ok), (Pos { x: 1_000, z: -1_000 }, 6_000, true));
    assert!(!update_ghost(&cat, Some(BuildingKind::Farm), Some(pos(0, 0)), site(false)).unwrap().ok);
    assert_eq!(update_ghost(&cat, None, Some(pos(0, 0)), site(true)), None);
    assert_eq!(update_ghost(&cat, Some(BuildingKind::Farm), None, site(true)), None);
    assert_eq!(selection_ring_radius(&cat, Some(BuildingKind::Farm)), 3_720);
    assert_eq!(selection_ring_radius(&cat, None), 1_100);
}

#[test]
fn a_waiting_posture_shows_its_circle() {
    assert_eq!(
        update_posture_marker(Some(PostureKind::Defend), Some(pos(500, 0))),
        Some((Pos { x: 98_000, z: 0 }, 22_000))
    );
    assert_eq!(
        update_posture_marker(Some(PostureKind::Push), Some(pos(1, 1))),
        Some((pos(1, 1), 3_000))
    );
    assert_eq!(update_posture_marker(Some(PostureKind::Escort), Some(pos(1, 1))), None);
    assert_eq!(update_posture_marker(None, Some(pos(1, 1))), None);
}

#[test]
fn the_banner_stands_on_the_one_rally() {
    let at = |rally: Rally| Rallied { human: true, rally };
    assert_eq!(rally_banner(&vec![at(Rally::Ground(pos(1, 2)))], false), Some(pos(1, 2)));
    assert_eq!(rally_banner(&vec![at(Rally::Ground(pos(1, 2)))], true), None);
    assert_eq!(rally_banner(&vec![at(Rally::Nowhere)], false), None);
    assert_eq!(rally_banner(&vec![at(Rally::Unit(3, Some(pos(4, 4))))], false), Some(pos(4, 4)));
    assert_eq!(rally_banner(&vec![at(Rally::Nowhere), at(Rally::Ground(pos(1, 2)))], false), None);
    assert!(rally_is_gone(Rally::Node(3, None)));
    assert!(!rally_is_gone(Rally::Ground(pos(0, 0))));
}

#[test]
fn a_ring_closes_as_its_order_arrives() {
    let t = Travelling {
        human: true,
        order: Order::Move(pos(3, 3)),
        target: None,
        ready_at: 10_000,
        link: 2_000,
    };
    let at = |now: i64| transit_markers(&vec![t], now);
    assert_eq!(at(8_000), vec![(pos(3, 3), 5_000)]);
    assert_eq!(at(9_000), vec![(pos(3, 3), 3_100)]);
    assert_eq!(at(11_000), vec![(pos(3, 3), 1_200)]);
    let idle = Travelling { order: Order::Idle, ..t };
    let theirs = Travelling { human: false, ..t };
    assert!(transit_markers(&vec![idle, theirs], 8_000).is_empty());
}

#[test]
fn named_places_memories_and_treasure_are_marked() {
    assert_eq!(
        region_rings(&vec![(pos(0, 0), 9_000)], &vec![(pos(1, 1), 20_000)]),
        vec![
            Circle { pos: pos(0, 0), radius: 9_000, mine: false },
            Circle { pos: pos(1, 1), radius: 20_000, mine: true },
        ]
    );
    let sightings = vec![
        Sighting { pos: pos(1, 1), age: 50_000, seen: false },
        Sighting { pos: pos(2, 2), age: 1, seen: true },
    ];
    assert_eq!(intel_markers(true, &sightings, 100_000), vec![(pos(1, 1), 2)]);
    assert!(intel_markers(false, &sightings, 100_000).is_empty());
    let ghosts = vec![Remembered { id: BASE + 1, kind: BuildingKind::Farm, pos: pos(5, 5) }];
    assert_eq!(
        building_ghosts(&catalog(), true, &ghosts),
        vec![GhostBox { pos: pos(5, 5), size: 6_000, height: 3_600 }]
    );
    assert!(building_ghosts(&catalog(), false, &ghosts).is_empty());
    assert_eq!(
        bounty_markers(&vec![(pos(0, 0), true), (pos(9, 9), false)], 200_000),
        vec![(100_000, 100_000)]
    );
    let pings = vec![AlertPing { pos: pos(0, 0), severity: EventSeverity::Warning, born: 1_000 }];
    let rings = ping_rings(&pings, 2_500, 200_000);
    assert_eq!((rings[0].x, rings[0].size, rings[0].alpha), (100_000, 26_750, 500));
    let early = ping_rings(&pings, i64::MIN, 200_000);
    assert_eq!((early[0].size, early[0].alpha), (5_000, 1_000));
}
