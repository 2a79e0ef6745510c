//! The HUD: hints, the banner, the panel and the tiles it publishes.

use bridgehead::alerts::Rgb;
use bridgehead::card::{CardPage, CmdAction, CmdEntry};
use bridgehead::catalog::{
    building_name, item_name, research_name, resource_name,
    unit_name, BuildingKind, BuildingRow, Catalog, ItemId, ItemRow, ResearchKind, ResourceKind,
    TechTier, UnitKind, UnitRow,
};
use bridgehead::doctrine::PostureKind;
use bridgehead::hotkeys::{Action, Hotkeys, Key};
use bridgehead::hud::{
    banner, hints, latch_watched, surrender_hotkey, tile_tint, update_hud, GameOverReason,
    HallFacts, HintFacts, HudFacts, Shown, Tint, Winner,
};
use bridgehead::intent::{Intent, PostureArm};
use bridgehead::map::Pos;
use bridgehead::palette::{
    banner_ink, card_fill, health_fill, queue_fill, supply_ink, tile_fill, Touch,
};
use bridgehead::panel::{
    building_pane, card_badge, card_health, card_letter, hero_bars, hp_color, hp_text, initial,
    selection_cards, unit_pane, AttackFacts, Bar, CardFacts, Drill, Face, ForgeFacts, HeroBars,
    HeroFacts, HpTint, PanelBuilding, PanelUnit, Work,
};
use bridgehead::situation::{SelUnit, World};
use bridgehead::ui_state::{TeleportArm, UiState};

const BASE: u64 = 0x1_0000_0000;

fn catalog() -> Catalog {
    let mut units: Vec<UnitRow> = Vec::new();
    for _ in 0..21 {
        units.push(UnitRow {
            id: "Unit",
            cost_gold: 100,
            cost_lumber: 20,
            requires: Vec::new(),
            abilities: Vec::new(),
            hero: false,
            worker: false,
        });
    }
    let mut buildings: Vec<BuildingRow> = Vec::new();
    for _ in 0..19 {
        buildings.push(BuildingRow {
            cost_gold: 150,
            cost_lumber: 50,
            size: 6_000,
            requires: Vec::new(),
            counts_as: Vec::new(),
            trains: Vec::new(),
            researches: Vec::new(),
            abilities: Vec::new(),
            upgrade: None,
            hall: false,
        });
    }
    let items =
        vec![ItemRow { cost_gold: 1, tier: TechTier::T1, chooses_destination: false }; 5];
    let mut cat = Catalog {
        units,
        buildings,
        items,
        research_max: 3,
        region_radius_min: 4_000,
        region_radius_max: 60_000,
        unit_radius: 900,
    };
    cat.buildings[BuildingKind::TownHall.index()].hall = true;
    cat.buildings[BuildingKind::Castle.index()].counts_as =
        vec![BuildingKind::TownHall, BuildingKind::Keep];
    cat
}

fn hotkeys() -> Hotkeys {
    Hotkeys {
        rows: vec![
            (Action::AttackMove, Key::Letter('A')),
            (Action::Stop, Key::Letter('S')),
            (Action::QuickGuard, Key::Letter('G')),
            (Action::QuickFallback, Key::Letter('V')),
            (Action::QuickPriority, Key::Letter('P')),
            (Action::ModeToggle, Key::Letter('I')),
        ],
        builds: Vec::new(),
    }
}

fn footman(n: u64) -> SelUnit {
    SelUnit {
        id: BASE + n,
        kind: UnitKind::Footman,
        own: true,
        pos: Pos { x: 0, z: 0 },
        leash: None,
        retreat: None,
        first_target: None,
        autocast: None,
        items: None,
        squad: None,
        abilities: Vec::new(),
    }
}

fn world(sel_units: Vec<SelUnit>) -> World {
    World {
        game_over: false,
        sel_units,
        sel_buildings: Vec::new(),
        units: Vec::new(),
        buildings: Vec::new(),
        tier: TechTier::T1,
        gold: 320,
        lumber: 45,
        hero_prices: Vec::new(),
        postures: Vec::new(),
        triggers: Vec::new(),
        regions: Vec::new(),
        ladders: Vec::new(),
    }
}

fn soldier() -> PanelUnit {
    PanelUnit {
        kind: UnitKind::Footman,
        hp: 99_600,
        max_hp: 120_000,
        damage: 12_000,
        vs_building: 1_000,
        range: 1_500,
        speed: 6_000,
        militia: false,
        hero: None,
        items: None,
        carrying: None,
    }
}

fn facts(cards: Vec<CardFacts>) -> HudFacts {
    HudFacts {
        unit: Some(soldier()),
        building: None,
        cards,
        answers: Vec::new(),
        latency: false,
        links: vec![1_200],
        in_transit: Vec::new(),
        nodes: 1,
        covered: 0,
        army: 1,
        plans: Vec::new(),
        intel: Vec::new(),
        now: 0,
        halls: Vec::new(),
        hurt_frac: 600,
        supply_used: 10,
        supply_cap: 10,
        upkeep: "No upkeep".to_string(),
    }
}

fn tile(n: u64) -> CardFacts {
    CardFacts {
        id: BASE + n,
        face: Face::Unit(UnitKind::Footman),
        own: true,
        squad: Some(2),
        hp: 30_000,
        max_hp: 100_000,
    }
}

#[test]
fn the_hint_line_follows_the_waiting_mode() {
    let cat = catalog();
    let mut ui = UiState::new();
    let f = HintFacts { squad: Some(2), own_units: 1, total: 1, rally_capable: false };
    let none: Vec<HallFacts> = Vec::new();
    let line = |ui: &UiState, halls: &Vec<HallFacts>| hints(&cat, ui, &f, halls, 600);
    assert_eq!(line(&ui, &none), "Right-click to order.   Shift-click adds to selection.");
    ui.page = CardPage::Doctrine;
    assert!(line(&ui, &none).starts_with("Doctrine card - squad 2."));
    ui.attack_move_armed = true;
    assert!(line(&ui, &none).starts_with("Attack-move armed"));
    ui.posture_place = Some(PostureArm { squad: 2, kind: PostureKind::Push });
    assert!(line(&ui, &none).starts_with("Squad 2 - Push posture armed"));
    ui.placement = Some(BuildingKind::Farm);
    assert!(line(&ui, &none).starts_with("Placing Farm (150g 50l) - "));
    ui.teleport_place = Some(TeleportArm { hero: 1, slot: 0, name: "Portal" });
    assert!(line(&ui, &none).ends_with("the far hall is the one that saves it"));
    let hall = |hp: i64| HallFacts {
        kind: BuildingKind::TownHall,
        own: true,
        unfinished: false,
        pos: Pos { x: 60_000, z: -60_000 },
        hp,
        max_hp: 1_000,
    };
    assert!(line(&ui, &vec![hall(599)]).ends_with("UNDER ATTACK: Town Hall at (60,-60)"));
    assert!(line(&ui, &vec![hall(600)]).ends_with("the far hall is the one that saves it"));
}

#[test]
fn the_banner_knows_who_is_watching() {
    let (head, sub) = banner(Some(Winner::Human), false, Some(GameOverReason::Razed), "Red");
    assert_eq!((head, sub.as_str()), ("VICTORY!", "You win \u{2014} production razed"));
    let (head, sub) = banner(Some(Winner::Claude), false, None, "Red");
    assert_eq!((head, sub.as_str()), ("DEFEAT", "Red wins"));
    let (head, sub) = banner(Some(Winner::Claude), true, None, "Red");
    assert_eq!((head, sub.as_str()), ("RED WINS", "AI vs AI"));
    assert_eq!(banner(None, false, None, "Red").0, "");
    assert_eq!(latch_watched(None, None, true), None);
    assert_eq!(latch_watched(Some(Winner::Human), None, true), Some(true));
    assert_eq!(latch_watched(Some(Winner::Human), Some(false), true), Some(false));
}

#[test]
fn conceding_takes_two_presses() {
    let (done, armed) = surrender_hotkey(false, true, 1_000, None);
    assert_eq!((done, armed), (None, Some(1_000)));
    assert_eq!(surrender_hotkey(false, true, 3_999, armed), (Some(Intent::Surrender), None));
    assert_eq!(surrender_hotkey(false, true, 4_000, armed), (None, Some(4_000)));
    assert_eq!(surrender_hotkey(true, true, 1_500, armed), (None, armed));
    assert_eq!(surrender_hotkey(false, false, 1_500, armed), (None, armed));
}

#[test]
fn tiles_are_tinted_by_what_they_can_do() {
    let mut ui = UiState::new();
    let mut e = CmdEntry::plain(CmdAction::AttackMove, Key::Letter('A'), "Attack");
    assert_eq!(tile_tint(&e, &ui, 0, 0), Tint::Plain);
    ui.attack_move_armed = true;
    assert_eq!(tile_tint(&e, &ui, 0, 0), Tint::Armed);
    e.enabled = false;
    assert_eq!(tile_tint(&e, &ui, 0, 0), Tint::Dark);
    let priced = CmdEntry::plain(CmdAction::Place(BuildingKind::Farm), Key::Letter('F'), "Farm")
        .priced(100, 50);
    assert_eq!(priced.cost, "100g 50l");
    assert_eq!(tile_tint(&priced, &ui, 100, 50), Tint::Plain);
    assert_eq!(tile_tint(&priced, &ui, 99, 50), Tint::Poor);
}

#[test]
fn the_panel_tells_one_unit() {
    let pane = unit_pane(&soldier());
    assert_eq!(pane.name, "Footman");
    assert_eq!(pane.letter, "F");
    assert_eq!(pane.hp, "HP 100/120");
    assert_eq!(pane.stats, "Damage 12    Range 1.5    Speed 6");
    assert_eq!(pane.extra, "");
    let hero = PanelUnit {
        kind: UnitKind::Hero,
        hero: Some(HeroFacts {
            level: 3,
            xp: 120_000,
            xp_to_next: 300_000,
            mana: 50_000,
            max_mana: 200_000,
        }),
        items: Some((Some(ItemId::HealingPotion), None)),
        ..soldier()
    };
    let pane = unit_pane(&hero);
    assert!(pane.name.ends_with("  Lv 3"));
    assert_eq!(pane.extra, "XP 120/300    Mana 50/200");
    assert_eq!(pane.items, "[1] Potion  [2] -");
    let worker = PanelUnit {
        kind: UnitKind::Worker,
        militia: true,
        carrying: Some((10, ResourceKind::Lumber)),
        vs_building: 3_000,
        ..soldier()
    };
    let pane = unit_pane(&worker);
    assert_eq!(pane.name, "Worker (Militia)");
    assert_eq!(pane.extra, "Carrying: 10 Lumber");
    assert!(pane.stats.contains("(x3 vs buildings)"));
}

#[test]
fn the_panel_tells_one_building() {
    let cat = catalog();
    let plain = || PanelBuilding {
        kind: BuildingKind::Barracks,
        hp: 700_000,
        max_hp: 700_000,
        construction: None,
        attack: None,
        supply_provided: 0,
        ladders: Vec::new(),
        tier: 1,
        upgradable: false,
        upgrading: None,
        researching: None,
        queue: Some(vec![UnitKind::Footman, UnitKind::Archer]),
        training: Drill { progress: 9_000, total: 12_000 },
    };
    let pane = building_pane(&cat, &plain());
    assert_eq!(pane.extra, "Training Footman: 75%   (2 queued)");
    assert_eq!(pane.queue, vec!["F".to_string(), "A".to_string()]);
    assert_eq!(pane.progress, Some(Bar { part: 9_000, of: 12_000 }));
    let idle = PanelBuilding { queue: Some(Vec::new()), ..plain() };
    assert_eq!(building_pane(&cat, &idle).extra, "Ready to train");
    let rising =
        PanelBuilding { construction: Some(Work { remaining: 5_000, total: 20_000 }), ..plain() };
    assert_eq!(building_pane(&cat, &rising).stats, "Under construction: 75%");
    // Work that takes no time is done at once; a drill that takes none is not
    // done before it is begun.
    let instant = PanelBuilding { construction: Some(Work { remaining: 0, total: 0 }), ..plain() };
    assert_eq!(building_pane(&cat, &instant).stats, "Under construction: 100%");
    let unbegun = PanelBuilding { training: Drill { progress: 0, total: 0 }, ..plain() };
    assert_eq!(building_pane(&cat, &unbegun).extra, "Training Footman: 0%   (2 queued)");
    let tower = PanelBuilding {
        kind: BuildingKind::Tower,
        attack: Some(AttackFacts { damage: 20_000, range: 14_000, cooldown: 1_500 }),
        queue: None,
        ..plain()
    };
    assert_eq!(
        building_pane(&cat, &tower).stats,
        "Damage 20    Range 14.0    Attack 1.5s"
    );
    let forge = PanelBuilding {
        kind: BuildingKind::Blacksmith,
        ladders: vec![(ResearchKind::Attack, 1), (ResearchKind::Armor, 0)],
        researching: Some(ForgeFacts {
            kind: ResearchKind::Attack,
            to_level: 2,
            work: Work { remaining: 30_000, total: 60_000 },
            bonus: 1_000,
        }),
        queue: None,
        ..plain()
    };
    let pane = building_pane(&cat, &forge);
    assert_eq!(pane.stats, "Attack 1/3    Armor 0/3");
    assert_eq!(pane.extra, "Researching Attack 2: 50%   (30s left, +1 to every unit)");
    let hall = PanelBuilding {
        kind: BuildingKind::TownHall,
        supply_provided: 10,
        upgradable: true,
        upgrading: Some((BuildingKind::Keep, Work { remaining: 20_000, total: 40_000 })),
        ..plain()
    };
    let pane = building_pane(&cat, &hall);
    assert_eq!(pane.stats, "Supply +10    Tier 1");
    assert_eq!(pane.extra, "Upgrading to Keep: 50%   (training paused, 2 queued)");
}

#[test]
fn health_has_three_colours() {
    assert_eq!(hp_color(51, 100), HpTint::Green);
    assert_eq!(hp_color(50, 100), HpTint::Yellow);
    assert_eq!(hp_color(25, 100), HpTint::Red);
    assert_eq!(hp_text(-3_000, 100_000), "HP 0/100");
    assert_eq!(hp_text(-3_000, -3_000), "HP 0/-3");
    assert_eq!(hp_text(2_500, -2_500), "HP 3/-3");
    assert_eq!(hp_text(0, -400), "HP 0/0");
    assert_eq!(hp_text(i64::MAX, i64::MIN), "HP 2147483647/-2147483648");
    assert_eq!(initial("Footman"), "F");
    assert_eq!(initial("footman"), "F");
    assert_eq!(initial("2nd"), "2");
    assert_eq!(initial(""), "");
}

#[test]
fn bars_are_never_under_empty_nor_over_full() {
    let bar = |hp: i64, max: i64| card_health(hp, max).bar;
    assert_eq!(bar(30, 100), Bar { part: 30, of: 100 });
    assert_eq!(bar(-5, 100), Bar { part: 0, of: 100 });
    assert_eq!(bar(150, 100), Bar { part: 100, of: 100 });
    assert_eq!(bar(5, 0), Bar { part: 1, of: 1 });
    assert_eq!(card_health(30, 100).tint, HpTint::Yellow);
    let hero = HeroFacts { level: 3, xp: 40, xp_to_next: 200, mana: 90, max_mana: 80 };
    assert_eq!(
        hero_bars(&hero),
        HeroBars { xp: Bar { part: 40, of: 200 }, mana: Bar { part: 80, of: 80 } }
    );
    let pane = unit_pane(&PanelUnit { hero: Some(hero), ..soldier() });
    assert_eq!(pane.hero, Some(hero_bars(&hero)));
    assert_eq!(pane.health, card_health(soldier().hp, soldier().max_hp));
    assert_eq!(unit_pane(&soldier()).hero, None);
}

#[test]
fn the_hud_wears_its_colours() {
    let slot = Rgb { r: 130, g: 150, b: 200 };
    assert_eq!(tile_fill(Tint::Plain, Touch::Away), slot);
    assert_eq!(tile_fill(Tint::Plain, Touch::Over), Rgb { r: 250, g: 270, b: 320 });
    assert_eq!(tile_fill(Tint::Armed, Touch::Down), Rgb { r: 520, g: 770, b: 520 });
    let blue = Rgb { r: 250, g: 450, b: 950 };
    assert_eq!(card_fill(&tile(1), blue, Touch::Away), blue);
    assert_eq!(card_fill(&tile(1), blue, Touch::Over), Rgb { r: 410, g: 610, b: 1_000 });
    let hall = CardFacts { face: Face::Building(BuildingKind::Barracks), ..tile(1) };
    assert_eq!(card_fill(&hall, blue, Touch::Away), Rgb { r: 370, g: 570, b: 1_000 });
    assert_eq!(queue_fill(Touch::Away), slot);
    assert_eq!(queue_fill(Touch::Over), Rgb { r: 420, g: 200, b: 200 });
    assert_eq!(health_fill(HpTint::Red), Rgb { r: 880, g: 250, b: 220 });
    assert_eq!(supply_ink(true), Rgb { r: 1_000, g: 350, b: 300 });
    assert_eq!(supply_ink(false), Rgb { r: 1_000, g: 1_000, b: 1_000 });
    assert_eq!(banner_ink(Some(Winner::Human), false), Rgb { r: 450, g: 1_000, b: 500 });
    assert_eq!(banner_ink(Some(Winner::Human), true), Rgb { r: 450, g: 650, b: 1_000 });
    assert_eq!(banner_ink(None, true), Rgb { r: 1_000, g: 1_000, b: 1_000 });
}

#[test]
fn many_selected_are_shown_in_slot_order() {
    let list: Vec<CardFacts> = (0..30u64).rev().map(tile).collect();
    let (cards, overflow) = selection_cards(&list);
    assert_eq!(cards[0].id, BASE);
    assert!(cards.len() < 30);
    assert_eq!(overflow, format!("+{}", 30 - cards.len()));
    assert_eq!(card_letter(&tile(1)), "F");
    assert_eq!(card_badge(&tile(1)), "2");
    assert_eq!(card_letter(&CardFacts { face: Face::Hero(5), ..tile(1) }), "H5");
    assert_eq!(card_badge(&CardFacts { own: false, ..tile(1) }), "");
    let barracks = CardFacts { face: Face::Building(BuildingKind::Barracks), ..tile(1) };
    assert_eq!((card_letter(&barracks).as_str(), card_badge(&barracks).as_str()), ("B", ""));
}

#[test]
fn the_hud_publishes_the_tiles_it_draws() {
    let cat = catalog();
    let hk = hotkeys();
    let mut ui = UiState::new();
    ui.card_page = 7;
    let out = update_hud(&cat, &hk, &world(vec![footman(1)]), &facts(Vec::new()), &mut ui);
    assert_eq!(out.shown, Shown::Unit);
    assert_eq!(out.pane.unwrap().name, "Footman");
    assert_eq!(
        ui.card_actions,
        vec![
            CmdAction::AttackMove,
            CmdAction::Stop,
            CmdAction::ToggleGuard,
            CmdAction::ToggleFallback,
            CmdAction::CyclePriority,
            CmdAction::TogglePage,
        ]
    );
    assert_eq!(ui.card_page, 0, "a page that is gone gives way to one that is there");
    assert!(out.supply_blocked);
    assert_eq!(out.link, "", "silent while orders arrive at once");

    let both = world(vec![footman(9), footman(2)]);
    let out = update_hud(&cat, &hk, &both, &facts(vec![tile(9), tile(2)]), &mut ui);
    assert_eq!(out.shown, Shown::Many);
    assert_eq!(ui.card_entities, vec![BASE + 2, BASE + 9]);
    let out = update_hud(&cat, &hk, &world(Vec::new()), &facts(Vec::new()), &mut ui);
    assert_eq!(out.shown, Shown::Nothing);
    assert!(ui.card_actions.is_empty());
}

#[test]
fn everything_has_a_name_and_some_things_need_others() {
    assert_eq!(unit_name(UnitKind::GryphonRider), "Gryphon");
    assert_eq!(building_name(BuildingKind::TownHall), "Town Hall");
    assert_eq!(item_name(ItemId::HealingPotion), "Potion");
    assert_eq!(research_name(ResearchKind::Armor), "Armor");
    assert_eq!(resource_name(ResourceKind::Gold), "Gold");
    let cat = catalog();
    let reqs = vec![BuildingKind::Keep, BuildingKind::Barracks];
    let castle = vec![BuildingKind::Castle];
    assert!(!cat.requirements_met(&reqs, &castle));
    assert_eq!(cat.missing_requirement(&reqs, &castle), Some(BuildingKind::Barracks));
    let both = vec![BuildingKind::Castle, BuildingKind::Barracks];
    assert!(cat.requirements_met(&reqs, &both));
    assert_eq!(cat.missing_requirement(&reqs, &both), None);
}
