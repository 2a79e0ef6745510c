//! The command card: what it offers, what its keys say, and what they arm.

use bridgehead::card::{
    card_page_label, command_entries, doctrine_entries, paginate, research_cmds, AbilitySlot, AbilityState,
    CardPage, CmdAction, CmdEntry, DoctrineCard, HeroCmds, HeroPrice, HeroTrain, Ladder,
    ResearchCmd, ResearchStep, Researching, ShopState, CMD_SLOTS,
};
use bridgehead::catalog::{
    item_name, AbilityDef, AbilityTarget, BuildingKind, BuildingRow, Catalog, ItemId, ItemRow,
    ResearchKind, TargetClass, TechTier, UnitKind, UnitRow,
};
use bridgehead::command::{command_input, Presses};
use bridgehead::controls::{control_groups, Member, Roster};
use bridgehead::doctrine::{
    cycle_step, fallback_steps, leash_steps, nudge_value, trim_num, DoctrineState,
    DoctrineTemplate, PostureKind, SquadPosture, TemplateView, UnitDoctrine, AUTOCAST_MIN_ENEMIES,
    FALLBACK_MAX, FALLBACK_MIN, FALLBACK_NUDGE, HOME_GUARD_COOLDOWN, LEASH_MAX, LEASH_MIN,
    LEASH_NUDGE,
};
use bridgehead::hotkeys::{Action, Hotkeys, Key, CANCEL, IDLE_WORKER, NEXT_CARD_PAGE};
use bridgehead::intent::{
    posture_intent, posture_unit_intent, CastTarget, Intent, PostureArm, PostureIntent,
};
use bridgehead::map::Pos;
use bridgehead::readouts::{squad_badge, Region, TriggerRule, MAX_REGIONS_PER_TEAM};
use bridgehead::situation::{
    FieldBuilding, FieldUnit, SelBuilding, SelUnit, World, REGION_MARK_RADIUS,
};
use bridgehead::ui_state::UiState;

// ---------------------------------------------------------------------------
// Fixtures
// ---------------------------------------------------------------------------

const ALL_BUILDING_KINDS: [BuildingKind; 19] = [
    BuildingKind::TownHall,
    BuildingKind::Barracks,
    BuildingKind::Farm,
    BuildingKind::Tower,
    BuildingKind::Wall,
    BuildingKind::Workshop,
    BuildingKind::Shop,
    BuildingKind::Blacksmith,
    BuildingKind::Keep,
    BuildingKind::Castle,
    BuildingKind::Sanctum,
    BuildingKind::Stronghold,
    BuildingKind::WarCamp,
    BuildingKind::Burrow,
    BuildingKind::Watchtower,
    BuildingKind::SpiritLodge,
    BuildingKind::WarMill,
    BuildingKind::Fortress,
    BuildingKind::Hold,
];

const SLAM: AbilityDef =
    AbilityDef { name: "Ground Slam", mana_cost: 75_000, target: AbilityTarget::Caster };
const WARCRY: AbilityDef =
    AbilityDef { name: "Warcry", mana_cost: 50_000, target: AbilityTarget::Caster };
const METEOR: AbilityDef = AbilityDef {
    name: "Meteor",
    mana_cost: 100_000,
    target: AbilityTarget::Point { range: 12_000 },
};

fn pos(x: i32, z: i32) -> Pos {
    Pos { x: x * 1_000, z: z * 1_000 }
}

fn key(c: char) -> Key {
    Key::Letter(c)
}

fn catalog() -> Catalog {
    let mut units: Vec<UnitRow> = Vec::new();
    for _ in 0..21 {
        units.push(UnitRow {
            id: "Unit",
            cost_gold: 100,
            cost_lumber: 20,
            requires: Vec::new(),
            abilities: Vec::new(),
            hero: false,
            worker: false,
        });
    }
    let mut buildings: Vec<BuildingRow> = Vec::new();
    for _ in 0..19 {
        buildings.push(BuildingRow {
            cost_gold: 150,
            cost_lumber: 50,
            size: 6_000,
            requires: Vec::new(),
            counts_as: Vec::new(),
            trains: Vec::new(),
            researches: Vec::new(),
            abilities: Vec::new(),
            upgrade: None,
            hall: false,
        });
    }
    let item = |cost_gold: u32, tier: TechTier, chooses_destination: bool| ItemRow {
        cost_gold,
        tier,
        chooses_destination,
    };
    let items = vec![
        item(100, TechTier::T1, false),
        item(150, TechTier::T1, true),
        item(200, TechTier::T1, false),
        item(250, TechTier::T2, false),
        item(300, TechTier::T2, true),
    ];
    let mut cat = Catalog {
        units,
        buildings,
        items,
        research_max: 3,
        region_radius_min: 4_000,
        region_radius_max: 60_000,
        unit_radius: 900,
    };
    cat.units[UnitKind::Worker.index()].worker = true;
    for kind in [UnitKind::Hero, UnitKind::Priestess, UnitKind::Sorcerer] {
        cat.units[kind.index()].hero = true;
    }
    cat.units[UnitKind::Hero.index()].abilities = vec![SLAM, WARCRY];
    cat.units[UnitKind::Priestess.index()].abilities = vec![METEOR];
    cat.units[UnitKind::Knight.index()].requires = vec![BuildingKind::Castle];
    cat.units[UnitKind::GryphonRider.index()].requires = vec![BuildingKind::Castle];
    for kind in [BuildingKind::TownHall, BuildingKind::Keep, BuildingKind::Castle] {
        let row = &mut cat.buildings[kind.index()];
        row.trains = vec![UnitKind::Worker, UnitKind::Hero, UnitKind::Priestess];
        row.abilities = vec![AbilityDef {
            name: "Call to Arms",
            mana_cost: 0,
            target: AbilityTarget::Caster,
        }];
        row.hall = true;
    }
    cat.buildings[BuildingKind::TownHall.index()].upgrade = Some((BuildingKind::Keep, 300, 200));
    cat.buildings[BuildingKind::Keep.index()].upgrade = Some((BuildingKind::Castle, 500, 300));
    cat.buildings[BuildingKind::Keep.index()].counts_as = vec![BuildingKind::TownHall];
    cat.buildings[BuildingKind::Castle.index()].counts_as =
        vec![BuildingKind::TownHall, BuildingKind::Keep];
    cat.buildings[BuildingKind::Barracks.index()].trains = vec![
        UnitKind::Footman,
        UnitKind::Archer,
        UnitKind::Raider,
        UnitKind::Spearman,
        UnitKind::Knight,
    ];
    cat.buildings[BuildingKind::Workshop.index()].trains =
        vec![UnitKind::Catapult, UnitKind::GryphonRider];
    cat.buildings[BuildingKind::Blacksmith.index()].researches =
        vec![ResearchKind::Attack, ResearchKind::Armor];
    cat
}

fn hotkeys() -> Hotkeys {
    let rows: Vec<(Action, Key)> = vec![
        (Action::AttackMove, key('A')),
        (Action::Stop, key('S')),
        (Action::HeroAbility(0), key('R')),
        (Action::HeroAbility(1), key('Y')),
        (Action::HeroAbility(2), key('D')),
        (Action::ItemSlot(0), key('Z')),
        (Action::ItemSlot(1), key('X')),
        (Action::TrainSlot(0), key('Q')),
        (Action::TrainSlot(1), key('W')),
        (Action::TrainSlot(2), key('E')),
        (Action::TrainSlot(3), key('R')),
        (Action::TrainSlot(4), key('T')),
        (Action::BuildingAbility(0), key('C')),
        (Action::TierUp, key('U')),
        (Action::ShopSlot(0), key('Q')),
        (Action::ShopSlot(1), key('W')),
        (Action::ShopSlot(2), key('E')),
        (Action::ShopSlot(3), key('R')),
        (Action::ShopSlot(4), key('T')),
        (Action::QuickGuard, key('G')),
        (Action::QuickFallback, key('V')),
        (Action::QuickPriority, key('P')),
        (Action::QuickAutoCast, key('T')),
        (Action::ModeToggle, key('I')),
        (Action::PostureDefend, key('Q')),
        (Action::PosturePush, key('W')),
        (Action::PostureForage, key('E')),
        (Action::PostureEscort, key('R')),
        (Action::StandDown, key('T')),
        (Action::CycleFallback, key('F')),
        (Action::CycleLeash, key('G')),
        (Action::CyclePriority, key('P')),
        (Action::AutoCastSlot(0), key('Z')),
        (Action::AutoCastSlot(1), key('X')),
        (Action::AutoCastSlot(2), key('C')),
        (Action::HomeGuard, key('H')),
        (Action::TemplateSquad, key('Q')),
        (Action::TemplateFallback, key('W')),
        (Action::TemplatePriority, key('E')),
        (Action::TemplateAutoCast, key('R')),
        (Action::TemplateClear, key('T')),
        (Action::MarkRegion, key('M')),
        (Action::ClearRegions, key('N')),
        (Action::NudgeFallbackDown, Key::Minus),
        (Action::NudgeFallbackUp, Key::Equal),
        (Action::NudgeLeashDown, Key::BracketLeft),
        (Action::NudgeLeashUp, Key::BracketRight),
        (Action::NudgeRegionDown, Key::Semicolon),
        (Action::NudgeRegionUp, Key::Quote),
    ];
    let builds: Vec<(BuildingKind, Key)> = vec![
        (BuildingKind::Barracks, key('B')),
        (BuildingKind::Farm, key('F')),
        (BuildingKind::TownHall, key('H')),
        (BuildingKind::Tower, key('O')),
        (BuildingKind::Wall, key('L')),
        (BuildingKind::Workshop, key('K')),
        (BuildingKind::Shop, key('N')),
        (BuildingKind::Blacksmith, key('C')),
        (BuildingKind::Sanctum, key('M')),
    ];
    Hotkeys { rows, builds }
}

fn build_cards() -> Vec<BuildingKind> {
    hotkeys().builds.iter().map(|b| b.0).collect()
}

fn blank_card() -> DoctrineCard {
    DoctrineCard {
        doc: DoctrineState::empty(),
        posture: None,
        tmpl: TemplateView::fresh(false),
        home_guard: false,
        region_mark: None,
        region_count: 0,
        region_radius: 0,
        region_armed: false,
    }
}

fn no_cmds() -> HeroCmds {
    HeroCmds {
        train: None,
        abilities: Vec::new(),
        building_abilities: Vec::new(),
        shop: None,
        upgrade: None,
        items: [None, None],
        research: Vec::new(),
    }
}

fn slot(index: usize) -> AbilitySlot {
    AbilitySlot { index, def: SLAM, ready: true, cooldown: 0 }
}

fn of_kind(kind: UnitKind, caster: bool) -> UnitDoctrine {
    UnitDoctrine::read(None, None, None, None, kind, caster, None)
}

/// A world with the real input functions and nothing else.
struct App {
    cat: Catalog,
    hk: Hotkeys,
    w: World,
    ui: UiState,
    said: Vec<Intent>,
    select: Option<u64>,
    focus: Option<Pos>,
    next: u64,
}

fn ui_app() -> App {
    App {
        cat: catalog(),
        hk: hotkeys(),
        w: World {
            game_over: false,
            sel_units: Vec::new(),
            sel_buildings: Vec::new(),
            units: Vec::new(),
            buildings: Vec::new(),
            tier: TechTier::T1,
            gold: 1_000,
            lumber: 1_000,
            hero_prices: Vec::new(),
            postures: Vec::new(),
            triggers: Vec::new(),
            regions: Vec::new(),
            ladders: Vec::new(),
        },
        ui: UiState::new(),
        said: Vec::new(),
        select: None,
        focus: None,
        next: 0x1_0000_0000,
    }
}

impl App {
    fn id(&mut self) -> u64 {
        self.next += 1;
        self.next
    }

    fn field(&mut self, id: u64, kind: UnitKind, at: Pos, squad: Option<u8>) {
        self.w.units.push(FieldUnit { id, kind, own: true, idle: true, pos: at, items: None, squad });
    }

    fn select_unit(&mut self, kind: UnitKind, at: Pos) -> u64 {
        let id = self.id();
        self.field(id, kind, at, None);
        let states = self.cat.units[kind.index()].abilities.len();
        self.w.sel_units.push(SelUnit {
            id,
            kind,
            own: true,
            pos: at,
            leash: None,
            retreat: None,
            first_target: None,
            autocast: None,
            items: None,
            squad: None,
            abilities: vec![
                AbilityState { unlocked: true, ready: true, cooldown: 0 };
                states
            ],
        });
        id
    }

    fn select_building(&mut self, kind: BuildingKind, at: Pos) -> u64 {
        let id = self.id();
        self.w.buildings.push(FieldBuilding {
            kind,
            own: true,
            pos: at,
            unfinished: false,
            queue: Some(Vec::new()),
        });
        let states = self.cat.buildings[kind.index()].abilities.len();
        self.w.sel_buildings.push(SelBuilding {
            id,
            kind,
            own: true,
            queue: Some(Vec::new()),
            unfinished: false,
            upgrading: false,
            template: None,
            abilities: vec![
                AbilityState { unlocked: true, ready: true, cooldown: 0 };
                states
            ],
            researching: None,
        });
        id
    }

    fn hall(&mut self, kind: BuildingKind, at: Pos, unfinished: bool) {
        self.w.buildings.push(FieldBuilding { kind, own: true, pos: at, unfinished, queue: None });
    }

    fn hero_with(&mut self, item: ItemId) -> u64 {
        let id = self.select_unit(UnitKind::Hero, pos(20, 20));
        let n = self.w.sel_units.len();
        self.w.sel_units[n - 1].items = Some([Some(item), None]);
        let m = self.w.units.len();
        self.w.units[m - 1].items = Some([Some(item), None]);
        id
    }

    fn roster(&self) -> Roster {
        Roster {
            game_over: self.w.game_over,
            selected: self.w.sel_units.iter().map(|u| u.id).collect(),
            alive: self.w.units.iter().map(|u| u.id).collect(),
            members: self
                .w
                .units
                .iter()
                .map(|u| Member { id: u.id, own: u.own, squad: u.squad })
                .collect(),
        }
    }

    fn frame(&mut self, ctrl: bool, shift: bool, keys: &[Key], tiles: &[usize]) {
        let down = |n: u8| keys.contains(&Key::Digit(n));
        let groups = control_groups(
            &self.roster(),
            ctrl,
            shift,
            [down(1), down(2), down(3)],
            &mut self.ui,
        );
        self.said.extend(groups.intents);
        let out = command_input(
            &self.cat,
            &self.hk,
            &self.w,
            &Presses { keys: keys.to_vec(), ctrl, tiles: tiles.to_vec() },
            &mut self.ui,
        );
        self.said.extend(out.intents);
        self.select = out.select;
        self.focus = out.focus;
    }

    fn press(&mut self, key: Key) {
        self.frame(false, false, &[key], &[]);
    }
}

fn spawn_selected_footman(app: &mut App, at: Pos) -> u64 {
    app.select_unit(UnitKind::Footman, at)
}

fn entries_for(
    page: CardPage,
    own_units: usize,
    worker: bool,
    single: Option<(BuildingKind, bool)>,
    hero: &HeroCmds,
    card: &DoctrineCard,
    completed: &[BuildingKind],
) -> Vec<CmdEntry> {
    command_entries(
        &catalog(),
        &hotkeys(),
        page,
        own_units,
        worker,
        single,
        hero,
        card,
        &completed.to_vec(),
    )
}

fn actions(entries: &[CmdEntry]) -> Vec<CmdAction> {
    entries.iter().map(|e| e.action).collect()
}

// ---------------------------------------------------------------------------
// Squads and postures
// ---------------------------------------------------------------------------

#[test]
fn ctrl_digit_is_the_squad_verb() {
    let mut app = ui_app();
    let a = spawn_selected_footman(&mut app, pos(-10, -10));
    let b = spawn_selected_footman(&mut app, pos(-8, -10));

    app.frame(true, false, &[Key::Digit(1)], &[]);

    assert_eq!(app.said, vec![Intent::Squad { units: vec![a, b], id: Some(1) }]);
    assert_eq!(app.ui.groups[0], vec![a, b]);
}

#[test]
fn reassigning_a_group_releases_whoever_left_it() {
    let mut app = ui_app();
    let a = app.id();
    app.field(a, UnitKind::Footman, pos(-10, -10), Some(1));
    let b = spawn_selected_footman(&mut app, pos(-8, -10));

    app.frame(true, false, &[Key::Digit(1)], &[]);

    assert_eq!(
        app.said,
        vec![
            Intent::Squad { units: vec![a], id: None },
            Intent::Squad { units: vec![b], id: Some(1) },
        ]
    );
}

#[test]
fn the_last_of_two_recalls_lets_go_of_the_old_selection() {
    let recall = |selected: &[u64], groups: Vec<Vec<u64>>, down: [bool; 3]| {
        let roster = Roster {
            game_over: false,
            selected: selected.to_vec(),
            alive: vec![1, 2, 3, 4],
            members: Vec::new(),
        };
        let mut ui = UiState::new();
        ui.groups = groups;
        control_groups(&roster, false, false, down, &mut ui).recall
    };
    let groups = || vec![vec![1, 2], vec![3, 9], Vec::new()];
    assert_eq!(recall(&[1], groups(), [true, false, false]), vec![1, 2]);
    assert_eq!(recall(&[1], groups(), [true, true, false]), vec![2, 3], "1 was selected before");
    assert_eq!(recall(&[4], groups(), [true, true, false]), vec![1, 2, 3]);
    assert_eq!(recall(&[1], groups(), [true, false, true]), vec![1, 2], "nobody to recall");
    assert_eq!(recall(&[1], groups(), [false, false, true]), Vec::<u64>::new());
}

#[test]
fn the_doctrine_page_composes_squad_then_posture() {
    let mut app = ui_app();
    let a = spawn_selected_footman(&mut app, pos(-10, -10));
    let b = spawn_selected_footman(&mut app, pos(-8, -10));

    app.press(key('I'));
    assert_eq!(app.ui.page, CardPage::Doctrine);
    assert!(app.said.is_empty(), "opening a page says nothing");

    app.press(key('W'));
    let arm = app.ui.posture_place.expect("Push should arm a ground click");
    assert_eq!(arm.kind, PostureKind::Push);

    let click = posture_intent(arm, pos(40, 40)).unwrap();
    assert_eq!(app.said, vec![Intent::Squad { units: vec![a, b], id: Some(1) }]);
    assert_eq!(
        click,
        Intent::Posture { id: 1, posture: Some(PostureIntent::Push { at: pos(40, 40) }) }
    );
}

#[test]
fn the_home_guard_preset_is_a_trigger_a_commander_could_have_typed() {
    let mut app = ui_app();
    let a = spawn_selected_footman(&mut app, pos(-10, -10));
    let b = spawn_selected_footman(&mut app, pos(-8, -10));

    app.press(key('I'));
    app.press(key('H'));

    assert_eq!(
        app.said,
        vec![
            Intent::Squad { units: vec![a, b], id: Some(1) },
            Intent::TriggerSet {
                name: "home-guard".to_string(),
                squad: 1,
                posture: PostureIntent::Defend { at: pos(-70, -70), radius: 26_000 },
                repeat: 30_000,
            },
        ]
    );
}

#[test]
fn pressing_home_guard_again_clears_it() {
    let mut app = ui_app();
    spawn_selected_footman(&mut app, pos(-10, -10));
    app.w.triggers.push(TriggerRule {
        name: "home-guard".to_string(),
        armed: true,
        repeat: Some(HOME_GUARD_COOLDOWN),
        last_fired: None,
    });

    app.press(key('I'));
    app.press(key('H'));
    assert_eq!(app.said, vec![Intent::TriggerClear { name: "home-guard".to_string() }]);
}

#[test]
fn escort_can_screen_any_own_unit_not_just_the_hero() {
    let mut app = ui_app();
    spawn_selected_footman(&mut app, pos(-10, -10));
    let catapult = app.id();
    app.field(catapult, UnitKind::Catapult, pos(0, 0), None);

    app.press(key('I'));
    app.press(key('R'));
    let arm = app.ui.posture_place.expect("Escort should arm a click");
    assert_eq!(arm.kind, PostureKind::Escort);
    assert!(arm.kind.needs_unit());
    assert!(posture_intent(arm, pos(5, 5)).is_none());

    let click = posture_unit_intent(arm, catapult).unwrap();
    assert_eq!(
        click,
        Intent::Posture { id: 1, posture: Some(PostureIntent::Escort { unit: catapult }) }
    );
}

#[test]
fn a_posture_needs_the_click_it_asked_for() {
    let push = PostureArm { squad: 2, kind: PostureKind::Push };
    assert!(posture_unit_intent(push, 7).is_none());
    let defend = PostureArm { squad: 2, kind: PostureKind::Defend };
    assert_eq!(
        posture_intent(defend, pos(500, 0)).unwrap(),
        Intent::Posture {
            id: 2,
            posture: Some(PostureIntent::Defend { at: Pos { x: 98_000, z: 0 }, radius: 22_000 }),
        }
    );
}

// ---------------------------------------------------------------------------
// Territory
// ---------------------------------------------------------------------------

#[test]
fn marking_a_region_arms_a_click_and_says_nothing_yet() {
    let mut app = ui_app();
    app.press(key('I'));
    app.press(key('M'));
    assert!(app.ui.region_place, "[M] arms the marker");
    assert!(app.said.is_empty(), "an armed gesture is not a sentence");
    app.press(key('M'));
    assert!(!app.ui.region_place);
}

#[test]
fn arming_anything_else_disarms_the_region_marker() {
    let mut app = ui_app();
    spawn_selected_footman(&mut app, pos(-10, -10));

    app.press(key('I'));
    app.press(key('M'));
    assert!(app.ui.region_place);
    app.press(key('Q'));
    assert!(!app.ui.region_place, "arming a posture must disarm the marker");
    assert!(app.ui.posture_place.is_some());

    app.press(key('M'));
    assert!(app.ui.region_place);
    assert!(app.ui.posture_place.is_none(), "arming the marker must disarm the posture");

    app.press(key('I'));
    assert!(!app.ui.region_place);
}

#[test]
fn the_region_radius_is_free_entry_between_the_languages_own_bounds() {
    let (nudge, lo, hi): (i64, i64, i64) = (4_000, 4_000, 60_000);
    assert_eq!(
        nudge_value(None, true, nudge, REGION_MARK_RADIUS, lo, hi),
        Some(REGION_MARK_RADIUS)
    );
    assert_eq!(
        nudge_value(Some(hi - 1_000), true, nudge, REGION_MARK_RADIUS, lo, hi),
        Some(hi),
        "clamped, not refused"
    );
    assert_eq!(
        nudge_value(Some(lo), false, nudge, REGION_MARK_RADIUS, lo, hi),
        None,
        "below the floor is 'off', not an illegal radius"
    );

    let mut app = ui_app();
    app.press(key('I'));
    app.press(Key::Quote);
    assert_eq!(app.ui.region_radius, Some(REGION_MARK_RADIUS));
    app.press(Key::Quote);
    assert_eq!(app.ui.region_radius, Some(REGION_MARK_RADIUS + 4_000));
    app.press(Key::Semicolon);
    assert_eq!(app.ui.region_radius, Some(REGION_MARK_RADIUS));
}

#[test]
fn the_mark_tiles_are_offered_without_a_selection() {
    let card = DoctrineCard { region_mark: Some(1), region_radius: 22_000, ..blank_card() };
    for units in [0usize, 3usize] {
        let entries = doctrine_entries(&catalog(), &hotkeys(), units, &card);
        let mark = entries
            .iter()
            .find(|e| e.action == CmdAction::MarkRegion)
            .expect("the mark tile is always offered");
        assert!(mark.enabled);
        assert_eq!(mark.label, "Mark 1 r22");
        assert_eq!(mark.cost, "; / ' size");
        assert!(entries.iter().any(|e| e.action == CmdAction::ClearRegions));
    }
    let full =
        DoctrineCard { region_mark: None, region_count: MAX_REGIONS_PER_TEAM, ..blank_card() };
    let entries = doctrine_entries(&catalog(), &hotkeys(), 0, &full);
    let mark = entries.iter().find(|e| e.action == CmdAction::MarkRegion).unwrap();
    assert!(!mark.enabled);
    assert!(mark.cost.contains(&MAX_REGIONS_PER_TEAM.to_string()));
}

#[test]
fn forget_marks_is_the_sentence_a_commander_could_have_typed() {
    let mut app = ui_app();
    app.w.regions.push(Region {
        name: "mark 1".to_string(),
        key: "mark 1".to_string(),
        radius: 20_000,
    });
    app.press(key('I'));
    app.press(key('N'));
    assert_eq!(app.said, vec![Intent::RegionClear]);
}

// ---------------------------------------------------------------------------
// Numbers
// ---------------------------------------------------------------------------

#[test]
fn the_doctrine_page_parameterises_retreat_and_leash() {
    let mut app = ui_app();
    let unit = spawn_selected_footman(&mut app, pos(-10, -10));

    app.press(key('I'));
    app.press(key('F'));
    app.press(key('G'));

    assert_eq!(
        app.said,
        vec![
            Intent::Retreat { units: vec![unit], below: 250, rally: Some(pos(-70, -70)) },
            Intent::Leash { units: vec![unit], anchor: Some(pos(-10, -10)), radius: 10_000 },
        ]
    );
    assert_eq!(cycle_step(Some(250), &fallback_steps()), Some(350));
    assert_eq!(cycle_step(Some(500), &fallback_steps()), None);
    assert_eq!(cycle_step(None, &leash_steps()), Some(10_000));
    assert_eq!(cycle_step(Some(30_000), &leash_steps()), None);
}

#[test]
fn the_nudge_keys_give_the_human_the_whole_number_line() {
    let mut app = ui_app();
    let unit = spawn_selected_footman(&mut app, pos(-10, -10));

    app.press(key('I'));
    app.press(Key::Equal);
    app.press(Key::BracketRight);

    assert_eq!(
        app.said,
        vec![
            Intent::Retreat { units: vec![unit], below: 350, rally: Some(pos(-70, -70)) },
            Intent::Leash { units: vec![unit], anchor: Some(pos(-10, -10)), radius: 18_000 },
        ]
    );

    assert_eq!(
        nudge_value(Some(350), true, FALLBACK_NUDGE, 350, FALLBACK_MIN, FALLBACK_MAX),
        Some(400)
    );
    assert_eq!(
        nudge_value(Some(375), true, FALLBACK_NUDGE, 350, FALLBACK_MIN, FALLBACK_MAX),
        Some(425)
    );
    assert_eq!(
        nudge_value(Some(FALLBACK_MIN), false, FALLBACK_NUDGE, 350, FALLBACK_MIN, FALLBACK_MAX),
        None
    );
    assert_eq!(
        nudge_value(Some(FALLBACK_MAX), true, FALLBACK_NUDGE, 350, FALLBACK_MIN, FALLBACK_MAX),
        Some(FALLBACK_MAX)
    );
    assert_eq!(
        nudge_value(Some(LEASH_MAX), true, LEASH_NUDGE, 18_000, LEASH_MIN, LEASH_MAX),
        Some(LEASH_MAX)
    );
    assert_eq!(trim_num(37_500), "37.5");
    assert_eq!(trim_num(35_000), "35");
}

// ---------------------------------------------------------------------------
// The doctrine card
// ---------------------------------------------------------------------------

#[test]
fn autocast_is_per_ability_on_the_doctrine_card() {
    let mut app = ui_app();
    let hero = app.select_unit(UnitKind::Hero, pos(-10, -10));

    app.press(key('I'));
    app.press(key('X'));

    assert_eq!(
        app.said.last(),
        Some(&Intent::Autocast {
            units: vec![hero],
            min_enemies: AUTOCAST_MIN_ENEMIES,
            ability: Some(1),
        })
    );

    let cat = catalog();
    let doc = DoctrineState::of(&vec![of_kind(UnitKind::Hero, true)]);
    let entries = doctrine_entries(&cat, &hotkeys(), 1, &DoctrineCard { doc, ..blank_card() });
    let defs = &cat.units[UnitKind::Hero.index()].abilities;
    let slots = entries
        .iter()
        .filter(|e| matches!(e.action, CmdAction::ToggleAutoCastSlot(_)))
        .count();
    assert_eq!(slots, defs.len(), "one toggle per ability, no more and no fewer");
    for (i, def) in defs.iter().enumerate() {
        let entry =
            entries.iter().find(|e| e.action == CmdAction::ToggleAutoCastSlot(i)).unwrap();
        assert!(entry.label.contains(def.name), "{} not named", def.name);
    }
    let footmen = DoctrineState::of(&vec![of_kind(UnitKind::Footman, false)]);
    let entries =
        doctrine_entries(&cat, &hotkeys(), 1, &DoctrineCard { doc: footmen, ..blank_card() });
    assert!(!entries.iter().any(|e| matches!(e.action, CmdAction::ToggleAutoCastSlot(_))));
}

#[test]
fn the_doctrine_page_keeps_its_hotkeys_unique() {
    let caster = DoctrineState::of(&vec![of_kind(UnitKind::Hero, true)]);
    let unit_card = DoctrineCard { doc: caster, ..blank_card() };
    let hall_card = DoctrineCard { tmpl: TemplateView::fresh(true), ..blank_card() };
    for (units, card, want_pages) in [(2usize, unit_card, 2usize), (0usize, hall_card, 1usize)] {
        let entries = doctrine_entries(&catalog(), &hotkeys(), units, &card);
        assert_eq!(
            paginate(&entries, 0).pages,
            want_pages,
            "the doctrine card's page budget changed at {} entries",
            entries.len()
        );
        let mut keys: Vec<Key> = entries.iter().map(|e| e.key).collect();
        keys.sort_by_key(|k| format!("{k:?}"));
        let before = keys.len();
        keys.dedup();
        assert_eq!(before, keys.len(), "duplicate hotkey on the doctrine card");
        assert!(
            entries.last().map(|e| e.action) == Some(CmdAction::TogglePage),
            "the way back must survive a full card"
        );
    }
    let entries = doctrine_entries(&catalog(), &hotkeys(), 2, &unit_card);
    for nudge in [Key::Minus, Key::Equal, Key::BracketLeft, Key::BracketRight] {
        assert!(
            !entries.iter().any(|e| e.key == nudge),
            "{nudge:?} is both a nudge and a card button"
        );
    }
}

#[test]
fn squad_badges_make_a_mixed_selection_visible() {
    let of = |squad: Option<u8>| UnitDoctrine { squad, ..of_kind(UnitKind::Footman, false) };
    let mixed = DoctrineState::of(&vec![of(Some(1)), of(Some(2)), of(None)]);
    assert_eq!(mixed.squad, Some(1), "the card speaks for the first unit");
    assert!(mixed.in_squad < mixed.units);

    assert_eq!(squad_badge(Some(1)), "1");
    assert_eq!(squad_badge(Some(3)), "3");
    assert_eq!(squad_badge(None), "");
}

#[test]
fn a_building_can_be_stamped_with_a_doctrine_template() {
    let mut app = ui_app();
    let barracks = app.select_building(BuildingKind::Barracks, pos(-60, -60));

    app.press(key('I'));
    app.press(key('Q'));
    assert_eq!(
        app.said,
        vec![Intent::Template {
            building: barracks,
            squad: Some(1),
            retreat: None,
            priority: None,
            autocast: None,
        }]
    );
}

#[test]
fn the_doctrine_page_offers_a_way_back() {
    let card = blank_card();
    let orders = entries_for(CardPage::Orders, 2, false, None, &no_cmds(), &card, &[]);
    assert!(
        orders.iter().any(|e| e.action == CmdAction::TogglePage),
        "a unit selection must be able to reach the doctrine page"
    );
    let doctrine = entries_for(CardPage::Doctrine, 2, false, None, &no_cmds(), &card, &[]);
    assert!(paginate(&doctrine, 0).tiles.len() <= CMD_SLOTS);
    assert_eq!(doctrine.last().map(|e| e.action), Some(CmdAction::TogglePage));
    assert!(doctrine.iter().any(|e| e.action == CmdAction::SetPosture(PostureKind::Defend)));
}

#[test]
fn the_doctrine_page_is_reachable_however_full_the_card() {
    let crowded = HeroCmds {
        abilities: vec![slot(0), slot(1), slot(2)],
        items: [Some(ItemId::HealingPotion), Some(ItemId::TownPortal)],
        ..no_cmds()
    };
    let entries = entries_for(CardPage::Orders, 3, true, None, &crowded, &blank_card(), &[]);
    assert!(entries.len() > CMD_SLOTS, "a worker+hero card is the overflow case");
    let view = paginate(&entries, 0);
    assert!(view.pages > 1, "and it must therefore page");
    assert_eq!(view.tiles.len(), CMD_SLOTS, "page one is full");
    assert_eq!(view.tiles.last().map(|e| e.action), Some(CmdAction::TogglePage));
    for page in 0..view.pages {
        assert_eq!(
            paginate(&entries, page).tiles.last().map(|e| e.action),
            Some(CmdAction::TogglePage),
            "page {page} lost the mode toggle",
        );
    }

    let mut app = ui_app();
    app.select_unit(UnitKind::Worker, pos(-60, -60));
    app.press(key('I'));
    assert_eq!(app.ui.page, CardPage::Doctrine);
}

#[test]
fn a_worker_card_holds_every_build_button_and_the_page_toggle() {
    let entries = entries_for(CardPage::Orders, 3, true, None, &no_cmds(), &blank_card(), &[]);
    let view = paginate(&entries, 0);
    assert_eq!(view.tiles.len(), CMD_SLOTS, "page one fills the card");
    for kind in build_cards() {
        assert!(
            view.tiles.iter().any(|e| e.action == CmdAction::Place(kind)),
            "{kind:?} must have a button on page one"
        );
    }
    assert!(view.tiles.iter().any(|e| e.action == CmdAction::Place(BuildingKind::Blacksmith)));
    assert!(view.tiles.iter().any(|e| e.action == CmdAction::TogglePage));
    assert!(
        entries.iter().any(|e| e.action == CmdAction::ToggleGuard),
        "the quick toggles survive on an overflow page"
    );
    assert!(view.pages > 1, "...which means the card pages");
}

// ---------------------------------------------------------------------------
// One key, one button
// ---------------------------------------------------------------------------

#[test]
fn every_production_card_keeps_its_hotkeys_unique() {
    let completed = [
        BuildingKind::TownHall,
        BuildingKind::Castle,
        BuildingKind::Barracks,
        BuildingKind::Workshop,
        BuildingKind::Blacksmith,
        BuildingKind::Shop,
    ];
    let card_of = |kind: BuildingKind| {
        entries_for(
            CardPage::Orders,
            0,
            false,
            Some((kind, true)),
            &no_cmds(),
            &blank_card(),
            &completed,
        )
    };
    for kind in ALL_BUILDING_KINDS {
        let entries = card_of(kind);
        assert_eq!(
            paginate(&entries, 0).pages,
            1,
            "{kind:?}'s card should still fit on one page: {} entries",
            entries.len(),
        );
        let mut keys: Vec<Key> = entries.iter().map(|e| e.key).collect();
        keys.sort_by_key(|k| format!("{k:?}"));
        let before = keys.len();
        keys.dedup();
        assert_eq!(before, keys.len(), "two buttons share a hotkey on the {kind:?} card");
    }

    let barracks = card_of(BuildingKind::Barracks);
    let knight = barracks
        .iter()
        .find(|e| e.action == CmdAction::Train(UnitKind::Knight))
        .expect("the Barracks must offer the Knight at T3");
    assert_eq!(knight.key, key('T'), "the Knight sits on [T]");
    assert!(knight.enabled, "and a Castle standing must enable it");

    let workshop = card_of(BuildingKind::Workshop);
    let gryphon = workshop
        .iter()
        .find(|e| e.action == CmdAction::Train(UnitKind::GryphonRider))
        .expect("the Workshop must offer the Gryphon Rider at T3");
    assert_eq!(gryphon.key, key('W'), "the Gryphon sits on [W]");
    assert!(gryphon.enabled);
}

/// Every card the game can draw, with everything on it at once.
fn every_card_fixture() -> Vec<(String, Vec<CmdEntry>)> {
    let completed = [
        BuildingKind::TownHall,
        BuildingKind::Castle,
        BuildingKind::Barracks,
        BuildingKind::Workshop,
        BuildingKind::Blacksmith,
        BuildingKind::Shop,
        BuildingKind::Sanctum,
    ];
    let cat = catalog();
    let caster = DoctrineState::of(&vec![of_kind(UnitKind::Hero, true)]);
    let mut out: Vec<(String, Vec<CmdEntry>)> = Vec::new();

    for worker in [false, true] {
        for hero in [false, true] {
            let cmds = if hero {
                HeroCmds {
                    abilities: vec![slot(0), slot(1), slot(2)],
                    items: [Some(ItemId::HealingPotion), Some(ItemId::TownPortal)],
                    ..no_cmds()
                }
            } else {
                no_cmds()
            };
            let doc =
                if hero { DoctrineCard { doc: caster, ..blank_card() } } else { blank_card() };
            out.push((
                format!("units (worker: {worker}, hero: {hero}), orders"),
                entries_for(CardPage::Orders, 3, worker, None, &cmds, &doc, &completed),
            ));
        }
    }

    out.push((
        "units, doctrine".to_string(),
        entries_for(
            CardPage::Doctrine,
            3,
            false,
            None,
            &no_cmds(),
            &DoctrineCard { doc: caster, ..blank_card() },
            &completed,
        ),
    ));

    for kind in ALL_BUILDING_KINDS {
        let row = &cat.buildings[kind.index()];
        let cmds = HeroCmds {
            building_abilities: (0..row.abilities.len()).map(slot).collect(),
            shop: if kind == BuildingKind::Shop {
                Some(ShopState { hero: true, room: true, tier: TechTier::T3 })
            } else {
                None
            },
            upgrade: row.upgrade.map(|(to, _, _)| (to, 100, 0)),
            research: row
                .researches
                .iter()
                .map(|k| ResearchCmd {
                    kind: *k,
                    level: 0,
                    next: None,
                    in_progress: None,
                    blocked: false,
                })
                .collect(),
            ..no_cmds()
        };
        out.push((
            format!("{kind:?}, orders"),
            entries_for(
                CardPage::Orders,
                0,
                false,
                Some((kind, true)),
                &cmds,
                &blank_card(),
                &completed,
            ),
        ));
    }

    out.push((
        "production building, doctrine".to_string(),
        entries_for(
            CardPage::Doctrine,
            0,
            false,
            Some((BuildingKind::Barracks, true)),
            &no_cmds(),
            &DoctrineCard { tmpl: TemplateView::fresh(true), ..blank_card() },
            &completed,
        ),
    ));
    out
}

#[test]
fn no_card_the_game_can_draw_has_two_buttons_on_one_key() {
    for (name, entries) in every_card_fixture() {
        for (i, entry) in entries.iter().enumerate() {
            if let Some(clash) = entries[..i].iter().find(|p| p.key == entry.key) {
                panic!(
                    "{name}: [{:?}] is both {:?} and {:?}",
                    entry.key, clash.action, entry.action,
                );
            }
        }
    }
}

#[test]
fn no_raw_key_collides_with_a_button_on_any_card() {
    let hk = hotkeys();
    let raw = [
        NEXT_CARD_PAGE,
        hk.bind(Action::NudgeFallbackDown),
        hk.bind(Action::NudgeFallbackUp),
        hk.bind(Action::NudgeLeashDown),
        hk.bind(Action::NudgeLeashUp),
    ];
    for (name, entries) in every_card_fixture() {
        for key in raw {
            assert!(
                !entries.iter().any(|e| e.key == key),
                "{name}: [{key:?}] is both a raw key and a card button",
            );
        }
    }
}

#[test]
fn every_entry_is_reachable_on_some_page() {
    for (name, entries) in every_card_fixture() {
        let pages = paginate(&entries, 0).pages;
        let mut seen: Vec<CmdAction> = Vec::new();
        for page in 0..pages {
            let view = paginate(&entries, page);
            assert!(
                view.tiles.len() <= CMD_SLOTS,
                "{name}: page {page} draws {} tiles into {CMD_SLOTS} slots",
                view.tiles.len(),
            );
            seen.extend(view.tiles.iter().map(|e| e.action));
        }
        for entry in &entries {
            assert!(seen.contains(&entry.action), "{name}: {:?} is on no page", entry.action);
        }
    }
}

#[test]
fn a_key_means_the_same_thing_on_every_overflow_page_of_a_card() {
    for (name, entries) in every_card_fixture() {
        let pages = paginate(&entries, 0).pages;
        let mut bound: Vec<(Key, CmdAction)> = Vec::new();
        for page in 0..pages {
            for tile in paginate(&entries, page).tiles {
                if let Some((_, other)) = bound.iter().find(|(k, _)| *k == tile.key) {
                    assert_eq!(
                        *other, tile.action,
                        "{name}: [{:?}] means two things across pages",
                        tile.key,
                    );
                } else {
                    bound.push((tile.key, tile.action));
                }
            }
        }
    }
}

#[test]
fn the_pager_slices_a_card_without_losing_or_repeating_a_tile() {
    let entry = |n: u8| {
        CmdEntry::plain(CmdAction::Train(UnitKind::Footman), key('Q'), &n.to_string())
    };
    let flat: Vec<CmdEntry> = (0..12).map(entry).collect();
    assert_eq!(paginate(&flat, 0).pages, 1);
    assert_eq!(paginate(&flat, 0).tiles.len(), 12);

    let mut pinned: Vec<CmdEntry> = (0..11).map(entry).collect();
    pinned.push(CmdEntry::plain(CmdAction::TogglePage, key('I'), "Doctrine"));
    let view = paginate(&pinned, 0);
    assert_eq!(view.pages, 1, "eleven content + the toggle is exactly a card");
    assert_eq!(view.tiles.len(), CMD_SLOTS);

    let mut over: Vec<CmdEntry> = (0..12).map(entry).collect();
    over.push(CmdEntry::plain(CmdAction::TogglePage, key('I'), "Doctrine"));
    let first = paginate(&over, 0);
    assert_eq!(first.pages, 2);
    assert_eq!(first.tiles.len(), CMD_SLOTS);
    assert_eq!(first.tiles[0].label, "0");
    assert_eq!(first.tiles[10].label, "10");
    let second = paginate(&over, 1);
    assert_eq!(second.tiles.len(), 2, "one leftover plus the pinned toggle");
    assert_eq!(second.tiles[0].label, "11");
    assert_eq!(second.tiles[1].action, CmdAction::TogglePage);
    assert_eq!(paginate(&over, 9).page, 1);
    assert_eq!(paginate(&over, 9).tiles[0].label, "11");
    assert_eq!(paginate(&Vec::new(), 0).pages, 1);
}

#[test]
fn the_page_indicator_appears_only_when_there_is_a_page_to_turn() {
    assert_eq!(card_page_label(CardPage::Orders, 0, 1), "");
    assert_eq!(card_page_label(CardPage::Orders, 0, 2), "Orders 1/2   [Tab] more");
    assert_eq!(card_page_label(CardPage::Doctrine, 1, 2), "Doctrine 2/2   [Tab] more");
}

#[test]
fn tab_walks_the_overflow_pages_and_wraps() {
    let mut app = ui_app();
    app.select_unit(UnitKind::Worker, pos(-60, -60));
    app.frame(false, false, &[], &[]);
    assert_eq!(app.ui.card_page, 0);
    app.press(NEXT_CARD_PAGE);
    assert_eq!(app.ui.card_page, 1, "[Tab] turns the page");
    app.press(NEXT_CARD_PAGE);
    assert_eq!(app.ui.card_page, 0, "...and wraps back to the first");
}

#[test]
fn a_hotkey_on_page_two_still_fires_from_page_one() {
    let entries = entries_for(CardPage::Orders, 3, true, None, &no_cmds(), &blank_card(), &[]);
    let guard = entries
        .iter()
        .find(|e| e.action == CmdAction::ToggleGuard)
        .expect("a unit selection always offers [G Guard]");
    assert!(
        !paginate(&entries, 0).tiles.iter().any(|e| e.action == CmdAction::ToggleGuard),
        "the premise: [G] has been pushed onto an overflow page"
    );

    let mut app = ui_app();
    app.select_unit(UnitKind::Worker, pos(-60, -60));
    app.frame(false, false, &[], &[]);
    assert_eq!(app.ui.card_page, 0, "still looking at page one");
    app.press(guard.key);
    assert!(
        app.said.iter().any(|i| matches!(i, Intent::Leash { .. })),
        "[G] must fire from a page its tile is not on; said: {:?}",
        app.said,
    );
}

#[test]
fn keys_leave_the_interface_alike_whichever_overflow_page_is_up() {
    let guard = hotkeys().key(Action::QuickGuard).unwrap();
    let attack = hotkeys().key(Action::AttackMove).unwrap();
    let doctrine = hotkeys().key(Action::ModeToggle).unwrap();
    for key in [guard, attack, doctrine] {
        let run = |page: usize| {
            let mut app = ui_app();
            app.select_unit(UnitKind::Worker, pos(-60, -60));
            app.frame(false, false, &[], &[]);
            app.ui.card_page = page;
            app.press(key);
            app
        };
        let (here, there) = (run(0), run(1));
        assert_eq!(here.said, there.said);
        assert_eq!(here.ui.page, there.ui.page);
        assert_eq!(here.ui.attack_move_armed, there.ui.attack_move_armed);
        assert_eq!(here.ui.placement, there.ui.placement);
    }
}

// ---------------------------------------------------------------------------
// The hall pick
// ---------------------------------------------------------------------------

#[test]
fn a_second_hall_turns_the_teleport_key_into_a_hall_pick() {
    let mut app = ui_app();
    app.hero_with(ItemId::ScrollOfMassTeleport);
    app.hall(BuildingKind::TownHall, pos(60, 60), false);
    app.hall(BuildingKind::Keep, pos(-70, -70), false);

    app.press(app.hk.key(Action::ItemSlot(0)).unwrap());

    assert!(app.said.is_empty(), "arming is not using: {:?}", app.said);
    let armed = app.ui.teleport_place;
    assert!(armed.is_some(), "the key armed a hall pick");
    assert_eq!(armed.unwrap().slot, 0, "and it remembers which slot it is spending");
    assert_eq!(armed.unwrap().name, item_name(ItemId::ScrollOfMassTeleport));
}

#[test]
fn with_one_hall_the_teleport_key_still_just_fires() {
    let mut app = ui_app();
    let hero = app.hero_with(ItemId::ScrollOfMassTeleport);
    app.hall(BuildingKind::TownHall, pos(60, 60), false);

    app.press(app.hk.key(Action::ItemSlot(0)).unwrap());

    assert!(app.ui.teleport_place.is_none(), "nothing to ask, so nothing is armed");
    assert_eq!(app.said, vec![Intent::UseItem { slot: 0, hero, destination: None }]);
}

#[test]
fn a_hall_under_construction_is_not_a_choice() {
    let mut app = ui_app();
    app.hero_with(ItemId::TownPortal);
    app.hall(BuildingKind::TownHall, pos(60, 60), false);
    app.hall(BuildingKind::TownHall, pos(-70, -70), true);

    app.press(app.hk.key(Action::ItemSlot(0)).unwrap());

    assert!(
        app.ui.teleport_place.is_none(),
        "an unfinished hall is not a destination, so there is still only one"
    );
    assert_eq!(app.said.len(), 1, "and the portal fires: {:?}", app.said);
}

#[test]
fn a_potion_never_asks_which_hall() {
    let mut app = ui_app();
    app.hero_with(ItemId::HealingPotion);
    app.hall(BuildingKind::TownHall, pos(60, 60), false);
    app.hall(BuildingKind::Keep, pos(-70, -70), false);

    app.press(app.hk.key(Action::ItemSlot(0)).unwrap());

    assert!(app.ui.teleport_place.is_none(), "a potion has nowhere to go");
    assert_eq!(app.said.len(), 1, "it is drunk on the press: {:?}", app.said);
}

#[test]
fn escape_cancels_the_hall_pick_and_spends_nothing() {
    let mut app = ui_app();
    app.hero_with(ItemId::ScrollOfMassTeleport);
    app.hall(BuildingKind::TownHall, pos(60, 60), false);
    app.hall(BuildingKind::Keep, pos(-70, -70), false);

    app.press(app.hk.key(Action::ItemSlot(0)).unwrap());
    assert!(app.ui.teleport_place.is_some());

    app.press(CANCEL);

    assert!(app.ui.teleport_place.is_none(), "one step out cancels the pick");
    assert_eq!(app.ui.page, CardPage::Orders, "and it does not also flip the card");
    assert!(app.said.is_empty(), "a cancelled gesture spends nothing: {:?}", app.said);
}

#[test]
fn arming_another_mode_drops_a_pending_hall_pick() {
    let mut app = ui_app();
    app.hero_with(ItemId::ScrollOfMassTeleport);
    app.hall(BuildingKind::TownHall, pos(60, 60), false);
    app.hall(BuildingKind::Keep, pos(-70, -70), false);

    app.press(app.hk.key(Action::ItemSlot(0)).unwrap());
    assert!(app.ui.teleport_place.is_some());

    app.press(app.hk.key(Action::AttackMove).unwrap());

    assert!(app.ui.attack_move_armed, "the new mode is armed");
    assert!(
        app.ui.teleport_place.is_none(),
        "and the old one is gone: two armed clicks cannot both want the next press"
    );
}

// ---------------------------------------------------------------------------
// The rest of the card
// ---------------------------------------------------------------------------

#[test]
fn orders_say_what_their_tiles_say() {
    let mut app = ui_app();
    let a = spawn_selected_footman(&mut app, pos(0, 0));
    app.press(key('S'));
    assert_eq!(app.said, vec![Intent::Stop { units: vec![a] }]);
    app.press(key('A'));
    assert!(app.ui.attack_move_armed);
    assert_eq!(app.said.len(), 1, "arming says nothing");
}

#[test]
fn the_first_unit_is_the_one_in_the_lowest_slot() {
    let mut app = ui_app();
    spawn_selected_footman(&mut app, pos(0, 0));
    spawn_selected_footman(&mut app, pos(2, 0));
    // A later generation in a lower slot comes first.
    app.w.sel_units[0].id = 0x1_0000_0009;
    app.w.sel_units[1].id = 0x7_0000_0002;
    app.w.sel_units[0].squad = Some(1);
    app.w.sel_units[1].squad = Some(2);
    app.press(key('I'));
    app.press(key('Q'));
    assert_eq!(
        app.ui.posture_place,
        Some(PostureArm { squad: 2, kind: PostureKind::Defend }),
        "the card speaks for the unit in the lowest slot"
    );
}

#[test]
fn placing_arms_and_a_locked_tile_does_nothing() {
    let mut app = ui_app();
    app.select_unit(UnitKind::Worker, pos(0, 0));
    app.press(key('B'));
    assert_eq!(app.ui.placement, Some(BuildingKind::Barracks));

    app.cat.buildings[BuildingKind::Tower.index()].requires = vec![BuildingKind::Barracks];
    app.ui = UiState::new();
    app.press(key('O'));
    assert_eq!(app.ui.placement, None, "a locked tile's key does nothing");
    let entries = command_entries(
        &app.cat,
        &app.hk,
        CardPage::Orders,
        1,
        true,
        None,
        &no_cmds(),
        &blank_card(),
        &Vec::new(),
    );
    let tower = entries
        .iter()
        .find(|e| e.action == CmdAction::Place(BuildingKind::Tower))
        .expect("locked, not hidden");
    assert!(tower.locked && !tower.enabled);
    assert_eq!(tower.cost, "needs Barracks");
    assert_eq!(tower.afford, Some((150, 50)));
}

#[test]
fn a_click_is_held_against_the_locks_of_its_frame() {
    let mut app = ui_app();
    app.select_unit(UnitKind::Worker, pos(0, 0));
    app.ui.card_actions =
        vec![CmdAction::Stop, CmdAction::Place(BuildingKind::Tower), CmdAction::AttackMove];
    app.cat.buildings[BuildingKind::Tower.index()].requires = vec![BuildingKind::Barracks];
    app.frame(true, false, &[], &[1, 9, 0]);
    assert_eq!(app.ui.placement, None);
    assert_eq!(app.said.len(), 1, "only Stop was carried out: {:?}", app.said);
}

#[test]
fn a_held_control_key_leaves_only_the_clicks() {
    let mut app = ui_app();
    spawn_selected_footman(&mut app, pos(0, 0));
    app.frame(true, false, &[key('S'), key('I')], &[]);
    assert!(app.said.is_empty());
    assert_eq!(app.ui.page, CardPage::Orders);
}

#[test]
fn idle_workers_are_found_in_turn() {
    let mut app = ui_app();
    let a = app.id();
    app.field(a, UnitKind::Worker, pos(1, 1), None);
    let b = app.id();
    app.field(b, UnitKind::Worker, pos(2, 2), None);
    let c = app.id();
    app.field(c, UnitKind::Worker, pos(3, 3), None);
    app.w.units[1].idle = false;
    app.press(IDLE_WORKER);
    assert_eq!((app.select, app.focus), (Some(a), Some(pos(1, 1))));
    app.press(IDLE_WORKER);
    assert_eq!((app.select, app.focus), (Some(c), Some(pos(3, 3))));
    app.press(IDLE_WORKER);
    assert_eq!(app.select, Some(a));
}

#[test]
fn nothing_is_said_once_the_game_is_over() {
    let mut app = ui_app();
    spawn_selected_footman(&mut app, pos(0, 0));
    app.w.game_over = true;
    app.press(key('S'));
    app.press(key('A'));
    app.press(IDLE_WORKER);
    assert!(app.said.is_empty());
    assert!(!app.ui.attack_move_armed);
    assert_eq!(app.select, None);
}

#[test]
fn an_aimed_ability_arms_and_an_unaimed_one_fires() {
    let mut app = ui_app();
    let hero = app.select_unit(UnitKind::Hero, pos(0, 0));
    app.press(key('R'));
    assert_eq!(app.said, vec![Intent::Cast { caster: hero, ability: 0, aim: None }]);
    assert!(app.ui.cast_place.is_none());

    let mut app = ui_app();
    let priestess = app.select_unit(UnitKind::Priestess, pos(0, 0));
    app.press(key('R'));
    assert!(app.said.is_empty());
    let arm = app.ui.cast_place.expect("an aimed ability waits for its click");
    assert_eq!(arm.casters, vec![priestess]);
    assert_eq!((arm.slot, arm.name, arm.wants_unit), (0, "Meteor", false));
    assert_eq!(
        bridgehead::intent::cast_here(priestess, 0, Some(CastTarget::Point(pos(1, 2)))),
        Intent::Cast { caster: priestess, ability: 0, aim: Some(CastTarget::Point(pos(1, 2))) }
    );
}

#[test]
fn guard_is_a_toggle() {
    let mut app = ui_app();
    let a = spawn_selected_footman(&mut app, pos(4, 4));
    app.press(key('G'));
    assert_eq!(
        app.said,
        vec![Intent::Leash { units: vec![a], anchor: Some(pos(4, 4)), radius: 18_000 }]
    );
    app.said.clear();
    app.w.sel_units[0].leash = Some(18_000);
    app.press(key('G'));
    assert_eq!(app.said, vec![Intent::Leash { units: vec![a], anchor: None, radius: 0 }]);
}

#[test]
fn fallback_rallies_at_the_nearest_hall() {
    let mut app = ui_app();
    let a = spawn_selected_footman(&mut app, pos(50, 50));
    app.hall(BuildingKind::TownHall, pos(-70, -70), false);
    app.hall(BuildingKind::Castle, pos(60, 60), false);
    app.press(key('V'));
    assert_eq!(
        app.said,
        vec![Intent::Retreat { units: vec![a], below: 350, rally: Some(pos(60, 60)) }]
    );
}

#[test]
fn the_priority_key_walks_the_presets() {
    let mut app = ui_app();
    let a = spawn_selected_footman(&mut app, pos(0, 0));
    app.press(key('P'));
    match &app.said[0] {
        Intent::Priority { units, classes } => {
            assert_eq!(units, &vec![a]);
            assert_eq!(classes[0], TargetClass::Hero);
        }
        other => panic!("not a priority: {other:?}"),
    }
    app.said.clear();
    app.w.sel_units[0].first_target = Some(TargetClass::Air);
    app.press(key('P'));
    assert_eq!(app.said, vec![Intent::Priority { units: vec![a], classes: Vec::new() }]);
}

#[test]
fn a_squad_can_be_stood_down() {
    let mut app = ui_app();
    spawn_selected_footman(&mut app, pos(0, 0));
    app.w.sel_units[0].squad = Some(3);
    app.w.postures.push((3, SquadPosture::Push { pos: pos(9, 9) }));
    app.press(key('I'));
    app.press(key('T'));
    assert_eq!(app.said, vec![Intent::Posture { id: 3, posture: None }]);
}

#[test]
fn a_template_keeps_its_other_pieces() {
    let mut app = ui_app();
    let barracks = app.select_building(BuildingKind::Barracks, pos(-60, -60));
    app.w.sel_buildings[0].template = Some(DoctrineTemplate {
        squad: Some(3),
        retreat: Some(350),
        priority: None,
        autocast: None,
    });
    app.press(key('I'));
    app.press(key('Q'));
    assert_eq!(
        app.said,
        vec![Intent::Template {
            building: barracks,
            squad: None,
            retreat: Some((350, pos(-70, -70))),
            priority: None,
            autocast: None,
        }]
    );
}

#[test]
fn production_buildings_train_and_research() {
    let mut app = ui_app();
    let barracks = app.select_building(BuildingKind::Barracks, pos(0, 0));
    app.press(key('W'));
    assert_eq!(app.said, vec![Intent::Train { building: barracks, unit: UnitKind::Archer }]);

    let mut app = ui_app();
    let forge = app.select_building(BuildingKind::Blacksmith, pos(0, 0));
    app.w.ladders = vec![
        Ladder {
            kind: ResearchKind::Attack,
            level: 1,
            next: Some(ResearchStep { level: 2, cost_gold: 150, cost_lumber: 100 }),
        },
        Ladder { kind: ResearchKind::Armor, level: 3, next: None },
    ];
    app.press(key('Q'));
    assert_eq!(
        app.said,
        vec![Intent::Research { building: forge, upgrade: ResearchKind::Attack }]
    );

    let mut app = ui_app();
    let hall = app.select_building(BuildingKind::TownHall, pos(0, 0));
    app.press(key('U'));
    assert_eq!(app.said, vec![Intent::Upgrade { building: hall }]);
    app.said.clear();
    app.press(key('C'));
    assert_eq!(app.said, vec![Intent::Cast { caster: hall, ability: 0, aim: None }]);
}

#[test]
fn a_forge_shows_what_it_is_busy_with() {
    let ladders = vec![
        Ladder {
            kind: ResearchKind::Attack,
            level: 0,
            next: Some(ResearchStep { level: 1, cost_gold: 100, cost_lumber: 50 }),
        },
        Ladder { kind: ResearchKind::Armor, level: 3, next: None },
    ];
    let offered = vec![ResearchKind::Attack, ResearchKind::Armor];
    let busy = Some(Researching { kind: ResearchKind::Attack, remaining: 15_000, total: 60_000 });
    let cmds = research_cmds(&offered, true, &ladders, busy);
    assert_eq!(cmds[0].in_progress, Some(75));
    assert!(!cmds[0].blocked);
    assert!(cmds[1].blocked);
    assert!(research_cmds(&offered, false, &ladders, busy).is_empty());

    let card = |cmds: Vec<ResearchCmd>| {
        entries_for(
            CardPage::Orders,
            0,
            false,
            Some((BuildingKind::Blacksmith, true)),
            &HeroCmds { research: cmds, ..no_cmds() },
            &blank_card(),
            &[],
        )
    };
    let entries = card(cmds);
    assert_eq!((entries[0].label.as_str(), entries[0].cost.as_str()), ("Attack 1", "75%"));
    assert_eq!((entries[1].label.as_str(), entries[1].cost.as_str()), ("Armor 3", "maxed"));
    let entries = card(research_cmds(&offered, true, &ladders, None));
    assert_eq!(entries[0].afford, Some((100, 50)));
    assert!(entries[0].enabled);
}

#[test]
fn heroes_are_hidden_while_held_and_dark_without_a_slot() {
    let price = |kind: UnitKind, revival: bool| HeroPrice { kind, gold: 400, lumber: 100, revival };
    let costs = || vec![price(UnitKind::Hero, true), price(UnitKind::Priestess, false)];
    let hall = |held: Vec<UnitKind>, tier: TechTier| {
        entries_for(
            CardPage::Orders,
            0,
            false,
            Some((BuildingKind::TownHall, true)),
            &HeroCmds { train: Some(HeroTrain { held, tier, costs: costs() }), ..no_cmds() },
            &blank_card(),
            &[],
        )
    };
    let fresh = hall(Vec::new(), TechTier::T1);
    assert_eq!(
        actions(&fresh),
        vec![
            CmdAction::Train(UnitKind::Worker),
            CmdAction::Train(UnitKind::Hero),
            CmdAction::Train(UnitKind::Priestess),
        ]
    );
    assert_eq!(fresh[1].label, "Revive");
    assert!(fresh[1].enabled);

    let full = hall(vec![UnitKind::Hero], TechTier::T1);
    assert_eq!(
        actions(&full),
        vec![CmdAction::Train(UnitKind::Worker), CmdAction::Train(UnitKind::Priestess)]
    );
    assert!(!full[1].enabled);
    assert_eq!(full[1].cost, "slots 1/1");
    assert!(hall(vec![UnitKind::Hero], TechTier::T2)[1].enabled);
}

#[test]
fn a_shop_sells_to_the_hero_last_looked_at() {
    let mut app = ui_app();
    let hero = app.hero_with(ItemId::HealingPotion);
    app.frame(false, false, &[], &[]);
    assert_eq!(app.ui.last_hero, Some(hero));
    app.w.sel_units.clear();
    let shop = app.select_building(BuildingKind::Shop, pos(0, 0));
    app.press(key('Q'));
    assert_eq!(app.said, vec![Intent::Buy { shop, item: ItemId::HealingPotion, hero }]);
}

#[test]
fn registries_answer_for_what_they_hold() {
    let hk = hotkeys();
    assert_eq!(hk.key(Action::TrainSlot(9)), None);
    assert_eq!(hk.key(Action::Stop), Some(key('S')));
    let empty = Hotkeys { rows: Vec::new(), builds: Vec::new() };
    assert_eq!(empty.bind(Action::Stop), Key::Escape);
}
