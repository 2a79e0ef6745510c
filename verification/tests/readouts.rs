//! The lines of the panel and the top bar.

use bridgehead::doctrine::{
    posture_kind, posture_tag, priority_component, sorted_doctrine, DoctrineState,
    DoctrineTemplate, PostureKind, PrioPreset, SquadPosture, TemplateView, UnitDoctrine,
};
use bridgehead::catalog::{TargetClass, UnitKind};
use bridgehead::map::Pos;
use bridgehead::motion::{order_destination, orders_to_movement, Order};
use bridgehead::readouts::{
    coverage_line, enemy_hero_line, has_trigger, link_line, mark_number, next_mark_name, plan_line,
    region_line, trigger_line, why_line, HeroIntel, HeroStatus, PlanRun, PlanState, Region,
    TriggerRule, MAX_REGIONS_PER_TEAM,
};
use bridgehead::text::{dec_text, join, push_fixed0, push_fixed1, push_padded};

fn region(name: &str, radius: i64) -> Region {
    Region { name: name.to_string(), key: name.to_string(), radius }
}

#[test]
fn marks_are_named_from_the_lowest_free_slot() {
    let mut regions: Vec<Region> = Vec::new();
    assert_eq!(next_mark_name(&regions).as_deref(), Some("mark 1"));
    regions.push(region("mark 1", 20_000));
    assert_eq!(next_mark_name(&regions).as_deref(), Some("mark 2"));
    regions.push(region("mark 3", 20_000));
    assert_eq!(next_mark_name(&regions).as_deref(), Some("mark 2"));
    assert_eq!(mark_number(&regions), Some(2));
    for n in 2..=MAX_REGIONS_PER_TEAM {
        let name = format!("mark {n}");
        if !regions.iter().any(|r| r.name == name) {
            regions.push(region(&name, 20_000));
        }
    }
    assert_eq!(next_mark_name(&regions), None);
}

#[test]
fn the_region_readout_names_every_mark_and_its_size() {
    let mut regions: Vec<Region> = Vec::new();
    assert_eq!(region_line(&regions), "", "no marks, no line");
    regions.push(region("mark 1", 20_000));
    regions.push(region("mark 2", 26_000));
    assert_eq!(region_line(&regions), "Regions: mark 1 r20  mark 2 r26");
    assert!(!region_line(&regions).contains("their plan"));
}

#[test]
fn the_trigger_readout_names_every_rule_and_its_state() {
    let rule = |name: &str, repeat: Option<i64>, armed: bool, last: Option<i64>| TriggerRule {
        name: name.to_string(),
        armed,
        repeat,
        last_fired: last,
    };
    let mut triggers: Vec<TriggerRule> = Vec::new();
    assert_eq!(trigger_line(&triggers, 0), "", "silent until there is one");

    triggers.push(rule("home-guard", Some(30_000), true, None));
    triggers.push(rule("hero-save", None, false, Some(12_000)));
    triggers.push(rule("alarm", Some(60_000), true, Some(90_000)));
    assert_eq!(
        trigger_line(&triggers, 100_000),
        "Triggers: home-guard  hero-save (spent)  alarm (cooling)"
    );
    assert!(!trigger_line(&triggers, 100_000).contains("theirs"));
    assert!(has_trigger(&triggers, "home-guard"));
    assert!(!has_trigger(&triggers, "hero-save"), "a spent rule is not armed");
    assert!(!has_trigger(&triggers, "home"));
}

#[test]
fn the_plan_readout_names_every_plan_its_step_and_why_it_stopped() {
    let make = |name: &str, steps: usize, at: usize, state: PlanState| PlanRun {
        name: name.to_string(),
        step_no: at + 1,
        steps,
        state,
    };
    let mut plans: Vec<PlanRun> = Vec::new();
    assert_eq!(plan_line(&plans), "", "silent until there is one");

    plans.push(make("opening", 5, 1, PlanState::Running));
    assert_eq!(plan_line(&plans), "Plans: opening 2/5");

    plans.push(make("boom", 3, 2, PlanState::Blocked("not enough gold".to_string())));
    assert_eq!(
        plan_line(&plans),
        "Plans: opening 2/5  boom 3/3 (blocked: not enough gold)"
    );

    plans[1].state = PlanState::Halted(
        "site (56.0, -56.0) is blocked for TownHall; try (49.0, -56.0)".to_string(),
    );
    let line = plan_line(&plans);
    assert!(
        line.contains("boom 3/3 (halted: site (56.0, -56.0) is blocked for \u{2026})"),
        "{line}"
    );
    assert!(line.starts_with("Plans: opening 2/5"), "{line}");

    plans[0].state = PlanState::Done;
    assert!(plan_line(&plans).contains("opening 2/5 (done)"));
    assert!(!plan_line(&plans).contains("theirs"));
}

#[test]
fn the_enemy_hero_line_reports_belief_and_never_a_level() {
    let unmet = |name: &'static str| HeroIntel { name, status: HeroStatus::Unknown, t_seen: None };
    let mut intel = vec![unmet("Hero"), unmet("Priestess")];
    assert_eq!(enemy_hero_line(&intel, 100_000), "", "silent until one has been seen");

    intel[0] = HeroIntel { name: "Hero", status: HeroStatus::Alive, t_seen: Some(0) };
    let line = enemy_hero_line(&intel, 40_000);
    assert_eq!(line, "Their heroes: Hero alive 40s ago");
    assert!(!line.contains("Priestess"));

    intel[1] = HeroIntel { name: "Priestess", status: HeroStatus::SeenDying, t_seen: Some(0) };
    let line = enemy_hero_line(&intel, 40_000);
    assert_eq!(line, "Their heroes: Hero alive 40s ago   Priestess down");
    for forbidden in ["Lv", "level", "mana", "XP"] {
        assert!(!line.contains(forbidden), "leaked {forbidden}: {line}");
    }
}

#[test]
fn a_sighting_dated_after_now_is_fresh() {
    let at = |t: i64| vec![HeroIntel { name: "Hero", status: HeroStatus::Alive, t_seen: Some(t) }];
    assert_eq!(enemy_hero_line(&at(9_000), 4_000), "Their heroes: Hero alive 0s ago");
    assert_eq!(enemy_hero_line(&at(-2_000), 1_000), "Their heroes: Hero alive 3s ago");
}

#[test]
fn the_link_readout_leads_with_the_slowest_unit_in_the_selection() {
    let none: Vec<i32> = Vec::new();
    assert_eq!(link_line(&vec![1_200, 1_200, 1_200], &none), "Link: 1.2s x3");
    assert_eq!(link_line(&vec![0, 2_400, 0, 0], &none), "Link: 2.4s   0.0s x3");
    let spread = link_line(&vec![0, 1_000, 2_000, 3_000], &none);
    assert!(
        spread.starts_with("Link: 3.0s   2.0s") && spread.ends_with("(+2 more)"),
        "a strung-out selection should still lead with its worst: {spread}"
    );
    assert_eq!(
        link_line(&vec![1_800, 1_800], &vec![1_800, 900]),
        "Link: 1.8s x2   \u{b7}   2 in transit (1.8s)"
    );
    assert_eq!(link_line(&none, &none), "");
}

#[test]
fn the_hud_says_nothing_at_all_when_the_chain_of_command_is_off() {
    assert_eq!(coverage_line(false, 3, 8, 12), "");
    assert_eq!(coverage_line(true, 3, 8, 12), "Chain: 3 nodes \u{b7} 8/12 in reach");
    assert_eq!(coverage_line(true, 1, 0, 4), "Chain: 1 node \u{b7} 0/4 in reach");
}

#[test]
fn every_delayable_order_names_a_place_to_draw_its_marker() {
    let target = Pos { x: 12_000, z: -4_000 };
    let somewhere = Pos { x: 30_000, z: 30_000 };
    let at = Some(target);

    assert_eq!(order_destination(Order::Move(somewhere), at), Some(somewhere));
    assert_eq!(order_destination(Order::AttackMove(somewhere), at), Some(somewhere));
    assert_eq!(order_destination(Order::Build(somewhere), at), Some(somewhere));
    assert_eq!(order_destination(Order::Attack(7), at), Some(target));
    assert_eq!(order_destination(Order::Harvest(7), at), Some(target));
    assert_eq!(order_destination(Order::Follow(7), at), Some(target));
    assert_eq!(order_destination(Order::Attack(7), None), None);

    assert_eq!(order_destination(Order::Idle, at), None);
    assert_eq!(order_destination(Order::ReturnResources, at), None);

    assert_eq!(orders_to_movement(Order::AttackMove(somewhere)), Some(somewhere));
    assert_eq!(orders_to_movement(Order::Attack(7)), None);
}

#[test]
fn reasons_are_tallied_most_common_first() {
    let say = |list: &[&str]| why_line(&list.iter().map(|s| s.to_string()).collect());
    assert_eq!(say(&[]), "");
    let line = say(&["order: move", "posture: push", "order: move"]);
    assert!(line.find("order: move").unwrap() < line.find("posture: push").unwrap(), "{line}");
}

#[test]
fn reasons_read_the_same_in_any_order() {
    let say = |list: &[&str]| why_line(&list.iter().map(|s| s.to_string()).collect());
    let line = say(&["order: move", "posture: push", "order: move"]);
    assert_eq!(say(&["posture: push", "order: move", "order: move"]), line);
    assert_eq!(say(&["order: move", "order: move", "posture: push"]), line);
    assert!(line.starts_with("Why: order: move x2"), "{line}");
    assert_eq!(say(&["order: move"]), "Why: order: move");
    assert_eq!(say(&["order: move", "order: move"]), "Why: order: move", "one mind, no count");
}

#[test]
fn the_doctrine_line_says_what_most_of_the_selection_carries() {
    let unit = |leash: Option<i64>, retreat: Option<i64>, squad: Option<u8>| {
        UnitDoctrine::read(leash, retreat, None, None, UnitKind::Footman, false, squad)
    };
    let doc = DoctrineState::of(&vec![unit(Some(18_000), Some(350), None), unit(None, None, None)]);
    assert!(doc.guard_active(), "half counts");
    assert_eq!(doc.leash_value(), Some(18_000));
    assert_eq!(doc.fallback_value(), Some(350));
    let one_of_three = DoctrineState::of(&vec![
        unit(Some(18_000), None, None),
        unit(None, None, None),
        unit(None, None, None),
    ]);
    assert!(!one_of_three.guard_active());
    assert_eq!(DoctrineState::empty().units, 0);
}

#[test]
fn the_first_unit_speaks_for_the_squad() {
    let of = |squad: Option<u8>| {
        UnitDoctrine::read(None, None, None, None, UnitKind::Footman, false, squad)
    };
    let loose = DoctrineState::of(&vec![of(None), of(Some(2))]);
    assert_eq!((loose.squad, loose.units, loose.in_squad), (None, 2, 0));
    let led = DoctrineState::of(&vec![of(Some(2)), of(None), of(Some(2)), of(Some(1))]);
    assert_eq!((led.squad, led.units, led.in_squad), (Some(2), 4, 2));
    assert_eq!(DoctrineState::of(&Vec::new()).squad, None);
}

#[test]
fn the_first_unit_of_a_selection_is_the_first_by_slot() {
    let of = |squad: u8| {
        UnitDoctrine::read(None, None, None, None, UnitKind::Footman, false, Some(squad))
    };
    let sorted = sorted_doctrine(&vec![(9, of(1)), (2, of(2)), (5, of(3))]);
    let squads: Vec<Option<u8>> = sorted.iter().map(|u| u.squad).collect();
    assert_eq!(squads, vec![Some(2), Some(3), Some(1)]);
}

#[test]
fn presets_cycle_and_read_back() {
    let mut p = PrioPreset::Off;
    for want in [
        PrioPreset::HuntHero,
        PrioPreset::KillArchers,
        PrioPreset::Siege,
        PrioPreset::AntiAir,
        PrioPreset::Off,
    ] {
        p = p.next();
        assert_eq!(p, want);
        assert_eq!(PrioPreset::of(p.classes().first().copied()), p);
    }
    assert!(priority_component(PrioPreset::Off).is_none());
    assert_eq!(priority_component(PrioPreset::Siege).unwrap()[0], TargetClass::Building);
    assert_eq!(PrioPreset::AntiAir.label(), "Anti-Air");
    assert_eq!(PrioPreset::AntiAir.tag(), "AntiAir");
}

#[test]
fn postures_have_names() {
    let at = Pos { x: 0, z: 0 };
    assert_eq!(posture_kind(SquadPosture::Forage { muster: at }), PostureKind::Forage);
    assert_eq!(PostureKind::Escort.label(), "Escort");
    assert!(PostureKind::Escort.needs_unit());
    assert!(!PostureKind::Push.needs_unit());
    assert!(posture_tag(SquadPosture::Push { pos: at }).starts_with("push"));
}

#[test]
fn a_template_says_only_what_it_holds() {
    let t = TemplateView::read(
        true,
        &Some(DoctrineTemplate {
            squad: Some(2),
            retreat: None,
            priority: Some(PrioPreset::Siege.classes()),
            autocast: Some(3),
        }),
    );
    assert!(!t.is_empty());
    assert_eq!((t.squad, t.prio, t.autocast), (Some(2), PrioPreset::Siege, true));
    assert!(TemplateView::fresh(true).is_empty());
}

#[test]
fn numbers_are_written_as_they_should_be() {
    let f0 = |n: i64| {
        let mut s = String::new();
        push_fixed0(&mut s, n);
        s
    };
    let f1 = |n: i64| {
        let mut s = String::new();
        push_fixed1(&mut s, n);
        s
    };
    assert_eq!(f0(2_500), "2");
    assert_eq!(f0(3_500), "4");
    assert_eq!(f0(-1_600), "-2");
    assert_eq!(f1(1_250), "1.2");
    assert_eq!(f1(1_350), "1.4");
    assert_eq!(f1(-40), "-0.0");
    assert_eq!(dec_text(0), "0");
    assert_eq!(dec_text(18_446_744_073_709_551_615), "18446744073709551615");
    let mut s = String::new();
    push_padded(&mut s, 7, 4);
    assert_eq!(s, "0007");
    assert_eq!(join(&vec!["a".to_string(), "b".to_string()], ", "), "a, b");
}
