//! The screen: alerts, proposals, the console, the fog and the screenshots.

use bridgehead::alerts::{
    focus_hint, notif_alpha, notification_input, ping_shape, severity_color, severity_rank,
    update_notifications, AlertPing, EventSeverity, GameEvent, Notifications, Rgb, NOTIF_SLOTS,
    PING_LIFETIME, PING_MAX_PX, PING_MIN_PX,
};
use bridgehead::cues::{cue_tones, frame_wav, muted, tone_samples, CUE_RATE};
use bridgehead::fog::{
    apply_fog_tint, fog_alpha, fog_shade, intel_fade_step, node_shown, paint_fog, shown_in_fog,
    CellVis, INTEL_FADE_STEPS,
};
use bridgehead::catalog::ResourceKind;
use bridgehead::layout::{
    cursor_over_hud, hud_layout, minimap_rect, minimap_to_world, notif_rect, notif_width,
    prop_rect, prop_width, world_to_minimap, HudLayout, Window, CARD_H, CMD_GAP, CMD_PAGE_LINE_H, CMD_PX,
    MINIMAP_CHROME, MINIMAP_MIN_PX, MINIMAP_PX, NOTIF_MAX_FRAC, PAD, PROP_MAX_FRAC, PROP_W,
};
use bridgehead::map::Pos;
use bridgehead::nav::{Cell, NavGrid};
use bridgehead::proposals::{
    accent_of, proposal_body, proposal_head, proposal_input, publish_cards, veto_reason, Answers,
    Proposal, ProposalVerdict, Verdict, VetoReason,
};
use bridgehead::shots::{shot_dir_from, shot_name, shot_schedule, shots_due, split_fields};
use bridgehead::ui_state::{Px, UiState};
use std::collections::VecDeque;

// ---------------------------------------------------------------------------
// Alerts
// ---------------------------------------------------------------------------

fn quiet() -> Notifications {
    Notifications { seen: 0, live: VecDeque::new(), focus_cursor: 0 }
}

fn event(seq: u64, message: &str, severity: EventSeverity, pos: Option<Pos>) -> GameEvent {
    GameEvent { seq, message: message.to_string(), severity, pos }
}

#[test]
fn a_refused_gesture_shows_up_in_the_alert_stack() {
    let mut ui = UiState::new();
    let mut notes = quiet();
    let mut pings: Vec<AlertPing> = Vec::new();
    let message = "order refused: target 41 not found";
    let feed = vec![event(1, message, EventSeverity::Warning, None)];
    update_notifications(&feed, 0, &mut notes, &mut pings, &mut ui);

    assert_eq!(notes.live.len(), 1, "the refusal reached the stack");
    assert_eq!(notes.live[0].message, message);
    assert_eq!(notes.live[0].severity, EventSeverity::Warning);
    assert_eq!(severity_color(notes.live[0].severity), Rgb { r: 1_000, g: 860, b: 350 });
    assert_eq!(notes.live[0].pos, None);
    assert_eq!(ui.notif_rows, 1);

    update_notifications(&feed, 16, &mut notes, &mut pings, &mut ui);
    assert_eq!(notes.live.len(), 1);
}

#[test]
fn a_ping_expands_and_fades_over_its_life() {
    let (born_px, born_a) = ping_shape(0);
    let (mid_px, mid_a) = ping_shape(PING_LIFETIME / 2);
    let (dead_px, dead_a) = ping_shape(PING_LIFETIME);

    assert_eq!(born_px, PING_MIN_PX);
    assert_eq!(born_a, 1_000);
    assert_eq!(dead_px, PING_MAX_PX);
    assert_eq!(dead_a, 0);
    assert!(born_px < mid_px && mid_px < dead_px, "the ring must expand");
    assert!(born_a > mid_a && mid_a > dead_a, "the ring must fade");
    assert!(
        mid_px > (PING_MIN_PX + PING_MAX_PX) / 2,
        "the expansion is not front-loaded: {mid_px}"
    );
    assert_eq!((mid_px, mid_a), (26_750, 500));
    assert_eq!(ping_shape(PING_LIFETIME * 10), (PING_MAX_PX, 0));
}

#[test]
fn the_loudest_severity_wins_a_shared_frame() {
    assert!(severity_rank(EventSeverity::Critical) > severity_rank(EventSeverity::Warning));
    assert!(severity_rank(EventSeverity::Warning) > severity_rank(EventSeverity::Info));

    let mut ui = UiState::new();
    let mut notes = quiet();
    let mut pings: Vec<AlertPing> = Vec::new();
    let feed = vec![
        event(1, "a", EventSeverity::Info, None),
        event(2, "b", EventSeverity::Critical, None),
        event(3, "c", EventSeverity::Warning, None),
    ];
    assert_eq!(
        update_notifications(&feed, 0, &mut notes, &mut pings, &mut ui),
        Some(EventSeverity::Critical)
    );
    assert_eq!(update_notifications(&feed, 1, &mut notes, &mut pings, &mut ui), None);
}

#[test]
fn only_a_located_alert_earns_a_ping() {
    let mut ui = UiState::new();
    let mut notes = quiet();
    let mut pings: Vec<AlertPing> = Vec::new();
    let at = Pos { x: 20_000, z: -40_000 };
    let feed = vec![
        event(1, "somewhere", EventSeverity::Critical, Some(at)),
        event(2, "nowhere", EventSeverity::Info, None),
    ];
    update_notifications(&feed, 0, &mut notes, &mut pings, &mut ui);

    assert_eq!(pings.len(), 1, "one located alert, one ring");
    assert_eq!(pings[0].pos, at);
    assert_eq!(pings[0].severity, EventSeverity::Critical);
    assert_eq!(notes.live.len(), 2);
}

#[test]
fn the_stack_keeps_the_newest_and_lets_the_old_go() {
    let mut ui = UiState::new();
    let mut notes = quiet();
    let mut pings: Vec<AlertPing> = Vec::new();
    let feed: Vec<GameEvent> = (1..=8u64)
        .map(|n| event(n, &format!("alert {n}"), EventSeverity::Info, None))
        .collect();
    update_notifications(&feed, 1_000, &mut notes, &mut pings, &mut ui);
    assert_eq!(notes.live.len(), NOTIF_SLOTS);
    assert_eq!(notes.live[0].message, "alert 8");
    update_notifications(&feed, 10_000, &mut notes, &mut pings, &mut ui);
    assert_eq!(notes.live.len(), 0, "nine seconds is a row's life");
    assert_eq!(ui.notif_rows, 0);
    assert_eq!(notif_alpha(0), 1_000);
    assert_eq!(notif_alpha(7_750), 500);
    assert_eq!(notif_alpha(9_000), 0);
}

#[test]
fn the_focus_key_is_named_while_there_is_an_alert() {
    assert_eq!(focus_hint(0), "");
    assert_eq!(focus_hint(2), "[Space] focus alert");
}

#[test]
fn the_focus_key_walks_the_alerts_that_have_a_place() {
    let mut ui = UiState::new();
    let mut notes = quiet();
    let mut pings: Vec<AlertPing> = Vec::new();
    let a = Pos { x: 1_000, z: 0 };
    let b = Pos { x: 2_000, z: 0 };
    let feed = vec![
        event(1, "a", EventSeverity::Info, Some(a)),
        event(2, "x", EventSeverity::Info, None),
        event(3, "b", EventSeverity::Info, Some(b)),
    ];
    update_notifications(&feed, 0, &mut notes, &mut pings, &mut ui);
    let none: Vec<usize> = Vec::new();
    assert_eq!(notification_input(&mut notes, false, &none, true), Some(b));
    assert_eq!(notification_input(&mut notes, false, &none, true), Some(a));
    assert_eq!(notification_input(&mut notes, true, &none, true), None);
    assert_eq!(notification_input(&mut notes, false, &vec![2], false), Some(a));
}

/// A struck note: a quick attack, a straight decay, and a little of the octave.
fn synth(severity: EventSeverity) -> Vec<u8> {
    let mut samples: Vec<i16> = Vec::new();
    for tone in cue_tones(severity) {
        let n = tone_samples(&tone);
        for i in 0..n {
            let t = i as f32 / CUE_RATE as f32;
            let attack = (t / 0.006).clamp(0.0, 1.0);
            let decay = 1.0 - (i as f32 / n as f32);
            let phase = std::f32::consts::TAU * tone.hz as f32 * t;
            let wave = phase.sin() + 0.25 * (2.0 * phase).sin();
            let v = wave * (tone.gain as f32 / 1_000.0) * attack * decay * 0.8;
            samples.push((v.clamp(-1.0, 1.0) * i16::MAX as f32) as i16);
        }
    }
    frame_wav(&samples)
}

#[test]
fn a_synthesized_cue_is_a_wav_with_sound_in_it() {
    for severity in [EventSeverity::Info, EventSeverity::Warning, EventSeverity::Critical] {
        let wav = synth(severity);
        assert_eq!(&wav[0..4], b"RIFF", "{severity:?}: not a RIFF file");
        assert_eq!(&wav[8..12], b"WAVE", "{severity:?}: not a WAVE file");
        assert_eq!(&wav[36..40], b"data", "{severity:?}: no data chunk");

        let data_len = u32::from_le_bytes(wav[40..44].try_into().unwrap()) as usize;
        assert_eq!(data_len, wav.len() - 44, "{severity:?}: data length lies");
        let riff_len = u32::from_le_bytes(wav[4..8].try_into().unwrap()) as usize;
        assert_eq!(riff_len, wav.len() - 8, "{severity:?}: RIFF length lies");

        let peak = wav[44..]
            .chunks_exact(2)
            .map(|s| i16::from_le_bytes([s[0], s[1]]).unsigned_abs())
            .max()
            .unwrap_or(0);
        assert!(peak > 2000, "{severity:?}: peak amplitude {peak} is silence");

        let secs = (data_len / 2) as f32 / CUE_RATE as f32;
        assert!((0.05..0.5).contains(&secs), "{severity:?}: {secs}s is not a cue");
        let first = i16::from_le_bytes([wav[44], wav[45]]).unsigned_abs();
        assert!(first < 200, "{severity:?}: opens on a step of {first}");
    }
}

#[test]
fn a_wav_holds_its_samples() {
    let wav = frame_wav(&vec![1, -2, 300]);
    assert_eq!(wav.len(), 50);
    assert_eq!(&wav[12..16], b"fmt ");
    assert_eq!(u32::from_le_bytes(wav[24..28].try_into().unwrap()), CUE_RATE);
    assert_eq!(&wav[44..50], &[1, 0, 254, 255, 44, 1]);
}

#[test]
fn muting_takes_a_word_that_is_not_nought() {
    assert!(!muted(None));
    assert!(!muted(Some("")));
    assert!(!muted(Some("0")));
    assert!(muted(Some("1")));
    assert!(muted(Some("yes")));
}

// ---------------------------------------------------------------------------
// Proposals
// ---------------------------------------------------------------------------

const PROPOSAL_TTL: u32 = 20_000;

fn a_proposal(id: u32, note: &str, sentences: &[&str], conflicts: &[&str]) -> Proposal {
    Proposal {
        id,
        note: note.to_string(),
        sentences: sentences.iter().map(|s| s.to_string()).collect(),
        conflicts: conflicts.iter().map(|s| s.to_string()).collect(),
        urgent: false,
        proposed_at: 0,
        expires_at: PROPOSAL_TTL as u64,
    }
}

fn urgent(mut proposal: Proposal) -> Proposal {
    proposal.urgent = true;
    proposal
}

fn keys(ctrl: bool, shift: bool, approve: bool, veto: bool) -> Answers {
    Answers { ctrl, shift, approve, veto, clicks: Vec::new() }
}

#[test]
fn enter_approves_the_top_proposal_and_backspace_vetoes_it() {
    let pending = vec![
        a_proposal(7, "take the ford", &["3 units attack-move to (0.0, 0.0)"], &[]),
        a_proposal(8, "and build a tower", &["worker 41 builds Tower at (1.0, 2.0)"], &[]),
    ];
    let said = proposal_input(false, true, &pending, &keys(false, false, true, false));
    assert_eq!(said.len(), 1, "one key, one verdict");
    assert_eq!(said[0].id, 7);
    assert_eq!(said[0].verdict, Verdict::Approve);

    let pending = vec![a_proposal(7, "spend it all", &["x"], &[])];
    let said = proposal_input(false, true, &pending, &keys(false, false, false, true));
    assert_eq!(said.len(), 1);
    assert_eq!((said[0].id, said[0].verdict), (7, Verdict::Veto(VetoReason::NotNow)));
}

#[test]
fn the_held_modifier_picks_which_no_the_veto_is() {
    let cases = [
        (false, false, VetoReason::NotNow),
        (false, true, VetoReason::WrongTarget),
        (true, false, VetoReason::Never),
        (true, true, VetoReason::Never),
    ];
    for (ctrl, shift, want) in cases {
        let pending = vec![a_proposal(7, "hit their siege", &["x"], &[])];
        let said = proposal_input(false, true, &pending, &keys(ctrl, shift, false, true));
        assert_eq!(said.len(), 1, "ctrl {ctrl}, shift {shift}");
        assert_eq!(said[0].verdict, Verdict::Veto(want), "ctrl {ctrl}, shift {shift}");
        assert_eq!(veto_reason(ctrl, shift), want);
    }
    let pending = vec![a_proposal(7, "x", &["x"], &[])];
    let said = proposal_input(false, true, &pending, &keys(true, false, true, false));
    assert_eq!(said[0].verdict, Verdict::Approve);
}

#[test]
fn the_top_card_names_all_three_answers() {
    let top = proposal_head(&a_proposal(3, "counter now", &["x"], &[]), 0, 0, PROPOSAL_TTL);
    for word in ["[Enter] approve", "[Bksp] not now", "+Shift wrong target", "+Ctrl never"] {
        assert!(top.contains(word), "top card must say {word:?}: {top:?}");
    }
    let second = proposal_head(&a_proposal(4, "and expand", &["y"], &[]), 1, 0, PROPOSAL_TTL);
    assert!(!second.contains("[Enter]"), "got {second:?}");
    assert!(second.starts_with("#4  copilot"), "got {second:?}");
    assert_eq!(
        proposal_head(&a_proposal(4, "", &[], &[]), 1, 3_400, PROPOSAL_TTL),
        "#4  copilot   17s left   (3/20)"
    );
}

#[test]
fn an_urgent_card_wears_the_warning_tint() {
    assert_eq!(
        accent_of(true),
        severity_color(EventSeverity::Warning),
        "the urgent tint IS the warning colour, not a lookalike"
    );
    assert_eq!(accent_of(false), Rgb { r: 680, g: 630, b: 1_000 });
    assert_ne!(accent_of(false), accent_of(true));
    let first = urgent(a_proposal(9, "they are flanking", &["x"], &[]));
    let second = a_proposal(10, "expand north", &["y"], &[]);
    assert!(proposal_head(&first, 0, 0, PROPOSAL_TTL).contains("URGENT"));
    assert!(!proposal_head(&second, 1, 0, PROPOSAL_TTL).contains("URGENT"));
}

#[test]
fn a_proposal_dated_after_now_shows_a_wait_below_zero() {
    let mut p = a_proposal(3, "x", &["x"], &[]);
    p.proposed_at = 10_000;
    p.expires_at = 10_000 + PROPOSAL_TTL as u64;
    let wait = |now: u64| {
        let head = proposal_head(&p, 1, now, PROPOSAL_TTL);
        let (_, rest) = head.split_once('(').unwrap();
        rest.split_once('/').unwrap().0.to_string()
    };
    assert_eq!(wait(12_600), "3");
    assert_eq!(wait(10_000), "0");
    assert_eq!(wait(9_700), "-0");
    assert_eq!(wait(9_500), "-1");
    assert_eq!(wait(4_000), "-6");
    assert_eq!(wait(10_000_000), (PROPOSAL_TTL / 1_000).to_string());
}

#[test]
fn the_veto_button_reads_the_modifiers_too() {
    let pending = vec![a_proposal(7, "x", &["x"], &[])];
    let click = Answers {
        ctrl: false,
        shift: true,
        approve: false,
        veto: false,
        clicks: vec![(0, false)],
    };
    let said = proposal_input(false, true, &pending, &click);
    assert_eq!(
        said,
        vec![ProposalVerdict { id: 7, verdict: Verdict::Veto(VetoReason::WrongTarget) }],
        "a shift-click on veto is the same sentence as shift-Backspace"
    );
}

#[test]
fn the_keys_are_inert_with_an_empty_queue() {
    let pending: Vec<Proposal> = Vec::new();
    assert!(proposal_input(false, true, &pending, &keys(false, false, true, false)).is_empty());
    let mut ui = UiState::new();
    publish_cards(&pending, &mut ui);
    assert_eq!(ui.prop_cards, 0);

    let one = vec![a_proposal(7, "x", &["x"], &[])];
    let yes = keys(false, false, true, false);
    assert!(proposal_input(true, true, &one, &yes).is_empty(), "the match is over");
    assert!(proposal_input(false, false, &one, &yes).is_empty(), "nobody is seated");
}

#[test]
fn a_card_shows_the_note_the_sentences_and_the_conflicts() {
    let pending = vec![a_proposal(
        3,
        "their push is committed \u{2014} counter now",
        &["squad 1 pushes to (40.0, 40.0)", "4 units focus Siege"],
        &["re-tasks squad 1 (defend)"],
    )];
    let head = proposal_head(&pending[0], 0, 0, PROPOSAL_TTL);
    let body = proposal_body(&pending[0]);

    assert!(head.starts_with("#3  copilot"), "got {head:?}");
    assert!(head.contains("[Enter] approve"), "the top card names its keys");
    assert_eq!(pending[0].note, "their push is committed \u{2014} counter now");
    assert!(body.contains("- squad 1 pushes to (40.0, 40.0)"));
    assert!(body.contains("- 4 units focus Siege"));
    assert!(body.contains("! re-tasks squad 1 (defend)"), "got {body:?}");
    assert!(head.is_ascii() && body.is_ascii(), "{head:?} / {body:?}");
    let mut ui = UiState::new();
    publish_cards(&pending, &mut ui);
    assert_eq!(ui.prop_cards, 1);
}

// ---------------------------------------------------------------------------
// The console
// ---------------------------------------------------------------------------

const SIZES: [(i32, i32); 8] = [
    (2560, 1440),
    (1920, 1080),
    (1280, 800),
    (1024, 768),
    (900, 700),
    (800, 600),
    (700, 520),
    (640, 480),
];

fn window(w: i32, h: i32) -> Window {
    Window { width: w * 1_000, height: h * 1_000 }
}

fn layout(w: i32, h: i32) -> HudLayout {
    hud_layout(window(w, h))
}

#[test]
fn the_minimap_always_fits_inside_the_console_it_lives_in() {
    for (w, h) in SIZES {
        let hud = layout(w, h);
        assert!(
            hud.minimap_px + MINIMAP_CHROME <= hud.console_h,
            "{w}x{h}: a {} minimap plus {MINIMAP_CHROME} of chrome does not fit a {} console",
            hud.minimap_px,
            hud.console_h
        );
    }
}

#[test]
fn the_command_card_grid_is_never_clipped_by_a_short_window() {
    let card_h = 3 * CMD_PX + 2 * CMD_GAP + CMD_PAGE_LINE_H + 2 * PAD;
    assert_eq!(card_h, CARD_H);
    for (w, h) in SIZES {
        let hud = layout(w, h);
        assert!(
            hud.console_h >= card_h,
            "{w}x{h}: console {} is shorter than the {card_h} the build menu needs",
            hud.console_h
        );
    }
    assert!(layout(800, 400).console_h >= card_h);
}

#[test]
fn the_console_never_eats_more_than_it_has_to() {
    for (w, h) in SIZES {
        let hud = layout(w, h);
        assert!(
            hud.console_h <= MINIMAP_PX + MINIMAP_CHROME,
            "{w}x{h}: console {} grew past full size",
            hud.console_h
        );
        assert!(
            hud.minimap_px >= MINIMAP_MIN_PX && hud.minimap_px <= MINIMAP_PX,
            "{w}x{h}: minimap {} left its legibility range",
            hud.minimap_px
        );
    }
    assert_eq!(layout(1920, 1080), layout(1280, 800));
    assert_eq!(layout(1920, 1080), HudLayout::default());
    assert_eq!(layout(1920, 1080), HudLayout { console_h: 202_000, minimap_px: 184_000 });
}

#[test]
fn minimap_coordinates_round_trip_at_every_size() {
    for (w, h) in SIZES {
        let px = layout(w, h).minimap_px;
        for p in [
            Pos { x: -100_000, z: -100_000 },
            Pos { x: 100_000, z: 100_000 },
            Pos { x: 37_000, z: -61_000 },
            Pos { x: 0, z: 0 },
        ] {
            let (u, v) = world_to_minimap(p, px);
            let back = minimap_to_world(u, v, px);
            assert!(
                (back.x - p.x).abs() < 10 && (back.z - p.z).abs() < 10,
                "{w}x{h} ({px}): {p:?} came back as {back:?}"
            );
        }
    }
}

#[test]
fn the_alert_stack_and_the_proposal_panel_cannot_collide() {
    assert!(NOTIF_MAX_FRAC + PROP_MAX_FRAC <= 100);
    for (w, h) in SIZES {
        let notif = notif_width(window(w, h));
        let prop = PROP_W.min(w as i64 * 10 * PROP_MAX_FRAC);
        assert!(
            notif + prop + 2 * PAD <= w as i64 * 1_000,
            "{w} wide: {notif} of alerts and {prop} of proposals do not fit"
        );
        let a = notif_rect(window(w, h), 6).unwrap();
        let b = prop_rect(window(w, h), 4).unwrap();
        assert!(b.x1 <= a.x0, "{w} wide: the panels overlap");
    }
    assert_eq!(notif_rect(window(800, 600), 0), None);
    assert_eq!(prop_rect(window(800, 600), 0), None);
}

#[test]
fn the_floating_panels_share_a_narrow_window() {
    for w in 0..500 {
        let narrow = window(w, 600);
        let a = notif_rect(narrow, 1).unwrap();
        let b = prop_rect(narrow, 1).unwrap();
        assert!(b.x0 <= b.x1 && b.x1 <= a.x0, "{w} wide: the panels overlap");
        assert_eq!((b.x1 - b.x0) as i64, prop_width(narrow));
    }
    assert_eq!(prop_width(window(1_280, 800)), PROP_W);
    let a = notif_rect(window(300, 600), 1).unwrap();
    let b = prop_rect(window(300, 600), 1).unwrap();
    assert_eq!((b.x0, b.x1, a.x0), (8_000, 136_000, 136_000));
}

#[test]
fn the_hud_is_not_the_battlefield() {
    let win = window(1280, 800);
    let hud = hud_layout(win);
    let over = |x: i32, y: i32, rows: usize, cards: usize| {
        cursor_over_hud(Px { x: x * 1_000, y: y * 1_000 }, win, rows, cards, hud)
    };
    assert!(over(600, 10, 0, 0), "the top bar");
    assert!(over(600, 700, 0, 0), "the console");
    assert!(!over(600, 300, 0, 0));
    assert!(!over(1_200, 60, 0, 0));
    assert!(over(1_200, 60, 2, 0), "an alert");
    assert!(!over(20, 60, 0, 0));
    assert!(over(20, 60, 0, 1), "a proposal");
    let map = minimap_rect(win, hud);
    assert_eq!((map.x0, map.y0), (8_000, 606_000));
    assert_eq!((map.x1, map.y1), (192_000, 790_000));
}

// ---------------------------------------------------------------------------
// Fog
// ---------------------------------------------------------------------------

#[test]
fn the_three_fog_states_are_three_clearly_separated_shades() {
    let vis = fog_alpha(CellVis::Visible);
    let expl = fog_alpha(CellVis::Explored);
    let unexp = fog_alpha(CellVis::Unexplored);

    assert_eq!(vis, 0, "what a team can see now is not dimmed at all");
    assert!(vis < expl && expl < unexp, "{vis} / {expl} / {unexp}");
    assert!(expl - vis > 250 && unexp - expl > 250, "{vis} / {expl} / {unexp}");
    assert_eq!((expl, unexp), (440, 880));
}

#[test]
fn the_fog_texture_carries_all_three_states_from_the_grid() {
    let mut cells = vec![CellVis::Unexplored; 10_000];
    cells[NavGrid::idx(Cell { x: 10, z: 10 })] = CellVis::Visible;
    cells[NavGrid::idx(Cell { x: 20, z: 20 })] = CellVis::Explored;
    let mut data = vec![9u8; 40_000];
    paint_fog(&cells, &mut data);
    let alpha_at = |x: usize, z: usize| data[NavGrid::idx(Cell { x, z }) * 4 + 3];

    assert_eq!(alpha_at(10, 10), 0, "a visible cell is not dimmed");
    assert_eq!(alpha_at(20, 20), 112, "a remembered cell wears the middle shade");
    assert_eq!(alpha_at(50, 50), 224, "unvisited ground stays dark");
    assert_eq!(&data[0..3], &[9, 9, 9], "the colours are left alone");
}

#[test]
fn the_scenery_tint_and_the_ground_overlay_are_one_darkness() {
    for cell in [CellVis::Unexplored, CellVis::Explored, CellVis::Visible] {
        assert_eq!(fog_alpha(cell) + fog_shade(cell), 1_000, "{cell:?} is not one darkness");
    }
    let (vis, expl, unexp) = (
        fog_shade(CellVis::Visible),
        fog_shade(CellVis::Explored),
        fog_shade(CellVis::Unexplored),
    );
    assert_eq!(vis, 1_000, "what a team can see now keeps its own colour");
    assert!(vis - expl > 250 && expl - unexp > 250, "{vis} / {expl} / {unexp}");
}

#[test]
fn a_doodad_wears_the_shade_of_the_cell_it_stands_in() {
    let mut cells = vec![CellVis::Unexplored; 10_000];
    // A canopy hangs over its trunk, so its place on the ground is the trunk's.
    let ground = Pos { x: 30_000, z: -30_000 };
    let cell = NavGrid::world_to_cell(ground).expect("on the map");
    assert_eq!(apply_fog_tint(&cells, ground), Some(CellVis::Unexplored));
    cells[NavGrid::idx(cell)] = CellVis::Explored;
    assert_eq!(apply_fog_tint(&cells, ground), Some(CellVis::Explored));
    cells[NavGrid::idx(cell)] = CellVis::Visible;
    assert_eq!(apply_fog_tint(&cells, ground), Some(CellVis::Visible));
    assert_eq!(apply_fog_tint(&cells, Pos { x: 0, z: 0 }), Some(CellVis::Unexplored));
    assert_eq!(apply_fog_tint(&cells, Pos { x: 100_000, z: 0 }), None);
}

#[test]
fn intel_markers_fade_across_the_whole_staleness_horizon() {
    let ttl: i64 = 90_000;
    assert_eq!(intel_fade_step(0, ttl), 0);
    assert_eq!(intel_fade_step(ttl - 100, ttl), INTEL_FADE_STEPS - 1);
    assert_eq!(intel_fade_step(ttl * 4, ttl), INTEL_FADE_STEPS - 1);
    let mut prev = 0;
    for i in 0..40 {
        let step = intel_fade_step(i * (ttl / 40), ttl);
        assert!(step >= prev, "fade went backwards at {i}");
        prev = step;
    }
}

#[test]
fn the_fog_hides_what_is_theirs() {
    assert!(shown_in_fog(true, false));
    assert!(shown_in_fog(false, true));
    assert!(!shown_in_fog(false, false));
    assert!(node_shown(ResourceKind::Gold, false), "mines are public");
    assert!(!node_shown(ResourceKind::Lumber, false));
    assert!(node_shown(ResourceKind::Lumber, true));
}

// ---------------------------------------------------------------------------
// Screenshots
// ---------------------------------------------------------------------------

#[test]
fn a_shot_is_named_for_the_moment_it_shows() {
    assert_eq!(shot_name(1754870400, 324_600, 1), "wc3-1754870400-t0324-01.png");
    assert_eq!(shot_name(1754870400, 324_900, 2), "wc3-1754870400-t0324-02.png");
    assert_ne!(
        shot_name(1754870400, 12_000, 1),
        shot_name(1754870999, 12_000, 1),
        "the wall-clock stamp is what keeps two runs apart"
    );
    assert_eq!(shot_name(7, 12_345_000, 3), "wc3-7-t12345-03.png");
}

#[test]
fn an_unset_or_blank_shot_dir_falls_back() {
    assert_eq!(shot_dir_from(Some("arena/r11/shots")), "arena/r11/shots");
    assert_eq!(shot_dir_from(None), "shots");
    assert_eq!(shot_dir_from(Some("")), "shots");
    assert_eq!(shot_dir_from(Some("   ")), "shots");
}

#[test]
fn a_schedule_is_read_in_order() {
    let fields = split_fields("30, 5,x,-1,5");
    assert_eq!(fields.len(), 5);
    assert_eq!(fields[1].trim(), "5");
    let read: Vec<Option<i64>> = fields
        .iter()
        .map(|f| f.trim().parse::<f64>().ok().map(|v| (v * 1_000.0) as i64))
        .collect();
    let queue = shot_schedule(&read);
    assert_eq!(queue, vec![5_000, 5_000, 30_000]);
    assert_eq!(shots_due(&queue, 0, 4_999), 0);
    assert_eq!(shots_due(&queue, 0, 5_000), 2);
    assert_eq!(shots_due(&queue, 2, 40_000), 1);
}
