//! The HUD of a frame: the hint line, the banner, the card's tiles and tints,
//! and every text of the panel, worked out from the same facts the keyboard is
//! dispatched against.

use vstd::prelude::*;
use vstd::string::*;

use crate::card::{
    card_page_label, command_entries, drawn, landed, page_caption, page_count, page_tiles, paginate,
    tiles, CardPage, CmdAction, CmdEntry, EntryView,
};
use crate::catalog::{building_name, building_title, BuildingKind, Catalog};
use crate::command::card_now;
use crate::doctrine::{posture_tag, DoctrineState, PostureKind, TemplateView};
use crate::hotkeys::Hotkeys;
use crate::intent::{Intent, Said};
use crate::lists::{picked, picked_step};
use crate::map::Pos;
use crate::panel::{
    building_pane, card_health, health, selection_cards, shown_cards, unit_pane, CardFacts,
    HealthBar, Pane, PanelBuilding, PanelUnit,
};
use crate::readouts::{
    coverage_line, coverage_reads, enemy_hero_line, hero_reads, link_line, link_reads, plan_line,
    plan_reads, region_line, region_reads, trigger_line, trigger_reads, why_line, why_reads,
    HeroIntel, PlanRun,
};
use crate::situation::{
    all_named, assemble_card, assemble_hero_cmds, doc_of, find_posture, find_single, has_worker,
    list_completed, list_own_ids, own_ids, remember_hero, squad_posture, template_of, World,
};
use crate::text::{
    dec, fixed0, join, joined, owned, push_dec, push_fixed0, push_text, texts,
};
use crate::ui_state::{UiState, UiView};

verus! {

// ---------------------------------------------------------------------------
// The hint line
// ---------------------------------------------------------------------------

/// A building of the map with its health.
#[derive(Clone, Copy, PartialEq, Eq, Debug, Structural)]
pub struct HallFacts {
    pub kind: BuildingKind,
    pub own: bool,
    pub unfinished: bool,
    pub pos: Pos,
    pub hp: i64,
    pub max_hp: i64,
}

/// Whether a hall of ours is below the share of its health at which it counts
/// as under attack.
pub open spec fn bleeding(cat: &Catalog, h: HallFacts, hurt_frac: int) -> bool {
    h.own && !h.unfinished && cat.building_row(h.kind).hall && h.max_hp > 0 && h.hp * 1_000
        < hurt_frac * h.max_hp
}

pub open spec fn bleeding_reads(cat: &Catalog, hurt_frac: int) -> spec_fn(HallFacts) -> Option<
    Seq<char>,
> {
    |h: HallFacts|
        if bleeding(cat, h, hurt_frac) {
            Some(
                building_title(h.kind) + " at ("@ + fixed0(h.pos.x as int) + ","@ + fixed0(
                    h.pos.z as int,
                ) + ")"@,
            )
        } else {
            None
        }
}

/// The tail of the teleport's hint: which halls are under attack.
pub open spec fn halls_reads(cat: &Catalog, halls: Seq<HallFacts>, hurt_frac: int) -> Seq<char> {
    let hurt = picked(halls, bleeding_reads(cat, hurt_frac));
    if hurt.len() == 0 {
        "the far hall is the one that saves it"@
    } else {
        "UNDER ATTACK: "@ + joined(hurt, ", "@)
    }
}

fn halls_text(cat: &Catalog, halls: &Vec<HallFacts>, hurt_frac: i64) -> (r: String)
    requires
        cat.wf(),
    ensures
        r@ == halls_reads(cat, halls@, hurt_frac as int),
{
    let mut parts: Vec<String> = Vec::new();
    let ghost f = bleeding_reads(cat, hurt_frac as int);
    let mut i: usize = 0;
    assert(texts(parts@) =~= picked(halls@.take(0), f));
    while i < halls.len()
        invariant
            cat.wf(),
            i <= halls.len(),
            f == bleeding_reads(cat, hurt_frac as int),
            texts(parts@) == picked(halls@.take(i as int), f),
        decreases halls.len() - i,
    {
        proof {
            picked_step(halls@, i as int, f);
        }
        let h = halls[i];
        assert(-0x8000_0000_0000_0000 * 0x8000_0000_0000_0000 <= hurt_frac * h.max_hp
            <= 0x8000_0000_0000_0000 * 0x8000_0000_0000_0000) by (nonlinear_arith)
            requires
                -0x8000_0000_0000_0000 <= hurt_frac <= 0x8000_0000_0000_0000,
                -0x8000_0000_0000_0000 <= h.max_hp <= 0x8000_0000_0000_0000,
        ;
        if h.own && !h.unfinished && cat.building(h.kind).hall && h.max_hp > 0 && (h.hp as i128
            * 1_000) < hurt_frac as i128 * h.max_hp as i128 {
            let mut s = owned(building_name(h.kind));
            s.append(" at (");
            push_fixed0(&mut s, h.pos.x as i64);
            s.append(",");
            push_fixed0(&mut s, h.pos.z as i64);
            s.append(")");
            push_text(&mut parts, s);
        }
        i = i + 1;
    }
    assert(halls@.take(i as int) =~= halls@);
    assert(parts@.len() == texts(parts@).len());
    if parts.len() == 0 {
        return owned("the far hall is the one that saves it");
    }
    let mut out = owned("UNDER ATTACK: ");
    out.append(join(&parts, ", ").as_str());
    out
}

/// What the hint line reads besides the interface.
#[derive(Clone, Copy, PartialEq, Eq, Debug, Structural)]
pub struct HintFacts {
    /// The squad of the selection.
    pub squad: Option<u8>,
    pub own_units: usize,
    /// Everything selected.
    pub total: usize,
    /// Only production buildings of ours are selected.
    pub rally_capable: bool,
}

pub open spec fn placing_reads(cat: &Catalog, kind: BuildingKind) -> Seq<char> {
    let row = cat.building_row(kind);
    "Placing "@ + building_title(kind) + " ("@ + dec(row.cost_gold as nat) + "g "@ + dec(
        row.cost_lumber as nat,
    ) + "l) - "@ + (if kind == BuildingKind::Wall {
        "Left-click each segment (placement stays armed), Right-click / Esc to stop"@
    } else {
        "Left-click to place, Right-click / Esc to cancel"@
    })
}

pub open spec fn casting_reads(name: Seq<char>, wants_unit: bool) -> Seq<char> {
    name + " armed: left-click "@ + (if wants_unit {
        "the unit to cast it on - misses keep trying"@
    } else {
        "where it lands"@
    })
        + " (Right-click / Esc cancels) - out of range is refused, the caster will not walk in"@
}

pub open spec fn posturing_reads(squad: u8, kind: PostureKind) -> Seq<char> {
    "Squad "@ + dec(squad as nat) + " - "@ + kind.title() + " posture armed: left-click "@ + (
    if kind == PostureKind::Escort {
        "one of your units to screen - misses keep trying"@
    } else {
        "the ground it is about"@
    }) + " (Right-click / Esc cancels)"@
}

pub open spec fn doctrine_hint(f: HintFacts) -> Seq<char> {
    match f.squad {
        Some(id) => "Doctrine card - squad "@ + dec(id as nat)
            + ". Postures run at machine speed for whoever set them.   [I] / Esc: back to orders."@,
        None => if f.own_units > 0 {
            "Doctrine card - this selection has no squad yet; a posture will enrol it in one.   [I] / Esc: back to orders."@
        } else {
            "Doctrine card - standing orders stamped on everything this building trains.   [I] / Esc: back to orders."@
        },
    }
}

/// The hint line: what a waiting mode wants, else what the card is for, else
/// what the mouse does.
pub open spec fn hint_reads(
    cat: &Catalog,
    ui: UiView,
    f: HintFacts,
    halls: Seq<HallFacts>,
    hurt_frac: int,
) -> Seq<char> {
    if ui.teleport_place is Some {
        ui.teleport_place->0.name
            + " armed: left-click the HALL to arrive at, on the map or the minimap (Right-click / Esc cancels) - "@
            + halls_reads(cat, halls, hurt_frac)
    } else if ui.placement is Some {
        placing_reads(cat, ui.placement->0)
    } else if ui.cast_place is Some {
        casting_reads(ui.cast_place->0.name, ui.cast_place->0.wants_unit)
    } else if ui.posture_place is Some {
        posturing_reads(ui.posture_place->0.squad, ui.posture_place->0.kind)
    } else if ui.attack_move_armed {
        "Attack-move armed - left-click a destination (Esc cancels)"@
    } else if ui.page == CardPage::Doctrine {
        doctrine_hint(f)
    } else if f.total == 0 {
        "Left-click / drag to select.   Ctrl+1-3 set squad, Shift+1-3 add, 1-3 recall.   [I] doctrine   [Tab] more commands   '.' idle worker   F9: AI plays Blue   F12 x2: surrender"@
    } else if f.rally_capable {
        "Right-click: set rally (ground, resource node or own unit).   Shift-click adds to selection."@
    } else {
        "Right-click to order.   Shift-click adds to selection."@
    }
}

/// The hint line.
pub fn hints(
    cat: &Catalog,
    ui: &UiState,
    f: &HintFacts,
    halls: &Vec<HallFacts>,
    hurt_frac: i64,
) -> (r: String)
    requires
        cat.wf(),
    ensures
        r@ == hint_reads(cat, ui@, *f, halls@, hurt_frac as int),
{
    if let Some(arm) = ui.teleport_place {
        let mut s = owned(arm.name);
        s.append(
            " armed: left-click the HALL to arrive at, on the map or the minimap (Right-click / Esc cancels) - ",
        );
        s.append(halls_text(cat, halls, hurt_frac).as_str());
        return s;
    }
    if let Some(kind) = ui.placement {
        let row = cat.building(kind);
        let mut s = owned("Placing ");
        s.append(building_name(kind));
        s.append(" (");
        push_dec(&mut s, row.cost_gold as u64);
        s.append("g ");
        push_dec(&mut s, row.cost_lumber as u64);
        s.append("l) - ");
        if kind == BuildingKind::Wall {
            s.append("Left-click each segment (placement stays armed), Right-click / Esc to stop");
        } else {
            s.append("Left-click to place, Right-click / Esc to cancel");
        }
        return s;
    }
    if let Some(arm) = &ui.cast_place {
        let mut s = owned(arm.name);
        s.append(" armed: left-click ");
        if arm.wants_unit {
            s.append("the unit to cast it on - misses keep trying");
        } else {
            s.append("where it lands");
        }
        s.append(
            " (Right-click / Esc cancels) - out of range is refused, the caster will not walk in",
        );
        return s;
    }
    if let Some(arm) = ui.posture_place {
        let mut s = owned("Squad ");
        push_dec(&mut s, arm.squad as u64);
        s.append(" - ");
        s.append(arm.kind.label());
        s.append(" posture armed: left-click ");
        if arm.kind.needs_unit() {
            s.append("one of your units to screen - misses keep trying");
        } else {
            s.append("the ground it is about");
        }
        s.append(" (Right-click / Esc cancels)");
        return s;
    }
    if ui.attack_move_armed {
        return owned("Attack-move armed - left-click a destination (Esc cancels)");
    }
    if ui.page == CardPage::Doctrine {
        return match f.squad {
            Some(id) => {
                let mut s = owned("Doctrine card - squad ");
                push_dec(&mut s, id as u64);
                s.append(
                    ". Postures run at machine speed for whoever set them.   [I] / Esc: back to orders.",
                );
                s
            },
            None => {
                if f.own_units > 0 {
                    owned(
                        "Doctrine card - this selection has no squad yet; a posture will enrol it in one.   [I] / Esc: back to orders.",
                    )
                } else {
                    owned(
                        "Doctrine card - standing orders stamped on everything this building trains.   [I] / Esc: back to orders.",
                    )
                }
            },
        };
    }
    if f.total == 0 {
        return owned(
            "Left-click / drag to select.   Ctrl+1-3 set squad, Shift+1-3 add, 1-3 recall.   [I] doctrine   [Tab] more commands   '.' idle worker   F9: AI plays Blue   F12 x2: surrender",
        );
    }
    if f.rally_capable {
        return owned(
            "Right-click: set rally (ground, resource node or own unit).   Shift-click adds to selection.",
        );
    }
    owned("Right-click to order.   Shift-click adds to selection.")
}

/// Whether only production buildings of ours are selected.
pub open spec fn may_rally(cat: &Catalog, w: &World) -> bool {
    &&& w.sel_units@.len() == 0
    &&& w.sel_buildings@.len() > 0
    &&& forall|i: int|
        0 <= i < w.sel_buildings@.len() ==> (#[trigger] w.sel_buildings@[i]).own && cat.building_row(
            w.sel_buildings@[i].kind,
        ).trains@.len() > 0
}

fn rally_capable(cat: &Catalog, w: &World) -> (r: bool)
    requires
        cat.wf(),
    ensures
        r == may_rally(cat, w),
{
    if w.sel_units.len() > 0 || w.sel_buildings.len() == 0 {
        return false;
    }
    let mut i: usize = 0;
    while i < w.sel_buildings.len()
        invariant
            cat.wf(),
            i <= w.sel_buildings.len(),
            forall|j: int|
                0 <= j < i ==> (#[trigger] w.sel_buildings@[j]).own && cat.building_row(
                    w.sel_buildings@[j].kind,
                ).trains@.len() > 0,
        decreases w.sel_buildings.len() - i,
    {
        let b = &w.sel_buildings[i];
        if !b.own || cat.building(b.kind).trains.len() == 0 {
            return false;
        }
        i = i + 1;
    }
    true
}

// ---------------------------------------------------------------------------
// The banner
// ---------------------------------------------------------------------------

/// Who won.
#[derive(Clone, Copy, PartialEq, Eq, Debug, Structural)]
pub enum Winner {
    Human,
    Claude,
}

/// Which win it was.
#[derive(Clone, Copy, PartialEq, Eq, Debug, Structural)]
pub enum GameOverReason {
    Razed,
    Surrender,
}

/// Whether the match was watched rather than played, settled when it ends.
pub open spec fn watched_after(winner: Option<Winner>, watched: Option<bool>, ai: bool) -> Option<
    bool,
> {
    match (winner, watched) {
        (Some(_), None) => Some(ai),
        (Some(_), Some(b)) => Some(b),
        (None, _) => None,
    }
}

/// Settles whether the match was watched.
pub fn latch_watched(winner: Option<Winner>, watched: Option<bool>, ai: bool) -> (r: Option<bool>)
    ensures
        r == watched_after(winner, watched, ai),
{
    match winner {
        Some(_) => match watched {
            None => Some(ai),
            Some(b) => Some(b),
        },
        None => None,
    }
}

/// Once the match is over, handing the side to the machine changes nothing.
pub proof fn results_are_settled(w: Winner, watched: Option<bool>, now: bool, later: bool)
    ensures
        watched_after(Some(w), watched_after(Some(w), watched, now), later) == watched_after(
            Some(w),
            watched,
            now,
        ),
{
}

pub open spec fn banner_reads(winner: Option<Winner>, watched: bool) -> Seq<char> {
    match winner {
        Some(Winner::Human) => if watched {
            "BLUE WINS"@
        } else {
            "VICTORY!"@
        },
        Some(Winner::Claude) => if watched {
            "RED WINS"@
        } else {
            "DEFEAT"@
        },
        None => ""@,
    }
}

pub open spec fn sub_reads(
    winner: Option<Winner>,
    watched: bool,
    reason: Option<GameOverReason>,
    rival: Seq<char>,
) -> Seq<char> {
    (match winner {
        Some(w) => if watched {
            "AI vs AI"@
        } else if w == Winner::Human {
            "You win"@
        } else {
            rival + " wins"@
        },
        None => ""@,
    }) + (match reason {
        Some(GameOverReason::Razed) => " — production razed"@,
        Some(GameOverReason::Surrender) => " — by surrender"@,
        None => Seq::empty(),
    })
}

/// The banner and the line under it. `rival` is what the other side is called.
pub fn banner(
    winner: Option<Winner>,
    watched: bool,
    reason: Option<GameOverReason>,
    rival: &str,
) -> (r: (&'static str, String))
    ensures
        r.0@ == banner_reads(winner, watched),
        r.1@ == sub_reads(winner, watched, reason, rival@),
{
    let (head, mut s): (&'static str, String) = match winner {
        Some(Winner::Human) => if watched {
            ("BLUE WINS", owned("AI vs AI"))
        } else {
            ("VICTORY!", owned("You win"))
        },
        Some(Winner::Claude) => if watched {
            ("RED WINS", owned("AI vs AI"))
        } else {
            let mut line = owned(rival);
            line.append(" wins");
            ("DEFEAT", line)
        },
        None => ("", owned("")),
    };
    match reason {
        Some(GameOverReason::Razed) => s.append(" — production razed"),
        Some(GameOverReason::Surrender) => s.append(" — by surrender"),
        None => {},
    }
    assert(s@ =~= sub_reads(winner, watched, reason, rival@));
    (head, s)
}

// ---------------------------------------------------------------------------
// Surrender
// ---------------------------------------------------------------------------

/// Time within which the surrender key has to be pressed again.
pub const SURRENDER_WINDOW: i64 = 3_000;

/// The surrender key: the first press arms it, and a second one soon enough
/// concedes. Returns what is said, and when it was armed.
pub open spec fn conceding(
    game_over: bool,
    pressed: bool,
    now: int,
    armed_at: Option<i64>,
) -> (Option<Said>, Option<i64>) {
    if game_over || !pressed {
        (None, armed_at)
    } else {
        match armed_at {
            Some(t) if now - t < SURRENDER_WINDOW => (Some(Said::Surrender), None),
            _ => (None, Some(now as i64)),
        }
    }
}

pub open spec fn sentence(i: Option<Intent>) -> Option<Said> {
    match i {
        Some(i) => Some(i@),
        None => None,
    }
}

/// The surrender key.
pub fn surrender_hotkey(game_over: bool, pressed: bool, now: i64, armed_at: Option<i64>) -> (r: (
    Option<Intent>,
    Option<i64>,
))
    ensures
        (sentence(r.0), r.1) == conceding(game_over, pressed, now as int, armed_at),
{
    if game_over || !pressed {
        return (None, armed_at);
    }
    match armed_at {
        Some(t) => {
            if (now as i128 - t as i128) < SURRENDER_WINDOW as i128 {
                (Some(Intent::Surrender), None)
            } else {
                (None, Some(now))
            }
        },
        None => (None, Some(now)),
    }
}

/// One press never concedes.
pub proof fn one_press_never_concedes(game_over: bool, now: int)
    ensures
        conceding(game_over, true, now, None).0 is None,
{
}

// ---------------------------------------------------------------------------
// The tints of the tiles
// ---------------------------------------------------------------------------

/// How a tile is drawn.
#[derive(Clone, Copy, PartialEq, Eq, Debug, Structural)]
pub enum Tint {
    /// It does nothing now.
    Dark,
    /// It is on, or waits for its click.
    Armed,
    /// It cannot be paid for.
    Poor,
    Plain,
}

/// Whether a tile's mode waits for its click.
pub open spec fn waits(action: CmdAction, ui: UiView) -> bool {
    match action {
        CmdAction::AttackMove => ui.attack_move_armed,
        CmdAction::Place(kind) => ui.placement == Some(kind),
        CmdAction::SetPosture(kind) => match ui.posture_place {
            Some(arm) => arm.kind == kind,
            None => false,
        },
        _ => false,
    }
}

pub open spec fn tint(e: EntryView, ui: UiView, gold: u32, lumber: u32) -> Tint {
    if !e.enabled {
        Tint::Dark
    } else if e.active || waits(e.action, ui) {
        Tint::Armed
    } else {
        match e.afford {
            Some((g, l)) => if g <= gold && l <= lumber {
                Tint::Plain
            } else {
                Tint::Poor
            },
            None => Tint::Plain,
        }
    }
}

/// How a tile is drawn.
pub fn tile_tint(e: &CmdEntry, ui: &UiState, gold: u32, lumber: u32) -> (r: Tint)
    ensures
        r == tint(e@, ui@, gold, lumber),
{
    if !e.enabled {
        return Tint::Dark;
    }
    let waiting = match e.action {
        CmdAction::AttackMove => ui.attack_move_armed,
        CmdAction::Place(kind) => match ui.placement {
            Some(k) => k == kind,
            None => false,
        },
        CmdAction::SetPosture(kind) => match ui.posture_place {
            Some(arm) => arm.kind == kind,
            None => false,
        },
        _ => false,
    };
    if e.active || waiting {
        return Tint::Armed;
    }
    match e.afford {
        Some((g, l)) => {
            if g <= gold && l <= lumber {
                Tint::Plain
            } else {
                Tint::Poor
            }
        },
        None => Tint::Plain,
    }
}

// ---------------------------------------------------------------------------
// The whole HUD
// ---------------------------------------------------------------------------

/// What the HUD reads besides the world.
#[derive(Debug)]
pub struct HudFacts {
    /// The one selected unit.
    pub unit: Option<PanelUnit>,
    /// The one selected building.
    pub building: Option<PanelBuilding>,
    /// Everything selected.
    pub cards: Vec<CardFacts>,
    /// Why each selected unit of ours does what it does.
    pub answers: Vec<String>,
    /// Orders take time to arrive.
    pub latency: bool,
    pub links: Vec<i32>,
    pub in_transit: Vec<i32>,
    pub nodes: usize,
    pub covered: usize,
    pub army: usize,
    pub plans: Vec<PlanRun>,
    pub intel: Vec<HeroIntel>,
    /// Thousandths of a second since the match began.
    pub now: i64,
    pub halls: Vec<HallFacts>,
    pub hurt_frac: i64,
    pub supply_used: u32,
    pub supply_cap: u32,
    /// What the upkeep band is called.
    pub upkeep: String,
}

impl HudFacts {
    pub open spec fn wf(&self) -> bool {
        &&& self.answers@.len() <= i64::MAX
        &&& forall|i: int|
            0 <= i < self.cards@.len() ==> crate::entity::names_entity(
                (#[trigger] self.cards@[i]).id,
            )
    }
}

/// What is selected: nothing to show, one thing, or many.
#[derive(Clone, Copy, PartialEq, Eq, Debug, Structural)]
pub enum Shown {
    Nothing,
    Unit,
    Building,
    Many,
}

pub open spec fn shown(w: &World) -> Shown {
    let units = w.sel_units@.len();
    let buildings = w.sel_buildings@.len();
    if units + buildings == 1 {
        if units == 1 {
            Shown::Unit
        } else {
            Shown::Building
        }
    } else if units + buildings > 1 {
        Shown::Many
    } else {
        Shown::Nothing
    }
}

fn what_is_shown(w: &World) -> (r: Shown)
    ensures
        r == shown(w),
{
    let units: usize = w.sel_units.len();
    let buildings: usize = w.sel_buildings.len();
    if units == 0 && buildings == 0 {
        Shown::Nothing
    } else if units == 1 && buildings == 0 {
        Shown::Unit
    } else if units == 0 && buildings == 1 {
        Shown::Building
    } else {
        Shown::Many
    }
}

/// The doctrine line: the units', else the building's.
pub open spec fn doctrine_reads(cat: &Catalog, w: &World) -> Seq<char> {
    let doc = doc_of(cat, w);
    if own_ids(w).len() > 0 {
        doc.reads(
            match squad_posture(w, doc.squad) {
                Some(p) => Some(p.shorthand()),
                None => None,
            },
        )
    } else {
        template_of(cat, w).reads()
    }
}

fn doctrine_text(cat: &Catalog, w: &World, doc: &DoctrineState, tmpl: &TemplateView, own: usize) -> (r:
    String)
    requires
        cat.wf(),
        *doc == doc_of(cat, w),
        *tmpl == template_of(cat, w),
        own == own_ids(w).len(),
    ensures
        r@ == doctrine_reads(cat, w),
{
    if own > 0 {
        match find_posture(w, doc.squad) {
            Some(p) => {
                let tag = posture_tag(p);
                doc.line(Some(tag.as_str()))
            },
            None => doc.line(None),
        }
    } else {
        tmpl.line()
    }
}

pub open spec fn resources_reads(gold: nat, lumber: nat) -> Seq<char> {
    "Gold: "@ + dec(gold) + "   Lumber: "@ + dec(lumber)
}

pub open spec fn supply_reads(used: nat, cap: nat, upkeep: Seq<char>) -> Seq<char> {
    "Supply: "@ + dec(used) + "/"@ + dec(cap) + " · "@ + upkeep
}

/// Every text of the HUD.
#[derive(Debug)]
pub struct HudOut {
    pub shown: Shown,
    /// The panel of the one thing selected.
    pub pane: Option<Pane>,
    /// The tiles of many.
    pub cards: Vec<CardFacts>,
    /// The health bar of each tile.
    pub health: Vec<HealthBar>,
    pub overflow: String,
    pub resources: String,
    pub supply: String,
    /// The supply is used up.
    pub supply_blocked: bool,
    pub hints: String,
    pub doctrine: String,
    pub why: String,
    pub link: String,
    pub coverage: String,
    pub triggers: String,
    pub regions: String,
    pub plans: String,
    pub enemy_heroes: String,
    pub page_label: String,
    /// The whole card; the page on screen is the part the interface names.
    pub entries: Vec<CmdEntry>,
}

/// The commands of a list of tiles.
pub open spec fn actions_of(list: Seq<EntryView>) -> Seq<CmdAction> {
    list.map_values(|e: EntryView| e.action)
}

pub open spec fn ids_shown(list: Seq<CardFacts>) -> Seq<u64> {
    list.map_values(|c: CardFacts| c.id)
}

/// The health bar of each tile.
pub open spec fn healths(list: Seq<CardFacts>) -> Seq<HealthBar> {
    list.map_values(|c: CardFacts| c.health())
}

/// The tiles of a selection of many; none otherwise.
pub open spec fn cards_shown(w: &World, f: &HudFacts) -> Seq<CardFacts> {
    if shown(w) == Shown::Many {
        shown_cards(f.cards@)
    } else {
        Seq::empty()
    }
}

/// How many queue tiles the panel of one building shows.
pub open spec fn queue_shown(w: &World, f: &HudFacts) -> nat {
    match f.building {
        Some(b) if shown(w) == Shown::Building => b.waiting().len(),
        _ => 0,
    }
}

/// The interface after the HUD is drawn: it knows what each tile on screen
/// stands for.
pub open spec fn published(
    cat: &Catalog,
    hk: &Hotkeys,
    w: &World,
    f: &HudFacts,
    ui: UiView,
) -> UiView {
    let entries = card_now(cat, hk, w, ui);
    let page = landed(entries, ui.card_page as int);
    UiView {
        card_page: page as usize,
        card_entities: ids_shown(cards_shown(w, f)),
        card_actions: actions_of(page_tiles(entries, page)),
        queue_len: queue_shown(w, f) as usize,
        ..ui
    }
}

fn list_ids(list: &Vec<CardFacts>) -> (r: Vec<u64>)
    ensures
        r@ == ids_shown(list@),
{
    let mut out: Vec<u64> = Vec::new();
    let mut i: usize = 0;
    while i < list.len()
        invariant
            i <= list.len(),
            out@ == ids_shown(list@).take(i as int),
        decreases list.len() - i,
    {
        out.push(list[i].id);
        i = i + 1;
        assert(out@ =~= ids_shown(list@).take(i as int));
    }
    assert(out@ =~= ids_shown(list@));
    out
}

fn list_healths(list: &Vec<CardFacts>) -> (r: Vec<HealthBar>)
    ensures
        r@ == healths(list@),
{
    let mut out: Vec<HealthBar> = Vec::new();
    let mut i: usize = 0;
    while i < list.len()
        invariant
            i <= list.len(),
            out@ == healths(list@).take(i as int),
        decreases list.len() - i,
    {
        out.push(card_health(list[i].hp, list[i].max_hp));
        i = i + 1;
        assert(out@ =~= healths(list@).take(i as int));
    }
    assert(out@ =~= healths(list@));
    out
}

fn list_actions(list: &Vec<&CmdEntry>) -> (r: Vec<CmdAction>)
    ensures
        r@ == actions_of(drawn(list@)),
{
    let mut out: Vec<CmdAction> = Vec::new();
    let ghost all = actions_of(drawn(list@));
    let mut i: usize = 0;
    while i < list.len()
        invariant
            i <= list.len(),
            all == actions_of(drawn(list@)),
            out@ == all.take(i as int),
        decreases list.len() - i,
    {
        out.push(list[i].action);
        assert(all[i as int] == list@[i as int].action);
        assert(all.take(i + 1) =~= all.take(i as int).push(all[i as int]));
        i = i + 1;
    }
    assert(all.take(i as int) =~= all);
    out
}

fn no_text() -> (r: String)
    ensures
        r@ == Seq::<char>::empty(),
{
    String::new()
}

fn entries_now(cat: &Catalog, hk: &Hotkeys, w: &World, ui: &UiState, own: usize) -> (r: Vec<CmdEntry>)
    requires
        cat.wf(),
        all_named(w.sel_units@),
        own == own_ids(w).len(),
    ensures
        tiles(r@) == card_now(cat, hk, w, ui@),
{
    let card = assemble_card(cat, w, ui.region_radius, ui.region_place);
    let last = remember_hero(cat, w, ui.last_hero);
    let hero = assemble_hero_cmds(cat, w, last);
    let kind: Option<(BuildingKind, bool)> = match find_single(w) {
        Some(b) => Some((b.kind, !b.unfinished)),
        None => None,
    };
    command_entries(
        cat,
        hk,
        ui.page,
        own,
        has_worker(cat, w),
        kind,
        &hero,
        &card,
        &list_completed(w),
    )
}

/// The HUD of a frame, and what each of its tiles stands for.
pub fn update_hud(cat: &Catalog, hk: &Hotkeys, w: &World, f: &HudFacts, ui: &mut UiState) -> (r:
    HudOut)
    requires
        cat.wf(),
        all_named(w.sel_units@),
        f.wf(),
        w.sel_units@.len() + w.sel_buildings@.len() <= usize::MAX,
    ensures
        final(ui)@ == published(cat, hk, w, f, old(ui)@),
        tiles(r.entries@) == card_now(cat, hk, w, old(ui)@),
        r.page_label@ == page_caption(
            old(ui)@.page,
            final(ui)@.card_page as nat,
            page_count(tiles(r.entries@)) as nat,
        ),
        r.shown == shown(w),
        r.cards@ == cards_shown(w, f),
        r.health@ == healths(cards_shown(w, f)),
        r.overflow@ == (if shown(w) == Shown::Many {
            crate::panel::overflow_reads(f.cards@)
        } else {
            Seq::empty()
        }),
        r.pane is Some <==> (shown(w) == Shown::Unit && f.unit is Some) || (shown(w)
            == Shown::Building && f.building is Some),
        shown(w) == Shown::Unit && f.unit is Some ==> r.pane->0.name@ == f.unit->0.title()
            && r.pane->0.stats@ == f.unit->0.stats() && r.pane->0.extra@ == f.unit->0.extra()
            && r.pane->0.items@ == f.unit->0.bag() && r.pane->0.hp@ == crate::panel::hp_reads(
            f.unit->0.hp as int,
            f.unit->0.max_hp as int,
        ) && r.pane->0.letter@ == crate::panel::first_letter(
            crate::catalog::unit_title(f.unit->0.kind),
        ) && r.pane->0.health == health(f.unit->0.hp as int, f.unit->0.max_hp as int)
            && r.pane->0.hero == f.unit->0.bars() && r.pane->0.progress is None
            && r.pane->0.queue@.len() == 0,
        shown(w) == Shown::Building && f.building is Some ==> r.pane->0.name@ == building_title(
            f.building->0.kind,
        ) && r.pane->0.stats@ == f.building->0.stats(cat) && r.pane->0.extra@
            == f.building->0.extra() && texts(r.pane->0.queue@) == crate::panel::letters(
            f.building->0.waiting(),
        ) && r.pane->0.hp@ == crate::panel::hp_reads(
            f.building->0.hp as int,
            f.building->0.max_hp as int,
        ) && r.pane->0.letter@ == crate::panel::first_letter(building_title(f.building->0.kind))
            && r.pane->0.health == health(f.building->0.hp as int, f.building->0.max_hp as int)
            && r.pane->0.hero is None && r.pane->0.items@ == Seq::<char>::empty()
            && r.pane->0.progress == f.building->0.bar(),
        r.resources@ == resources_reads(w.gold as nat, w.lumber as nat),
        r.supply@ == supply_reads(f.supply_used as nat, f.supply_cap as nat, f.upkeep@),
        r.supply_blocked == (f.supply_cap > 0 && f.supply_used >= f.supply_cap),
        r.hints@ == hint_reads(
            cat,
            old(ui)@,
            (HintFacts {
                squad: doc_of(cat, w).squad,
                own_units: own_ids(w).len() as usize,
                total: (w.sel_units@.len() + w.sel_buildings@.len()) as usize,
                rally_capable: may_rally(cat, w),
            }),
            f.halls@,
            f.hurt_frac as int,
        ),
        r.doctrine@ == doctrine_reads(cat, w),
        r.why@ == why_reads(texts(f.answers@)),
        r.link@ == (if f.latency {
            link_reads(f.links@, f.in_transit@)
        } else {
            Seq::empty()
        }),
        r.coverage@ == coverage_reads(
            f.latency,
            f.nodes as nat,
            f.covered as nat,
            f.army as nat,
        ),
        r.triggers@ == trigger_reads(w.triggers@, f.now as int),
        r.regions@ == region_reads(w.regions@),
        r.plans@ == plan_reads(f.plans@),
        r.enemy_heroes@ == hero_reads(f.intel@, f.now as int),
{
    let own: usize = list_own_ids(w).len();
    let what = what_is_shown(w);
    let mut pane: Option<Pane> = None;
    let mut cards: Vec<CardFacts> = Vec::new();
    let mut overflow = no_text();
    match what {
        Shown::Unit => {
            if let Some(u) = &f.unit {
                pane = Some(unit_pane(u));
            }
        },
        Shown::Building => {
            if let Some(b) = &f.building {
                pane = Some(building_pane(cat, b));
            }
        },
        Shown::Many => {
            let (list, more) = selection_cards(&f.cards);
            cards = list;
            overflow = more;
        },
        Shown::Nothing => {},
    }
    assert(cards@ =~= cards_shown(w, f));
    let entries = entries_now(cat, hk, w, ui, own);
    let card = assemble_card(cat, w, ui.region_radius, ui.region_place);
    let hint_facts = HintFacts {
        squad: card.doc.squad,
        own_units: own,
        total: w.sel_units.len() + w.sel_buildings.len(),
        rally_capable: rally_capable(cat, w),
    };
    let hints = hints(cat, ui, &hint_facts, &f.halls, f.hurt_frac);
    let doctrine = doctrine_text(cat, w, &card.doc, &card.tmpl, own);
    let view = paginate(&entries, ui.card_page);
    proof {
        crate::card::pages_clamp(tiles(entries@), ui.card_page as int);
    }
    let page_label = card_page_label(ui.page, view.page, view.pages);
    let queue_len: usize = match &pane {
        Some(p) => p.queue.len(),
        None => 0,
    };
    proof {
        if pane is Some {
            assert(texts(pane->0.queue@).len() == pane->0.queue@.len());
        }
    }
    let actions = list_actions(&view.tiles);
    ui.card_page = view.page;
    ui.card_entities = list_ids(&cards);
    let health = list_healths(&cards);
    ui.card_actions = actions;
    ui.queue_len = queue_len;
    let mut resources = owned("Gold: ");
    push_dec(&mut resources, w.gold as u64);
    resources.append("   Lumber: ");
    push_dec(&mut resources, w.lumber as u64);
    let mut supply = owned("Supply: ");
    push_dec(&mut supply, f.supply_used as u64);
    supply.append("/");
    push_dec(&mut supply, f.supply_cap as u64);
    supply.append(" · ");
    supply.append(f.upkeep.as_str());
    HudOut {
        shown: what,
        pane,
        cards,
        health,
        overflow,
        resources,
        supply,
        supply_blocked: f.supply_cap > 0 && f.supply_used >= f.supply_cap,
        hints,
        doctrine,
        why: why_line(&f.answers),
        link: if f.latency {
            link_line(&f.links, &f.in_transit)
        } else {
            no_text()
        },
        coverage: coverage_line(f.latency, f.nodes, f.covered, f.army),
        triggers: trigger_line(&w.triggers, f.now),
        regions: region_line(&w.regions),
        plans: plan_line(&f.plans),
        enemy_heroes: enemy_hero_line(&f.intel, f.now),
        page_label,
        entries,
    }
}

} // verus!
