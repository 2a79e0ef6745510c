//! The command card's input: which commands a frame's keys and clicks ask for,
//! and what each of them says and changes.

use vstd::prelude::*;

use crate::card::{
    command_entries, page_count, paginate, tiles, whole_card, CardPage, CmdAction, CmdEntry,
    EntryView,
};
use crate::catalog::{
    item_name, item_title, AbilityDef, AbilityTarget, BuildingKind, Catalog, ResearchKind,
    UnitKind,
};
use crate::doctrine::{
    cycle_step, fallback_ladder, fallback_steps, leash_ladder, leash_steps, mostly, nudge_value,
    nudged, priority_component, stepped, DoctrineState, PrioPreset, TemplateView,
    AUTOCAST_MIN_ENEMIES, FALLBACK_FRAC, FALLBACK_MAX, FALLBACK_MIN, FALLBACK_NUDGE, GUARD_RADIUS,
    HOME_GUARD_COOLDOWN, HOME_GUARD_RADIUS, LEASH_MAX, LEASH_MIN, LEASH_NUDGE, MAX_UI_SQUAD,
};
use crate::hotkeys::{Action, Hotkeys, Key, CANCEL, IDLE_WORKER, NEXT_CARD_PAGE};
use crate::intent::{cast_here, said, say, Intent, PostureArm, PostureIntent, Said};
use crate::lists::{only_if, picked, picked_step};
use crate::map::{clamp_to_map, home, human_base, on_map, Pos};
use crate::readouts::{armed_rule, has_trigger, home_guard, lowest_mark, mark_number};
use crate::situation::{
    all_named, assemble_card, assemble_hero_cmds, bag, card_of, casters, completed, customer,
    doc_of, find_centre, find_customer, find_single, halls, has_worker, hero_cmds,
    hero_train_state, list_casters, list_completed, list_halls, list_own_ids, mint_squad,
    minted_squad, nearest_hall, own_centre, own_ids, read_template, refuge, remember_hero,
    remembered_hero, single, single_kind, template_of, training_state, unrefs, worker_selected,
    FieldUnit, SelUnit, World, REGION_MARK_RADIUS,
};
use crate::text::owned;
use crate::ui_state::{CastArm, CastArmView, TeleportArm, TeleportArmView, UiState, UiView};

verus! {

/// Units a production building may have queued.
pub const MAX_QUEUE: usize = 7;

/// One press of a region-size key.
pub const REGION_NUDGE: i64 = 4_000;

/// What was pressed this frame.
#[derive(Debug)]
pub struct Presses {
    /// Keys that went down.
    pub keys: Vec<Key>,
    /// A control key is held.
    pub ctrl: bool,
    /// Card tiles that were clicked, in order.
    pub tiles: Vec<usize>,
}

fn was_pressed(keys: &Vec<Key>, key: Key) -> (r: bool)
    ensures
        r == keys@.contains(key),
{
    let mut i: usize = 0;
    while i < keys.len()
        invariant
            i <= keys.len(),
            forall|j: int| 0 <= j < i ==> keys@[j] != key,
        decreases keys.len() - i,
    {
        if keys[i] == key {
            return true;
        }
        i = i + 1;
    }
    false
}

// ---------------------------------------------------------------------------
// Which commands were asked for
// ---------------------------------------------------------------------------

pub open spec fn fired(keys: Seq<Key>) -> spec_fn(EntryView) -> Option<CmdAction> {
    |e: EntryView|
        if !e.locked && keys.contains(e.key) {
            Some(e.action)
        } else {
            None
        }
}

/// The commands whose keys went down, from the whole list and not only from
/// the page on screen. A locked tile's key does nothing.
pub open spec fn by_key(entries: Seq<EntryView>, keys: Seq<Key>) -> Seq<CmdAction> {
    picked(entries, fired(keys))
}

/// Whether a command stands on a locked tile.
pub open spec fn is_locked(entries: Seq<EntryView>, action: CmdAction) -> bool {
    exists|i: int|
        0 <= i < entries.len() && (#[trigger] entries[i]).action == action && entries[i].locked
}

pub open spec fn clicked(
    entries: Seq<EntryView>,
    layout: Seq<CmdAction>,
) -> spec_fn(usize) -> Option<CmdAction> {
    |i: usize|
        if i < layout.len() && !is_locked(entries, layout[i as int]) {
            Some(layout[i as int])
        } else {
            None
        }
}

/// The commands whose tiles were clicked. The layout is last frame's, so each
/// is held against this frame's locks.
pub open spec fn by_click(
    entries: Seq<EntryView>,
    layout: Seq<CmdAction>,
    clicks: Seq<usize>,
) -> Seq<CmdAction> {
    picked(clicks, clicked(entries, layout))
}

/// A command, when its raw key went down.
pub open spec fn raw(keys: Seq<Key>, key: Key, action: CmdAction) -> Seq<CmdAction> {
    only_if(keys.contains(key), action)
}

/// The free-entry keys, on the doctrine card only. The two that tune units
/// need some; the one that tunes the next mark does not.
pub open spec fn nudges(
    hk: &Hotkeys,
    keys: Seq<Key>,
    page: CardPage,
    own_units: nat,
) -> Seq<CmdAction> {
    if page != CardPage::Doctrine {
        Seq::empty()
    } else {
        (if own_units > 0 {
            (raw(keys, hk.bound(Action::NudgeFallbackDown), CmdAction::NudgeFallback(false)) + raw(
                keys,
                hk.bound(Action::NudgeFallbackUp),
                CmdAction::NudgeFallback(true),
            )) + (raw(keys, hk.bound(Action::NudgeLeashDown), CmdAction::NudgeLeash(false)) + raw(
                keys,
                hk.bound(Action::NudgeLeashUp),
                CmdAction::NudgeLeash(true),
            ))
        } else {
            Seq::empty()
        }) + (raw(keys, hk.bound(Action::NudgeRegionDown), CmdAction::NudgeRegion(false)) + raw(
            keys,
            hk.bound(Action::NudgeRegionUp),
            CmdAction::NudgeRegion(true),
        ))
    }
}

/// The commands of a frame, in the order in which they are carried out: keys,
/// then the mode toggle where no tile gave it, then the nudges, then clicks. A
/// held control key leaves only the clicks.
pub open spec fn asked(
    hk: &Hotkeys,
    p: Presses,
    page: CardPage,
    own_units: nat,
    entries: Seq<EntryView>,
    layout: Seq<CmdAction>,
) -> Seq<CmdAction> {
    let keyed = by_key(entries, p.keys@);
    (if p.ctrl {
        Seq::empty()
    } else {
        keyed + only_if(
            p.keys@.contains(hk.bound(Action::ModeToggle)) && !keyed.contains(
                CmdAction::TogglePage,
            ),
            CmdAction::TogglePage,
        ) + nudges(hk, p.keys@, page, own_units)
    }) + by_click(entries, layout, p.tiles@)
}

fn push_if(out: &mut Vec<CmdAction>, b: bool, action: CmdAction)
    ensures
        final(out)@ == old(out)@ + only_if(b, action),
{
    if b {
        out.push(action);
    }
    assert(out@ =~= old(out)@ + only_if(b, action));
}

fn keyed_actions(entries: &Vec<CmdEntry>, keys: &Vec<Key>) -> (r: Vec<CmdAction>)
    ensures
        r@ == by_key(tiles(entries@), keys@),
{
    let mut out: Vec<CmdAction> = Vec::new();
    let ghost all = tiles(entries@);
    let mut i: usize = 0;
    while i < entries.len()
        invariant
            i <= entries.len(),
            all == tiles(entries@),
            out@ == by_key(all.take(i as int), keys@),
        decreases entries.len() - i,
    {
        proof {
            picked_step(all, i as int, fired(keys@));
        }
        if !entries[i].locked && was_pressed(keys, entries[i].key) {
            out.push(entries[i].action);
        }
        i = i + 1;
    }
    assert(all.take(i as int) =~= all);
    out
}

fn asks_toggle(list: &Vec<CmdAction>) -> (r: bool)
    ensures
        r == list@.contains(CmdAction::TogglePage),
{
    let mut i: usize = 0;
    while i < list.len()
        invariant
            i <= list.len(),
            forall|j: int| 0 <= j < i ==> list@[j] != CmdAction::TogglePage,
        decreases list.len() - i,
    {
        if list[i] == CmdAction::TogglePage {
            return true;
        }
        i = i + 1;
    }
    false
}

fn on_locked_tile(entries: &Vec<CmdEntry>, action: CmdAction) -> (r: bool)
    ensures
        r == is_locked(tiles(entries@), action),
{
    let ghost all = tiles(entries@);
    let mut i: usize = 0;
    while i < entries.len()
        invariant
            i <= entries.len(),
            all == tiles(entries@),
            forall|j: int| 0 <= j < i ==> !((#[trigger] all[j]).action == action && all[j].locked),
        decreases entries.len() - i,
    {
        assert(all[i as int] == entries@[i as int]@);
        if entries[i].action == action && entries[i].locked {
            return true;
        }
        i = i + 1;
    }
    false
}

fn raw_actions(keys: &Vec<Key>, down: Key, up: Key, less: CmdAction, more: CmdAction) -> (r: Vec<
    CmdAction,
>)
    ensures
        r@ == raw(keys@, down, less) + raw(keys@, up, more),
{
    let mut out: Vec<CmdAction> = Vec::new();
    push_if(&mut out, was_pressed(keys, down), less);
    push_if(&mut out, was_pressed(keys, up), more);
    assert(out@ =~= raw(keys@, down, less) + raw(keys@, up, more));
    out
}

fn nudge_actions(hk: &Hotkeys, keys: &Vec<Key>, page: CardPage, own_units: usize) -> (r: Vec<
    CmdAction,
>)
    ensures
        r@ == nudges(hk, keys@, page, own_units as nat),
{
    let mut out: Vec<CmdAction> = Vec::new();
    if page == CardPage::Doctrine {
        if own_units > 0 {
            let mut fallback = raw_actions(
                keys,
                hk.bind(Action::NudgeFallbackDown),
                hk.bind(Action::NudgeFallbackUp),
                CmdAction::NudgeFallback(false),
                CmdAction::NudgeFallback(true),
            );
            let mut leash = raw_actions(
                keys,
                hk.bind(Action::NudgeLeashDown),
                hk.bind(Action::NudgeLeashUp),
                CmdAction::NudgeLeash(false),
                CmdAction::NudgeLeash(true),
            );
            out.append(&mut fallback);
            out.append(&mut leash);
        }
        let mut region = raw_actions(
            keys,
            hk.bind(Action::NudgeRegionDown),
            hk.bind(Action::NudgeRegionUp),
            CmdAction::NudgeRegion(false),
            CmdAction::NudgeRegion(true),
        );
        out.append(&mut region);
    }
    assert(out@ =~= nudges(hk, keys@, page, own_units as nat));
    out
}

fn click_actions(entries: &Vec<CmdEntry>, layout: &Vec<CmdAction>, clicks: &Vec<usize>) -> (r: Vec<
    CmdAction,
>)
    ensures
        r@ == by_click(tiles(entries@), layout@, clicks@),
{
    let mut out: Vec<CmdAction> = Vec::new();
    let ghost f = clicked(tiles(entries@), layout@);
    let mut i: usize = 0;
    while i < clicks.len()
        invariant
            i <= clicks.len(),
            f == clicked(tiles(entries@), layout@),
            out@ == picked(clicks@.take(i as int), f),
        decreases clicks.len() - i,
    {
        proof {
            picked_step(clicks@, i as int, f);
        }
        let t: usize = clicks[i];
        if t < layout.len() {
            let action = layout[t];
            if !on_locked_tile(entries, action) {
                out.push(action);
            }
        }
        i = i + 1;
    }
    assert(clicks@.take(i as int) =~= clicks@);
    out
}

/// The commands of a frame.
pub fn collect_actions(
    hk: &Hotkeys,
    p: &Presses,
    page: CardPage,
    own_units: usize,
    entries: &Vec<CmdEntry>,
    layout: &Vec<CmdAction>,
) -> (r: Vec<CmdAction>)
    ensures
        r@ == asked(hk, *p, page, own_units as nat, tiles(entries@), layout@),
{
    let mut out: Vec<CmdAction> = Vec::new();
    if !p.ctrl {
        out = keyed_actions(entries, &p.keys);
        let toggled = asks_toggle(&out);
        push_if(
            &mut out,
            was_pressed(&p.keys, hk.bind(Action::ModeToggle)) && !toggled,
            CmdAction::TogglePage,
        );
        let mut tuned = nudge_actions(hk, &p.keys, page, own_units);
        out.append(&mut tuned);
    }
    let mut clicked = click_actions(entries, layout, &p.tiles);
    out.append(&mut clicked);
    assert(out@ =~= asked(hk, *p, page, own_units as nat, tiles(entries@), layout@));
    out
}

// ---------------------------------------------------------------------------
// What each command does
// ---------------------------------------------------------------------------

/// A sentence about the selected units; silence where there are none.
pub open spec fn if_any(units: Seq<u64>, s: Said) -> Seq<Said> {
    only_if(units.len() > 0, s)
}

/// "Fall back below this": to the nearest hall, or not at all any more.
pub open spec fn retreat_said(cat: &Catalog, w: &World, below: Option<i64>) -> Seq<Said> {
    if_any(
        own_ids(w),
        match below {
            Some(frac) => Said::Retreat {
                units: own_ids(w),
                below: frac,
                rally: Some(refuge(cat, w, own_centre(w))),
            },
            None => Said::Retreat { units: own_ids(w), below: 0, rally: None },
        },
    )
}

/// "Hold within this": of where the group stands, or not at all any more.
pub open spec fn leash_said(w: &World, radius: Option<i64>) -> Seq<Said> {
    if_any(
        own_ids(w),
        match radius {
            Some(r) => Said::Leash {
                units: own_ids(w),
                anchor: Some(on_map(own_centre(w))),
                radius: r,
            },
            None => Said::Leash { units: own_ids(w), anchor: None, radius: 0 },
        },
    )
}

/// Which squad a doctrine gesture is about.
pub open spec fn gesture_squad(cat: &Catalog, w: &World) -> Option<u8> {
    if own_ids(w).len() == 0 {
        None
    } else {
        match doc_of(cat, w).squad {
            Some(id) => Some(id),
            None => Some(minted_squad(w)),
        }
    }
}

/// What has to be said first, so that the selection is one squad.
pub open spec fn enrolment(cat: &Catalog, w: &World) -> Seq<Said> {
    let doc = doc_of(cat, w);
    match gesture_squad(cat, w) {
        Some(id) => only_if(
            doc.squad is None || doc.in_squad < doc.units,
            Said::Squad { units: own_ids(w), id: Some(id) },
        ),
        None => Seq::empty(),
    }
}

/// The ability in a slot of a unit's kind.
pub open spec fn slot_ability(cat: &Catalog, kind: UnitKind, slot: int) -> Option<AbilityDef> {
    let list = cat.unit_row(kind).abilities@;
    if 0 <= slot < list.len() {
        Some(list[slot])
    } else {
        None
    }
}

pub open spec fn same_aim(cat: &Catalog, slot: int, target: AbilityTarget) -> spec_fn(
    SelUnit,
) -> Option<u64> {
    |u: SelUnit|
        match slot_ability(cat, u.kind, slot) {
            Some(def) => if def.target == target {
                Some(u.id)
            } else {
                None
            },
            None => None,
        }
}

/// The casters an aim is for: those whose slot has the same geometry.
pub open spec fn aimed_casters(
    cat: &Catalog,
    cs: Seq<SelUnit>,
    slot: int,
    target: AbilityTarget,
) -> Seq<u64> {
    picked(cs, same_aim(cat, slot, target))
}

pub open spec fn cast_all(cs: Seq<SelUnit>, slot: usize) -> Seq<Said> {
    cs.map_values(|u: SelUnit| Said::Cast { caster: u.id, ability: slot, aim: None })
}

pub open spec fn caster_ids(cs: Seq<SelUnit>) -> Seq<u64> {
    cs.map_values(|u: SelUnit| u.id)
}

impl UiView {
    /// Nothing waits but an attack-move.
    pub open spec fn arm_attack(self) -> UiView {
        UiView { attack_move_armed: true, ..self.disarmed() }
    }

    /// Nothing waits but a building.
    pub open spec fn arm_placement(self, kind: BuildingKind) -> UiView {
        UiView { placement: Some(kind), ..self.disarmed() }
    }

    /// Nothing waits but a cast.
    pub open spec fn arm_cast(self, arm: CastArmView) -> UiView {
        UiView { cast_place: Some(arm), ..self.disarmed() }
    }

    /// Nothing waits but a teleport.
    pub open spec fn arm_teleport(self, arm: TeleportArmView) -> UiView {
        UiView { teleport_place: Some(arm), ..self.disarmed() }
    }

    /// Nothing waits but a posture.
    pub open spec fn arm_posture(self, arm: PostureArm) -> UiView {
        UiView { posture_place: Some(arm), ..self.disarmed() }
    }

    /// Nothing waits but the region marker.
    pub open spec fn arm_region(self) -> UiView {
        UiView { region_place: true, ..self.disarmed() }
    }

    /// The other card, at its first page, with nothing waiting.
    pub open spec fn flipped(self) -> UiView {
        UiView {
            page: if self.page == CardPage::Orders {
                CardPage::Doctrine
            } else {
                CardPage::Orders
            },
            card_page: 0,
            ..self.disarmed()
        }
    }
}

/// The template one press on.
pub open spec fn next_template(action: CmdAction, t: TemplateView) -> TemplateView {
    match action {
        CmdAction::TemplateSquad => TemplateView {
            squad: match t.squad {
                None => Some(1u8),
                Some(id) => if id < MAX_UI_SQUAD {
                    Some((id + 1) as u8)
                } else {
                    None
                },
            },
            ..t
        },
        CmdAction::TemplateFallback => TemplateView {
            retreat: stepped(t.retreat, fallback_ladder()),
            ..t
        },
        CmdAction::TemplatePriority => TemplateView { prio: t.prio.after(), ..t },
        CmdAction::TemplateAutoCast => TemplateView { autocast: !t.autocast, ..t },
        _ => TemplateView::blank(true),
    }
}

/// A template change: the whole template is said again, with one piece moved.
pub open spec fn template_said(cat: &Catalog, w: &World, action: CmdAction) -> Seq<Said> {
    let t = template_of(cat, w);
    match single(w) {
        Some(b) if own_ids(w).len() == 0 && t.capable && !b.unfinished => {
            let next = next_template(action, t);
            seq![
                Said::Template {
                    building: b.id,
                    squad: next.squad,
                    retreat: match next.retreat {
                        Some(below) => Some((below, refuge(cat, w, home()))),
                        None => None,
                    },
                    priority: if next.prio == PrioPreset::Off {
                        None
                    } else {
                        Some(next.prio.list())
                    },
                    autocast: if next.autocast {
                        Some(AUTOCAST_MIN_ENEMIES)
                    } else {
                        None
                    },
                },
            ]
        },
        _ => Seq::empty(),
    }
}

/// What a unit costs here: a hero's own price, or its kind's.
pub open spec fn training_price(cat: &Catalog, w: &World, kind: UnitKind) -> Option<(u32, u32)> {
    let row = cat.unit_row(kind);
    if row.hero {
        match training_state(cat, w).offered(kind) {
            Some(offer) => if offer.enabled {
                Some((offer.gold, offer.lumber))
            } else {
                None
            },
            None => None,
        }
    } else {
        Some((row.cost_gold, row.cost_lumber))
    }
}

/// Training: only at the one selected finished building of ours that trains
/// the kind, with a slot for a hero, money in hand, and room in the queue.
pub open spec fn train_said(cat: &Catalog, w: &World, kind: UnitKind) -> Seq<Said> {
    match (single(w), training_price(cat, w, kind)) {
        (Some(b), Some((gold, lumber))) => match b.queue {
            Some(queue) => only_if(
                !b.unfinished && cat.building_row(b.kind).trains@.contains(kind) && gold <= w.gold
                    && lumber <= w.lumber && queue@.len() < MAX_QUEUE,
                Said::Train { building: b.id, unit: kind },
            ),
            None => Seq::empty(),
        },
        _ => Seq::empty(),
    }
}

/// The item in a slot, when the slot holds one that teleports.
pub open spec fn teleport_in(
    cat: &Catalog,
    u: SelUnit,
    slot: usize,
) -> Option<crate::catalog::ItemId> {
    if slot < 2 {
        match bag(u.items)@[slot as int] {
            Some(id) => if cat.item_row(id).chooses_destination {
                Some(id)
            } else {
                None
            },
            None => None,
        }
    } else {
        None
    }
}

/// What a command changes in the interface.
pub open spec fn change(cat: &Catalog, w: &World, action: CmdAction, ui: UiView) -> UiView {
    match action {
        CmdAction::AttackMove => ui.arm_attack(),
        CmdAction::Stop => UiView { attack_move_armed: false, ..ui },
        CmdAction::Place(kind) => if cat.met(cat.building_row(kind).requires@, completed(w)) {
            ui.arm_placement(kind)
        } else {
            ui
        },
        CmdAction::CastHero(slot) => {
            let cs = casters(cat, w);
            if cs.len() == 0 {
                ui
            } else {
                match slot_ability(cat, cs[0].kind, slot as int) {
                    Some(def) => if def.target.reach() is Some {
                        ui.arm_cast(
                            CastArmView {
                                casters: aimed_casters(cat, cs, slot as int, def.target),
                                slot,
                                name: def.name@,
                                wants_unit: def.target is Unit,
                            },
                        )
                    } else {
                        ui
                    },
                    None => ui,
                }
            }
        },
        CmdAction::CastBuilding(slot) => match single(w) {
            Some(b) if !b.unfinished && slot < cat.building_row(b.kind).abilities@.len() => {
                let def = cat.building_row(b.kind).abilities@[slot as int];
                if def.target.reach() is Some {
                    ui.arm_cast(
                        CastArmView {
                            casters: seq![b.id],
                            slot,
                            name: def.name@,
                            wants_unit: def.target is Unit,
                        },
                    )
                } else {
                    ui
                }
            },
            _ => ui,
        },
        CmdAction::UseSlot(slot) => {
            let cs = casters(cat, w);
            if cs.len() == 0 {
                ui
            } else {
                match teleport_in(cat, cs[0], slot) {
                    Some(id) => if halls(cat, w, home()).len() > 1 {
                        ui.arm_teleport(
                            TeleportArmView { hero: cs[0].id, slot, name: item_title(id) },
                        )
                    } else {
                        ui
                    },
                    None => ui,
                }
            }
        },
        CmdAction::TogglePage => ui.flipped(),
        CmdAction::MarkRegion => if lowest_mark(w.regions@, 1) is None {
            ui
        } else if ui.region_place {
            UiView { region_place: false, ..ui }
        } else {
            ui.arm_region()
        },
        CmdAction::ClearRegions => if w.regions@.len() == 0 {
            ui
        } else {
            UiView { region_place: false, ..ui }
        },
        CmdAction::NudgeRegion(up) => UiView {
            region_radius: nudged(
                ui.region_radius,
                up,
                REGION_NUDGE as int,
                REGION_MARK_RADIUS,
                cat.region_radius_min as int,
                cat.region_radius_max as int,
            ),
            ..ui
        },
        CmdAction::SetPosture(kind) => match gesture_squad(cat, w) {
            Some(squad) => ui.arm_posture(PostureArm { squad, kind }),
            None => ui,
        },
        _ => ui,
    }
}

/// What a command says.
pub open spec fn speech(
    cat: &Catalog,
    w: &World,
    action: CmdAction,
    last_hero: Option<u64>,
) -> Seq<Said> {
    let doc = doc_of(cat, w);
    let units = own_ids(w);
    let cs = casters(cat, w);
    match action {
        CmdAction::Stop => if_any(units, Said::Stop { units }),
        CmdAction::CastHero(slot) => if cs.len() == 0 {
            Seq::empty()
        } else {
            match slot_ability(cat, cs[0].kind, slot as int) {
                Some(def) => if def.target.reach() is Some {
                    Seq::empty()
                } else {
                    cast_all(cs, slot)
                },
                None => Seq::empty(),
            }
        },
        CmdAction::CastBuilding(slot) => match single(w) {
            Some(b) if !b.unfinished && slot < cat.building_row(b.kind).abilities@.len() => only_if(
                cat.building_row(b.kind).abilities@[slot as int].target.reach() is None,
                Said::Cast { caster: b.id, ability: slot, aim: None },
            ),
            _ => Seq::empty(),
        },
        CmdAction::Buy(item) => match (single(w), customer(cat, w, last_hero)) {
            (Some(b), Some(buyer)) => only_if(
                b.kind == BuildingKind::Shop && !b.unfinished,
                Said::Buy { shop: b.id, item, hero: buyer.0 },
            ),
            _ => Seq::empty(),
        },
        CmdAction::Research(kind) => match single(w) {
            Some(b) => only_if(
                !b.unfinished && !b.upgrading && cat.building_row(b.kind).researches@.contains(
                    kind,
                ),
                Said::Research { building: b.id, upgrade: kind },
            ),
            None => Seq::empty(),
        },
        CmdAction::Upgrade(to) => match single(w) {
            Some(b) => only_if(
                !b.unfinished && !b.upgrading && match cat.building_row(b.kind).upgrade {
                    Some(next) => next.0 == to,
                    None => false,
                },
                Said::Upgrade { building: b.id },
            ),
            None => Seq::empty(),
        },
        CmdAction::UseSlot(slot) => if cs.len() == 0 {
            Seq::empty()
        } else {
            only_if(
                teleport_in(cat, cs[0], slot) is None || halls(cat, w, home()).len() <= 1,
                Said::UseItem { slot, hero: cs[0].id, destination: None },
            )
        },
        CmdAction::ToggleGuard => leash_said(
            w,
            if doc.leashed == 0 {
                Some(GUARD_RADIUS)
            } else {
                None
            },
        ),
        CmdAction::ToggleFallback => retreat_said(
            cat,
            w,
            if doc.fallback == 0 {
                Some(FALLBACK_FRAC)
            } else {
                None
            },
        ),
        CmdAction::CyclePriority => if_any(
            units,
            Said::Priority { units, classes: doc.prio.after().list() },
        ),
        CmdAction::ToggleAutoCast => only_if(
            cs.len() > 0,
            Said::Autocast {
                units: caster_ids(cs),
                min_enemies: if doc.autocast == 0 {
                    AUTOCAST_MIN_ENEMIES
                } else {
                    0
                },
                ability: None,
            },
        ),
        CmdAction::ToggleAutoCastSlot(slot) => only_if(
            cs.len() > 0,
            Said::Autocast {
                units: caster_ids(cs),
                min_enemies: if mostly(doc.slot_carriers(slot as int), doc.casters as int) {
                    0
                } else {
                    AUTOCAST_MIN_ENEMIES
                },
                ability: Some(slot),
            },
        ),
        CmdAction::ClearRegions => only_if(w.regions@.len() > 0, Said::RegionClear),
        CmdAction::ToggleHomeGuard => if armed_rule(w.triggers@, home_guard()) {
            seq![Said::TriggerClear { name: home_guard() }]
        } else {
            match gesture_squad(cat, w) {
                Some(squad) => enrolment(cat, w).push(
                    Said::TriggerSet {
                        name: home_guard(),
                        squad,
                        posture: PostureIntent::Defend {
                            at: refuge(cat, w, own_centre(w)),
                            radius: HOME_GUARD_RADIUS,
                        },
                        repeat: HOME_GUARD_COOLDOWN,
                    },
                ),
                None => Seq::empty(),
            }
        },
        CmdAction::SetPosture(_) => enrolment(cat, w),
        CmdAction::ClearPosture => match doc.squad {
            Some(id) => seq![Said::Posture { id, posture: None }],
            None => Seq::empty(),
        },
        CmdAction::CycleFallback => retreat_said(
            cat,
            w,
            stepped(doc.fallback_now(), fallback_ladder()),
        ),
        CmdAction::CycleLeash => leash_said(w, stepped(doc.leash_now(), leash_ladder())),
        CmdAction::NudgeFallback(up) => retreat_said(
            cat,
            w,
            nudged(
                doc.fallback_now(),
                up,
                FALLBACK_NUDGE as int,
                fallback_ladder()[1],
                FALLBACK_MIN as int,
                FALLBACK_MAX as int,
            ),
        ),
        CmdAction::NudgeLeash(up) => leash_said(
            w,
            nudged(
                doc.leash_now(),
                up,
                LEASH_NUDGE as int,
                leash_ladder()[1],
                LEASH_MIN as int,
                LEASH_MAX as int,
            ),
        ),
        CmdAction::TemplateSquad
        | CmdAction::TemplateFallback
        | CmdAction::TemplatePriority
        | CmdAction::TemplateAutoCast
        | CmdAction::TemplateClear => template_said(cat, w, action),
        CmdAction::Train(kind) => train_said(cat, w, kind),
        _ => Seq::empty(),
    }
}

/// The interface after a list of commands.
pub open spec fn changes(
    cat: &Catalog,
    w: &World,
    actions: Seq<CmdAction>,
    ui: UiView,
) -> UiView
    decreases actions.len(),
{
    if actions.len() == 0 {
        ui
    } else {
        change(cat, w, actions.last(), changes(cat, w, actions.drop_last(), ui))
    }
}

/// Everything a list of commands says.
pub open spec fn speeches(
    cat: &Catalog,
    w: &World,
    actions: Seq<CmdAction>,
    last_hero: Option<u64>,
) -> Seq<Said>
    decreases actions.len(),
{
    if actions.len() == 0 {
        Seq::empty()
    } else {
        speeches(cat, w, actions.drop_last(), last_hero) + speech(
            cat,
            w,
            actions.last(),
            last_hero,
        )
    }
}

// ---------------------------------------------------------------------------
// Carrying a command out
// ---------------------------------------------------------------------------

impl UiState {
    fn arm_attack(&mut self)
        ensures
            final(self)@ == old(self)@.arm_attack(),
    {
        self.disarm();
        self.attack_move_armed = true;
    }

    fn arm_placement(&mut self, kind: BuildingKind)
        ensures
            final(self)@ == old(self)@.arm_placement(kind),
    {
        self.disarm();
        self.placement = Some(kind);
    }

    fn arm_cast(&mut self, arm: CastArm)
        ensures
            final(self)@ == old(self)@.arm_cast(arm@),
    {
        self.disarm();
        self.cast_place = Some(arm);
    }

    fn arm_teleport(&mut self, arm: TeleportArm)
        ensures
            final(self)@ == old(self)@.arm_teleport(arm@),
    {
        self.disarm();
        self.teleport_place = Some(arm);
    }

    fn arm_posture(&mut self, arm: PostureArm)
        ensures
            final(self)@ == old(self)@.arm_posture(arm),
    {
        self.disarm();
        self.posture_place = Some(arm);
    }

    fn arm_region(&mut self)
        ensures
            final(self)@ == old(self)@.arm_region(),
    {
        self.disarm();
        self.region_place = true;
    }

    fn flip(&mut self)
        ensures
            final(self)@ == old(self)@.flipped(),
    {
        self.disarm();
        self.page = match self.page {
            CardPage::Orders => CardPage::Doctrine,
            CardPage::Doctrine => CardPage::Orders,
        };
        self.card_page = 0;
    }
}

fn say_retreat(cat: &Catalog, w: &World, below: Option<i64>, out: &mut Vec<Intent>)
    requires
        cat.wf(),
    ensures
        said(final(out)@) == said(old(out)@) + retreat_said(cat, w, below),
{
    let units = list_own_ids(w);
    if units.len() > 0 {
        match below {
            Some(frac) => {
                let rally = nearest_hall(cat, w, find_centre(w));
                say(out, Intent::Retreat { units, below: frac, rally: Some(rally) });
            },
            None => say(out, Intent::Retreat { units, below: 0, rally: None }),
        }
    }
    assert(said(out@) =~= said(old(out)@) + retreat_said(cat, w, below));
}

fn say_leash(w: &World, radius: Option<i64>, out: &mut Vec<Intent>)
    ensures
        said(final(out)@) == said(old(out)@) + leash_said(w, radius),
{
    let units = list_own_ids(w);
    if units.len() > 0 {
        match radius {
            Some(r) => {
                let anchor = clamp_to_map(find_centre(w));
                say(out, Intent::Leash { units, anchor: Some(anchor), radius: r });
            },
            None => say(out, Intent::Leash { units, anchor: None, radius: 0 }),
        }
    }
    assert(said(out@) =~= said(old(out)@) + leash_said(w, radius));
}

/// Which squad a gesture is about, enrolling the selection first where it is
/// not already one squad.
fn resolve_squad(cat: &Catalog, w: &World, doc: &DoctrineState, out: &mut Vec<Intent>) -> (r: Option<
    u8,
>)
    requires
        cat.wf(),
        *doc == doc_of(cat, w),
    ensures
        r == gesture_squad(cat, w),
        said(final(out)@) == said(old(out)@) + enrolment(cat, w),
{
    let units = list_own_ids(w);
    if units.len() == 0 {
        assert(said(out@) =~= said(old(out)@) + enrolment(cat, w));
        return None;
    }
    let squad: u8 = match doc.squad {
        Some(id) => id,
        None => mint_squad(w),
    };
    if doc.squad.is_none() || doc.in_squad < doc.units {
        say(out, Intent::Squad { units, id: Some(squad) });
    }
    assert(said(out@) =~= said(old(out)@) + enrolment(cat, w));
    Some(squad)
}

fn list_aimed(cat: &Catalog, cs: &Vec<&SelUnit>, slot: usize, target: AbilityTarget) -> (r: Vec<u64>)
    requires
        cat.wf(),
    ensures
        r@ == aimed_casters(cat, unrefs(cs@), slot as int, target),
{
    let mut out: Vec<u64> = Vec::new();
    let ghost all = unrefs(cs@);
    let ghost f = same_aim(cat, slot as int, target);
    let mut i: usize = 0;
    while i < cs.len()
        invariant
            cat.wf(),
            i <= cs.len(),
            all == unrefs(cs@),
            f == same_aim(cat, slot as int, target),
            out@ == picked(all.take(i as int), f),
        decreases cs.len() - i,
    {
        proof {
            picked_step(all, i as int, f);
        }
        let u = cs[i];
        assert(all[i as int] == *u);
        let list = &cat.unit(u.kind).abilities;
        if slot < list.len() && list[slot].target == target {
            out.push(u.id);
        }
        i = i + 1;
    }
    assert(all.take(i as int) =~= all);
    out
}

fn say_casts(cs: &Vec<&SelUnit>, slot: usize, out: &mut Vec<Intent>)
    ensures
        said(final(out)@) == said(old(out)@) + cast_all(unrefs(cs@), slot),
{
    let ghost all = cast_all(unrefs(cs@), slot);
    let mut i: usize = 0;
    assert(said(out@) =~= said(old(out)@) + all.take(0));
    while i < cs.len()
        invariant
            i <= cs.len(),
            all == cast_all(unrefs(cs@), slot),
            said(out@) == said(old(out)@) + all.take(i as int),
        decreases cs.len() - i,
    {
        say(out, cast_here(cs[i].id, slot, None));
        assert(all[i as int] == (Said::Cast { caster: cs@[i as int].id, ability: slot, aim: None }));
        assert(said(out@) =~= said(old(out)@) + all.take(i + 1));
        i = i + 1;
    }
    assert(all.take(i as int) =~= all);
}

fn list_caster_ids(cs: &Vec<&SelUnit>) -> (r: Vec<u64>)
    ensures
        r@ == caster_ids(unrefs(cs@)),
{
    let ghost all = caster_ids(unrefs(cs@));
    let mut out: Vec<u64> = Vec::new();
    let mut i: usize = 0;
    while i < cs.len()
        invariant
            i <= cs.len(),
            all == caster_ids(unrefs(cs@)),
            out@ == all.take(i as int),
        decreases cs.len() - i,
    {
        out.push(cs[i].id);
        assert(all[i as int] == cs@[i as int].id);
        assert(all.take(i + 1) =~= all.take(i as int).push(all[i as int]));
        i = i + 1;
    }
    assert(all.take(i as int) =~= all);
    out
}

fn do_cast_hero(cat: &Catalog, w: &World, slot: usize, ui: &mut UiState, out: &mut Vec<Intent>)
    requires
        cat.wf(),
    ensures
        final(ui)@ == change(cat, w, CmdAction::CastHero(slot), old(ui)@),
        said(final(out)@) == said(old(out)@) + speech(
            cat,
            w,
            CmdAction::CastHero(slot),
            old(ui)@.last_hero,
        ),
{
    let cs = list_casters(cat, w);
    let ghost all = casters(cat, w);
    assert(all.len() == cs@.len());
    if cs.len() == 0 {
        assert(said(out@) =~= said(old(out)@) + Seq::<Said>::empty());
        return ;
    }
    assert(all[0] == *cs@[0]);
    let list = &cat.unit(cs[0].kind).abilities;
    if slot >= list.len() {
        assert(said(out@) =~= said(old(out)@) + Seq::<Said>::empty());
        return ;
    }
    let def = list[slot];
    if def.target.range().is_some() {
        let aimed = list_aimed(cat, &cs, slot, def.target);
        ui.arm_cast(
            CastArm { casters: aimed, slot, name: def.name, wants_unit: def.target.wants_unit() },
        );
        assert(said(out@) =~= said(old(out)@) + Seq::<Said>::empty());
    } else {
        say_casts(&cs, slot, out);
    }
}

fn do_cast_building(cat: &Catalog, w: &World, slot: usize, ui: &mut UiState, out: &mut Vec<Intent>)
    requires
        cat.wf(),
    ensures
        final(ui)@ == change(cat, w, CmdAction::CastBuilding(slot), old(ui)@),
        said(final(out)@) == said(old(out)@) + speech(
            cat,
            w,
            CmdAction::CastBuilding(slot),
            old(ui)@.last_hero,
        ),
{
    if let Some(b) = find_single(w) {
        let list = &cat.building(b.kind).abilities;
        if !b.unfinished && slot < list.len() {
            let def = list[slot];
            if def.target.range().is_some() {
                let mut one: Vec<u64> = Vec::new();
                one.push(b.id);
                assert(one@ =~= seq![b.id]);
                ui.arm_cast(
                    CastArm {
                        casters: one,
                        slot,
                        name: def.name,
                        wants_unit: def.target.wants_unit(),
                    },
                );
            } else {
                say(out, cast_here(b.id, slot, None));
            }
        }
    }
    assert(said(out@) =~= said(old(out)@) + speech(
        cat,
        w,
        CmdAction::CastBuilding(slot),
        old(ui)@.last_hero,
    ));
}

fn do_use_slot(cat: &Catalog, w: &World, slot: usize, ui: &mut UiState, out: &mut Vec<Intent>)
    requires
        cat.wf(),
    ensures
        final(ui)@ == change(cat, w, CmdAction::UseSlot(slot), old(ui)@),
        said(final(out)@) == said(old(out)@) + speech(
            cat,
            w,
            CmdAction::UseSlot(slot),
            old(ui)@.last_hero,
        ),
{
    let cs = list_casters(cat, w);
    let ghost all = casters(cat, w);
    assert(all.len() == cs@.len());
    if cs.len() == 0 {
        assert(said(out@) =~= said(old(out)@) + Seq::<Said>::empty());
        return ;
    }
    assert(all[0] == *cs@[0]);
    let hero = cs[0];
    let mut teleport: Option<crate::catalog::ItemId> = None;
    if slot < 2 {
        if let Some(slots) = hero.items {
            if let Some(id) = slots[slot] {
                if cat.item(id).chooses_destination {
                    teleport = Some(id);
                }
            }
        }
    }
    assert(teleport == teleport_in(cat, all[0], slot));
    if let Some(id) = teleport {
        if list_halls(cat, w, human_base()).len() > 1 {
            ui.arm_teleport(TeleportArm { hero: hero.id, slot, name: item_name(id) });
            assert(said(out@) =~= said(old(out)@) + Seq::<Said>::empty());
            return ;
        }
    }
    say(out, Intent::UseItem { slot, hero: hero.id, destination: None });
    assert(said(out@) =~= said(old(out)@) + seq![
        Said::UseItem { slot, hero: hero.id, destination: None },
    ]);
}

fn offers_research(list: &Vec<ResearchKind>, kind: ResearchKind) -> (r: bool)
    ensures
        r == list@.contains(kind),
{
    let mut i: usize = 0;
    while i < list.len()
        invariant
            i <= list.len(),
            forall|j: int| 0 <= j < i ==> list@[j] != kind,
        decreases list.len() - i,
    {
        if list[i] == kind {
            return true;
        }
        i = i + 1;
    }
    false
}

fn trains_unit(list: &Vec<UnitKind>, kind: UnitKind) -> (r: bool)
    ensures
        r == list@.contains(kind),
{
    let mut i: usize = 0;
    while i < list.len()
        invariant
            i <= list.len(),
            forall|j: int| 0 <= j < i ==> list@[j] != kind,
        decreases list.len() - i,
    {
        if list[i] == kind {
            return true;
        }
        i = i + 1;
    }
    false
}

fn say_building(
    cat: &Catalog,
    w: &World,
    action: CmdAction,
    last_hero: Option<u64>,
    out: &mut Vec<Intent>,
)
    requires
        cat.wf(),
        action is Buy || action is Research || action is Upgrade,
    ensures
        said(final(out)@) == said(old(out)@) + speech(cat, w, action, last_hero),
{
    if let Some(b) = find_single(w) {
        let row = cat.building(b.kind);
        match action {
            CmdAction::Buy(item) => {
                if b.kind == BuildingKind::Shop && !b.unfinished {
                    if let Some(buyer) = find_customer(cat, w, last_hero) {
                        say(out, Intent::Buy { shop: b.id, item, hero: buyer.0 });
                    }
                }
            },
            CmdAction::Research(kind) => {
                if !b.unfinished && !b.upgrading && offers_research(&row.researches, kind) {
                    say(out, Intent::Research { building: b.id, upgrade: kind });
                }
            },
            CmdAction::Upgrade(to) => {
                if !b.unfinished && !b.upgrading {
                    if let Some(next) = row.upgrade {
                        if next.0 == to {
                            say(out, Intent::Upgrade { building: b.id });
                        }
                    }
                }
            },
            _ => {},
        }
    }
    assert(said(out@) =~= said(old(out)@) + speech(cat, w, action, last_hero));
}

fn say_train(cat: &Catalog, w: &World, kind: UnitKind, out: &mut Vec<Intent>)
    requires
        cat.wf(),
    ensures
        said(final(out)@) == said(old(out)@) + train_said(cat, w, kind),
{
    let row = cat.unit(kind);
    let price: Option<(u32, u32)> = if row.hero {
        match hero_train_state(cat, w).offer(kind) {
            Some(offer) => if offer.enabled {
                Some((offer.gold, offer.lumber))
            } else {
                None
            },
            None => None,
        }
    } else {
        Some((row.cost_gold, row.cost_lumber))
    };
    assert(price == training_price(cat, w, kind));
    if let Some(b) = find_single(w) {
        if let Some((gold, lumber)) = price {
            if let Some(queue) = &b.queue {
                if !b.unfinished && trains_unit(&cat.building(b.kind).trains, kind) && gold
                    <= w.gold && lumber <= w.lumber && queue.len() < MAX_QUEUE {
                    say(out, Intent::Train { building: b.id, unit: kind });
                }
            }
        }
    }
    assert(said(out@) =~= said(old(out)@) + train_said(cat, w, kind));
}

fn step_template(action: CmdAction, t: TemplateView) -> (r: TemplateView)
    ensures
        r == next_template(action, t),
{
    let mut next = t;
    match action {
        CmdAction::TemplateSquad => {
            next.squad = match t.squad {
                None => Some(1),
                Some(id) => if id < MAX_UI_SQUAD {
                    Some(id + 1)
                } else {
                    None
                },
            };
        },
        CmdAction::TemplateFallback => {
            next.retreat = cycle_step(t.retreat, &fallback_steps());
        },
        CmdAction::TemplatePriority => {
            next.prio = t.prio.next();
        },
        CmdAction::TemplateAutoCast => {
            next.autocast = !t.autocast;
        },
        _ => {
            next = TemplateView::fresh(true);
        },
    }
    next
}

fn say_template(cat: &Catalog, w: &World, action: CmdAction, out: &mut Vec<Intent>)
    requires
        cat.wf(),
    ensures
        said(final(out)@) == said(old(out)@) + template_said(cat, w, action),
{
    let t = read_template(cat, w);
    let units = list_own_ids(w);
    if units.len() == 0 && t.capable {
        if let Some(b) = find_single(w) {
            if !b.unfinished {
                let next = step_template(action, t);
                let rally = nearest_hall(cat, w, human_base());
                say(
                    out,
                    Intent::Template {
                        building: b.id,
                        squad: next.squad,
                        retreat: match next.retreat {
                            Some(below) => Some((below, rally)),
                            None => None,
                        },
                        priority: priority_component(next.prio),
                        autocast: if next.autocast {
                            Some(AUTOCAST_MIN_ENEMIES)
                        } else {
                            None
                        },
                    },
                );
            }
        }
    }
    assert(said(out@) =~= said(old(out)@) + template_said(cat, w, action));
}

fn say_autocast(cat: &Catalog, w: &World, min_enemies: u32, ability: Option<usize>, out: &mut Vec<
    Intent,
>)
    requires
        cat.wf(),
    ensures
        said(final(out)@) == said(old(out)@) + only_if(
            casters(cat, w).len() > 0,
            Said::Autocast { units: caster_ids(casters(cat, w)), min_enemies, ability },
        ),
{
    let cs = list_casters(cat, w);
    assert(cs@.len() == casters(cat, w).len());
    if cs.len() > 0 {
        let units = list_caster_ids(&cs);
        say(out, Intent::Autocast { units, min_enemies, ability });
    }
    assert(said(out@) =~= said(old(out)@) + only_if(
        casters(cat, w).len() > 0,
        Said::Autocast { units: caster_ids(casters(cat, w)), min_enemies, ability },
    ));
}

/// The commands about policy, which change nothing in the interface.
fn say_policy(cat: &Catalog, w: &World, doc: &DoctrineState, action: CmdAction, out: &mut Vec<Intent>)
    requires
        cat.wf(),
        *doc == doc_of(cat, w),
        action is ToggleGuard || action is ToggleFallback || action is CyclePriority || action
            is ToggleAutoCast || action is ToggleAutoCastSlot || action is ClearPosture || action
            is CycleFallback || action is CycleLeash || action is NudgeFallback || action
            is NudgeLeash,
    ensures
        forall|last: Option<u64>|
            said(final(out)@) == said(old(out)@) + #[trigger] speech(cat, w, action, last),
{
    match action {
        CmdAction::ToggleGuard => say_leash(
            w,
            if doc.leashed == 0 {
                Some(GUARD_RADIUS)
            } else {
                None
            },
            out,
        ),
        CmdAction::ToggleFallback => say_retreat(
            cat,
            w,
            if doc.fallback == 0 {
                Some(FALLBACK_FRAC)
            } else {
                None
            },
            out,
        ),
        CmdAction::CyclePriority => {
            let units = list_own_ids(w);
            if units.len() > 0 {
                say(out, Intent::Priority { units, classes: doc.prio.next().classes() });
            }
            assert(said(out@) =~= said(old(out)@) + if_any(
                own_ids(w),
                Said::Priority { units: own_ids(w), classes: doc.prio.after().list() },
            ));
        },
        CmdAction::ToggleAutoCast => say_autocast(
            cat,
            w,
            if doc.autocast == 0 {
                AUTOCAST_MIN_ENEMIES
            } else {
                0
            },
            None,
            out,
        ),
        CmdAction::ToggleAutoCastSlot(slot) => say_autocast(
            cat,
            w,
            if doc.autocast_slot_active(slot) {
                0
            } else {
                AUTOCAST_MIN_ENEMIES
            },
            Some(slot),
            out,
        ),
        CmdAction::ClearPosture => {
            if let Some(id) = doc.squad {
                say(out, Intent::Posture { id, posture: None });
                assert(said(out@) =~= said(old(out)@) + seq![Said::Posture { id, posture: None }]);
            } else {
                assert(said(out@) =~= said(old(out)@) + Seq::<Said>::empty());
            }
        },
        CmdAction::CycleFallback => say_retreat(
            cat,
            w,
            cycle_step(doc.fallback_value(), &fallback_steps()),
            out,
        ),
        CmdAction::CycleLeash => say_leash(w, cycle_step(doc.leash_value(), &leash_steps()), out),
        CmdAction::NudgeFallback(up) => say_retreat(
            cat,
            w,
            nudge_value(
                doc.fallback_value(),
                up,
                FALLBACK_NUDGE,
                fallback_steps()[1],
                FALLBACK_MIN,
                FALLBACK_MAX,
            ),
            out,
        ),
        CmdAction::NudgeLeash(up) => say_leash(
            w,
            nudge_value(
                doc.leash_value(),
                up,
                LEASH_NUDGE,
                leash_steps()[1],
                LEASH_MIN,
                LEASH_MAX,
            ),
            out,
        ),
        _ => {},
    }
}

fn do_home_guard(cat: &Catalog, w: &World, doc: &DoctrineState, out: &mut Vec<Intent>)
    requires
        cat.wf(),
        *doc == doc_of(cat, w),
    ensures
        forall|last: Option<u64>|
            said(final(out)@) == said(old(out)@) + #[trigger] speech(
                cat,
                w,
                CmdAction::ToggleHomeGuard,
                last,
            ),
{
    if has_trigger(&w.triggers, "home-guard") {
        say(out, Intent::TriggerClear { name: owned("home-guard") });
        assert(said(out@) =~= said(old(out)@) + seq![Said::TriggerClear { name: home_guard() }]);
        return ;
    }
    match resolve_squad(cat, w, doc, out) {
        Some(squad) => {
            let ghost before = said(out@);
            let at = nearest_hall(cat, w, find_centre(w));
            let posture = PostureIntent::Defend { at, radius: HOME_GUARD_RADIUS };
            say(
                out,
                Intent::TriggerSet {
                    name: owned("home-guard"),
                    squad,
                    posture,
                    repeat: HOME_GUARD_COOLDOWN,
                },
            );
            assert(said(out@) =~= said(old(out)@) + enrolment(cat, w).push(
                Said::TriggerSet {
                    name: home_guard(),
                    squad,
                    posture,
                    repeat: HOME_GUARD_COOLDOWN,
                },
            ));
        },
        None => {
            assert(enrolment(cat, w) =~= Seq::<Said>::empty());
        },
    }
}

/// The commands about ground.
fn do_territory(cat: &Catalog, w: &World, action: CmdAction, ui: &mut UiState, out: &mut Vec<Intent>)
    requires
        cat.wf(),
        action is MarkRegion || action is ClearRegions || action is NudgeRegion,
    ensures
        final(ui)@ == change(cat, w, action, old(ui)@),
        said(final(out)@) == said(old(out)@) + speech(cat, w, action, old(ui)@.last_hero),
{
    match action {
        CmdAction::MarkRegion => {
            if mark_number(&w.regions).is_some() {
                if ui.region_place {
                    ui.region_place = false;
                } else {
                    ui.arm_region();
                }
            }
        },
        CmdAction::ClearRegions => {
            if w.regions.len() > 0 {
                ui.region_place = false;
                say(out, Intent::RegionClear);
            }
        },
        CmdAction::NudgeRegion(up) => {
            ui.region_radius = nudge_value(
                ui.region_radius,
                up,
                REGION_NUDGE,
                REGION_MARK_RADIUS,
                cat.region_radius_min,
                cat.region_radius_max,
            );
        },
        _ => {},
    }
    assert(said(out@) =~= said(old(out)@) + speech(cat, w, action, old(ui)@.last_hero));
}

/// Carries one command out: what it changes and what it says.
pub fn carry_out(
    cat: &Catalog,
    w: &World,
    doc: &DoctrineState,
    action: CmdAction,
    ui: &mut UiState,
    out: &mut Vec<Intent>,
)
    requires
        cat.wf(),
        *doc == doc_of(cat, w),
    ensures
        final(ui)@ == change(cat, w, action, old(ui)@),
        said(final(out)@) == said(old(out)@) + speech(cat, w, action, old(ui)@.last_hero),
{
    let ghost silent = said(out@) + Seq::<Said>::empty();
    assert(silent =~= said(out@));
    match action {
        CmdAction::AttackMove => ui.arm_attack(),
        CmdAction::Stop => {
            let units = list_own_ids(w);
            if units.len() > 0 {
                say(out, Intent::Stop { units });
            }
            ui.attack_move_armed = false;
            assert(said(out@) =~= said(old(out)@) + if_any(
                own_ids(w),
                Said::Stop { units: own_ids(w) },
            ));
        },
        CmdAction::Place(kind) => {
            if cat.requirements_met(&cat.building(kind).requires, &list_completed(w)) {
                ui.arm_placement(kind);
            }
        },
        CmdAction::CastHero(slot) => do_cast_hero(cat, w, slot, ui, out),
        CmdAction::CastBuilding(slot) => do_cast_building(cat, w, slot, ui, out),
        CmdAction::Buy(_)
        | CmdAction::Research(_)
        | CmdAction::Upgrade(_) => say_building(cat, w, action, ui.last_hero, out),
        CmdAction::UseSlot(slot) => do_use_slot(cat, w, slot, ui, out),
        CmdAction::ToggleGuard
        | CmdAction::ToggleFallback
        | CmdAction::CyclePriority
        | CmdAction::ToggleAutoCast
        | CmdAction::ToggleAutoCastSlot(_)
        | CmdAction::ClearPosture
        | CmdAction::CycleFallback
        | CmdAction::CycleLeash
        | CmdAction::NudgeFallback(_)
        | CmdAction::NudgeLeash(_) => say_policy(cat, w, doc, action, out),
        CmdAction::TogglePage => ui.flip(),
        CmdAction::MarkRegion
        | CmdAction::ClearRegions
        | CmdAction::NudgeRegion(_) => do_territory(cat, w, action, ui, out),
        CmdAction::ToggleHomeGuard => do_home_guard(cat, w, doc, out),
        CmdAction::SetPosture(kind) => {
            if let Some(squad) = resolve_squad(cat, w, doc, out) {
                ui.arm_posture(PostureArm { squad, kind });
            }
        },
        CmdAction::TemplateSquad
        | CmdAction::TemplateFallback
        | CmdAction::TemplatePriority
        | CmdAction::TemplateAutoCast
        | CmdAction::TemplateClear => say_template(cat, w, action, out),
        CmdAction::Train(kind) => say_train(cat, w, kind, out),
    }
}

// ---------------------------------------------------------------------------
// A frame of input
// ---------------------------------------------------------------------------

/// What a frame of input leads to besides the state it leaves behind.
#[derive(Debug)]
pub struct CommandOut {
    pub intents: Vec<Intent>,
    /// The whole selection from now on.
    pub select: Option<u64>,
    /// Where the camera goes.
    pub focus: Option<Pos>,
}

/// Everything a frame of input leads to.
pub struct Outcome {
    pub ui: UiView,
    pub said: Seq<Said>,
    pub select: Option<u64>,
    pub focus: Option<Pos>,
}

pub open spec fn idle_worker(cat: &Catalog) -> spec_fn(FieldUnit) -> Option<(u64, Pos)> {
    |u: FieldUnit|
        if u.own && cat.unit_row(u.kind).worker && u.idle {
            Some((u.id, u.pos))
        } else {
            None
        }
}

/// The player's idle workers.
pub open spec fn idle_workers(cat: &Catalog, w: &World) -> Seq<(u64, Pos)> {
    picked(w.units@, idle_worker(cat))
}

fn list_idle(cat: &Catalog, w: &World) -> (r: Vec<(u64, Pos)>)
    requires
        cat.wf(),
    ensures
        r@ == idle_workers(cat, w),
{
    let mut out: Vec<(u64, Pos)> = Vec::new();
    let mut i: usize = 0;
    while i < w.units.len()
        invariant
            cat.wf(),
            i <= w.units.len(),
            out@ == picked(w.units@.take(i as int), idle_worker(cat)),
        decreases w.units.len() - i,
    {
        proof {
            picked_step(w.units@, i as int, idle_worker(cat));
        }
        let u = &w.units[i];
        if u.own && cat.unit(u.kind).worker && u.idle {
            out.push((u.id, u.pos));
        }
        i = i + 1;
    }
    assert(w.units@.take(i as int) =~= w.units@);
    out
}

/// The counter one further, starting over past its end.
pub open spec fn one_more(n: usize) -> usize {
    if n == usize::MAX {
        0
    } else {
        (n + 1) as usize
    }
}

/// The card the selection gives.
pub open spec fn card_now(cat: &Catalog, hk: &Hotkeys, w: &World, ui: UiView) -> Seq<EntryView> {
    let last = remembered_hero(cat, w, ui.last_hero);
    whole_card(
        cat,
        hk,
        ui.page,
        own_ids(w).len(),
        worker_selected(cat, w),
        single_kind(w),
        hero_cmds(cat, w, last),
        card_of(cat, w, ui.region_radius, ui.region_place),
        completed(w),
    )
}

/// The overflow page after the page key: the next one, and round again.
pub open spec fn turned(entries: Seq<EntryView>, p: Presses, card_page: usize) -> usize {
    let pages = page_count(entries);
    if !p.ctrl && p.keys@.contains(NEXT_CARD_PAGE) && pages > 1 {
        ((card_page + 1) % pages) as usize
    } else {
        card_page
    }
}

/// A frame of input. Nothing happens once the game is over; the cancel key is
/// one step out and nothing else; the idle-worker key finds the next idle
/// worker; and otherwise the commands asked for are carried out in order.
pub open spec fn command_step(
    cat: &Catalog,
    hk: &Hotkeys,
    w: &World,
    p: Presses,
    ui: UiView,
) -> Outcome {
    let idle = idle_workers(cat, w);
    if w.game_over {
        Outcome { ui, said: Seq::empty(), select: None, focus: None }
    } else if p.keys@.contains(CANCEL) {
        Outcome { ui: ui.one_step_out(), said: Seq::empty(), select: None, focus: None }
    } else if !p.ctrl && p.keys@.contains(IDLE_WORKER) && idle.len() > 0 {
        let pick = idle[ui.idle_cursor as int % idle.len() as int];
        Outcome {
            ui: UiView { idle_cursor: one_more(ui.idle_cursor), ..ui },
            said: Seq::empty(),
            select: Some(pick.0),
            focus: Some(pick.1),
        }
    } else {
        let last = remembered_hero(cat, w, ui.last_hero);
        let entries = card_now(cat, hk, w, ui);
        let actions = asked(hk, p, ui.page, own_ids(w).len(), entries, ui.card_actions);
        let ready = UiView {
            last_hero: last,
            card_page: turned(entries, p, ui.card_page),
            ..ui
        };
        Outcome {
            ui: changes(cat, w, actions, ready),
            said: speeches(cat, w, actions, last),
            select: None,
            focus: None,
        }
    }
}

/// No command touches the remembered hero.
proof fn changes_keep_hero(cat: &Catalog, w: &World, actions: Seq<CmdAction>, ui: UiView)
    ensures
        changes(cat, w, actions, ui).last_hero == ui.last_hero,
    decreases actions.len(),
{
    if actions.len() > 0 {
        changes_keep_hero(cat, w, actions.drop_last(), ui);
    }
}

fn carry_out_all(
    cat: &Catalog,
    w: &World,
    doc: &DoctrineState,
    actions: &Vec<CmdAction>,
    ui: &mut UiState,
) -> (r: Vec<Intent>)
    requires
        cat.wf(),
        *doc == doc_of(cat, w),
    ensures
        final(ui)@ == changes(cat, w, actions@, old(ui)@),
        said(r@) == speeches(cat, w, actions@, old(ui)@.last_hero),
{
    let mut out: Vec<Intent> = Vec::new();
    let ghost start = ui@;
    let mut i: usize = 0;
    assert(said(out@) =~= speeches(cat, w, actions@.take(0), start.last_hero));
    assert(changes(cat, w, actions@.take(0), start) == start);
    while i < actions.len()
        invariant
            cat.wf(),
            *doc == doc_of(cat, w),
            i <= actions.len(),
            ui@ == changes(cat, w, actions@.take(i as int), start),
            said(out@) == speeches(cat, w, actions@.take(i as int), start.last_hero),
        decreases actions.len() - i,
    {
        proof {
            assert(actions@.take(i + 1).drop_last() =~= actions@.take(i as int));
            changes_keep_hero(cat, w, actions@.take(i as int), start);
        }
        carry_out(cat, w, doc, actions[i], ui, &mut out);
        i = i + 1;
    }
    assert(actions@.take(i as int) =~= actions@);
    out
}

proof fn one_page_on(page: int, pages: int)
    requires
        0 <= page,
        0 < pages,
    ensures
        (page + 1) % pages == (if page % pages + 1 == pages {
            0
        } else {
            page % pages + 1
        }),
{
    vstd::arithmetic::div_mod::lemma_add_mod_noop_right(1, page, pages);
    if page % pages + 1 == pages {
        vstd::arithmetic::div_mod::lemma_mod_self_0(pages);
    } else {
        vstd::arithmetic::div_mod::lemma_small_mod((page % pages + 1) as nat, pages as nat);
    }
}

/// A frame of the command card's input.
pub fn command_input(
    cat: &Catalog,
    hk: &Hotkeys,
    w: &World,
    p: &Presses,
    ui: &mut UiState,
) -> (r: CommandOut)
    requires
        cat.wf(),
        all_named(w.sel_units@),
    ensures
        ({
            let step = command_step(cat, hk, w, *p, old(ui)@);
            &&& final(ui)@ == step.ui
            &&& said(r.intents@) == step.said
            &&& r.select == step.select
            &&& r.focus == step.focus
        }),
{
    let none: Vec<Intent> = Vec::new();
    assert(said(none@) =~= Seq::<Said>::empty());
    if w.game_over {
        return CommandOut { intents: none, select: None, focus: None };
    }
    if was_pressed(&p.keys, CANCEL) {
        ui.escape();
        return CommandOut { intents: none, select: None, focus: None };
    }
    if !p.ctrl && was_pressed(&p.keys, IDLE_WORKER) {
        let idle = list_idle(cat, w);
        if idle.len() > 0 {
            let pick = idle[ui.idle_cursor % idle.len()];
            ui.idle_cursor = if ui.idle_cursor == usize::MAX {
                0
            } else {
                ui.idle_cursor + 1
            };
            return CommandOut { intents: none, select: Some(pick.0), focus: Some(pick.1) };
        }
    }
    let own: usize = list_own_ids(w).len();
    let card = assemble_card(cat, w, ui.region_radius, ui.region_place);
    ui.last_hero = remember_hero(cat, w, ui.last_hero);
    let hero = assemble_hero_cmds(cat, w, ui.last_hero);
    let kind: Option<(BuildingKind, bool)> = match find_single(w) {
        Some(b) => Some((b.kind, !b.unfinished)),
        None => None,
    };
    let entries = command_entries(
        cat,
        hk,
        ui.page,
        own,
        has_worker(cat, w),
        kind,
        &hero,
        &card,
        &list_completed(w),
    );
    let actions = collect_actions(hk, p, ui.page, own, &entries, &ui.card_actions);
    if !p.ctrl && was_pressed(&p.keys, NEXT_CARD_PAGE) {
        let pages: usize = paginate(&entries, 0).pages;
        if pages > 1 {
            let here: usize = ui.card_page % pages;
            proof {
                one_page_on(ui.card_page as int, pages as int);
            }
            ui.card_page = if here + 1 == pages {
                0
            } else {
                here + 1
            };
        }
    }
    proof {
        let before = old(ui)@;
        assert(tiles(entries@) == card_now(cat, hk, w, before));
        assert(actions@ == asked(
            hk,
            *p,
            before.page,
            own_ids(w).len(),
            card_now(cat, hk, w, before),
            before.card_actions,
        ));
        assert(ui.card_page == turned(card_now(cat, hk, w, before), *p, before.card_page));
        assert(ui@ == UiView {
            last_hero: remembered_hero(cat, w, before.last_hero),
            card_page: turned(card_now(cat, hk, w, before), *p, before.card_page),
            ..before
        });
    }
    let intents = carry_out_all(cat, w, &card.doc, &actions, ui);
    CommandOut { intents, select: None, focus: None }
}

// ---------------------------------------------------------------------------
// What holds of every command
// ---------------------------------------------------------------------------

/// One command keeps the next click to one meaning.
pub proof fn command_stays_exclusive(cat: &Catalog, w: &World, action: CmdAction, ui: UiView)
    requires
        ui.exclusive(),
    ensures
        change(cat, w, action, ui).exclusive(),
{
    assert(ui.disarmed().armed() == 0);
    let next = change(cat, w, action, ui);
    match action {
        CmdAction::CastHero(_) | CmdAction::CastBuilding(_) => {
            if next.cast_place is Some && ui.cast_place is None {
                assert(next.armed() == 1);
            }
        },
        CmdAction::UseSlot(_) => {
            if next.teleport_place is Some && ui.teleport_place is None {
                assert(next.armed() == 1);
            }
        },
        _ => {},
    }
}

/// The next click never means two things: a command that arms a mode drops
/// every other, and no command arms a second one beside it.
pub proof fn commands_stay_exclusive(cat: &Catalog, w: &World, actions: Seq<CmdAction>, ui: UiView)
    requires
        ui.exclusive(),
    ensures
        changes(cat, w, actions, ui).exclusive(),
    decreases actions.len(),
{
    if actions.len() > 0 {
        commands_stay_exclusive(cat, w, actions.drop_last(), ui);
        command_stays_exclusive(
            cat,
            w,
            actions.last(),
            changes(cat, w, actions.drop_last(), ui),
        );
    }
}

/// Whatever was waiting, arming a mode leaves that mode alone waiting.
pub proof fn arming_drops_the_rest(
    cat: &Catalog,
    w: &World,
    ui: UiView,
    kind: BuildingKind,
    squad_kind: crate::doctrine::PostureKind,
)
    ensures
        change(cat, w, CmdAction::AttackMove, ui).armed() == 1,
        change(cat, w, CmdAction::AttackMove, ui).attack_move_armed,
        cat.met(cat.building_row(kind).requires@, completed(w)) ==> {
            &&& change(cat, w, CmdAction::Place(kind), ui).armed() == 1
            &&& change(cat, w, CmdAction::Place(kind), ui).placement == Some(kind)
        },
        gesture_squad(cat, w) is Some ==> {
            &&& change(cat, w, CmdAction::SetPosture(squad_kind), ui).armed() == 1
            &&& change(cat, w, CmdAction::SetPosture(squad_kind), ui).posture_place is Some
        },
        lowest_mark(w.regions@, 1) is Some && !ui.region_place ==> {
            &&& change(cat, w, CmdAction::MarkRegion, ui).armed() == 1
            &&& change(cat, w, CmdAction::MarkRegion, ui).region_place
        },
        change(cat, w, CmdAction::TogglePage, ui).armed() == 0,
{
}

/// A frame of input keeps the next click to one meaning.
pub proof fn input_stays_exclusive(
    cat: &Catalog,
    hk: &Hotkeys,
    w: &World,
    p: Presses,
    ui: UiView,
)
    requires
        ui.exclusive(),
    ensures
        command_step(cat, hk, w, p, ui).ui.exclusive(),
{
    crate::ui_state::escape_takes_one_step(ui);
    let last = remembered_hero(cat, w, ui.last_hero);
    let entries = card_now(cat, hk, w, ui);
    let actions = asked(hk, p, ui.page, own_ids(w).len(), entries, ui.card_actions);
    let ready = UiView { last_hero: last, card_page: turned(entries, p, ui.card_page), ..ui };
    commands_stay_exclusive(cat, w, actions, ready);
}

/// Flipping the card twice comes back to the same card.
pub proof fn flipping_twice_returns(cat: &Catalog, w: &World, ui: UiView)
    ensures
        change(cat, w, CmdAction::TogglePage, change(cat, w, CmdAction::TogglePage, ui)).page
            == ui.page,
{
}

/// The region marker is no one-way door: a second press disarms it.
pub proof fn marker_toggles(cat: &Catalog, w: &World, ui: UiView)
    requires
        lowest_mark(w.regions@, 1) is Some,
    ensures
        change(cat, w, CmdAction::MarkRegion, ui).region_place == !ui.region_place,
{
}

/// Arming a mode says nothing: a click has still to be made.
pub proof fn arming_says_nothing(
    cat: &Catalog,
    w: &World,
    action: CmdAction,
    ui: UiView,
)
    requires
        change(cat, w, action, ui).armed() > 0,
        ui.armed() == 0,
        !(action is SetPosture),
    ensures
        speech(cat, w, action, ui.last_hero) == Seq::<Said>::empty(),
{
}

/// A key does what it does whichever overflow page is on screen: the same is
/// said, selected and looked at, and the interface ends up the same but for the
/// overflow page.
pub proof fn keys_are_live_on_every_page(
    cat: &Catalog,
    hk: &Hotkeys,
    w: &World,
    p: Presses,
    ui: UiView,
    page: usize,
)
    ensures
        ({
            let here = command_step(cat, hk, w, p, ui);
            let there = command_step(cat, hk, w, p, UiView { card_page: page, ..ui });
            &&& there.said == here.said
            &&& there.select == here.select
            &&& there.focus == here.focus
            &&& there.ui == (UiView { card_page: there.ui.card_page, ..here.ui })
        }),
{
    let last = remembered_hero(cat, w, ui.last_hero);
    let entries = card_now(cat, hk, w, ui);
    let actions = asked(hk, p, ui.page, own_ids(w).len(), entries, ui.card_actions);
    let ready = UiView { last_hero: last, card_page: turned(entries, p, ui.card_page), ..ui };
    let other = UiView { last_hero: last, card_page: turned(entries, p, page), ..ui };
    changes_overlook_the_page(cat, w, actions, ready, other);
}

/// What a list of commands changes does not depend on the overflow page.
proof fn changes_overlook_the_page(
    cat: &Catalog,
    w: &World,
    actions: Seq<CmdAction>,
    a: UiView,
    b: UiView,
)
    requires
        b == (UiView { card_page: b.card_page, ..a }),
    ensures
        ({
            let there = changes(cat, w, actions, b);
            there == (UiView { card_page: there.card_page, ..changes(cat, w, actions, a) })
        }),
    decreases actions.len(),
{
    if actions.len() > 0 {
        let front = actions.drop_last();
        changes_overlook_the_page(cat, w, front, a, b);
        change_overlooks_the_page(
            cat,
            w,
            actions.last(),
            changes(cat, w, front, a),
            changes(cat, w, front, b),
        );
    }
}

/// What one command changes does not depend on the overflow page.
#[verifier::spinoff_prover]
proof fn change_overlooks_the_page(
    cat: &Catalog,
    w: &World,
    action: CmdAction,
    a: UiView,
    b: UiView,
)
    requires
        b == (UiView { card_page: b.card_page, ..a }),
    ensures
        ({
            let there = change(cat, w, action, b);
            there == (UiView { card_page: there.card_page, ..change(cat, w, action, a) })
        }),
{
}

} // verus!
