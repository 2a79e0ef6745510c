//! What a frame's keys and clicks come to: which commands they ask for, and what
//! the commands that only change the interface change in it.

use vstd::prelude::*;

use crate::card::{landed, page_count, page_tiles, CardPage, CmdAction, EntryView};
use crate::catalog::{BuildingKind, Catalog};
use crate::command::{
    asked, by_click, by_key, card_now, change, turned, clicked, command_step, fired, idle_worker,
    idle_workers, is_locked, nudges, raw, speech, Presses,
};
use crate::hotkeys::{on_row, Action, Hotkeys, Key};
use crate::hud::{published, HudFacts};
use crate::intent::Said;
use crate::lists::{first_some, first_some_is_first, picked_holds, picked_places};
use crate::orders::is_our_hero;
use crate::presses::borne;
use crate::readouts::{lowest_mark, lowest_mark_is_lowest, mark_free, mark_text};
use crate::situation::{
    completed, finished, hero_bag, hero_named, hero_seen, is_hero, own_heroes, remembered_hero,
    World,
};
use crate::text::dec;
use crate::ui_state::UiView;

verus! {

// ---------------------------------------------------------------------------
// What the interface becomes
// ---------------------------------------------------------------------------

/// The interface with nothing waiting for a click.
pub open spec fn at_rest(ui: UiView) -> UiView {
    UiView {
        attack_move_armed: false,
        placement: None,
        wall_chain: Seq::empty(),
        posture_place: None,
        cast_place: None,
        region_place: false,
        teleport_place: None,
        ..ui
    }
}

/// Some finished building of ours is the one wanted or counts as it.
pub open spec fn stands_for(cat: &Catalog, w: &World, wanted: BuildingKind) -> bool {
    exists|i: int|
        0 <= i < w.buildings@.len() && (#[trigger] w.buildings@[i]).own
            && !w.buildings@[i].unfinished && (w.buildings@[i].kind == wanted || cat.building_row(
            w.buildings@[i].kind,
        ).counts_as@.contains(wanted))
}

/// A building waits for its site, and nothing else does, exactly once finished
/// buildings of ours stand for everything it requires; until then nothing
/// changes.
pub proof fn buildings_wait_once_allowed(cat: &Catalog, w: &World, kind: BuildingKind, ui: UiView)
    ensures
        change(cat, w, CmdAction::Place(kind), ui) == (if forall|i: int|
            0 <= i < cat.building_row(kind).requires@.len() ==> stands_for(
                cat,
                w,
                #[trigger] cat.building_row(kind).requires@[i],
            ) {
            UiView { placement: Some(kind), ..at_rest(ui) }
        } else {
            ui
        }),
{
    let reqs = cat.building_row(kind).requires@;
    let f = finished();
    assert forall|wanted: BuildingKind| #[trigger]
        cat.answered(completed(w), wanted) <==> stands_for(cat, w, wanted) by {
        let list = completed(w);
        let at = picked_places(w.buildings@, f);
        if cat.answered(list, wanted) {
            let k = choose|k: int| 0 <= k < list.len() && cat.answers(#[trigger] list[k], wanted);
            let i = at[k];
            assert(f(w.buildings@[i]) == Some(list[k]));
            assert(w.buildings@[i].own);
        }
        if stands_for(cat, w, wanted) {
            let i = choose|i: int|
                0 <= i < w.buildings@.len() && (#[trigger] w.buildings@[i]).own
                    && !w.buildings@[i].unfinished && (w.buildings@[i].kind == wanted
                    || cat.building_row(w.buildings@[i].kind).counts_as@.contains(wanted));
            assert(f(w.buildings@[i]) is Some);
            assert(at.contains(i));
            let k = choose|k: int| 0 <= k < at.len() && at[k] == i;
            assert(cat.answers(list[k], wanted));
        }
    }
    if forall|i: int|
        0 <= i < reqs.len() ==> stands_for(
            cat,
            w,
            #[trigger] cat.building_row(kind).requires@[i],
        ) {
        assert forall|i: int| 0 <= i < reqs.len() implies cat.answered(
            completed(w),
            #[trigger] reqs[i],
        ) by {
            assert(stands_for(cat, w, cat.building_row(kind).requires@[i]));
        }
    } else {
        let i = choose|i: int|
            0 <= i < reqs.len() && !stands_for(
                cat,
                w,
                #[trigger] cat.building_row(kind).requires@[i],
            );
        assert(!cat.answered(completed(w), reqs[i]));
    }
}

/// An attack-move waits for its click and nothing else does; the other card is
/// shown from its first page with nothing waiting.
pub proof fn cards_flip_and_attacks_wait(cat: &Catalog, w: &World, ui: UiView)
    ensures
        change(cat, w, CmdAction::AttackMove, ui) == (UiView {
            attack_move_armed: true,
            ..at_rest(ui)
        }),
        change(cat, w, CmdAction::TogglePage, ui).page != ui.page,
        change(cat, w, CmdAction::TogglePage, ui) == (UiView {
            page: change(cat, w, CmdAction::TogglePage, ui).page,
            card_page: 0,
            ..at_rest(ui)
        }),
{
}

/// A mark waits for its click, or waits no more where it did, as long as one of
/// the eight names is free; with all of them borne nothing changes.
pub proof fn marks_wait_while_a_name_is_free(cat: &Catalog, w: &World, ui: UiView)
    ensures
        change(cat, w, CmdAction::MarkRegion, ui) == (if forall|k: int|
            1 <= k <= 8 ==> #[trigger] borne(w.regions@, k) {
            ui
        } else if ui.region_place {
            UiView { region_place: false, ..ui }
        } else {
            UiView { region_place: true, ..at_rest(ui) }
        }),
{
    lowest_mark_is_lowest(w.regions@, 1);
    assert forall|k: int| #[trigger] borne(w.regions@, k) == !mark_free(w.regions@, k) by {
        if !mark_free(w.regions@, k) {
            let i = choose|i: int|
                0 <= i < w.regions@.len() && (#[trigger] w.regions@[i]).key@ == mark_text(k);
            assert(w.regions@[i].key@ == "mark "@ + dec(k as nat));
        }
    }
    if let Some(n) = lowest_mark(w.regions@, 1) {
        assert(mark_free(w.regions@, n as int));
        assert(!borne(w.regions@, n as int));
    }
}

/// Regions are forgotten where there are any, and a mark then waits no more.
pub proof fn regions_are_forgotten(cat: &Catalog, w: &World, last: Option<u64>, ui: UiView)
    ensures
        w.regions@.len() == 0 ==> speech(cat, w, CmdAction::ClearRegions, last).len() == 0 && change(
            cat,
            w,
            CmdAction::ClearRegions,
            ui,
        ) == ui,
        w.regions@.len() > 0 ==> speech(cat, w, CmdAction::ClearRegions, last) == seq![
            Said::RegionClear,
        ] && change(cat, w, CmdAction::ClearRegions, ui) == (UiView { region_place: false, ..ui }),
{
}

/// The next mark is four units wider or narrower, within what marks may be; too
/// narrow is the usual size again, and from there the first press gives the
/// usual size by its number.
pub proof fn marks_are_sized(cat: &Catalog, w: &World, up: bool, ui: UiView)
    requires
        cat.wf(),
        ui.region_radius is Some ==> -1_000_000_000 <= ui.region_radius->0 <= 1_000_000_000,
    ensures
        ({
            let after = change(cat, w, CmdAction::NudgeRegion(up), ui);
            let moved = ui.region_radius->0 + (if up {
                4_000int
            } else {
                -4_000
            });
            &&& after == (UiView { region_radius: after.region_radius, ..ui })
            &&& ui.region_radius is None ==> after.region_radius == Some(22_000i64)
            &&& ui.region_radius is Some ==> {
                &&& after.region_radius is None <==> moved < cat.region_radius_min
                &&& moved >= cat.region_radius_min ==> after.region_radius->0 == (if moved
                    > cat.region_radius_max {
                    cat.region_radius_max as int
                } else {
                    moved
                })
            }
        }),
{
}

/// What these commands say: nothing, for a click or a later order says it.
pub proof fn some_commands_only_change_the_interface(
    cat: &Catalog,
    w: &World,
    kind: BuildingKind,
    up: bool,
    last: Option<u64>,
)
    ensures
        speech(cat, w, CmdAction::Place(kind), last).len() == 0,
        speech(cat, w, CmdAction::AttackMove, last).len() == 0,
        speech(cat, w, CmdAction::TogglePage, last).len() == 0,
        speech(cat, w, CmdAction::MarkRegion, last).len() == 0,
        speech(cat, w, CmdAction::NudgeRegion(up), last).len() == 0,
{
}

/// What the others change: nothing, for they only say something.
pub proof fn some_commands_only_speak(cat: &Catalog, w: &World, action: CmdAction, ui: UiView)
    requires
        match action {
            CmdAction::Train(_)
            | CmdAction::Buy(_)
            | CmdAction::Upgrade(_)
            | CmdAction::Research(_)
            | CmdAction::ToggleGuard
            | CmdAction::ToggleFallback
            | CmdAction::CyclePriority
            | CmdAction::ToggleAutoCast
            | CmdAction::ToggleAutoCastSlot(_)
            | CmdAction::ClearPosture
            | CmdAction::CycleFallback
            | CmdAction::CycleLeash
            | CmdAction::NudgeFallback(_)
            | CmdAction::NudgeLeash(_)
            | CmdAction::TemplateSquad
            | CmdAction::TemplateFallback
            | CmdAction::TemplatePriority
            | CmdAction::TemplateAutoCast
            | CmdAction::TemplateClear
            | CmdAction::ToggleHomeGuard => true,
            _ => false,
        },
    ensures
        change(cat, w, action, ui) == ui,
{
}

// ---------------------------------------------------------------------------
// What is asked for
// ---------------------------------------------------------------------------

/// The key that the first row about an action gives it.
pub proof fn keys_are_what_the_first_row_says(hk: &Hotkeys, action: Action, i: int)
    requires
        0 <= i < hk.rows@.len(),
        (hk.rows@[i]).0 == action,
        forall|j: int| 0 <= j < i ==> (#[trigger] hk.rows@[j]).0 != action,
    ensures
        hk.bound(action) == (hk.rows@[i]).1,
{
    let f = on_row(action);
    first_some_is_first(hk.rows@, f);
    let found = first_some(hk.rows@, f);
    if found is None {
        assert(f(hk.rows@[i]) is None);
    } else {
        let k = choose|k: int|
            0 <= k < hk.rows@.len() && f(#[trigger] hk.rows@[k]) == found && forall|j: int|
                0 <= j < k ==> f(#[trigger] hk.rows@[j]) is None;
        if k > i {
            assert(f(hk.rows@[i]) is None);
        }
        assert(k == i);
    }
}

/// A tile that is not locked bears the command and its key went down.
pub open spec fn keyed_by_a_tile(entries: Seq<EntryView>, keys: Seq<Key>, action: CmdAction) -> bool {
    exists|i: int|
        0 <= i < entries.len() && (#[trigger] entries[i]).action == action && !entries[i].locked
            && keys.contains(entries[i].key)
}

/// The command stood on a tile that was clicked, and stands on no locked tile
/// now.
pub open spec fn clicked_on_a_tile(
    entries: Seq<EntryView>,
    layout: Seq<CmdAction>,
    clicks: Seq<usize>,
    action: CmdAction,
) -> bool {
    &&& exists|k: int|
        0 <= k < clicks.len() && (#[trigger] clicks[k]) < layout.len() && layout[clicks[k] as int]
            == action
    &&& forall|i: int|
        0 <= i < entries.len() && (#[trigger] entries[i]).action == action ==> !entries[i].locked
}

/// The key of a tuning that bears no tile went down on the doctrine card; the
/// two that tune units need some of ours selected.
pub open spec fn tuned_by_key(
    hk: &Hotkeys,
    keys: Seq<Key>,
    page: CardPage,
    own_units: nat,
    action: CmdAction,
) -> bool {
    &&& page == CardPage::Doctrine
    &&& match action {
        CmdAction::NudgeFallback(up) => own_units > 0 && keys.contains(
            hk.bound(
                if up {
                    Action::NudgeFallbackUp
                } else {
                    Action::NudgeFallbackDown
                },
            ),
        ),
        CmdAction::NudgeLeash(up) => own_units > 0 && keys.contains(
            hk.bound(
                if up {
                    Action::NudgeLeashUp
                } else {
                    Action::NudgeLeashDown
                },
            ),
        ),
        CmdAction::NudgeRegion(up) => keys.contains(
            hk.bound(
                if up {
                    Action::NudgeRegionUp
                } else {
                    Action::NudgeRegionDown
                },
            ),
        ),
        _ => false,
    }
}

proof fn joined_holds<T>(a: Seq<T>, b: Seq<T>, x: T)
    ensures
        (a + b).contains(x) <==> a.contains(x) || b.contains(x),
{
    let all = a + b;
    if a.contains(x) {
        let i = choose|i: int| 0 <= i < a.len() && a[i] == x;
        assert(all[i] == x);
    }
    if b.contains(x) {
        let i = choose|i: int| 0 <= i < b.len() && b[i] == x;
        assert(all[a.len() + i] == x);
    }
    if all.contains(x) {
        let i = choose|i: int| 0 <= i < all.len() && all[i] == x;
        if i < a.len() {
            assert(a[i] == x);
        } else {
            assert(b[i - a.len()] == x);
        }
    }
}

proof fn raw_holds(keys: Seq<Key>, key: Key, action: CmdAction, x: CmdAction)
    ensures
        raw(keys, key, action).contains(x) <==> keys.contains(key) && x == action,
{
    let s = raw(keys, key, action);
    if keys.contains(key) {
        assert(s[0] == action);
    }
}

proof fn nudges_hold(hk: &Hotkeys, keys: Seq<Key>, page: CardPage, own_units: nat, x: CmdAction)
    ensures
        nudges(hk, keys, page, own_units).contains(x) <==> tuned_by_key(hk, keys, page, own_units, x),
{
    if page == CardPage::Doctrine {
        let a = raw(keys, hk.bound(Action::NudgeFallbackDown), CmdAction::NudgeFallback(false));
        let b = raw(keys, hk.bound(Action::NudgeFallbackUp), CmdAction::NudgeFallback(true));
        let c = raw(keys, hk.bound(Action::NudgeLeashDown), CmdAction::NudgeLeash(false));
        let d = raw(keys, hk.bound(Action::NudgeLeashUp), CmdAction::NudgeLeash(true));
        let e = raw(keys, hk.bound(Action::NudgeRegionDown), CmdAction::NudgeRegion(false));
        let f = raw(keys, hk.bound(Action::NudgeRegionUp), CmdAction::NudgeRegion(true));
        raw_holds(
            keys,
            hk.bound(Action::NudgeFallbackDown),
            CmdAction::NudgeFallback(false),
            x,
        );
        raw_holds(keys, hk.bound(Action::NudgeFallbackUp), CmdAction::NudgeFallback(true), x);
        raw_holds(keys, hk.bound(Action::NudgeLeashDown), CmdAction::NudgeLeash(false), x);
        raw_holds(keys, hk.bound(Action::NudgeLeashUp), CmdAction::NudgeLeash(true), x);
        raw_holds(keys, hk.bound(Action::NudgeRegionDown), CmdAction::NudgeRegion(false), x);
        raw_holds(keys, hk.bound(Action::NudgeRegionUp), CmdAction::NudgeRegion(true), x);
        joined_holds(a, b, x);
        joined_holds(c, d, x);
        joined_holds(a + b, c + d, x);
        joined_holds(e, f, x);
        let units = if own_units > 0 {
            (a + b) + (c + d)
        } else {
            Seq::empty()
        };
        joined_holds(units, e + f, x);
    }
}

/// A frame asks for exactly the commands whose keys went down on tiles that are
/// not locked, the flip of the card where its key went down, the tunings whose
/// keys did, and the commands whose tiles were clicked and are not locked. With
/// a control key held only the clicks count.
pub proof fn frames_ask_for_what_was_pressed(
    hk: &Hotkeys,
    p: Presses,
    page: CardPage,
    own_units: nat,
    entries: Seq<EntryView>,
    layout: Seq<CmdAction>,
    action: CmdAction,
)
    ensures
        asked(hk, p, page, own_units, entries, layout).contains(action) <==> {
            ||| clicked_on_a_tile(entries, layout, p.tiles@, action)
            ||| !p.ctrl && keyed_by_a_tile(entries, p.keys@, action)
            ||| !p.ctrl && action == CmdAction::TogglePage && p.keys@.contains(
                hk.bound(Action::ModeToggle),
            )
            ||| !p.ctrl && tuned_by_key(hk, p.keys@, page, own_units, action)
        },
{
    let keyed = by_key(entries, p.keys@);
    let clicks = by_click(entries, layout, p.tiles@);
    let f = fired(p.keys@);
    let g = clicked(entries, layout);
    picked_holds(entries, f, action);
    if keyed_by_a_tile(entries, p.keys@, action) {
        let i = choose|i: int|
            0 <= i < entries.len() && (#[trigger] entries[i]).action == action
                && !entries[i].locked && p.keys@.contains(entries[i].key);
        assert(f(entries[i]) == Some(action));
    }
    picked_holds(p.tiles@, g, action);
    if clicked_on_a_tile(entries, layout, p.tiles@, action) {
        let k = choose|k: int|
            0 <= k < p.tiles@.len() && (#[trigger] p.tiles@[k]) < layout.len()
                && layout[p.tiles@[k] as int] == action;
        assert(!is_locked(entries, action));
        assert(g(p.tiles@[k]) == Some(action));
    }
    nudges_hold(hk, p.keys@, page, own_units, action);
    let flip = crate::lists::only_if(
        p.keys@.contains(hk.bound(Action::ModeToggle)) && !keyed.contains(CmdAction::TogglePage),
        CmdAction::TogglePage,
    );
    if p.keys@.contains(hk.bound(Action::ModeToggle)) && !keyed.contains(CmdAction::TogglePage) {
        assert(flip[0] == CmdAction::TogglePage);
    }
    let tuned = nudges(hk, p.keys@, page, own_units);
    joined_holds(keyed, flip, action);
    joined_holds(keyed + flip, tuned, action);
    let keys = if p.ctrl {
        Seq::empty()
    } else {
        keyed + flip + tuned
    };
    joined_holds(keys, clicks, action);
}

/// Keys come before clicks, and each in the order of the card or of the clicks.
pub proof fn keys_come_before_clicks(
    hk: &Hotkeys,
    p: Presses,
    page: CardPage,
    own_units: nat,
    entries: Seq<EntryView>,
    layout: Seq<CmdAction>,
)
    requires
        p.tiles@.len() == 0 || p.ctrl,
    ensures
        p.ctrl ==> asked(hk, p, page, own_units, entries, layout) == by_click(
            entries,
            layout,
            p.tiles@,
        ),
        !p.ctrl ==> by_key(entries, p.keys@).len() <= asked(
            hk,
            p,
            page,
            own_units,
            entries,
            layout,
        ).len() && asked(hk, p, page, own_units, entries, layout).take(
            by_key(entries, p.keys@).len() as int,
        ) == by_key(entries, p.keys@),
{
    let all = asked(hk, p, page, own_units, entries, layout);
    if p.ctrl {
        assert(all =~= by_click(entries, layout, p.tiles@));
    } else {
        let keyed = by_key(entries, p.keys@);
        assert(all.take(keyed.len() as int) =~= keyed);
    }
}

// ---------------------------------------------------------------------------
// Keys that are on no card
// ---------------------------------------------------------------------------

/// The escape key takes back the innermost thing that waits, in the order
/// teleport, cast, building, posture, mark, attack-move; with nothing waiting it
/// goes back to the first page of the orders. A drag ends either way, and
/// nothing is said, whatever else was pressed.
pub proof fn escape_takes_back_one_thing(cat: &Catalog, hk: &Hotkeys, w: &World, p: Presses, ui: UiView)
    requires
        !w.game_over,
        p.keys@.contains(Key::Escape),
    ensures
        ({
            let out = command_step(cat, hk, w, p, ui);
            let still = UiView { dragging: false, drag_start: None, ..ui };
            &&& out.said.len() == 0 && out.select is None && out.focus is None
            &&& out.ui == (if ui.teleport_place is Some {
                UiView { teleport_place: None, ..still }
            } else if ui.cast_place is Some {
                UiView { cast_place: None, ..still }
            } else if ui.placement is Some {
                UiView { placement: None, wall_chain: Seq::empty(), ..still }
            } else if ui.posture_place is Some {
                UiView { posture_place: None, ..still }
            } else if ui.region_place {
                UiView { region_place: false, ..still }
            } else if ui.attack_move_armed {
                UiView { attack_move_armed: false, ..still }
            } else {
                UiView { page: CardPage::Orders, card_page: 0, ..still }
            })
        }),
{
}

/// Nothing is heard once the game is over.
pub proof fn nothing_is_heard_after_the_end(cat: &Catalog, hk: &Hotkeys, w: &World, p: Presses, ui: UiView)
    requires
        w.game_over,
    ensures
        ({
            let out = command_step(cat, hk, w, p, ui);
            out.ui == ui && out.said.len() == 0 && out.select is None && out.focus is None
        }),
{
}

/// `at` lists our idle workers, in the order of the field.
pub open spec fn idle_hands(cat: &Catalog, w: &World, at: Seq<int>) -> bool {
    &&& forall|k: int|
        0 <= k < at.len() ==> 0 <= #[trigger] at[k] < w.units@.len() && w.units@[at[k]].own
            && w.units@[at[k]].idle && cat.unit_row(w.units@[at[k]].kind).worker
    &&& forall|k: int, l: int| 0 <= k < l < at.len() ==> #[trigger] at[k] < #[trigger] at[l]
    &&& forall|i: int|
        0 <= i < w.units@.len() && (#[trigger] w.units@[i]).own && w.units@[i].idle && cat.unit_row(
            w.units@[i].kind,
        ).worker ==> at.contains(i)
}

/// The period key selects one idle worker of ours and looks at it, the next one
/// at each press and round again; nothing else happens.
pub proof fn idle_hands_are_found_in_turn(cat: &Catalog, hk: &Hotkeys, w: &World, p: Presses, ui: UiView) -> (at:
    Seq<int>)
    requires
        !w.game_over,
        !p.ctrl,
        p.keys@.contains(Key::Period),
        !p.keys@.contains(Key::Escape),
    ensures
        idle_hands(cat, w, at),
        at.len() > 0 ==> {
            let out = command_step(cat, hk, w, p, ui);
            let u = w.units@[at[ui.idle_cursor as int % at.len() as int]];
            &&& out.said.len() == 0
            &&& out.select == Some(u.id)
            &&& out.focus == Some(u.pos)
            &&& ui.idle_cursor < usize::MAX ==> out.ui == (UiView {
                idle_cursor: (ui.idle_cursor + 1) as usize,
                ..ui
            })
        },
{
    let f = idle_worker(cat);
    let list = idle_workers(cat, w);
    let at = picked_places(w.units@, f);
    assert forall|i: int|
        0 <= i < w.units@.len() && (#[trigger] w.units@[i]).own && w.units@[i].idle && cat.unit_row(
            w.units@[i].kind,
        ).worker implies at.contains(i) by {
        assert(f(w.units@[i]) is Some);
    }
    if at.len() > 0 {
        let k = ui.idle_cursor as int % at.len() as int;
        assert(0 <= k < at.len());
        assert(f(w.units@[at[k]]) == Some(list[k]));
    }
    at
}

/// A selected unit of ours that is a hero with abilities.
pub open spec fn is_selected_hero(cat: &Catalog, w: &World, i: int) -> bool {
    let u = w.sel_units@[i];
    0 <= i < w.sel_units@.len() && u.own && cat.unit_row(u.kind).hero && cat.unit_row(
        u.kind,
    ).abilities@.len() > 0
}

/// The hero looked at is the first one selected, else the one before; and nobody
/// once that one is no longer on the field.
pub proof fn the_last_hero_is_remembered(cat: &Catalog, w: &World, last: Option<u64>, i: int)
    requires
        is_selected_hero(cat, w, i) && (forall|j: int|
            0 <= j < i ==> !#[trigger] is_selected_hero(cat, w, j)) || (i < 0 && forall|j: int|
            !#[trigger] is_selected_hero(cat, w, j)),
    ensures
        ({
            let looked = if i >= 0 {
                Some(w.sel_units@[i].id)
            } else {
                last
            };
            let lives = looked is Some && exists|k: int|
                #[trigger] is_our_hero(cat, w, k) && w.units@[k].id == looked->0;
            remembered_hero(cat, w, last) == (if lives {
                looked
            } else {
                None
            })
        }),
{
    let f = hero_seen(cat);
    first_some_is_first(w.sel_units@, f);
    let found = first_some(w.sel_units@, f);
    if found is None {
        if i >= 0 {
            assert(f(w.sel_units@[i]) is None);
        }
    } else {
        let k = choose|k: int|
            0 <= k < w.sel_units@.len() && f(#[trigger] w.sel_units@[k]) == found && forall|j: int|
                0 <= j < k ==> f(#[trigger] w.sel_units@[j]) is None;
        assert(is_selected_hero(cat, w, k));
        if i >= 0 && k > i {
            assert(f(w.sel_units@[i]) is None);
        }
        assert(k == i);
    }
    let looked = if i >= 0 {
        Some(w.sel_units@[i].id)
    } else {
        last
    };
    if let Some(id) = looked {
        let heroes = own_heroes(cat, w);
        let g = is_hero(id);
        let h = hero_bag(cat);
        let at = picked_places(w.units@, h);
        first_some_is_first(heroes, g);
        if exists|k: int| #[trigger] is_our_hero(cat, w, k) && w.units@[k].id == id {
            let k = choose|k: int| #[trigger] is_our_hero(cat, w, k) && w.units@[k].id == id;
            assert(h(w.units@[k]) is Some);
            assert(at.contains(k));
            let l = choose|l: int| 0 <= l < at.len() && at[l] == k;
            assert(g(heroes[l]) is Some);
            assert(hero_named(heroes, id) is Some);
        } else if hero_named(heroes, id) is Some {
            let l = choose|l: int|
                0 <= l < heroes.len() && g(#[trigger] heroes[l]) == hero_named(heroes, id);
            assert(h(w.units@[at[l]]) == Some(heroes[l]));
            assert(is_our_hero(cat, w, at[l]));
        }
    }
}

// ---------------------------------------------------------------------------
// Pages
// ---------------------------------------------------------------------------

/// The tab key turns to the next page of the card, and from the last to the
/// first; without it, or with a control key held, the page stays.
pub proof fn pages_turn_round(entries: Seq<EntryView>, p: Presses, page: usize)
    requires
        page < page_count(entries),
        page_count(entries) <= usize::MAX,
    ensures
        !p.ctrl && p.keys@.contains(Key::Tab) && page + 1 < page_count(entries) ==> turned(
            entries,
            p,
            page,
        ) == page + 1,
        !p.ctrl && p.keys@.contains(Key::Tab) && page + 1 == page_count(entries) ==> turned(
            entries,
            p,
            page,
        ) == 0,
        p.ctrl || !p.keys@.contains(Key::Tab) ==> turned(entries, p, page) == page,
{
    let pages = page_count(entries);
    let next = page + 1;
    if next < pages {
        assert(next % pages == next) by (nonlinear_arith)
            requires
                0 <= next < pages,
        ;
    } else {
        assert(next % pages == 0) by (nonlinear_arith)
            requires
                next == pages,
                0 < pages,
        ;
    }
}

/// A tile on screen stands for its command: once the card is drawn, a click on
/// any of its tiles that is not locked asks for that tile's command.
pub proof fn tiles_stand_for_their_commands(
    cat: &Catalog,
    hk: &Hotkeys,
    w: &World,
    f: &HudFacts,
    ui: UiView,
    i: usize,
)
    requires
        ({
            let entries = card_now(cat, hk, w, ui);
            let page = landed(entries, ui.card_page as int);
            &&& i < page_tiles(entries, page).len()
            &&& forall|j: int|
                0 <= j < entries.len() && (#[trigger] entries[j]).action == page_tiles(
                    entries,
                    page,
                )[i as int].action ==> !entries[j].locked
        }),
    ensures
        ({
            let entries = card_now(cat, hk, w, ui);
            let page = landed(entries, ui.card_page as int);
            by_click(entries, published(cat, hk, w, f, ui).card_actions, seq![i]) == seq![
                page_tiles(entries, page)[i as int].action,
            ]
        }),
{
    let entries = card_now(cat, hk, w, ui);
    let page = landed(entries, ui.card_page as int);
    let layout = published(cat, hk, w, f, ui).card_actions;
    let g = clicked(entries, layout);
    let one = seq![i];
    let action = page_tiles(entries, page)[i as int].action;
    assert(layout[i as int] == action);
    assert(!is_locked(entries, action));
    crate::lists::picked_step(one, 0, g);
    assert(one.take(1) =~= one);
    assert(one.take(0) =~= Seq::<usize>::empty());
    assert(by_click(entries, layout, one) =~= seq![action]);
}

/// Drawing the HUD keeps everything in the interface but the page on screen and
/// what its tiles stand for.
pub proof fn drawing_changes_only_the_tiles(
    cat: &Catalog,
    hk: &Hotkeys,
    w: &World,
    f: &HudFacts,
    ui: UiView,
)
    ensures
        ({
            let after = published(cat, hk, w, f, ui);
            after == (UiView {
                card_page: after.card_page,
                card_entities: after.card_entities,
                card_actions: after.card_actions,
                queue_len: after.queue_len,
                ..ui
            })
        }),
        w.sel_units@.len() + w.sel_buildings@.len() < 2 ==> published(
            cat,
            hk,
            w,
            f,
            ui,
        ).card_entities.len() == 0,
{
}

} // verus!
