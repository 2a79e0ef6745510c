//! Control groups, the selection panel's tiles, and the minimap.
//!
//! A control group is a squad: the digit that remembers a selection also says
//! who is in the squad of that number, so the group the player sees and the
//! squad that acts are the same units.

use vstd::prelude::*;

use crate::catalog::Catalog;
use crate::gestures::{join_ids, joined_ids, Mouse};
use crate::intent::{copy_ids, ground_intent, ground_said, said, say, Intent, Said};
use crate::layout::{from_minimap, map_rect, minimap_rect, minimap_to_world};
use crate::lists::{find_nearest, holds, only_if, picked, picked_step};
use crate::map::{clamp_to_map, dist2, dist_sq, on_map, Pos};
use crate::pick::{
    entities_of, group, ids_of, list_group, units_named, winner, ClickBuilding, Clickables,
};
use crate::ui_state::{Px, UiState, UiView, GROUPS};

verus! {

// ---------------------------------------------------------------------------
// Control groups
// ---------------------------------------------------------------------------

/// A unit and the squad it is in.
#[derive(Clone, Copy, PartialEq, Eq, Debug, Structural)]
pub struct Member {
    pub id: u64,
    pub own: bool,
    pub squad: Option<u8>,
}

/// What the digits need to know.
#[derive(Debug)]
pub struct Roster {
    pub game_over: bool,
    pub selected: Vec<u64>,
    /// Everything that still stands.
    pub alive: Vec<u64>,
    /// Every unit.
    pub members: Vec<Member>,
}

/// Whether an id is one of the player's units.
pub open spec fn own_unit(members: Seq<Member>, id: u64) -> bool {
    exists|i: int| 0 <= i < members.len() && (#[trigger] members[i]).id == id && members[i].own
}

fn is_own_unit(members: &Vec<Member>, id: u64) -> (r: bool)
    ensures
        r == own_unit(members@, id),
{
    let mut i: usize = 0;
    while i < members.len()
        invariant
            i <= members.len(),
            forall|j: int| 0 <= j < i ==> !((#[trigger] members@[j]).id == id && members@[j].own),
        decreases members.len() - i,
    {
        if members[i].id == id && members[i].own {
            return true;
        }
        i = i + 1;
    }
    false
}

pub open spec fn joins(members: Seq<Member>) -> spec_fn(u64) -> Option<u64> {
    |id: u64|
        if own_unit(members, id) {
            Some(id)
        } else {
            None
        }
}

/// The part of a selection that can be in a squad: our own units.
pub open spec fn joining(r: &Roster) -> Seq<u64> {
    picked(r.selected@, joins(r.members@))
}

pub open spec fn stands(alive: Seq<u64>) -> spec_fn(u64) -> Option<u64> {
    |id: u64|
        if alive.contains(id) {
            Some(id)
        } else {
            None
        }
}

/// Those of a group that still stand.
pub open spec fn standing(alive: Seq<u64>, list: Seq<u64>) -> Seq<u64> {
    picked(list, stands(alive))
}

pub open spec fn stays_out(gone: Seq<u64>) -> spec_fn(u64) -> Option<u64> {
    |id: u64|
        if gone.contains(id) {
            None
        } else {
            Some(id)
        }
}

/// A list without those of another.
pub open spec fn without(list: Seq<u64>, gone: Seq<u64>) -> Seq<u64> {
    picked(list, stays_out(gone))
}

pub open spec fn leaves(slot: u8, staying: Seq<u64>) -> spec_fn(Member) -> Option<u64> {
    |m: Member|
        if m.own && m.squad == Some(slot) && !staying.contains(m.id) {
            Some(m.id)
        } else {
            None
        }
}

/// Those in a squad who are not in the new selection.
pub open spec fn leavers(r: &Roster, slot: u8) -> Seq<u64> {
    picked(r.members@, leaves(slot, joining(r)))
}

fn list_joining(r: &Roster) -> (out: Vec<u64>)
    ensures
        out@ == joining(r),
{
    let mut out: Vec<u64> = Vec::new();
    let mut i: usize = 0;
    while i < r.selected.len()
        invariant
            i <= r.selected.len(),
            out@ == picked(r.selected@.take(i as int), joins(r.members@)),
        decreases r.selected.len() - i,
    {
        proof {
            picked_step(r.selected@, i as int, joins(r.members@));
        }
        if is_own_unit(&r.members, r.selected[i]) {
            out.push(r.selected[i]);
        }
        i = i + 1;
    }
    assert(r.selected@.take(i as int) =~= r.selected@);
    out
}

fn list_standing(alive: &Vec<u64>, list: &Vec<u64>) -> (out: Vec<u64>)
    ensures
        out@ == standing(alive@, list@),
{
    let mut out: Vec<u64> = Vec::new();
    let mut i: usize = 0;
    while i < list.len()
        invariant
            i <= list.len(),
            out@ == picked(list@.take(i as int), stands(alive@)),
        decreases list.len() - i,
    {
        proof {
            picked_step(list@, i as int, stands(alive@));
        }
        if holds(alive, list[i]) {
            out.push(list[i]);
        }
        i = i + 1;
    }
    assert(list@.take(i as int) =~= list@);
    out
}

fn list_without(list: &Vec<u64>, gone: &Vec<u64>) -> (out: Vec<u64>)
    ensures
        out@ == without(list@, gone@),
{
    let mut out: Vec<u64> = Vec::new();
    let mut i: usize = 0;
    while i < list.len()
        invariant
            i <= list.len(),
            out@ == picked(list@.take(i as int), stays_out(gone@)),
        decreases list.len() - i,
    {
        proof {
            picked_step(list@, i as int, stays_out(gone@));
        }
        if !holds(gone, list[i]) {
            out.push(list[i]);
        }
        i = i + 1;
    }
    assert(list@.take(i as int) =~= list@);
    out
}

fn list_leavers(r: &Roster, slot: u8, staying: &Vec<u64>) -> (out: Vec<u64>)
    requires
        staying@ == joining(r),
    ensures
        out@ == leavers(r, slot),
{
    let mut out: Vec<u64> = Vec::new();
    let mut i: usize = 0;
    while i < r.members.len()
        invariant
            i <= r.members.len(),
            staying@ == joining(r),
            out@ == picked(r.members@.take(i as int), leaves(slot, staying@)),
        decreases r.members.len() - i,
    {
        proof {
            picked_step(r.members@, i as int, leaves(slot, staying@));
        }
        let m = r.members[i];
        let in_it: bool = match m.squad {
            Some(s) => s == slot,
            None => false,
        };
        if m.own && in_it && !holds(staying, m.id) {
            out.push(m.id);
        }
        i = i + 1;
    }
    assert(r.members@.take(i as int) =~= r.members@);
    out
}

/// What a digit does to its group.
pub open spec fn group_after(r: &Roster, ctrl: bool, shift: bool, held: Seq<u64>) -> Seq<u64> {
    if ctrl {
        r.selected@
    } else if shift {
        joined_ids(standing(r.alive@, held), r.selected@)
    } else {
        standing(r.alive@, held)
    }
}

/// What a digit says. With control held the selection becomes the squad, and
/// whoever is left behind is let go first; with shift held it joins the squad;
/// a bare digit says nothing, and nothing is said once the game is over.
pub open spec fn group_said(r: &Roster, ctrl: bool, shift: bool, slot: u8) -> Seq<Said> {
    let join = only_if(joining(r).len() > 0, Said::Squad { units: joining(r), id: Some(slot) });
    if r.game_over {
        Seq::empty()
    } else if ctrl {
        only_if(
            leavers(r, slot).len() > 0,
            Said::Squad { units: leavers(r, slot), id: None },
        ) + join
    } else if shift {
        join
    } else {
        Seq::empty()
    }
}

/// The selection a digit leads to, after what the digits before it recalled. A
/// bare one recalls those of its group who stand, and lets go of whoever was
/// selected when the frame began; a group that nobody stands in changes nothing.
pub open spec fn group_recall(
    r: &Roster,
    ctrl: bool,
    shift: bool,
    held: Seq<u64>,
    before: Seq<u64>,
) -> Seq<u64> {
    let group = standing(r.alive@, held);
    if ctrl || shift || group.len() == 0 {
        before
    } else {
        without(before, r.selected@) + group
    }
}

/// What the digits lead to besides the state they leave.
#[derive(Debug)]
pub struct GroupOut {
    pub intents: Vec<Intent>,
    /// The new selection; empty where nobody was recalled.
    pub recall: Vec<u64>,
}

/// One digit.
pub fn control_group(
    r: &Roster,
    ctrl: bool,
    shift: bool,
    slot: u8,
    ui: &mut UiState,
    out: &mut GroupOut,
)
    requires
        1 <= slot <= GROUPS,
        old(ui).groups@.len() == GROUPS,
    ensures
        final(ui).groups@.len() == GROUPS,
        final(ui)@ == (UiView {
            groups: old(ui)@.groups.update(
                slot - 1,
                group_after(r, ctrl, shift, old(ui)@.groups[slot - 1]),
            ),
            ..old(ui)@
        }),
        said(final(out).intents@) == said(old(out).intents@) + group_said(r, ctrl, shift, slot),
        final(out).recall@ == group_recall(
            r,
            ctrl,
            shift,
            old(ui)@.groups[slot - 1],
            old(out).recall@,
        ),
{
    let at: usize = (slot - 1) as usize;
    let ghost held = ui.groups@[at as int]@;
    assert(held == ui@.groups[at as int]);
    let mut next: Vec<u64> = Vec::new();
    if ctrl {
        next = copy_ids(&r.selected);
        let staying = list_joining(r);
        let going = list_leavers(r, slot, &staying);
        if !r.game_over {
            if going.len() > 0 {
                say(&mut out.intents, Intent::Squad { units: going, id: None });
            }
            if staying.len() > 0 {
                say(&mut out.intents, Intent::Squad { units: staying, id: Some(slot) });
            }
        }
    } else if shift {
        next = list_standing(&r.alive, &ui.groups[at]);
        join_ids(&mut next, &r.selected);
        let staying = list_joining(r);
        if !r.game_over && staying.len() > 0 {
            say(&mut out.intents, Intent::Squad { units: staying, id: Some(slot) });
        }
    } else {
        next = list_standing(&r.alive, &ui.groups[at]);
        if next.len() > 0 {
            let mut kept = list_without(&out.recall, &r.selected);
            let mut recalled = copy_ids(&next);
            kept.append(&mut recalled);
            out.recall = kept;
        }
    }
    assert(said(out.intents@) =~= said(old(out).intents@) + group_said(r, ctrl, shift, slot));
    assert(out.recall@ =~= group_recall(r, ctrl, shift, held, old(out).recall@));
    assert(next@ == group_after(r, ctrl, shift, held));
    ui.groups.set(at, next);
    assert(ui@.groups =~= old(ui)@.groups.update(
        slot - 1,
        group_after(r, ctrl, shift, held),
    ));
}

/// What the digits one to `n` leave of the groups.
pub open spec fn groups_after(
    r: &Roster,
    ctrl: bool,
    shift: bool,
    down: [bool; 3],
    n: int,
    groups: Seq<Seq<u64>>,
) -> Seq<Seq<u64>>
    decreases n,
{
    if n <= 0 {
        groups
    } else {
        let before = groups_after(r, ctrl, shift, down, n - 1, groups);
        if down@[n - 1] {
            before.update(n - 1, group_after(r, ctrl, shift, before[n - 1]))
        } else {
            before
        }
    }
}

/// What the digits one to `n` say.
pub open spec fn groups_said(
    r: &Roster,
    ctrl: bool,
    shift: bool,
    down: [bool; 3],
    n: int,
) -> Seq<Said>
    decreases n,
{
    if n <= 0 {
        Seq::empty()
    } else {
        groups_said(r, ctrl, shift, down, n - 1) + (if down@[n - 1] {
            group_said(r, ctrl, shift, n as u8)
        } else {
            Seq::empty()
        })
    }
}

/// Whom the digits one to `n` recall.
pub open spec fn groups_recall(
    r: &Roster,
    ctrl: bool,
    shift: bool,
    down: [bool; 3],
    n: int,
    groups: Seq<Seq<u64>>,
) -> Seq<u64>
    decreases n,
{
    if n <= 0 {
        Seq::empty()
    } else {
        let held = groups_after(r, ctrl, shift, down, n - 1, groups)[n - 1];
        let before = groups_recall(r, ctrl, shift, down, n - 1, groups);
        if down@[n - 1] {
            group_recall(r, ctrl, shift, held, before)
        } else {
            before
        }
    }
}

/// The digits of a frame. `down` says which of them went down.
pub fn control_groups(r: &Roster, ctrl: bool, shift: bool, down: [bool; 3], ui: &mut UiState) -> (out:
    GroupOut)
    requires
        old(ui).groups@.len() == GROUPS,
    ensures
        final(ui).groups@.len() == GROUPS,
        final(ui)@ == (UiView {
            groups: groups_after(r, ctrl, shift, down, 3, old(ui)@.groups),
            ..old(ui)@
        }),
        said(out.intents@) == groups_said(r, ctrl, shift, down, 3),
        out.recall@ == groups_recall(r, ctrl, shift, down, 3, old(ui)@.groups),
{
    let mut out = GroupOut { intents: Vec::new(), recall: Vec::new() };
    let ghost start = ui@;
    let mut i: usize = 0;
    assert(said(out.intents@) =~= Seq::<Said>::empty());
    assert(out.recall@ =~= Seq::<u64>::empty());
    while i < 3
        invariant
            i <= 3,
            ui.groups@.len() == GROUPS,
            ui@ == (UiView {
                groups: groups_after(r, ctrl, shift, down, i as int, start.groups),
                ..start
            }),
            said(out.intents@) == groups_said(r, ctrl, shift, down, i as int),
            out.recall@ == groups_recall(r, ctrl, shift, down, i as int, start.groups),
        decreases 3 - i,
    {
        if down[i] {
            control_group(r, ctrl, shift, (i + 1) as u8, ui, &mut out);
        } else {
            assert(said(out.intents@) + Seq::<Said>::empty() =~= said(out.intents@));
        }
        i = i + 1;
    }
    out
}

/// The squads after a sentence about them.
pub open spec fn enrolled(members: Seq<Member>, s: Said) -> Seq<Member> {
    match s {
        Said::Squad { units, id } => members.map_values(
            |m: Member|
                if units.contains(m.id) {
                    Member { squad: id, ..m }
                } else {
                    m
                },
        ),
        _ => members,
    }
}

/// The squads after several sentences.
pub open spec fn enrolled_all(members: Seq<Member>, list: Seq<Said>) -> Seq<Member>
    decreases list.len(),
{
    if list.len() == 0 {
        members
    } else {
        enrolled(enrolled_all(members, list.drop_last()), list.last())
    }
}

proof fn picked_has<T>(s: Seq<T>, f: spec_fn(T) -> Option<u64>, id: u64)
    ensures
        picked(s, f).contains(id) <==> exists|i: int|
            0 <= i < s.len() && f(#[trigger] s[i]) == Some(id),
    decreases s.len(),
{
    if s.len() > 0 {
        let front = s.drop_last();
        picked_has(front, f, id);
        let all = picked(s, f);
        let before = picked(front, f);
        if before.contains(id) {
            let i = choose|i: int| 0 <= i < before.len() && before[i] == id;
            assert(all[i] == id);
            let j = choose|j: int| 0 <= j < front.len() && f(#[trigger] front[j]) == Some(id);
            assert(s[j] == front[j]);
        }
        if all.contains(id) {
            let i = choose|i: int| 0 <= i < all.len() && all[i] == id;
            if i < before.len() {
                assert(before[i] == id);
            } else {
                assert(f(s[s.len() - 1]) == Some(id));
            }
        }
        if exists|i: int| 0 <= i < s.len() && f(#[trigger] s[i]) == Some(id) {
            let i = choose|i: int| 0 <= i < s.len() && f(#[trigger] s[i]) == Some(id);
            if i < front.len() {
                assert(front[i] == s[i]);
            } else {
                assert(all[all.len() - 1] == id);
            }
        }
    }
}

/// The group the player sees is the squad that acts: after control and a digit
/// in a running game, a unit of ours is in the squad exactly when it is in the
/// group.
pub proof fn the_group_is_the_squad(r: &Roster, shift: bool, slot: u8, held: Seq<u64>, i: int)
    requires
        !r.game_over,
        0 <= i < r.members@.len(),
        r.members@[i].own,
    ensures
        enrolled_all(r.members@, group_said(r, true, shift, slot)).len() == r.members@.len(),
        (enrolled_all(r.members@, group_said(r, true, shift, slot))[i].squad == Some(slot))
            <==> group_after(r, true, shift, held).contains(r.members@[i].id),
{
    let m = r.members@[i];
    let going = leavers(r, slot);
    let staying = joining(r);
    let list = group_said(r, true, shift, slot);
    picked_has(r.selected@, joins(r.members@), m.id);
    picked_has(r.members@, leaves(slot, staying), m.id);
    assert(own_unit(r.members@, m.id));
    assert(staying.contains(m.id) <==> r.selected@.contains(m.id)) by {
        if r.selected@.contains(m.id) {
            let k = choose|k: int| 0 <= k < r.selected@.len() && r.selected@[k] == m.id;
            assert(joins(r.members@)(r.selected@[k]) == Some(m.id));
        }
    }
    assert(m.squad == Some(slot) && !staying.contains(m.id) ==> going.contains(m.id)) by {
        assert(leaves(slot, staying)(r.members@[i]) == (if m.squad == Some(slot)
            && !staying.contains(m.id) {
            Some(m.id)
        } else {
            None
        }));
    }
    let free = Said::Squad { units: going, id: None };
    let take = Said::Squad { units: staying, id: Some(slot) };
    if going.len() > 0 && staying.len() > 0 {
        assert(list =~= seq![free, take]);
        assert(list.drop_last() =~= seq![free]);
        assert(list.drop_last().drop_last() =~= Seq::empty());
    } else if going.len() > 0 {
        assert(list =~= seq![free]);
        assert(list.drop_last() =~= Seq::empty());
    } else if staying.len() > 0 {
        assert(list =~= seq![take]);
        assert(list.drop_last() =~= Seq::empty());
    } else {
        assert(list =~= Seq::empty());
    }
    reveal_with_fuel(enrolled_all, 3);
}

// ---------------------------------------------------------------------------
// The selection panel
// ---------------------------------------------------------------------------

/// A tile of the selection panel that was clicked.
#[derive(Clone, Copy, PartialEq, Eq, Debug, Structural)]
pub enum PanelClick {
    /// A unit's tile.
    Card(usize),
    /// A tile of the training queue.
    QueueTile(usize),
}

/// What the panel's clicks need to know.
#[derive(Debug)]
pub struct PanelFacts {
    pub game_over: bool,
    pub alive: Vec<u64>,
    /// The selected entities with a training queue, and how long it is.
    pub queues: Vec<(u64, usize)>,
}

pub open spec fn card_pick(f: &PanelFacts, cards: Seq<u64>) -> spec_fn(PanelClick) -> Option<u64> {
    |c: PanelClick|
        match c {
            PanelClick::Card(i) => if i < cards.len() && f.alive@.contains(cards[i as int]) {
                Some(cards[i as int])
            } else {
                None
            },
            _ => None,
        }
}

pub open spec fn queue_cancel(f: &PanelFacts, shown: usize) -> spec_fn(PanelClick) -> Option<Said> {
    |c: PanelClick|
        match c {
            PanelClick::QueueTile(i) => if i < shown && f.queues@.len() == 1 && i
                < f.queues@[0].1 {
                Some(Said::Cancel { building: f.queues@[0].0, index: i })
            } else {
                None
            },
            _ => None,
        }
}

/// What the panel's clicks lead to.
#[derive(Debug)]
pub struct PanelOut {
    pub intents: Vec<Intent>,
    /// The new selection; empty where no tile was clicked.
    pub select: Vec<u64>,
}

/// The panel's clicks: a unit's tile selects that unit while it lives, and a
/// queue tile takes that unit off the one selected queue. Nothing happens once
/// the game is over.
pub fn panel_clicks(f: &PanelFacts, clicks: &Vec<PanelClick>, ui: &UiState) -> (r: PanelOut)
    ensures
        r.select@ == (if f.game_over {
            Seq::empty()
        } else {
            picked(clicks@, card_pick(f, ui@.card_entities))
        }),
        said(r.intents@) == (if f.game_over {
            Seq::empty()
        } else {
            picked(clicks@, queue_cancel(f, ui@.queue_len))
        }),
{
    let mut out = PanelOut { intents: Vec::new(), select: Vec::new() };
    assert(said(out.intents@) =~= Seq::<Said>::empty());
    assert(out.select@ =~= Seq::<u64>::empty());
    if f.game_over {
        return out;
    }
    let ghost pick = card_pick(f, ui@.card_entities);
    let ghost cancel = queue_cancel(f, ui@.queue_len);
    let mut i: usize = 0;
    while i < clicks.len()
        invariant
            i <= clicks.len(),
            pick == card_pick(f, ui@.card_entities),
            cancel == queue_cancel(f, ui@.queue_len),
            out.select@ == picked(clicks@.take(i as int), pick),
            said(out.intents@) == picked(clicks@.take(i as int), cancel),
        decreases clicks.len() - i,
    {
        proof {
            picked_step(clicks@, i as int, pick);
            picked_step(clicks@, i as int, cancel);
        }
        match clicks[i] {
            PanelClick::Card(k) => {
                if k < ui.card_entities.len() && holds(&f.alive, ui.card_entities[k]) {
                    out.select.push(ui.card_entities[k]);
                }
            },
            PanelClick::QueueTile(k) => {
                if k < ui.queue_len && f.queues.len() == 1 && k < f.queues[0].1 {
                    say(
                        &mut out.intents,
                        Intent::Cancel { building: f.queues[0].0, index: k },
                    );
                }
            },
        }
        i = i + 1;
    }
    assert(clicks@.take(i as int) =~= clicks@);
    out
}

// ---------------------------------------------------------------------------
// The minimap
// ---------------------------------------------------------------------------

/// How close to a minimap click a hall must stand to be the hall it named.
pub const MINIMAP_HALL_PICK: i64 = 10_000;

/// The point of the map a cursor inside the minimap names.
pub open spec fn minimap_point(m: Mouse, cursor: Px) -> Pos {
    let rect = map_rect(m.window, m.hud);
    from_minimap(cursor.x - rect.x0, cursor.y - rect.y0, m.hud.minimap_px as int)
}

/// The same for a cursor that may have left the minimap while dragging.
pub open spec fn drag_point(m: Mouse, cursor: Px) -> Pos {
    let rect = map_rect(m.window, m.hud);
    let px = m.hud.minimap_px as int;
    from_minimap(
        crate::map::clamped(cursor.x - rect.x0, 0, px),
        crate::map::clamped(cursor.y - rect.y0, 0, px),
        px,
    )
}

pub open spec fn hall_near(cat: &Catalog, ground: Pos) -> spec_fn(ClickBuilding) -> Option<
    (u64, i128),
> {
    |b: ClickBuilding|
        if b.own && !b.unfinished && cat.building_row(b.kind).hall && dist2(b.pos, ground)
            <= MINIMAP_HALL_PICK * MINIMAP_HALL_PICK {
            Some((b.id, dist2(b.pos, ground) as i128))
        } else {
            None
        }
}

/// The hall a minimap click names: the nearest finished one of ours close by.
pub open spec fn hall_named(cat: &Catalog, c: &Clickables, ground: Pos) -> Option<u64> {
    winner(picked(c.buildings@, hall_near(cat, ground)))
}

fn find_hall(cat: &Catalog, c: &Clickables, ground: Pos) -> (r: Option<u64>)
    requires
        cat.wf(),
    ensures
        r == hall_named(cat, c, ground),
{
    let mut list: Vec<(u64, i128)> = Vec::new();
    let mut i: usize = 0;
    while i < c.buildings.len()
        invariant
            cat.wf(),
            i <= c.buildings.len(),
            list@ == picked(c.buildings@.take(i as int), hall_near(cat, ground)),
        decreases c.buildings.len() - i,
    {
        proof {
            picked_step(c.buildings@, i as int, hall_near(cat, ground));
        }
        let b = c.buildings[i];
        if b.own && !b.unfinished && cat.building(b.kind).hall {
            let d: i128 = dist_sq(b.pos, ground);
            if d <= 100_000_000 {
                list.push((b.id, d));
            }
        }
        i = i + 1;
    }
    assert(c.buildings@.take(i as int) =~= c.buildings@);
    match find_nearest(&list) {
        Some(best) => Some(best.0),
        None => None,
    }
}

/// What the minimap leads to.
#[derive(Debug)]
pub struct MinimapOut {
    pub intents: Vec<Intent>,
    /// Where the camera goes.
    pub focus: Option<Pos>,
}

pub struct MinimapStep {
    pub ui: UiView,
    pub said: Seq<Said>,
    pub focus: Option<Pos>,
}

/// A left press that names a hall for a waiting teleport.
pub open spec fn hall_pick(cat: &Catalog, c: &Clickables, m: Mouse, ui: UiView) -> Option<u64> {
    match (ui.teleport_place, m.cursor) {
        (Some(_), Some(cursor)) if m.left_pressed && map_rect(m.window, m.hud).has(
            cursor,
        ) => hall_named(cat, c, on_map(minimap_point(m, cursor))),
        _ => None,
    }
}

/// A right press: the selected units go to that place on the map.
pub open spec fn map_order(c: &Clickables, m: Mouse, ui: UiView) -> (UiView, Seq<Said>) {
    match m.cursor {
        Some(cursor) if m.right_pressed && map_rect(m.window, m.hud).has(cursor) && group(
            c.units@,
        ).len() > 0 => (
            UiView { attack_move_armed: false, ..ui },
            ground_said(
                ids_of(group(c.units@)),
                on_map(minimap_point(m, cursor)),
                ui.attack_move_armed,
            ),
        ),
        _ => (ui, Seq::empty()),
    }
}

/// A frame of the minimap: a waiting teleport takes a click near a hall; a left
/// press inside moves the camera for as long as it is held; a right press is an
/// order.
pub open spec fn minimap_step(
    cat: &Catalog,
    c: &Clickables,
    m: Mouse,
    game_over: bool,
    ui: UiView,
) -> MinimapStep {
    if game_over {
        MinimapStep {
            ui: UiView { minimap_drag: false, ..ui },
            said: Seq::empty(),
            focus: None,
        }
    } else {
        match hall_pick(cat, c, m, ui) {
            Some(hall) => MinimapStep {
                ui: UiView { teleport_place: None, ..ui },
                said: seq![
                    Said::UseItem {
                        slot: ui.teleport_place->0.slot,
                        hero: ui.teleport_place->0.hero,
                        destination: Some(hall),
                    },
                ],
                focus: None,
            },
            None => {
                let inside = match m.cursor {
                    Some(cursor) => map_rect(m.window, m.hud).has(cursor),
                    None => false,
                };
                let dragging = m.left_held && (ui.minimap_drag || (m.left_pressed && inside));
                let held = UiView { minimap_drag: dragging, ..ui };
                let (after, spoken) = map_order(c, m, held);
                MinimapStep {
                    ui: after,
                    said: spoken,
                    focus: match m.cursor {
                        Some(cursor) if dragging => Some(drag_point(m, cursor)),
                        _ => None,
                    },
                }
            },
        }
    }
}

fn point_of(m: &Mouse, cursor: Px) -> (r: Pos)
    requires
        m.wf(),
        map_rect(m.window, m.hud).has(cursor),
    ensures
        r == minimap_point(*m, cursor),
{
    let rect = minimap_rect(m.window, m.hud);
    let u: i64 = (cursor.x as i128 - rect.x0) as i64;
    let v: i64 = (cursor.y as i128 - rect.y0) as i64;
    minimap_to_world(u, v, m.hud.minimap_px)
}

fn dragged_to(m: &Mouse, cursor: Px) -> (r: Pos)
    requires
        m.wf(),
    ensures
        r == drag_point(*m, cursor),
{
    let rect = minimap_rect(m.window, m.hud);
    let px: i64 = m.hud.minimap_px;
    let u: i128 = cursor.x as i128 - rect.x0;
    let v: i128 = cursor.y as i128 - rect.y0;
    let u: i64 = if u < 0 {
        0
    } else if u > px as i128 {
        px
    } else {
        u as i64
    };
    let v: i64 = if v < 0 {
        0
    } else if v > px as i128 {
        px
    } else {
        v as i64
    };
    minimap_to_world(u, v, px)
}

/// The minimap's clicks and drags.
pub fn minimap_input(
    cat: &Catalog,
    c: &Clickables,
    m: &Mouse,
    game_over: bool,
    ui: &mut UiState,
) -> (r: MinimapOut)
    requires
        cat.wf(),
        m.wf(),
        units_named(c.units@),
    ensures
        ({
            let step = minimap_step(cat, c, *m, game_over, old(ui)@);
            &&& final(ui)@ == step.ui
            &&& said(r.intents@) == step.said
            &&& r.focus == step.focus
        }),
{
    let mut out = MinimapOut { intents: Vec::new(), focus: None };
    assert(said(out.intents@) =~= Seq::<Said>::empty());
    if game_over {
        ui.minimap_drag = false;
        return out;
    }
    let inside = match m.cursor {
        Some(cursor) => minimap_rect(m.window, m.hud).contains(cursor),
        None => false,
    };
    if m.left_pressed && inside {
        if let Some(arm) = ui.teleport_place {
            if let Some(cursor) = m.cursor {
                let ground = clamp_to_map(point_of(m, cursor));
                if let Some(hall) = find_hall(cat, c, ground) {
                    say(
                        &mut out.intents,
                        Intent::UseItem {
                            slot: arm.slot,
                            hero: arm.hero,
                            destination: Some(hall),
                        },
                    );
                    assert(said(out.intents@) =~= seq![
                        Said::UseItem {
                            slot: arm.slot,
                            hero: arm.hero,
                            destination: Some(hall),
                        },
                    ]);
                    ui.teleport_place = None;
                    return out;
                }
            }
        }
    }
    if m.left_pressed && inside {
        ui.minimap_drag = true;
    }
    if !m.left_held {
        ui.minimap_drag = false;
    }
    if ui.minimap_drag {
        if let Some(cursor) = m.cursor {
            out.focus = Some(dragged_to(m, cursor));
        }
    }
    if m.right_pressed && inside {
        if let Some(cursor) = m.cursor {
            let ground = clamp_to_map(point_of(m, cursor));
            let units = entities_of(&list_group(&c.units));
            if units.len() > 0 {
                let attack_move = ui.attack_move_armed;
                ui.attack_move_armed = false;
                ground_intent(&mut out.intents, &units, ground, attack_move);
                assert(said(out.intents@) =~= ground_said(
                    ids_of(group(c.units@)),
                    ground,
                    attack_move,
                ));
            }
        }
    }
    out
}

/// The minimap arms nothing: at most one mode waits after a click if at most
/// one did before.
pub proof fn the_minimap_stays_exclusive(
    cat: &Catalog,
    c: &Clickables,
    m: Mouse,
    game_over: bool,
    ui: UiView,
)
    requires
        ui.exclusive(),
    ensures
        minimap_step(cat, c, m, game_over, ui).ui.exclusive(),
        minimap_step(cat, c, m, game_over, ui).ui.armed() <= ui.armed(),
{
}

} // verus!
