//! Alerts: the stack of rows, the rings on the minimap and the cue that goes
//! with them, all drawn from one feed of events.
//!
//! Times are thousandths of a second of real time, so a faster match does not
//! hurry the reader.

use std::collections::VecDeque;

use vstd::prelude::*;

use crate::map::{round_div, rounded, rounded_is_bounded, Pos};
use crate::ui_state::{UiState, UiView};

verus! {

/// Rows on screen at once.
pub const NOTIF_SLOTS: usize = 6;

/// How long a row stays.
pub const NOTIF_LIFETIME: i64 = 9_000;

/// How much of that it spends fading.
pub const NOTIF_FADE: i64 = 2_500;

/// How long a ring lives.
pub const PING_LIFETIME: i64 = 3_000;

/// A ring's size when it is born and when it dies, in thousandths of a pixel.
pub const PING_MIN_PX: i64 = 5_000;

pub const PING_MAX_PX: i64 = 34_000;

/// How bad the news is.
#[derive(Clone, Copy, PartialEq, Eq, Debug, Structural)]
pub enum EventSeverity {
    Info,
    Warning,
    Critical,
}

impl EventSeverity {
    pub open spec fn rank(self) -> int {
        match self {
            EventSeverity::Info => 0,
            EventSeverity::Warning => 1,
            EventSeverity::Critical => 2,
        }
    }
}

/// Which severity wins when several arrive at once.
pub fn severity_rank(severity: EventSeverity) -> (r: u8)
    ensures
        r == severity.rank(),
{
    match severity {
        EventSeverity::Info => 0,
        EventSeverity::Warning => 1,
        EventSeverity::Critical => 2,
    }
}

/// A colour, in thousandths of full red, green and blue.
#[derive(Clone, Copy, PartialEq, Eq, Debug, Structural)]
pub struct Rgb {
    pub r: u16,
    pub g: u16,
    pub b: u16,
}

pub open spec fn severity_rgb(severity: EventSeverity) -> Rgb {
    match severity {
        EventSeverity::Info => Rgb { r: 620, g: 800, b: 1000 },
        EventSeverity::Warning => Rgb { r: 1000, g: 860, b: 350 },
        EventSeverity::Critical => Rgb { r: 1000, g: 420, b: 360 },
    }
}

/// The colour of a severity.
pub fn severity_color(severity: EventSeverity) -> (r: Rgb)
    ensures
        r == severity_rgb(severity),
{
    match severity {
        EventSeverity::Info => Rgb { r: 620, g: 800, b: 1000 },
        EventSeverity::Warning => Rgb { r: 1000, g: 860, b: 350 },
        EventSeverity::Critical => Rgb { r: 1000, g: 420, b: 360 },
    }
}

/// An event of the player's feed.
#[derive(Debug)]
pub struct GameEvent {
    /// Its number in the feed.
    pub seq: u64,
    pub message: String,
    pub severity: EventSeverity,
    /// Where it happened, where that is known.
    pub pos: Option<Pos>,
}

/// A row of the stack.
#[derive(Debug)]
pub struct Notice {
    pub message: String,
    pub severity: EventSeverity,
    pub pos: Option<Pos>,
    pub born: i64,
}

pub struct NoticeView {
    pub message: Seq<char>,
    pub severity: EventSeverity,
    pub pos: Option<Pos>,
    pub born: i64,
}

impl View for Notice {
    type V = NoticeView;

    open spec fn view(&self) -> NoticeView {
        NoticeView {
            message: self.message@,
            severity: self.severity,
            pos: self.pos,
            born: self.born,
        }
    }
}

/// The stack: how far the feed has been read, and the rows, newest first.
#[derive(Debug)]
pub struct Notifications {
    pub seen: u64,
    pub live: VecDeque<Notice>,
    /// The row the focus key looks at next.
    pub focus_cursor: usize,
}

/// The rows' contents.
pub open spec fn rows(list: Seq<Notice>) -> Seq<NoticeView> {
    list.map_values(|n: Notice| n@)
}

/// A ring on the minimap.
#[derive(Clone, Copy, PartialEq, Eq, Debug, Structural)]
pub struct AlertPing {
    pub pos: Pos,
    pub severity: EventSeverity,
    pub born: i64,
}

// ---------------------------------------------------------------------------
// Reading the feed
// ---------------------------------------------------------------------------

/// How far the feed has been read after these events.
pub open spec fn seen_after(events: Seq<GameEvent>, seen: u64) -> u64
    decreases events.len(),
{
    if events.len() == 0 {
        seen
    } else {
        let before = seen_after(events.drop_last(), seen);
        if events.last().seq > before {
            events.last().seq
        } else {
            before
        }
    }
}

/// The events that are news.
pub open spec fn news(events: Seq<GameEvent>, seen: u64) -> Seq<GameEvent>
    decreases events.len(),
{
    if events.len() == 0 {
        Seq::empty()
    } else {
        let front = news(events.drop_last(), seen);
        if events.last().seq > seen_after(events.drop_last(), seen) {
            front.push(events.last())
        } else {
            front
        }
    }
}

/// The row of an event.
pub open spec fn row_of(e: GameEvent, now: i64) -> NoticeView {
    NoticeView { message: e.message@, severity: e.severity, pos: e.pos, born: now }
}

/// The rows with the news in front, the newest first.
pub open spec fn stacked(fresh: Seq<GameEvent>, now: i64, live: Seq<NoticeView>) -> Seq<NoticeView>
    decreases fresh.len(),
{
    if fresh.len() == 0 {
        live
    } else {
        seq![row_of(fresh.last(), now)] + stacked(fresh.drop_last(), now, live)
    }
}

/// The rows that fit.
pub open spec fn fitting(live: Seq<NoticeView>) -> Seq<NoticeView> {
    if live.len() > NOTIF_SLOTS {
        live.take(NOTIF_SLOTS as int)
    } else {
        live
    }
}

/// The rows without the ones at the back whose time is up.
pub open spec fn unexpired(live: Seq<NoticeView>, now: int) -> Seq<NoticeView>
    decreases live.len(),
{
    if live.len() > 0 && now - live.last().born >= NOTIF_LIFETIME {
        unexpired(live.drop_last(), now)
    } else {
        live
    }
}

/// The rings with those of the news behind them.
pub open spec fn rung(fresh: Seq<GameEvent>, now: i64, pings: Seq<AlertPing>) -> Seq<AlertPing>
    decreases fresh.len(),
{
    if fresh.len() == 0 {
        pings
    } else {
        let front = rung(fresh.drop_last(), now, pings);
        match fresh.last().pos {
            Some(pos) => front.push(
                AlertPing { pos, severity: fresh.last().severity, born: now },
            ),
            None => front,
        }
    }
}

pub open spec fn young(now: int) -> spec_fn(AlertPing) -> Option<AlertPing> {
    |p: AlertPing|
        if now - p.born < PING_LIFETIME {
            Some(p)
        } else {
            None
        }
}

/// The worst of the news.
pub open spec fn loudest(fresh: Seq<GameEvent>) -> Option<EventSeverity>
    decreases fresh.len(),
{
    if fresh.len() == 0 {
        None
    } else {
        match loudest(fresh.drop_last()) {
            Some(s) => if s.rank() >= fresh.last().severity.rank() {
                Some(s)
            } else {
                Some(fresh.last().severity)
            },
            None => Some(fresh.last().severity),
        }
    }
}

/// The one cue of a frame is the worst of its news: some event has that
/// severity, and none is worse.
pub proof fn the_cue_is_the_worst(fresh: Seq<GameEvent>)
    requires
        fresh.len() > 0,
    ensures
        loudest(fresh) is Some,
        exists|i: int| 0 <= i < fresh.len() && (#[trigger] fresh[i]).severity == loudest(fresh)->0,
        forall|i: int|
            0 <= i < fresh.len() ==> (#[trigger] fresh[i]).severity.rank() <= loudest(
                fresh,
            )->0.rank(),
    decreases fresh.len(),
{
    let front = fresh.drop_last();
    if front.len() > 0 {
        the_cue_is_the_worst(front);
        let k = choose|i: int|
            0 <= i < front.len() && (#[trigger] front[i]).severity == loudest(front)->0;
        assert(fresh[k] == front[k]);
        assert forall|i: int| 0 <= i < fresh.len() implies (#[trigger] fresh[i]).severity.rank()
            <= loudest(fresh)->0.rank() by {
            if i < front.len() {
                assert(front[i] == fresh[i]);
            }
        }
    }
    assert(fresh[fresh.len() - 1] == fresh.last());
}

/// News is news once: reading the same feed again brings nothing.
pub proof fn news_is_news_once(events: Seq<GameEvent>, seen: u64)
    ensures
        news(events, seen_after(events, seen)).len() == 0,
        seen_after(events, seen_after(events, seen)) == seen_after(events, seen),
{
    let top = seen_after(events, seen);
    seen_is_top(events, seen);
    nothing_new(events, top);
}

proof fn seen_is_top(events: Seq<GameEvent>, seen: u64)
    ensures
        seen <= seen_after(events, seen),
        forall|i: int| 0 <= i < events.len() ==> (#[trigger] events[i]).seq <= seen_after(events, seen),
    decreases events.len(),
{
    if events.len() > 0 {
        let front = events.drop_last();
        seen_is_top(front, seen);
        assert forall|i: int| 0 <= i < events.len() implies (#[trigger] events[i]).seq
            <= seen_after(events, seen) by {
            if i < front.len() {
                assert(front[i] == events[i]);
            }
        }
    }
}

proof fn nothing_new(events: Seq<GameEvent>, top: u64)
    requires
        forall|i: int| 0 <= i < events.len() ==> (#[trigger] events[i]).seq <= top,
    ensures
        news(events, top).len() == 0,
        seen_after(events, top) == top,
    decreases events.len(),
{
    if events.len() > 0 {
        let front = events.drop_last();
        assert forall|i: int| 0 <= i < front.len() implies (#[trigger] front[i]).seq <= top by {
            assert(front[i] == events[i]);
        }
        nothing_new(front, top);
        assert(events[events.len() - 1].seq <= top);
    }
}

/// The stack never has more rows than fit.
pub proof fn the_stack_fits(live: Seq<NoticeView>, now: int)
    ensures
        unexpired(fitting(live), now).len() <= NOTIF_SLOTS,
{
    unexpired_is_shorter(fitting(live), now);
}

proof fn unexpired_is_shorter(live: Seq<NoticeView>, now: int)
    ensures
        unexpired(live, now).len() <= live.len(),
    decreases live.len(),
{
    if live.len() > 0 && now - live.last().born >= NOTIF_LIFETIME {
        unexpired_is_shorter(live.drop_last(), now);
    }
}

/// The newest event is the top row.
pub proof fn the_newest_is_on_top(fresh: Seq<GameEvent>, now: i64, live: Seq<NoticeView>)
    requires
        fresh.len() > 0,
    ensures
        unexpired(fitting(stacked(fresh, now, live)), now as int).len() > 0,
        unexpired(fitting(stacked(fresh, now, live)), now as int)[0] == row_of(fresh.last(), now),
{
    let list = fitting(stacked(fresh, now, live));
    assert(list[0] == row_of(fresh.last(), now));
    young_head_stays(list, now as int);
}

proof fn young_head_stays(live: Seq<NoticeView>, now: int)
    requires
        live.len() > 0,
        now - live[0].born < NOTIF_LIFETIME,
    ensures
        unexpired(live, now).len() > 0,
        unexpired(live, now)[0] == live[0],
    decreases live.len(),
{
    if now - live.last().born >= NOTIF_LIFETIME {
        young_head_stays(live.drop_last(), now);
    }
}

/// Reads the feed into the stack and the rings, drops what has had its time,
/// and returns the cue to play, if any.
pub fn update_notifications(
    events: &Vec<GameEvent>,
    now: i64,
    notes: &mut Notifications,
    pings: &mut Vec<AlertPing>,
    ui: &mut UiState,
) -> (cue: Option<EventSeverity>)
    ensures
        cue == loudest(news(events@, old(notes).seen)),
        final(notes).seen == seen_after(events@, old(notes).seen),
        rows(final(notes).live@) == unexpired(
            fitting(stacked(news(events@, old(notes).seen), now, rows(old(notes).live@))),
            now as int,
        ),
        final(notes).focus_cursor == (if news(events@, old(notes).seen).len() > 0 {
            0
        } else {
            old(notes).focus_cursor
        }),
        final(pings)@ == crate::lists::picked(
            rung(news(events@, old(notes).seen), now, old(pings)@),
            young(now as int),
        ),
        final(ui)@ == (UiView { notif_rows: final(notes).live@.len() as usize, ..old(ui)@ }),
        final(notes).live@.len() <= NOTIF_SLOTS,
{
    let mut worst: Option<EventSeverity> = None;
    let ghost start = rows(notes.live@);
    let ghost rings = pings@;
    let ghost from = notes.seen;
    let ghost cursor = notes.focus_cursor;
    let mut i: usize = 0;
    while i < events.len()
        invariant
            i <= events.len(),
            notes.seen == seen_after(events@.take(i as int), from),
            worst == loudest(news(events@.take(i as int), from)),
            rows(notes.live@) == stacked(news(events@.take(i as int), from), now, start),
            pings@ == rung(news(events@.take(i as int), from), now, rings),
            notes.focus_cursor == (if news(events@.take(i as int), from).len() > 0 {
                0
            } else {
                cursor
            }),
        decreases events.len() - i,
    {
        let e = &events[i];
        let ghost before = news(events@.take(i as int), from);
        assert(events@.take(i + 1).drop_last() =~= events@.take(i as int));
        assert(events@.take(i + 1).last() == *e);
        if e.seq > notes.seen {
            let ghost after = before.push(*e);
            assert(after.drop_last() =~= before);
            notes.seen = e.seq;
            if let Some(pos) = e.pos {
                pings.push(AlertPing { pos, severity: e.severity, born: now });
            }
            worst = match worst {
                Some(s) => if severity_rank(s) >= severity_rank(e.severity) {
                    Some(s)
                } else {
                    Some(e.severity)
                },
                None => Some(e.severity),
            };
            let ghost old_rows = rows(notes.live@);
            let notice = Notice {
                message: e.message.clone(),
                severity: e.severity,
                pos: e.pos,
                born: now,
            };
            let ghost shown = notice@;
            notes.live.push_front(notice);
            assert(rows(notes.live@) =~= seq![shown] + old_rows);
            notes.focus_cursor = 0;
        }
        i = i + 1;
    }
    assert(events@.take(i as int) =~= events@);
    let ghost full = rows(notes.live@);
    notes.live.truncate(NOTIF_SLOTS);
    assert(rows(notes.live@) =~= fitting(full));
    drop_old_pings(pings, now);
    let ghost fit = rows(notes.live@);
    assert(notes.live@.len() == fit.len());
    let mut n: usize = notes.live.len();
    while n > 0 && expired(&notes.live, n, now)
        invariant
            n == notes.live@.len(),
            n <= NOTIF_SLOTS,
            notes.seen == seen_after(events@, from),
            notes.focus_cursor == (if news(events@, from).len() > 0 {
                0
            } else {
                cursor
            }),
            unexpired(rows(notes.live@), now as int) == unexpired(fit, now as int),
        decreases n,
    {
        let ghost list = rows(notes.live@);
        assert(list.last() == notes.live@[n - 1]@);
        notes.live.pop_back();
        assert(rows(notes.live@) =~= list.drop_last());
        n = n - 1;
    }
    proof {
        if n > 0 {
            assert(rows(notes.live@).last() == notes.live@[n - 1]@);
        }
    }
    ui.notif_rows = notes.live.len();
    worst
}

fn expired(live: &VecDeque<Notice>, n: usize, now: i64) -> (r: bool)
    requires
        0 < n <= live@.len(),
    ensures
        r == (now - live@[n - 1].born >= NOTIF_LIFETIME),
{
    now as i128 - live[n - 1].born as i128 >= NOTIF_LIFETIME as i128
}

fn drop_old_pings(pings: &mut Vec<AlertPing>, now: i64)
    ensures
        final(pings)@ == crate::lists::picked(old(pings)@, young(now as int)),
{
    let mut out: Vec<AlertPing> = Vec::new();
    let mut i: usize = 0;
    while i < pings.len()
        invariant
            i <= pings.len(),
            pings@ == old(pings)@,
            out@ == crate::lists::picked(pings@.take(i as int), young(now as int)),
        decreases pings.len() - i,
    {
        proof {
            crate::lists::picked_step(pings@, i as int, young(now as int));
        }
        let p = pings[i];
        if (now as i128 - p.born as i128) < PING_LIFETIME as i128 {
            out.push(p);
        }
        i = i + 1;
    }
    assert(pings@.take(i as int) =~= pings@);
    *pings = out;
}

// ---------------------------------------------------------------------------
// Going where the news is
// ---------------------------------------------------------------------------

/// The first clicked row that knows its place.
pub open spec fn clicked_row(live: Seq<NoticeView>, clicks: Seq<usize>) -> Option<usize>
    decreases clicks.len(),
{
    if clicks.len() == 0 {
        None
    } else {
        match clicked_row(live, clicks.drop_last()) {
            Some(r) => Some(r),
            None => if clicks.last() < live.len() && live[clicks.last() as int].pos is Some {
                Some(clicks.last())
            } else {
                None
            },
        }
    }
}

/// The next row with a place, round from the cursor: how many steps on, of `n`
/// still to be tried.
pub open spec fn steps_to_place(live: Seq<NoticeView>, cursor: int, step: int) -> Option<int>
    decreases live.len() - step,
{
    if step >= live.len() || live.len() == 0 {
        None
    } else if live[(cursor + step) % (live.len() as int)].pos is Some {
        Some(step)
    } else {
        steps_to_place(live, cursor, step + 1)
    }
}

/// Where the focus goes and where the cursor is after that: to a clicked row,
/// or on the key to the next row with a place, newest first and round again.
pub open spec fn focused(
    live: Seq<NoticeView>,
    cursor: usize,
    clicks: Seq<usize>,
    key: bool,
) -> (Option<Pos>, int) {
    match clicked_row(live, clicks) {
        Some(r) => (live[r as int].pos, r + 1),
        None => if key {
            match steps_to_place(live, cursor as int, 0) {
                Some(step) => {
                    let i = (cursor + step) % (live.len() as int);
                    (live[i].pos, (i + 1) % (live.len() as int))
                },
                None => (None, cursor as int),
            }
        } else {
            (None, cursor as int)
        },
    }
}

/// The focus key and clicks on rows. `key` says that the focus key went down.
pub fn notification_input(
    notes: &mut Notifications,
    game_over: bool,
    clicks: &Vec<usize>,
    key: bool,
) -> (r: Option<Pos>)
    requires
        old(notes).live@.len() <= NOTIF_SLOTS,
        old(notes).focus_cursor <= NOTIF_SLOTS,
    ensures
        final(notes).live@ == old(notes).live@,
        final(notes).seen == old(notes).seen,
        game_over ==> r is None && final(notes).focus_cursor == old(notes).focus_cursor,
        !game_over ==> (r, final(notes).focus_cursor as int) == focused(
            rows(old(notes).live@),
            old(notes).focus_cursor,
            clicks@,
            key,
        ),
        final(notes).focus_cursor <= NOTIF_SLOTS,
{
    if game_over {
        return None;
    }
    let ghost live = rows(notes.live@);
    let mut i: usize = 0;
    while i < clicks.len()
        invariant
            i <= clicks.len(),
            live == rows(old(notes).live@),
            *notes == *old(notes),
            notes.live@.len() <= NOTIF_SLOTS,
            clicked_row(live, clicks@.take(i as int)) is None,
            !game_over,
        decreases clicks.len() - i,
    {
        assert(clicks@.take(i + 1).drop_last() =~= clicks@.take(i as int));
        let row: usize = clicks[i];
        if row < notes.live.len() {
            assert(live[row as int] == notes.live@[row as int]@);
            let pos = notes.live[row].pos;
            if pos.is_some() {
                proof {
                    clicked_stays(live, clicks@, i + 1);
                }
                notes.focus_cursor = row + 1;
                return pos;
            }
        }
        i = i + 1;
    }
    assert(clicks@.take(i as int) =~= clicks@);
    if !key {
        return None;
    }
    let n: usize = notes.live.len();
    let cursor: usize = notes.focus_cursor;
    let mut step: usize = 0;
    while step < n
        invariant
            step <= n,
            n == live.len(),
            n <= NOTIF_SLOTS,
            live == rows(old(notes).live@),
            *notes == *old(notes),
            cursor == notes.focus_cursor,
            cursor <= NOTIF_SLOTS,
            n == notes.live@.len(),
            clicked_row(live, clicks@) is None,
            key,
            !game_over,
            steps_to_place(live, cursor as int, 0) == steps_to_place(
                live,
                cursor as int,
                step as int,
            ),
        decreases n - step,
    {
        let at: usize = (cursor + step) % n;
        assert(live[at as int] == notes.live@[at as int]@);
        let pos = notes.live[at].pos;
        if pos.is_some() {
            notes.focus_cursor = (at + 1) % n;
            return pos;
        }
        step = step + 1;
    }
    None
}

proof fn clicked_stays(live: Seq<NoticeView>, clicks: Seq<usize>, n: int)
    requires
        0 <= n <= clicks.len(),
        clicked_row(live, clicks.take(n)) is Some,
    ensures
        clicked_row(live, clicks) == clicked_row(live, clicks.take(n)),
    decreases clicks.len() - n,
{
    if n < clicks.len() {
        assert(clicks.take(n + 1).drop_last() =~= clicks.take(n));
        clicked_stays(live, clicks, n + 1);
    } else {
        assert(clicks.take(n) =~= clicks);
    }
}

// ---------------------------------------------------------------------------
// Fading
// ---------------------------------------------------------------------------

/// A row's opacity, in thousandths: full until the fade begins, then down to
/// nothing in a straight line.
pub open spec fn row_alpha(age: int) -> int {
    crate::map::clamped((NOTIF_LIFETIME - age) * 1_000 / (NOTIF_FADE as int), 0, 1_000)
}

/// A row's opacity, in thousandths.
pub fn notif_alpha(age: i64) -> (r: i64)
    ensures
        r == row_alpha(age as int),
{
    if age >= NOTIF_LIFETIME {
        return 0;
    }
    if age <= NOTIF_LIFETIME - NOTIF_FADE {
        return 1_000;
    }
    (NOTIF_LIFETIME - age) * 1_000 / NOTIF_FADE
}

/// The line under the stack: which key looks at an alert, while there is one.
pub fn focus_hint(live: usize) -> (r: &'static str)
    ensures
        r@ == (if live == 0 {
            ""@
        } else {
            "[Space] focus alert"@
        }),
{
    if live == 0 {
        ""
    } else {
        "[Space] focus alert"
    }
}

/// How much of a ring's life is left.
pub open spec fn life_left(age: int) -> int {
    crate::map::clamped(PING_LIFETIME - age, 0, PING_LIFETIME as int)
}

/// A ring's size in thousandths of a pixel: it grows fast at first and slows
/// down.
pub open spec fn ping_size(age: int) -> int {
    let left = life_left(age);
    PING_MIN_PX + rounded(29_000 * (9_000_000 - left * left), 9_000_000)
}

/// A ring's opacity in thousandths: it fades in a straight line.
pub open spec fn ping_alpha(age: int) -> int {
    life_left(age) / 3
}

/// A ring's size and opacity.
pub fn ping_shape(age: i64) -> (r: (i64, i64))
    ensures
        r.0 == ping_size(age as int),
        r.1 == ping_alpha(age as int),
{
    let left: i128 = if age >= PING_LIFETIME {
        0
    } else if age <= 0 {
        PING_LIFETIME as i128
    } else {
        (PING_LIFETIME - age) as i128
    };
    assert(left == life_left(age as int));
    assert(0 <= left * left <= 9_000_000) by (nonlinear_arith)
        requires
            0 <= left <= 3_000,
    ;
    proof {
        rounded_is_bounded(29_000 * (9_000_000 - left * left), 9_000_000, 0, 29_000);
    }
    let grown: i128 = round_div(29_000 * (9_000_000 - left * left), 9_000_000);
    (PING_MIN_PX + grown as i64, (left / 3) as i64)
}

/// A ring is born small and opaque and dies large and invisible; it never
/// shrinks and never brightens.
pub proof fn rings_grow_and_fade(a: int, b: int)
    requires
        a <= b,
    ensures
        ping_size(0) == PING_MIN_PX,
        ping_alpha(0) == 1_000,
        ping_size(PING_LIFETIME as int) == PING_MAX_PX,
        ping_alpha(PING_LIFETIME as int) == 0,
        ping_size(a) <= ping_size(b),
        ping_alpha(a) >= ping_alpha(b),
{
    let la = life_left(a);
    let lb = life_left(b);
    assert(lb * lb <= la * la) by (nonlinear_arith)
        requires
            0 <= lb <= la,
    ;
    let full = life_left(0);
    assert(full == 3_000 && full * full == 9_000_000) by (nonlinear_arith)
        requires
            full == 3_000,
    ;
    let gone = life_left(PING_LIFETIME as int);
    assert(gone == 0 && gone * gone == 0) by (nonlinear_arith)
        requires
            gone == 0,
    ;
    let none = 29_000 * (9_000_000 - full * full);
    assert(none == 0);
    rounded_is_bounded(none, 9_000_000, 0, 0);
    let all = 29_000 * (9_000_000 - gone * gone);
    assert(all == 29_000 * 9_000_000);
    rounded_is_bounded(all, 9_000_000, 29_000, 29_000);
    vstd::arithmetic::div_mod::lemma_div_is_ordered(
        2 * (29_000 * (9_000_000 - la * la)) + 9_000_000,
        2 * (29_000 * (9_000_000 - lb * lb)) + 9_000_000,
        18_000_000,
    );
}

} // verus!
