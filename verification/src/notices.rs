//! What alerts and proposals come to: what counts as news, which rows stay and
//! for how long, where the focus goes, and what an answer answers.

use vstd::prelude::*;

use crate::alerts::{
    clicked_row, fitting, focused, news, ping_alpha, ping_size, row_alpha, row_of, rung,
    seen_after, stacked, steps_to_place, unexpired, young, AlertPing, GameEvent, NoticeView,
};
use crate::lists::{picked, picked_holds, picked_places};
use crate::map::rounded_is_close;
use crate::proposals::{answered, body_lines, clicked, seconds, Answers, Proposal, Verdict, VetoReason};
use crate::text::dec;

verus! {

// ---------------------------------------------------------------------------
// News
// ---------------------------------------------------------------------------

/// An event whose number is above what was seen and above every event before it.
pub open spec fn tops_the_feed(events: Seq<GameEvent>, seen: u64, i: int) -> bool {
    &&& 0 <= i < events.len()
    &&& events[i].seq > seen
    &&& forall|j: int| 0 <= j < i ==> (#[trigger] events[j]).seq < events[i].seq
}

/// The feed is read up to its highest number, and never back.
pub proof fn the_feed_is_read_to_its_top(events: Seq<GameEvent>, seen: u64)
    ensures
        seen_after(events, seen) >= seen,
        forall|i: int| 0 <= i < events.len() ==> (#[trigger] events[i]).seq <= seen_after(events, seen),
        seen_after(events, seen) == seen || exists|i: int|
            0 <= i < events.len() && (#[trigger] events[i]).seq == seen_after(events, seen),
    decreases events.len(),
{
    if events.len() > 0 {
        let front = events.drop_last();
        the_feed_is_read_to_its_top(front, seen);
        assert forall|i: int| 0 <= i < events.len() implies (#[trigger] events[i]).seq
            <= seen_after(events, seen) by {
            if i < front.len() {
                assert(front[i] == events[i]);
            }
        }
        if seen_after(front, seen) != seen {
            let i = choose|i: int|
                0 <= i < front.len() && (#[trigger] front[i]).seq == seen_after(front, seen);
            assert(events[i] == front[i]);
        }
        assert(events[events.len() - 1] == events.last());
    }
}

/// The news of a feed is each event that tops it, once and in order.
pub proof fn news_tops_the_feed(events: Seq<GameEvent>, seen: u64) -> (at: Seq<int>)
    ensures
        at.len() == news(events, seen).len(),
        forall|k: int|
            0 <= k < at.len() ==> tops_the_feed(events, seen, #[trigger] at[k]) && news(
                events,
                seen,
            )[k] == events[at[k]],
        forall|k: int, l: int| 0 <= k < l < at.len() ==> #[trigger] at[k] < #[trigger] at[l],
        forall|i: int| #[trigger] tops_the_feed(events, seen, i) ==> at.contains(i),
    decreases events.len(),
{
    if events.len() == 0 {
        Seq::empty()
    } else {
        let front = events.drop_last();
        let last = events.len() - 1;
        let before = news_tops_the_feed(front, seen);
        the_feed_is_read_to_its_top(front, seen);
        assert forall|i: int| 0 <= i < last implies tops_the_feed(front, seen, i)
            == #[trigger] tops_the_feed(events, seen, i) by {
            assert forall|j: int| 0 <= j <= i implies front[j] == #[trigger] events[j] by {}
            if tops_the_feed(front, seen, i) {
                assert forall|j: int| 0 <= j < i implies (#[trigger] events[j]).seq
                    < events[i].seq by {
                    assert(front[j].seq < front[i].seq);
                }
            }
            if tops_the_feed(events, seen, i) {
                assert forall|j: int| 0 <= j < i implies (#[trigger] front[j]).seq
                    < front[i].seq by {
                    assert(events[j].seq < events[i].seq);
                }
            }
        }
        assert(tops_the_feed(events, seen, last) <==> events.last().seq > seen_after(front, seen)) by {
            if events.last().seq > seen_after(front, seen) {
                assert forall|j: int| 0 <= j < last implies (#[trigger] events[j]).seq
                    < events[last].seq by {
                    assert(front[j] == events[j]);
                }
            } else if tops_the_feed(events, seen, last) {
                if seen_after(front, seen) != seen {
                    let i = choose|i: int|
                        0 <= i < front.len() && (#[trigger] front[i]).seq == seen_after(
                            front,
                            seen,
                        );
                    assert(events[i].seq < events[last].seq);
                }
            }
        }
        let at = if events.last().seq > seen_after(front, seen) {
            before.push(last)
        } else {
            before
        };
        assert forall|k: int| 0 <= k < at.len() implies tops_the_feed(
            events,
            seen,
            #[trigger] at[k],
        ) && news(events, seen)[k] == events[at[k]] by {
            if k < before.len() {
                assert(tops_the_feed(front, seen, before[k]));
                assert(tops_the_feed(events, seen, before[k]));
            }
        }
        assert forall|k: int, l: int| 0 <= k < l < at.len() implies #[trigger] at[k]
            < #[trigger] at[l] by {
            assert(tops_the_feed(front, seen, before[k]));
        }
        assert forall|i: int| #[trigger] tops_the_feed(events, seen, i) implies at.contains(i) by {
            if i < last {
                assert(tops_the_feed(front, seen, i));
                assert(before.contains(i));
                let k = choose|k: int| 0 <= k < before.len() && before[k] == i;
                assert(at[k] == i);
            } else {
                assert(at[at.len() - 1] == i);
            }
        }
        at
    }
}

// ---------------------------------------------------------------------------
// The stack
// ---------------------------------------------------------------------------

proof fn stacks_are_reversed_news(fresh: Seq<GameEvent>, now: i64, live: Seq<NoticeView>)
    ensures
        stacked(fresh, now, live).len() == fresh.len() + live.len(),
        forall|k: int|
            0 <= k < fresh.len() ==> #[trigger] stacked(fresh, now, live)[k] == (NoticeView {
                message: fresh[fresh.len() - 1 - k].message@,
                severity: fresh[fresh.len() - 1 - k].severity,
                pos: fresh[fresh.len() - 1 - k].pos,
                born: now,
            }),
        forall|k: int|
            fresh.len() <= k < fresh.len() + live.len() ==> #[trigger] stacked(fresh, now, live)[k]
                == live[k - fresh.len()],
    decreases fresh.len(),
{
    if fresh.len() > 0 {
        let front = fresh.drop_last();
        stacks_are_reversed_news(front, now, live);
        let rest = stacked(front, now, live);
        let all = stacked(fresh, now, live);
        assert(all =~= seq![row_of(fresh.last(), now)] + rest);
        assert forall|k: int| 0 <= k < fresh.len() implies #[trigger] all[k] == (NoticeView {
            message: fresh[fresh.len() - 1 - k].message@,
            severity: fresh[fresh.len() - 1 - k].severity,
            pos: fresh[fresh.len() - 1 - k].pos,
            born: now,
        }) by {
            if k > 0 {
                assert(all[k] == rest[k - 1]);
                assert(front[front.len() - 1 - (k - 1)] == fresh[fresh.len() - 1 - k]);
            }
        }
        assert forall|k: int| fresh.len() <= k < fresh.len() + live.len() implies #[trigger] all[k]
            == live[k - fresh.len()] by {
            assert(all[k] == rest[k - 1]);
        }
    }
}

proof fn the_back_is_young(live: Seq<NoticeView>, now: int)
    ensures
        unexpired(live, now).len() <= live.len(),
        unexpired(live, now) == live.take(unexpired(live, now).len() as int),
        unexpired(live, now).len() > 0 ==> now - live[unexpired(live, now).len() - 1].born < 9_000,
        forall|k: int|
            unexpired(live, now).len() <= k < live.len() ==> now - (#[trigger] live[k]).born >= 9_000,
    decreases live.len(),
{
    if live.len() > 0 && now - live.last().born >= 9_000 {
        let front = live.drop_last();
        the_back_is_young(front, now);
        let n = unexpired(front, now).len() as int;
        assert(front.take(n) =~= live.take(n));
        if n > 0 {
            assert(front[n - 1] == live[n - 1]);
        }
        assert forall|k: int| n <= k < live.len() implies now - (#[trigger] live[k]).born >= 9_000 by {
            if k < front.len() {
                assert(front[k] == live[k]);
            } else {
                assert(live[k] == live.last());
            }
        }
    } else {
        assert(live.take(live.len() as int) =~= live);
    }
}

/// The row that would stand at a place if nothing left the stack: the news, the
/// newest first, and the old rows below it.
pub open spec fn row_at(fresh: Seq<GameEvent>, now: i64, live: Seq<NoticeView>, k: int) -> NoticeView {
    if k < fresh.len() {
        let e = fresh[fresh.len() - 1 - k];
        NoticeView { message: e.message@, severity: e.severity, pos: e.pos, born: now }
    } else {
        live[k - fresh.len()]
    }
}

/// The stack is the news, the newest first, above the old rows, cut to six; and
/// from the bottom up every row of nine seconds or more leaves, down to the
/// first that is younger.
pub proof fn rows_stay_their_time(fresh: Seq<GameEvent>, now: i64, live: Seq<NoticeView>)
    ensures
        ({
            let rows = unexpired(fitting(stacked(fresh, now, live)), now as int);
            let all = fresh.len() + live.len();
            let room = if all > 6 {
                6
            } else {
                all
            };
            &&& rows.len() <= room
            &&& forall|k: int|
                0 <= k < rows.len() ==> #[trigger] rows[k] == row_at(fresh, now, live, k)
            &&& rows.len() > 0 ==> now - row_at(fresh, now, live, rows.len() - 1).born < 9_000
            &&& forall|k: int|
                rows.len() <= k < room ==> now - (#[trigger] row_at(fresh, now, live, k)).born
                    >= 9_000
        }),
{
    stacks_are_reversed_news(fresh, now, live);
    let s = stacked(fresh, now, live);
    let f = fitting(s);
    the_back_is_young(f, now as int);
    let rows = unexpired(f, now as int);
    assert forall|k: int| 0 <= k < f.len() implies #[trigger] f[k] == row_at(
        fresh,
        now,
        live,
        k,
    ) by {
        assert(f[k] == s[k]);
    }
    assert forall|k: int| 0 <= k < rows.len() implies #[trigger] rows[k] == row_at(
        fresh,
        now,
        live,
        k,
    ) by {
        assert(rows[k] == f[k]);
    }
    assert forall|k: int| rows.len() <= k < f.len() implies now - (#[trigger] row_at(
        fresh,
        now,
        live,
        k,
    )).born >= 9_000 by {
        assert(f[k] == row_at(fresh, now, live, k));
    }
}

/// Rings are those that were there and one for each piece of news that knows its
/// place, as long as they are younger than three seconds.
pub proof fn rings_mark_where_news_is(fresh: Seq<GameEvent>, now: i64, pings: Seq<AlertPing>, p: AlertPing)
    ensures
        picked(rung(fresh, now, pings), young(now as int)).contains(p) <==> now - p.born < 3_000 && (
        pings.contains(p) || (p.born == now && exists|i: int|
            0 <= i < fresh.len() && (#[trigger] fresh[i]).pos == Some(p.pos) && fresh[i].severity
                == p.severity)),
{
    let all = rung(fresh, now, pings);
    let f = young(now as int);
    picked_holds(all, f, p);
    rings_are_added(fresh, now, pings, p);
    if all.contains(p) && now - p.born < 3_000 {
        let i = choose|i: int| 0 <= i < all.len() && all[i] == p;
        assert(f(all[i]) == Some(p));
    }
}

proof fn rings_are_added(fresh: Seq<GameEvent>, now: i64, pings: Seq<AlertPing>, p: AlertPing)
    ensures
        rung(fresh, now, pings).contains(p) <==> pings.contains(p) || (p.born == now && exists|i: int|
            0 <= i < fresh.len() && (#[trigger] fresh[i]).pos == Some(p.pos) && fresh[i].severity
                == p.severity),
    decreases fresh.len(),
{
    if fresh.len() > 0 {
        let front = fresh.drop_last();
        let last = fresh.len() - 1;
        rings_are_added(front, now, pings, p);
        let before = rung(front, now, pings);
        let all = rung(fresh, now, pings);
        let marks = fresh.last().pos == Some(p.pos) && fresh.last().severity == p.severity
            && p.born == now;
        assert(all.contains(p) <==> before.contains(p) || marks) by {
            if before.contains(p) {
                let i = choose|i: int| 0 <= i < before.len() && before[i] == p;
                assert(all[i] == p);
            }
            if marks {
                assert(all[before.len() as int] == p);
            }
            if all.contains(p) {
                let i = choose|i: int| 0 <= i < all.len() && all[i] == p;
                if i < before.len() {
                    assert(before[i] == p);
                }
            }
        }
        if exists|i: int|
            0 <= i < front.len() && (#[trigger] front[i]).pos == Some(p.pos) && front[i].severity
                == p.severity {
            let i = choose|i: int|
                0 <= i < front.len() && (#[trigger] front[i]).pos == Some(p.pos)
                    && front[i].severity == p.severity;
            assert(fresh[i] == front[i]);
        }
        if exists|i: int|
            0 <= i < fresh.len() && (#[trigger] fresh[i]).pos == Some(p.pos) && fresh[i].severity
                == p.severity {
            let i = choose|i: int|
                0 <= i < fresh.len() && (#[trigger] fresh[i]).pos == Some(p.pos)
                    && fresh[i].severity == p.severity;
            if i < last {
                assert(front[i] == fresh[i]);
            }
        }
        if marks {
            assert(fresh[last] == fresh.last());
        }
    }
}

// ---------------------------------------------------------------------------
// The focus
// ---------------------------------------------------------------------------

/// A row that was clicked and knows its place.
pub open spec fn leads_somewhere(live: Seq<NoticeView>, clicks: Seq<usize>, k: int) -> bool {
    0 <= k < clicks.len() && clicks[k] < live.len() && live[clicks[k] as int].pos is Some
}

proof fn first_clicks_win(live: Seq<NoticeView>, clicks: Seq<usize>) -> (k: int)
    ensures
        match clicked_row(live, clicks) {
            Some(r) => leads_somewhere(live, clicks, k) && clicks[k] == r && forall|j: int|
                0 <= j < k ==> !#[trigger] leads_somewhere(live, clicks, j),
            None => forall|j: int| !#[trigger] leads_somewhere(live, clicks, j),
        },
    decreases clicks.len(),
{
    if clicks.len() == 0 {
        0
    } else {
        let front = clicks.drop_last();
        let k = first_clicks_win(live, front);
        assert forall|j: int| 0 <= j < front.len() implies leads_somewhere(live, front, j)
            == #[trigger] leads_somewhere(live, clicks, j) by {}
        match clicked_row(live, front) {
            Some(_) => k,
            None => clicks.len() - 1,
        }
    }
}

/// A click on a row that knows its place looks there, the first such click of a
/// frame; the key then goes on from the row below it.
pub proof fn clicked_rows_are_looked_at(
    live: Seq<NoticeView>,
    cursor: usize,
    clicks: Seq<usize>,
    key: bool,
    k: int,
)
    requires
        leads_somewhere(live, clicks, k),
        forall|j: int| 0 <= j < k ==> !#[trigger] leads_somewhere(live, clicks, j),
    ensures
        focused(live, cursor, clicks, key) == (live[clicks[k] as int].pos, clicks[k] + 1),
{
    let i = first_clicks_win(live, clicks);
    if clicked_row(live, clicks) is None {
        assert(!leads_somewhere(live, clicks, k));
    } else if i > k {
        assert(!leads_somewhere(live, clicks, k));
    } else if i < k {
        assert(!leads_somewhere(live, clicks, i));
    }
}

proof fn steps_pass_placeless_rows(live: Seq<NoticeView>, cursor: int, from: int)
    requires
        0 <= from,
        live.len() > 0,
    ensures
        match steps_to_place(live, cursor, from) {
            Some(n) => from <= n < live.len() && live[(cursor + n) % (live.len() as int)].pos is Some
                && forall|j: int|
                from <= j < n ==> (#[trigger] live[(cursor + j) % (live.len() as int)]).pos is None,
            None => forall|j: int|
                from <= j < live.len() ==> (#[trigger] live[(cursor + j) % (
                live.len() as int)]).pos is None,
        },
    decreases live.len() - from,
{
    if from < live.len() && live[(cursor + from) % (live.len() as int)].pos is None {
        steps_pass_placeless_rows(live, cursor, from + 1);
    }
}

/// The focus key looks at the next row that knows its place, from the cursor on
/// and round again, and leaves the cursor behind it; with no such row, and
/// without the key, nothing moves.
pub proof fn the_key_walks_the_rows(
    live: Seq<NoticeView>,
    cursor: usize,
    clicks: Seq<usize>,
    key: bool,
) -> (n: int)
    requires
        forall|j: int| !#[trigger] leads_somewhere(live, clicks, j),
    ensures
        ({
            let size = live.len() as int;
            let (focus, after) = focused(live, cursor, clicks, key);
            &&& focus is None ==> after == cursor
            &&& focus is Some <==> key && exists|i: int|
                0 <= i < live.len() && (#[trigger] live[i]).pos is Some
            &&& focus is Some ==> {
                let i = (cursor + n) % size;
                &&& 0 <= n < size
                &&& live[i].pos == focus
                &&& after == (i + 1) % size
                &&& forall|j: int|
                    0 <= j < n ==> (#[trigger] live[(cursor + j) % size]).pos is None
            }
        }),
{
    let k = first_clicks_win(live, clicks);
    if clicked_row(live, clicks) is Some {
        assert(leads_somewhere(live, clicks, k));
    }
    if live.len() == 0 {
        0
    } else {
        let size = live.len() as int;
        steps_pass_placeless_rows(live, cursor as int, 0);
        let found = steps_to_place(live, cursor as int, 0);
        if found is Some {
            let i = (cursor + found->0) % size;
            assert(0 <= i < size);
            assert(live[i].pos is Some);
            found->0
        } else {
            assert forall|i: int| 0 <= i < live.len() implies (#[trigger] live[i]).pos is None by {
                let start = cursor as int % size;
                let j = if i >= start {
                    i - start
                } else {
                    i - start + size
                };
                assert((cursor + j) % size == i) by (nonlinear_arith)
                    requires
                        0 < size,
                        0 <= i < size,
                        start == cursor as int % size,
                        j == i - start || j == i - start + size,
                        0 <= j < size,
                ;
                assert(live[(cursor + j) % size].pos is None);
            }
            0
        }
    }
}

/// A row is opaque for six and a half seconds, gone after nine, and fades in a
/// straight line between.
pub proof fn rows_fade_at_the_end(age: int)
    ensures
        age <= 6_500 ==> row_alpha(age) == 1_000,
        age >= 9_000 ==> row_alpha(age) == 0,
        6_500 <= age <= 9_000 ==> 5 * row_alpha(age) <= 2 * (9_000 - age) < 5 * (row_alpha(age) + 1),
{
}

/// A ring lives three seconds: its opacity falls in a straight line, and it
/// grows by as much as the square of what is left of its life shrinks.
pub proof fn rings_open_as_they_age(age: int)
    requires
        0 <= age <= 3_000,
    ensures
        3 * ping_alpha(age) <= 3_000 - age < 3 * ping_alpha(age) + 3,
        ({
            let left = 3_000 - age;
            let grown = ping_size(age) - 5_000;
            -9_000_000 <= 2 * (9_000_000 * grown - 29_000 * (9_000_000 - left * left)) <= 9_000_000
        }),
{
    let left = 3_000 - age;
    rounded_is_close(29_000 * (9_000_000 - left * left), 9_000_000);
}

// ---------------------------------------------------------------------------
// Proposals
// ---------------------------------------------------------------------------

/// What an answer says: yes, or no with the reason that the keys held give.
/// Control outweighs shift.
pub open spec fn says(yes: bool, ctrl: bool, shift: bool) -> Verdict {
    if yes {
        Verdict::Approve
    } else if ctrl {
        Verdict::Veto(VetoReason::Never)
    } else if shift {
        Verdict::Veto(VetoReason::WrongTarget)
    } else {
        Verdict::Veto(VetoReason::NotNow)
    }
}

/// Every click on a card that is there answers that card, in order; then a key
/// answers the top card, and yes outweighs no. Nothing is answered once the
/// game is over or while nobody has the seat.
pub proof fn answers_go_to_their_cards(
    game_over: bool,
    seated: bool,
    pending: Seq<Proposal>,
    a: Answers,
) -> (at: Seq<int>)
    ensures
        ({
            let list = answered(game_over, seated, pending, a);
            let keyed = pending.len() > 0 && (a.approve || a.veto);
            &&& game_over || !seated ==> list.len() == 0
            &&& !game_over && seated ==> {
                &&& list.len() == at.len() + (if keyed {
                    1int
                } else {
                    0
                })
                &&& forall|k: int|
                    0 <= k < at.len() ==> {
                        let c = a.clicks@[#[trigger] at[k]];
                        &&& 0 <= at[k] < a.clicks@.len()
                        &&& c.0 < pending.len()
                        &&& list[k].id == pending[c.0 as int].id
                        &&& list[k].verdict == says(c.1, a.ctrl, a.shift)
                    }
                &&& forall|k: int, l: int|
                    0 <= k < l < at.len() ==> #[trigger] at[k] < #[trigger] at[l]
                &&& forall|i: int|
                    0 <= i < a.clicks@.len() && (#[trigger] a.clicks@[i]).0 < pending.len()
                        ==> at.contains(i)
                &&& keyed ==> list[at.len() as int].id == pending[0].id
                    && list[at.len() as int].verdict == says(a.approve, a.ctrl, a.shift)
            }
        }),
{
    let f = clicked(pending, a);
    let at = picked_places(a.clicks@, f);
    assert forall|i: int|
        0 <= i < a.clicks@.len() && (#[trigger] a.clicks@[i]).0 < pending.len() implies at.contains(
        i,
    ) by {
        assert(f(a.clicks@[i]) is Some);
    }
    assert forall|k: int| 0 <= k < at.len() implies f(a.clicks@[#[trigger] at[k]]) == Some(
        picked(a.clicks@, f)[k],
    ) by {}
    at
}

/// A card shows its first four sentences, says how many more there are, and then
/// shows everything it would disturb.
pub proof fn cards_show_four_sentences(sentences: Seq<Seq<char>>, conflicts: Seq<Seq<char>>)
    ensures
        ({
            let lines = body_lines(sentences, conflicts);
            let n = sentences.len();
            let shown = if n > 4 {
                4int
            } else {
                n as int
            };
            let more = if n > 4 {
                1int
            } else {
                0
            };
            &&& lines.len() == shown + more + conflicts.len()
            &&& forall|k: int| 0 <= k < shown ==> #[trigger] lines[k] == "  - "@ + sentences[k]
            &&& n > 4 ==> lines[4] == "  - (+"@ + dec((n - 4) as nat) + " more)"@
            &&& forall|k: int|
                shown + more <= k < lines.len() ==> #[trigger] lines[k] == "  ! "@ + conflicts[k
                    - shown - more]
        }),
{
}

/// A card shows how long is left, and nothing once its time is up; and how long
/// it has waited, no longer than it may. Both are told to the nearest second.
pub proof fn cards_keep_time(p: &Proposal, now: int, ttl: int)
    requires
        0 <= ttl,
    ensures
        now <= p.expires_at ==> now + p.left(now) == p.expires_at,
        now > p.expires_at ==> p.left(now) == 0,
        now - p.proposed_at <= ttl ==> p.proposed_at + p.waited(now, ttl) == now,
        now - p.proposed_at > ttl ==> p.waited(now, ttl) == ttl,
        -500 <= 1_000 * seconds(ttl as nat) - ttl <= 500,
{
}

} // verus!
