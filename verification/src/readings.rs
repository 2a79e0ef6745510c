//! What the readouts come to: how numbers are rounded and spelled, how lists and
//! tallies are told, what a bar shows, and which tiles fit.

use vstd::prelude::*;

use crate::card::{CmdAction, EntryView};
use crate::catalog::Catalog;
use crate::doctrine::trimmed;
use crate::hud::{
    bleeding, conceding, hint_reads, shown, tint, watched_after, HallFacts, HintFacts, Shown,
    Tint, Winner,
};
use crate::lists::{in_order, ordered_places, picked};
use crate::panel::{
    filled, health_tint, ordered_cards, shown_cards, whole, CardFacts, Drill, HpTint,
    PanelBuilding, Work,
};
use crate::readouts::{
    age, cut, delay, delays, hero_piece, hero_reads, largest, link_reads, runs, worst_first,
    HeroIntel, HeroStatus, TriggerRule, TriggerStatus,
};
use crate::situation::World;
use crate::text::{
    all_digits, dec, decimals_read_back, digit, fixed0, fixed1, joined, padded, round_even, value,
};
use crate::ui_state::UiView;

verus! {

// ---------------------------------------------------------------------------
// Numbers
// ---------------------------------------------------------------------------

/// A rounded quotient is the whole number nearest to it, and the even one of
/// the two where it lies in the middle.
pub proof fn rounding_is_to_the_nearest(n: nat, d: nat)
    requires
        d > 0,
    ensures
        ({
            let q = round_even(n, d);
            &&& -(d as int) <= 2 * (q * d - n) <= d
            &&& 2 * (q * d - n) == d || 2 * (q * d - n) == -(d as int) ==> q % 2 == 0
        }),
{
    let q = n / d;
    let r = n % d;
    assert(n == q * d + r && 0 <= r < d) by (nonlinear_arith)
        requires
            d > 0,
            q == n / d,
            r == n % d,
    ;
    let k = round_even(n, d);
    assert((q + 1) * d == q * d + d) by (nonlinear_arith);
    if 2 * r == d {
        if q % 2 == 0 {
            assert(k == q);
        } else {
            assert(k == q + 1);
        }
    }
}

/// A number in decimal has no nought in front, unless it is nought itself.
pub proof fn decimals_have_no_leading_nought(n: nat)
    ensures
        dec(n).len() > 0,
        n > 0 ==> dec(n)[0] != '0',
    decreases n,
{
    if n >= 10 {
        decimals_have_no_leading_nought(n / 10);
        assert(dec(n)[0] == dec(n / 10)[0]);
    }
}

/// Thousandths spelled without decimals read back as the nearest whole number;
/// a minus stands before the same spelling of what is below zero.
pub proof fn whole_spellings_read_back(milli: int)
    ensures
        milli >= 0 ==> all_digits(fixed0(milli)) && -500 <= 1_000 * value(fixed0(milli)) - milli
            <= 500,
        milli < 0 ==> fixed0(milli) == seq!['-'] + fixed0(-milli),
{
    if milli >= 0 {
        let q = round_even(milli as nat, 1000);
        rounding_is_to_the_nearest(milli as nat, 1000);
        decimals_read_back(q, 0);
        assert(fixed0(milli) =~= dec(q));
    } else {
        assert(fixed0(-milli) =~= dec(round_even((-milli) as nat, 1000)));
        assert(fixed0(milli) =~= seq!['-'] + fixed0(-milli));
    }
}

/// Thousandths spelled with one decimal read back as the nearest tenth: a point
/// stands before the last digit.
pub proof fn tenth_spellings_read_back(milli: int)
    ensures
        milli >= 0 ==> {
            let s = fixed1(milli);
            let n = s.len() as int;
            &&& n >= 3
            &&& s[n - 2] == '.'
            &&& all_digits(s.take(n - 2))
            &&& all_digits(s.skip(n - 1))
            &&& -50 <= 100 * (10 * value(s.take(n - 2)) + value(s.skip(n - 1))) - milli <= 50
        },
        milli < 0 ==> fixed1(milli) == seq!['-'] + fixed1(-milli),
{
    if milli >= 0 {
        let t = round_even(milli as nat, 100);
        rounding_is_to_the_nearest(milli as nat, 100);
        let s = fixed1(milli);
        let n = s.len() as int;
        decimals_read_back(t / 10, 0);
        decimals_read_back(t % 10, 0);
        decimals_have_no_leading_nought(t / 10);
        assert(s.take(n - 2) =~= dec(t / 10));
        assert(s.skip(n - 1) =~= dec(t % 10));
        assert(t == 10 * (t / 10) + t % 10);
    } else {
        assert(fixed1(milli) =~= seq!['-'] + fixed1(-milli));
    }
}

/// A caption drops the decimal of a number that is within a twentieth of a whole
/// one, and keeps it of any other; below zero it is the same behind a minus.
pub proof fn captions_drop_idle_decimals(milli: int, whole: int)
    requires
        0 <= whole,
        0 <= milli,
        1_000 * whole <= milli < 1_000 * whole + 1_000,
    ensures
        milli - 1_000 * whole < 50 || milli - 1_000 * whole > 950 ==> trimmed(milli) == fixed0(
            milli,
        ),
        50 <= milli - 1_000 * whole <= 950 ==> trimmed(milli) == fixed1(milli),
        milli > 0 ==> trimmed(-milli) == seq!['-'] + trimmed(milli),
{
    assert(milli % 1_000 == milli - 1_000 * whole);
    if milli > 0 {
        whole_spellings_read_back(-milli);
        tenth_spellings_read_back(-milli);
    }
}

/// Padding brings a number to its width and no further.
pub proof fn padding_fills_the_width(n: nat, width: nat)
    ensures
        padded(n, width).len() == (if dec(n).len() < width {
            width
        } else {
            dec(n).len()
        }),
        forall|i: int|
            0 <= i < padded(n, width).len() - dec(n).len() ==> #[trigger] padded(n, width)[i] == '0',
{
}

/// A list is told from its front: the first part, and, where there are more, the
/// separator and the rest.
pub proof fn lists_are_told_in_order(part: Seq<char>, rest: Seq<Seq<char>>, sep: Seq<char>)
    ensures
        joined(Seq::empty(), sep).len() == 0,
        joined(seq![part] + rest, sep) == (if rest.len() == 0 {
            part
        } else {
            part + sep + joined(rest, sep)
        }),
    decreases rest.len(),
{
    let all = seq![part] + rest;
    if rest.len() == 0 {
        assert(all =~= seq![part]);
    } else {
        let front = rest.drop_last();
        lists_are_told_in_order(part, front, sep);
        assert(all.drop_last() =~= seq![part] + front);
        assert(all.last() == rest.last());
        if front.len() == 0 {
            assert(joined(rest, sep) == rest[0]);
            assert(joined(all, sep) =~= part + sep + joined(rest, sep));
        } else {
            assert(joined(all, sep) =~= part + sep + joined(rest, sep));
        }
    }
}

// ---------------------------------------------------------------------------
// Tallies
// ---------------------------------------------------------------------------

/// A tally told out again: each text as often as it is counted.
pub open spec fn told_out(t: Seq<(Seq<char>, int)>) -> Seq<Seq<char>>
    decreases t.len(),
{
    if t.len() == 0 {
        Seq::empty()
    } else {
        told_out(t.drop_last()) + Seq::new(t.last().1 as nat, |i: int| t.last().0)
    }
}

/// A tally of neighbours told out is the list again, every count is at least
/// one, and no two neighbours in it are the same.
pub proof fn tallies_lose_nothing(list: Seq<Seq<char>>)
    ensures
        told_out(runs(list)) == list,
        forall|i: int| 0 <= i < runs(list).len() ==> (#[trigger] runs(list)[i]).1 >= 1,
        forall|i: int|
            0 < i < runs(list).len() ==> runs(list)[i - 1].0 != (#[trigger] runs(list)[i]).0,
        list.len() > 0 ==> runs(list).len() > 0 && runs(list).last().0 == list.last(),
    decreases list.len(),
{
    if list.len() == 0 {
        assert(told_out(runs(list)) =~= list);
    } else {
        let front = list.drop_last();
        let x = list.last();
        tallies_lose_nothing(front);
        let before = runs(front);
        let t = runs(list);
        if before.len() > 0 && before.last().0 == x {
            let n = before.last().1;
            assert(t.drop_last() =~= before.drop_last());
            assert(t.last() == (x, n + 1));
            assert(Seq::new((n + 1) as nat, |i: int| x) =~= Seq::new(n as nat, |i: int| x).push(x));
            assert(told_out(t) =~= told_out(before).push(x));
            assert forall|i: int| 0 < i < t.len() implies t[i - 1].0 != (#[trigger] t[i]).0 by {
                assert(before[i - 1].0 != before[i].0);
            }
        } else {
            assert(t.drop_last() =~= before);
            assert(Seq::new(1nat, |i: int| x) =~= seq![x]);
            assert(told_out(t) =~= told_out(before).push(x));
            assert forall|i: int| 0 < i < t.len() implies t[i - 1].0 != (#[trigger] t[i]).0 by {
                if i < before.len() {
                    assert(before[i - 1].0 != before[i].0);
                }
            }
        }
        assert(list =~= front.push(x));
    }
}

/// Delays are told from the worst down, every one of them.
pub proof fn the_worst_come_first(links: Seq<i32>)
    ensures
        worst_first(links).len() == links.len(),
        forall|i: int, j: int|
            0 <= i <= j < links.len() ==> (#[trigger] worst_first(links)[i]) >= (
            #[trigger] worst_first(links)[j]),
        forall|x: i32| #[trigger] worst_first(links).contains(x) <==> links.contains(x),
{
    let keyed = links.map_values(|l: i32| ((-l) as i64, l));
    let at = ordered_places(keyed);
    let w = worst_first(links);
    assert forall|k: int| 0 <= k < w.len() implies w[k] == links[#[trigger] at[k]] by {
        assert(keyed[at[k]] == in_order(keyed)[k]);
    }
    assert forall|i: int, j: int| 0 <= i <= j < links.len() implies (#[trigger] w[i]) >= (
    #[trigger] w[j]) by {
        if i < j {
            assert(keyed[at[i]].0 <= keyed[at[j]].0);
        }
    }
    assert forall|x: i32| #[trigger] w.contains(x) <==> links.contains(x) by {
        if w.contains(x) {
            let k = choose|k: int| 0 <= k < w.len() && w[k] == x;
            assert(links[at[k]] == x);
        }
        if links.contains(x) {
            let i = choose|i: int| 0 <= i < links.len() && links[i] == x;
            assert(at.contains(i));
            let k = choose|k: int| 0 <= k < at.len() && at[k] == i;
            assert(w[k] == x);
        }
    }
}

/// The largest delay is one of them and none is larger; nought where there are
/// none above it.
pub proof fn the_largest_is_largest(list: Seq<i32>)
    ensures
        largest(list) >= 0,
        forall|i: int| 0 <= i < list.len() ==> (#[trigger] list[i]) <= largest(list),
        largest(list) > 0 ==> exists|i: int|
            0 <= i < list.len() && (#[trigger] list[i]) == largest(list),
    decreases list.len(),
{
    if list.len() > 0 {
        let front = list.drop_last();
        the_largest_is_largest(front);
        assert forall|i: int| 0 <= i < list.len() implies (#[trigger] list[i]) <= largest(list) by {
            if i < front.len() {
                assert(front[i] == list[i]);
            }
        }
        if largest(front) > 0 {
            let i = choose|i: int| 0 <= i < front.len() && (#[trigger] front[i]) == largest(front);
            assert(list[i] == front[i]);
        }
        assert(list[list.len() - 1] == list.last());
    }
}

/// Where a text starts with another.
pub open spec fn begins(s: Seq<char>, head: Seq<char>) -> bool {
    head.len() <= s.len() && s.take(head.len() as int) == head
}

proof fn beginnings_stay(head: Seq<char>, a: Seq<char>, b: Seq<char>)
    requires
        begins(a, head),
    ensures
        begins(a + b, head),
{
    assert((a + b).take(head.len() as int) =~= a.take(head.len() as int));
}

proof fn first_runs_start_the_list(list: Seq<Seq<char>>)
    requires
        list.len() > 0,
    ensures
        runs(list).len() > 0,
        runs(list)[0].0 == list[0],
    decreases list.len(),
{
    if list.len() > 1 {
        let front = list.drop_last();
        first_runs_start_the_list(front);
        assert(front[0] == list[0]);
    } else {
        assert(runs(list.drop_last()).len() == 0);
    }
}

/// What reaching a selection costs is told where anybody is selected, and leads
/// with the slowest link.
pub proof fn the_slowest_link_leads(links: Seq<i32>, in_transit: Seq<i32>, i: int)
    requires
        0 <= i < links.len(),
        forall|j: int| 0 <= j < links.len() ==> (#[trigger] links[j]) <= links[i],
    ensures
        begins(link_reads(links, in_transit), "Link: "@ + fixed1(links[i] as int) + "s"@),
        link_reads(Seq::empty(), in_transit).len() == 0,
{
    the_worst_come_first(links);
    let w = worst_first(links);
    assert(w[0] == links[i]) by {
        assert(w.contains(links[i])) by {
            assert(links.contains(links[i]));
        }
        let k = choose|k: int| 0 <= k < w.len() && w[k] == links[i];
        assert(w[0] >= w[k]);
        assert(w.contains(w[0]));
        assert(links.contains(w[0]));
    }
    let ds = delays(w);
    first_runs_start_the_list(ds);
    let tally = runs(ds);
    let pieces = crate::readouts::counted_all(crate::readouts::top(tally));
    let first = ds[0];
    assert(first =~= fixed1(links[i] as int) + "s"@);
    assert(begins(pieces[0], first)) by {
        let e = tally[0];
        if e.1 > 1 {
            assert(pieces[0] == e.0 + " x"@ + dec(e.1 as nat));
            assert(pieces[0] =~= first + (" x"@ + dec(e.1 as nat)));
            assert(begins(first, first)) by {
                assert(first.take(first.len() as int) =~= first);
            }
            beginnings_stay(first, first, " x"@ + dec(e.1 as nat));
        } else {
            assert(first.take(first.len() as int) =~= first);
        }
    }
    let told = joined(pieces, "   "@);
    let rest = pieces.skip(1);
    lists_are_told_in_order(pieces[0], rest, "   "@);
    assert(pieces =~= seq![pieces[0]] + rest);
    assert(begins(told, first)) by {
        if rest.len() > 0 {
            beginnings_stay(first, pieces[0], "   "@);
            beginnings_stay(first, pieces[0] + "   "@, joined(rest, "   "@));
        }
    }
    let head = "Link: "@ + first;
    let start = "Link: "@ + told;
    assert(begins(start, head)) by {
        assert(start.take(head.len() as int) =~= head) by {
            assert forall|k: int| 0 <= k < head.len() implies start[k] == head[k] by {
                let n = "Link: "@.len();
                if k >= n {
                    assert(start[k] == told[k - n]);
                    assert(head[k] == first[k - n]);
                    assert(told.take(first.len() as int)[k - n] == told[k - n]);
                }
            }
        }
    }
    let more = if tally.len() > 2 {
        "  (+"@ + dec((tally.len() - 2) as nat) + " more)"@
    } else {
        Seq::empty()
    };
    beginnings_stay(head, start, more);
    if in_transit.len() > 0 {
        beginnings_stay(
            head,
            start + more,
            "   ·   "@ + dec(in_transit.len()) + " in transit ("@ + fixed1(largest(in_transit))
                + "s)"@,
        );
    }
    assert(head =~= "Link: "@ + fixed1(links[i] as int) + "s"@);
}

// ---------------------------------------------------------------------------
// Rules, reasons and heroes
// ---------------------------------------------------------------------------

/// A rule that is not armed is spent; one that is cools for its cooldown after
/// it fired, and else stands ready.
pub proof fn rules_cool_after_they_fire(r: &TriggerRule, now: int)
    ensures
        r.standing(now) == TriggerStatus::Spent <==> !r.armed,
        r.standing(now) == TriggerStatus::Cooling <==> r.armed && r.repeat is Some
            && r.last_fired is Some && now < r.last_fired->0 + r.repeat->0,
{
}

/// A reason of up to thirty-four letters is told whole; of a longer one the
/// first thirty-four are, and one mark more that it goes on.
pub proof fn long_reasons_are_cut(why: Seq<char>)
    ensures
        why.len() <= 34 ==> cut(why) == why,
        why.len() > 34 ==> cut(why).len() == 35 && cut(why).take(34) == why.take(34) && cut(why)[34]
            == '…',
{
    reveal_strlit("…");
    if why.len() > 34 {
        assert(cut(why).take(34) =~= why.take(34));
    }
}

/// Nothing is told of enemy heroes exactly while none was ever seen.
pub proof fn unseen_heroes_are_not_told(intel: Seq<HeroIntel>, now: int)
    ensures
        hero_reads(intel, now).len() == 0 <==> forall|i: int|
            0 <= i < intel.len() ==> (#[trigger] intel[i]).status == HeroStatus::Unknown,
        age(now, now) == 0,
{
    reveal_strlit("Their heroes: ");
    let f = hero_piece(now);
    let at = crate::lists::picked_places(intel, f);
    let parts = picked(intel, f);
    if parts.len() > 0 {
        assert(f(intel[at[0]]) is Some);
        assert(intel[at[0]].status != HeroStatus::Unknown);
    } else {
        assert forall|i: int| 0 <= i < intel.len() implies (#[trigger] intel[i]).status
            == HeroStatus::Unknown by {
            if intel[i].status != HeroStatus::Unknown {
                assert(f(intel[i]) is Some);
                assert(at.contains(i));
            }
        }
    }
}

// ---------------------------------------------------------------------------
// The panel
// ---------------------------------------------------------------------------

/// Thousandths shown as a whole number are the nearest one, within thirty-two
/// bits.
pub proof fn panels_round_to_the_nearest(milli: int)
    requires
        -2_147_483_648_000 <= milli <= 2_147_483_647_000,
    ensures
        -500 <= 1_000 * whole(milli) - milli <= 500,
        whole(-milli) == -whole(milli) || milli < -2_147_483_647_000,
{
}

/// A bar is green above half, yellow above a quarter and red from there down.
pub proof fn bars_redden_as_health_falls(current: int, max: int)
    requires
        max >= 1,
    ensures
        health_tint(current, max) == HpTint::Green <==> current * 2 > max,
        health_tint(current, max) == HpTint::Red <==> current * 4 <= max,
{
}

/// A bar shows what there is of the most there can be, none at least and all at
/// most; the most counts as one thousandth where it is less.
pub proof fn bars_show_what_there_is(current: int, max: int)
    requires
        -0x8000_0000_0000_0000 <= current <= 0x7fff_ffff_ffff_ffff,
        -0x8000_0000_0000_0000 <= max <= 0x7fff_ffff_ffff_ffff,
    ensures
        max >= 1 ==> filled(current, max).of == max,
        max < 1 ==> filled(current, max).of == 1,
        0 <= current <= filled(current, max).of ==> filled(current, max).part == current,
        current < 0 ==> filled(current, max).part == 0,
        current > filled(current, max).of ==> filled(current, max).part == filled(current, max).of,
{
}

/// What is done and what remains make up the whole; training shows what is done
/// of it.
pub proof fn work_fills_its_bar(w: Work, d: Drill)
    ensures
        1 <= w.total && w.remaining <= w.total ==> w.bar().part + w.remaining == w.total
            && w.bar().of == w.total,
        1 <= w.total && w.remaining > w.total ==> w.bar().part == 0 && w.bar().of == w.total,
        1 <= d.total && d.progress <= d.total ==> d.bar().part == d.progress && d.bar().of
            == d.total,
        1 <= d.total && d.progress > d.total ==> d.bar().part == d.total && d.bar().of == d.total,
{
}

/// The bar of a building shows its construction, else its conversion, else its
/// research, else its training while anything waits; its queue is hidden while
/// it goes up and while it does research alone.
pub proof fn buildings_show_what_they_are_at(b: &PanelBuilding)
    ensures
        ({
            let waits = b.queue is Some && (b.queue->0)@.len() > 0;
            &&& b.construction is Some ==> b.bar() == Some(b.construction->0.bar())
                && b.waiting().len() == 0
            &&& b.construction is None && b.upgrading is Some ==> b.bar() == Some(
                (b.upgrading->0).1.bar(),
            )
            &&& b.construction is None && b.upgrading is None && b.researching is Some ==> b.bar()
                == Some(b.researching->0.work.bar()) && b.waiting().len() == 0
            &&& b.construction is None && b.upgrading is None && b.researching is None ==> b.bar()
                == (if waits {
                Some(b.training.bar())
            } else {
                None
            })
            &&& waits && b.construction is None && (b.upgrading is Some || b.researching is None)
                ==> b.waiting() == (b.queue->0)@
        }),
{
}

/// The tiles of a selection are the first twelve of it in the order of their
/// slots, each once.
pub proof fn twelve_tiles_fit(list: Seq<CardFacts>) -> (at: Seq<int>)
    ensures
        at.len() == list.len(),
        forall|k: int| 0 <= k < at.len() ==> 0 <= #[trigger] at[k] < list.len(),
        forall|k: int, l: int|
            0 <= k < l < at.len() ==> at[k] != at[l] && list[#[trigger] at[k]].id % 0x1_0000_0000
                <= list[#[trigger] at[l]].id % 0x1_0000_0000,
        shown_cards(list).len() == (if list.len() < 12 {
            list.len()
        } else {
            12
        }),
        forall|k: int|
            0 <= k < shown_cards(list).len() ==> #[trigger] shown_cards(list)[k] == list[at[k]],
{
    let keyed = list.map_values(|c: CardFacts| crate::panel::by_slot_key(c));
    let at = ordered_places(keyed);
    let all = ordered_cards(list);
    assert forall|k: int| 0 <= k < all.len() implies all[k] == list[#[trigger] at[k]] by {
        assert(keyed[at[k]] == in_order(keyed)[k]);
    }
    assert forall|k: int, l: int| 0 <= k < l < at.len() implies at[k] != at[l]
        && list[#[trigger] at[k]].id % 0x1_0000_0000 <= list[#[trigger] at[l]].id
        % 0x1_0000_0000 by {
        assert(keyed[at[k]].0 <= keyed[at[l]].0);
    }
    assert forall|k: int| 0 <= k < shown_cards(list).len() implies #[trigger] shown_cards(list)[k]
        == list[at[k]] by {
        assert(shown_cards(list)[k] == all[k]);
    }
    at
}

// ---------------------------------------------------------------------------
// The HUD
// ---------------------------------------------------------------------------

/// A finished hall of ours is under attack below its share of health.
pub proof fn halls_bleed_below_their_share(cat: &Catalog, h: HallFacts, hurt_frac: int)
    ensures
        bleeding(cat, h, hurt_frac) <==> h.own && !h.unfinished && cat.building_row(h.kind).hall
            && h.max_hp > 0 && 1_000 * h.hp < h.max_hp * hurt_frac,
        h.own && !h.unfinished && cat.building_row(h.kind).hall && h.max_hp > 0 && h.hp == h.max_hp
            && hurt_frac <= 1_000 ==> !bleeding(cat, h, hurt_frac),
{
    assert(hurt_frac * h.max_hp == h.max_hp * hurt_frac) by (nonlinear_arith);
    if hurt_frac <= 1_000 && h.max_hp > 0 {
        assert(h.max_hp * hurt_frac <= h.max_hp * 1_000) by (nonlinear_arith)
            requires
                hurt_frac <= 1_000,
                h.max_hp > 0,
        ;
    }
}

/// Conceding takes two presses within three seconds; one press, or one too late,
/// only arms it, and nothing is conceded once the game is over.
pub proof fn conceding_takes_two_presses(game_over: bool, pressed: bool, now: i64, armed_at: Option<i64>)
    ensures
        ({
            let (said, after) = conceding(game_over, pressed, now as int, armed_at);
            let heard = pressed && !game_over;
            let soon = armed_at is Some && now < armed_at->0 + 3_000;
            &&& said is Some <==> heard && soon
            &&& said is Some ==> said->0 is Surrender && after is None
            &&& heard && !soon ==> after == Some(now)
            &&& !heard ==> after == armed_at
        }),
{
}

/// A tile that does nothing is dark whatever else holds; then one that is on or
/// waits is lit; then one whose price is not in hand is marked.
pub proof fn tiles_are_lit_by_what_they_do(e: EntryView, ui: UiView, gold: u32, lumber: u32)
    ensures
        ({
            let waits = match e.action {
                CmdAction::AttackMove => ui.attack_move_armed,
                CmdAction::Place(kind) => ui.placement is Some && ui.placement->0 == kind,
                CmdAction::SetPosture(kind) => ui.posture_place is Some
                    && ui.posture_place->0.kind == kind,
                _ => false,
            };
            let poor = e.afford is Some && ((e.afford->0).0 > gold || (e.afford->0).1 > lumber);
            &&& tint(e, ui, gold, lumber) == Tint::Dark <==> !e.enabled
            &&& tint(e, ui, gold, lumber) == Tint::Armed <==> e.enabled && (e.active || waits)
            &&& tint(e, ui, gold, lumber) == Tint::Poor <==> e.enabled && !e.active && !waits
                && poor
        }),
{
}

/// The panel shows the one thing selected, tiles where there are more, and
/// nothing where there is none.
pub proof fn panels_show_the_selection(w: &World)
    ensures
        shown(w) == Shown::Nothing <==> w.sel_units@.len() == 0 && w.sel_buildings@.len() == 0,
        shown(w) == Shown::Unit <==> w.sel_units@.len() == 1 && w.sel_buildings@.len() == 0,
        shown(w) == Shown::Building <==> w.sel_units@.len() == 0 && w.sel_buildings@.len() == 1,
{
}

/// Who played is settled when the match ends, and not before.
pub proof fn who_played_is_settled_at_the_end(winner: Option<Winner>, watched: Option<bool>, ai: bool)
    ensures
        watched_after(winner, watched, ai) is Some <==> winner is Some,
        winner is Some && watched is None ==> watched_after(winner, watched, ai) == Some(ai),
        winner is Some && watched is Some ==> watched_after(winner, watched, ai) == watched,
{
}

/// The hint names what waits: the teleport before the building, that before the
/// cast, that before the posture, that before the attack-move.
pub proof fn hints_name_what_waits(
    cat: &Catalog,
    ui: UiView,
    f: HintFacts,
    halls: Seq<HallFacts>,
    hurt_frac: int,
)
    ensures
        ({
            let line = hint_reads(cat, ui, f, halls, hurt_frac);
            &&& ui.teleport_place is Some ==> begins(
                line,
                ui.teleport_place->0.name + " armed: left-click the HALL to arrive at"@,
            )
            &&& ui.teleport_place is None && ui.placement is Some ==> begins(
                line,
                "Placing "@ + crate::catalog::building_title(ui.placement->0),
            )
            &&& ui.teleport_place is None && ui.placement is None && ui.cast_place is Some
                ==> begins(line, ui.cast_place->0.name + " armed: left-click "@)
            &&& ui.teleport_place is None && ui.placement is None && ui.cast_place is None
                && ui.posture_place is Some ==> begins(
                line,
                "Squad "@ + dec(ui.posture_place->0.squad as nat) + " - "@
                    + ui.posture_place->0.kind.title(),
            )
        }),
{
    let line = hint_reads(cat, ui, f, halls, hurt_frac);
    if ui.teleport_place is Some {
        reveal_strlit(" armed: left-click the HALL to arrive at");
        reveal_strlit(
            " armed: left-click the HALL to arrive at, on the map or the minimap (Right-click / Esc cancels) - ",
        );
        let head = ui.teleport_place->0.name + " armed: left-click the HALL to arrive at"@;
        assert(line.take(head.len() as int) =~= head);
    } else if ui.placement is Some {
        let head = "Placing "@ + crate::catalog::building_title(ui.placement->0);
        assert(line.take(head.len() as int) =~= head);
    } else if ui.cast_place is Some {
        let head = ui.cast_place->0.name + " armed: left-click "@;
        assert(line.take(head.len() as int) =~= head);
    } else if ui.posture_place is Some {
        let head = "Squad "@ + dec(ui.posture_place->0.squad as nat) + " - "@
            + ui.posture_place->0.kind.title();
        assert(line.take(head.len() as int) =~= head);
    }
}

} // verus!
