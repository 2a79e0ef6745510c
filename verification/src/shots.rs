//! Screenshots: where they go, what they are called, and when they are due.

use vstd::prelude::*;
use vstd::string::*;

use crate::lists::{in_order, order_by_key, picked, picked_step, values};
use crate::text::{
    all_digits, dec, decimals_read_back, digit, digit_value, owned, padded, push_dec, push_padded,
    texts,
};

verus! {

/// Whether a character is white space.
pub open spec fn white(c: char) -> bool {
    let n = c as u32;
    ||| 9 <= n <= 13
    ||| n == 0x20
    ||| n == 0x85
    ||| n == 0xa0
    ||| n == 0x1680
    ||| 0x2000 <= n <= 0x200a
    ||| n == 0x2028
    ||| n == 0x2029
    ||| n == 0x202f
    ||| n == 0x205f
    ||| n == 0x3000
}

fn is_white(c: char) -> (r: bool)
    ensures
        r == white(c),
{
    let n: u32 = c as u32;
    (9 <= n && n <= 13) || n == 0x20 || n == 0x85 || n == 0xa0 || n == 0x1680 || (0x2000 <= n && n
        <= 0x200a) || n == 0x2028 || n == 0x2029 || n == 0x202f || n == 0x205f || n == 0x3000
}

/// How much white space a text starts with.
pub open spec fn lead(s: Seq<char>) -> int
    decreases s.len(),
{
    if s.len() > 0 && white(s[0]) {
        1 + lead(s.skip(1))
    } else {
        0
    }
}

/// How much of a text is left without the white space at its end.
pub open spec fn tail(s: Seq<char>) -> int
    decreases s.len(),
{
    if s.len() > 0 && white(s.last()) {
        tail(s.drop_last())
    } else {
        s.len() as int
    }
}

/// A text without the white space round it.
pub open spec fn stripped(s: Seq<char>) -> Seq<char> {
    let from = lead(s);
    if tail(s) <= from {
        Seq::empty()
    } else {
        s.subrange(from, tail(s))
    }
}

/// Stripping leaves no white space at either end, and a text that has none is
/// left alone.
pub proof fn stripping_strips(s: Seq<char>)
    ensures
        stripped(s).len() > 0 ==> !white(stripped(s)[0]) && !white(stripped(s).last()),
        s.len() > 0 && !white(s[0]) && !white(s.last()) ==> stripped(s) == s,
{
    lead_stops(s);
    tail_stops(s);
    if s.len() > 0 && !white(s[0]) && !white(s.last()) {
        assert(stripped(s) =~= s);
    }
}

proof fn lead_stops(s: Seq<char>)
    ensures
        0 <= lead(s) <= s.len(),
        lead(s) < s.len() ==> !white(s[lead(s)]),
    decreases s.len(),
{
    if s.len() > 0 && white(s[0]) {
        lead_stops(s.skip(1));
        if lead(s) < s.len() {
            assert(s.skip(1)[lead(s) - 1] == s[lead(s)]);
        }
    }
}

proof fn tail_stops(s: Seq<char>)
    ensures
        0 <= tail(s) <= s.len(),
        tail(s) > 0 ==> !white(s[tail(s) - 1]),
    decreases s.len(),
{
    if s.len() > 0 && white(s.last()) {
        tail_stops(s.drop_last());
        if tail(s) > 0 {
            assert(s.drop_last()[tail(s) - 1] == s[tail(s) - 1]);
        }
    }
}

/// A text without the white space round it.
pub fn strip<'a>(s: &'a str) -> (r: &'a str)
    ensures
        r@ == stripped(s@),
{
    let n: usize = s.unicode_len();
    let mut from: usize = 0;
    assert(s@.skip(0) =~= s@);
    while from < n && is_white(s.get_char(from))
        invariant
            n == s@.len(),
            from <= n,
            lead(s@) == from + lead(s@.skip(from as int)),
        decreases n - from,
    {
        assert(s@.skip(from as int)[0] == s@[from as int]);
        assert(s@.skip(from as int).skip(1) =~= s@.skip(from + 1));
        from = from + 1;
    }
    proof {
        if from < n {
            assert(s@.skip(from as int)[0] == s@[from as int]);
        }
        assert(lead(s@) == from);
    }
    let mut to: usize = n;
    assert(s@.take(n as int) =~= s@);
    while to > 0 && is_white(s.get_char(to - 1))
        invariant
            n == s@.len(),
            to <= n,
            tail(s@) == tail(s@.take(to as int)),
        decreases to,
    {
        assert(s@.take(to as int).last() == s@[to - 1]);
        assert(s@.take(to as int).drop_last() =~= s@.take(to - 1));
        to = to - 1;
    }
    proof {
        if to > 0 {
            assert(s@.take(to as int).last() == s@[to - 1]);
        }
        assert(tail(s@) == to);
    }
    if to <= from {
        let none = s.substring_char(0, 0);
        assert(none@ =~= Seq::empty());
        return none;
    }
    let out = s.substring_char(from, to);
    assert(out@ =~= stripped(s@));
    out
}

/// The directory shots go to when none is named.
pub open spec fn default_dir() -> Seq<char> {
    "shots"@
}

/// Where shots go: the directory named, unless it is blank.
pub open spec fn dir_of(raw: Option<Seq<char>>) -> Seq<char> {
    match raw {
        Some(v) => if stripped(v).len() > 0 {
            stripped(v)
        } else {
            default_dir()
        },
        None => default_dir(),
    }
}

/// Where shots go.
pub fn shot_dir_from(raw: Option<&str>) -> (r: String)
    ensures
        r@ == dir_of(
            match raw {
                Some(v) => Some(v@),
                None => None,
            },
        ),
{
    if let Some(v) = raw {
        let dir = strip(v);
        if dir.unicode_len() > 0 {
            return owned(dir);
        }
    }
    owned("shots")
}

/// Whole seconds of the match, as a shot's name counts them.
pub open spec fn shot_seconds(millis: int) -> nat {
    if millis <= 0 {
        0
    } else if millis / 1_000 > u32::MAX {
        u32::MAX as nat
    } else {
        (millis / 1_000) as nat
    }
}

/// A shot's name: the wall clock, the match's seconds and a counter, padded so
/// that a directory lists a match in order.
pub open spec fn name_of(stamp: nat, millis: int, nth: nat) -> Seq<char> {
    "wc3-"@ + dec(stamp) + "-t"@ + padded(shot_seconds(millis), 4) + "-"@ + padded(nth, 2)
        + ".png"@
}

/// A shot's name.
pub fn shot_name(stamp: u64, millis: i64, nth: u32) -> (r: String)
    ensures
        r@ == name_of(stamp as nat, millis as int, nth as nat),
{
    let secs: u64 = if millis <= 0 {
        0
    } else if millis / 1_000 > u32::MAX as i64 {
        u32::MAX as u64
    } else {
        (millis / 1_000) as u64
    };
    let mut s = owned("wc3-");
    push_dec(&mut s, stamp);
    s.append("-t");
    push_padded(&mut s, secs, 4);
    s.append("-");
    push_padded(&mut s, nth as u64, 2);
    s.append(".png");
    s
}

/// Two texts that are cut at the first dash fall into the same parts.
proof fn one_cut(a: Seq<char>, x: Seq<char>, b: Seq<char>, y: Seq<char>)
    requires
        all_digits(a),
        all_digits(b),
        x.len() > 0,
        y.len() > 0,
        x[0] == '-',
        y[0] == '-',
        a + x == b + y,
    ensures
        a == b,
        x == y,
{
    let s = a + x;
    assert(s == b + y);
    if a.len() < b.len() {
        let c = b[a.len() as int];
        assert(s[a.len() as int] == x[0]);
        assert(s[a.len() as int] == c);
        assert(c == digit(digit_value(c)));
        assert(false);
    }
    if b.len() < a.len() {
        let c = a[b.len() as int];
        assert(s[b.len() as int] == y[0]);
        assert(s[b.len() as int] == c);
        assert(c == digit(digit_value(c)));
        assert(false);
    }
    assert(a =~= s.take(a.len() as int));
    assert(b =~= s.take(a.len() as int));
    assert(x =~= s.skip(a.len() as int));
    assert(y =~= s.skip(a.len() as int));
}

/// A name falls into its parts in one way.
proof fn one_way_apart(
    pre: Seq<char>,
    mid: Seq<char>,
    dash: Seq<char>,
    end: Seq<char>,
    a: (Seq<char>, Seq<char>, Seq<char>),
    b: (Seq<char>, Seq<char>, Seq<char>),
)
    requires
        mid.len() > 0,
        mid[0] == '-',
        dash.len() > 0,
        dash[0] == '-',
        all_digits(a.0),
        all_digits(b.0),
        all_digits(a.1),
        all_digits(b.1),
        pre + a.0 + mid + a.1 + dash + a.2 + end == pre + b.0 + mid + b.1 + dash + b.2 + end,
    ensures
        a == b,
{
    let c1 = a.2 + end;
    let c2 = b.2 + end;
    let b1 = a.1 + (dash + c1);
    let b2 = b.1 + (dash + c2);
    let a1 = a.0 + (mid + b1);
    let a2 = b.0 + (mid + b2);
    let n1 = pre + a.0 + mid + a.1 + dash + a.2 + end;
    let n2 = pre + b.0 + mid + b.1 + dash + b.2 + end;
    assert(n1 =~= pre + a1);
    assert(n2 =~= pre + a2);
    assert(a1 =~= n1.skip(pre.len() as int));
    assert(a2 =~= n2.skip(pre.len() as int));
    one_cut(a.0, mid + b1, b.0, mid + b2);
    assert(b1 =~= (mid + b1).skip(mid.len() as int));
    assert(b2 =~= (mid + b2).skip(mid.len() as int));
    one_cut(a.1, dash + c1, b.1, dash + c2);
    assert(c1 =~= (dash + c1).skip(dash.len() as int));
    assert(c2 =~= (dash + c2).skip(dash.len() as int));
    assert(a.2 =~= c1.take(c1.len() - end.len()));
    assert(b.2 =~= c2.take(c2.len() - end.len()));
}

/// Two shots of one name were taken at the same wall clock, in the same second
/// of the match, and have the same number.
pub proof fn names_tell_shots_apart(
    stamp: nat,
    millis: int,
    nth: nat,
    other_stamp: nat,
    other_millis: int,
    other_nth: nat,
)
    requires
        name_of(stamp, millis, nth) == name_of(other_stamp, other_millis, other_nth),
    ensures
        stamp == other_stamp,
        shot_seconds(millis) == shot_seconds(other_millis),
        nth == other_nth,
{
    reveal_strlit("-t");
    reveal_strlit("-");
    let (s1, s2) = (shot_seconds(millis), shot_seconds(other_millis));
    decimals_read_back(stamp, 0);
    decimals_read_back(other_stamp, 0);
    decimals_read_back(s1, 4);
    decimals_read_back(s2, 4);
    decimals_read_back(nth, 2);
    decimals_read_back(other_nth, 2);
    one_way_apart(
        "wc3-"@,
        "-t"@,
        "-"@,
        ".png"@,
        (dec(stamp), padded(s1, 4), padded(nth, 2)),
        (dec(other_stamp), padded(s2, 4), padded(other_nth, 2)),
    );
}

// ---------------------------------------------------------------------------
// The schedule
// ---------------------------------------------------------------------------

pub open spec fn moment() -> spec_fn(Option<i64>) -> Option<(i64, i64)> {
    |t: Option<i64>|
        match t {
            Some(v) => if v >= 0 {
                Some((v, v))
            } else {
                None
            },
            None => None,
        }
}

/// The moments at which shots are due: those that could be read and are not
/// negative, in order.
pub open spec fn schedule(read: Seq<Option<i64>>) -> Seq<i64> {
    values(in_order(picked(read, moment())))
}

/// The moments at which shots are due. `read` holds what each field of the
/// setting says, in thousandths of a second, where it says a number.
pub fn shot_schedule(read: &Vec<Option<i64>>) -> (r: Vec<i64>)
    ensures
        r@ == schedule(read@),
{
    let mut list: Vec<(i64, i64)> = Vec::new();
    let mut i: usize = 0;
    while i < read.len()
        invariant
            i <= read.len(),
            list@ == picked(read@.take(i as int), moment()),
        decreases read.len() - i,
    {
        proof {
            picked_step(read@, i as int, moment());
        }
        if let Some(v) = read[i] {
            if v >= 0 {
                list.push((v, v));
            }
        }
        i = i + 1;
    }
    assert(read@.take(i as int) =~= read@);
    let sorted = order_by_key(&list);
    let mut out: Vec<i64> = Vec::new();
    let mut j: usize = 0;
    while j < sorted.len()
        invariant
            j <= sorted.len(),
            out@ == values(sorted@).take(j as int),
        decreases sorted.len() - j,
    {
        out.push(sorted[j].1);
        j = j + 1;
        assert(out@ =~= values(sorted@).take(j as int));
    }
    assert(out@ =~= values(sorted@));
    out
}

/// How many of the first moments have come, from `i` on.
pub open spec fn due(queue: Seq<i64>, now: int, i: int) -> int
    decreases queue.len() - i,
{
    if 0 <= i < queue.len() && queue[i] <= now {
        due(queue, now, i + 1)
    } else {
        i
    }
}

/// How many shots are due. A frame that steps past several moments takes a shot
/// for each. `taken` counts those already taken.
pub fn shots_due(queue: &Vec<i64>, taken: usize, now: i64) -> (r: usize)
    requires
        taken <= queue@.len(),
    ensures
        r == due(queue@, now as int, taken as int) - taken,
        taken + r <= queue@.len(),
{
    let mut i: usize = taken;
    while i < queue.len() && queue[i] <= now
        invariant
            taken <= i <= queue@.len(),
            due(queue@, now as int, taken as int) == due(queue@, now as int, i as int),
        decreases queue.len() - i,
    {
        i = i + 1;
    }
    i - taken
}

/// The fields of a list, without the white space round them.
pub open spec fn fields(s: Seq<char>) -> Seq<Seq<char>>
    decreases s.len(),
{
    let n = comma(s);
    if 0 <= n < s.len() {
        seq![stripped(s.take(n))] + fields(s.skip(n + 1))
    } else {
        seq![stripped(s)]
    }
}

/// Where the first comma is, and the end where there is none.
pub open spec fn comma(s: Seq<char>) -> int
    decreases s.len(),
{
    if s.len() == 0 || s[0] == ',' {
        0
    } else {
        1 + comma(s.skip(1))
    }
}

/// Splits a list at its commas.
pub fn split_fields(raw: &str) -> (r: Vec<String>)
    ensures
        texts(r@) == fields(raw@),
{
    let n: usize = raw.unicode_len();
    let mut out: Vec<String> = Vec::new();
    let mut from: usize = 0;
    let ghost all = fields(raw@);
    assert(raw@.skip(0) =~= raw@);
    assert(texts(out@) + fields(raw@) =~= all);
    loop
        invariant
            n == raw@.len(),
            from <= n,
            all == fields(raw@),
            texts(out@) + fields(raw@.skip(from as int)) == all,
        decreases n - from,
    {
        let ghost rest = raw@.skip(from as int);
        let mut to: usize = from;
        assert(rest.skip(0) =~= rest);
        while to < n && raw.get_char(to) != ','
            invariant
                n == raw@.len(),
                from <= to <= n,
                rest == raw@.skip(from as int),
                comma(rest) == (to - from) + comma(rest.skip(to - from)),
            decreases n - to,
        {
            assert(rest.skip(to - from)[0] == raw@[to as int]);
            assert(rest.skip(to - from).skip(1) =~= rest.skip(to + 1 - from));
            to = to + 1;
        }
        proof {
            if to < n {
                assert(rest.skip(to - from)[0] == raw@[to as int]);
            }
            assert(comma(rest) == to - from);
        }
        let field = owned(strip(raw.substring_char(from, to)));
        let ghost before = texts(out@);
        assert(raw@.subrange(from as int, to as int) =~= rest.take(to - from));
        crate::text::push_text(&mut out, field);
        if to >= n {
            assert(rest.take(to - from) =~= rest);
            assert(texts(out@) =~= all);
            return out;
        }
        proof {
            let tail = fields(rest.skip(to - from + 1));
            assert(rest.skip(to - from + 1) =~= raw@.skip(to + 1));
            assert(texts(out@) + tail =~= before + (seq![stripped(rest.take(to - from))] + tail));
        }
        from = to + 1;
    }
}

} // verus!
