//! What sounds, screenshots and the doctrine line come to: the bytes of a file,
//! when a shot is due, how a setting is read, and what a selection is said to
//! carry.

use vstd::prelude::*;

use crate::alerts::{EventSeverity, Rgb};
use crate::cues::{cue, sample_bytes, silenced, wav_file, wav_header};
use crate::doctrine::{DoctrineState, DoctrineTemplate, PrioPreset, TemplateView};
use crate::lists::{ordered_places, picked, picked_holds};
use crate::minimap::shifted;
use crate::palette::{touched, Touch};
use crate::shots::{
    comma, dir_of, due, fields, lead, moment, schedule, shot_seconds, stripped, tail, white,
};
use crate::spawn::{born_autocast, root_scale};

verus! {

// ---------------------------------------------------------------------------
// Sounds
// ---------------------------------------------------------------------------

proof fn samples_take_two_bytes(samples: Seq<i16>, i: int)
    requires
        0 <= i < samples.len(),
    ensures
        sample_bytes(samples).len() == 2 * samples.len(),
        ({
            let n = sample_bytes(samples)[2 * i] + 256 * sample_bytes(samples)[2 * i + 1];
            n == samples[i] || n == samples[i] + 65_536
        }),
        0 <= samples[i] ==> sample_bytes(samples)[2 * i + 1] < 128,
        samples[i] < 0 ==> sample_bytes(samples)[2 * i + 1] >= 128,
    decreases samples.len(),
{
    let front = samples.drop_last();
    let before = sample_bytes(front);
    if i < front.len() {
        samples_take_two_bytes(front, i);
        assert(front[i] == samples[i]);
        assert(sample_bytes(samples)[2 * i] == before[2 * i]);
        assert(sample_bytes(samples)[2 * i + 1] == before[2 * i + 1]);
    } else {
        if front.len() > 0 {
            samples_take_two_bytes(front, 0);
        } else {
            assert(before.len() == 0);
        }
        assert(before.len() == 2 * i);
    }
}

/// Every sample stands in the file behind the header, two bytes each, the low
/// one first, and reads back as the number it was.
pub proof fn samples_read_back(samples: Seq<i16>, i: int)
    requires
        0 <= i < samples.len(),
    ensures
        ({
            let file = wav_file(samples);
            let low = file[44 + 2 * i];
            let high = file[45 + 2 * i];
            samples[i] == low + 256 * high - (if high >= 128 {
                65_536int
            } else {
                0
            })
        }),
{
    samples_take_two_bytes(samples, i);
    assert(wav_header(samples.len() as int).len() == 44);
}

/// The header says what the samples are: plain numbers of sixteen bits, one
/// channel, forty-four thousand one hundred a second.
pub proof fn headers_say_what_follows(samples: Seq<i16>)
    ensures
        ({
            let file = wav_file(samples);
            &&& file.len() >= 44
            &&& file.take(4) == seq![0x52u8, 0x49u8, 0x46u8, 0x46u8]
            &&& file.subrange(8, 16) == seq![
                0x57u8,
                0x41u8,
                0x56u8,
                0x45u8,
                0x66u8,
                0x6du8,
                0x74u8,
                0x20u8,
            ]
            &&& file.subrange(36, 40) == seq![0x64u8, 0x61u8, 0x74u8, 0x61u8]
            &&& file[16] + 256 * file[17] + 65_536 * file[18] + 16_777_216 * file[19] == 16
            &&& file[20] + 256 * file[21] == 1
            &&& file[22] + 256 * file[23] == 1
            &&& file[24] + 256 * file[25] + 65_536 * file[26] + 16_777_216 * file[27] == 44_100
            &&& file[28] + 256 * file[29] + 65_536 * file[30] + 16_777_216 * file[31] == 88_200
            &&& file[32] + 256 * file[33] == 2
            &&& file[34] + 256 * file[35] == 16
        }),
{
    let file = wav_file(samples);
    assert(wav_header(samples.len() as int).len() == 44);
    assert(file.take(4) =~= seq![0x52u8, 0x49u8, 0x46u8, 0x46u8]);
    assert(file.subrange(8, 16) =~= seq![
        0x57u8,
        0x41u8,
        0x56u8,
        0x45u8,
        0x66u8,
        0x6du8,
        0x74u8,
        0x20u8,
    ]);
    assert(file.subrange(36, 40) =~= seq![0x64u8, 0x61u8, 0x74u8, 0x61u8]);
}

/// News is one note; a warning rises; the worst falls, lower than either, and
/// each is louder than the one before.
pub proof fn worse_news_sounds_worse()
    ensures
        ({
            let (a, b, c) = (
                cue(EventSeverity::Info),
                cue(EventSeverity::Warning),
                cue(EventSeverity::Critical),
            );
            &&& a.len() == 1 && b.len() == 2 && c.len() == 2
            &&& b[0].hz < b[1].hz
            &&& c[0].hz > c[1].hz
            &&& c[0].hz < a[0].hz && c[0].hz < b[0].hz
            &&& a[0].gain < b[0].gain && b[0].gain < c[0].gain
            &&& b[0].gain == b[1].gain && c[0].gain == c[1].gain
        }),
{
}

// ---------------------------------------------------------------------------
// Settings
// ---------------------------------------------------------------------------

proof fn leading_space_is_space(s: Seq<char>)
    ensures
        0 <= lead(s) <= s.len(),
        forall|i: int| 0 <= i < lead(s) ==> white(#[trigger] s[i]),
        lead(s) < s.len() ==> !white(s[lead(s)]),
    decreases s.len(),
{
    if s.len() > 0 && white(s[0]) {
        let rest = s.skip(1);
        leading_space_is_space(rest);
        assert forall|i: int| 0 <= i < lead(s) implies white(#[trigger] s[i]) by {
            if i > 0 {
                assert(rest[i - 1] == s[i]);
            }
        }
        if lead(s) < s.len() {
            assert(rest[lead(rest)] == s[lead(s)]);
        }
    }
}

proof fn trailing_space_is_space(s: Seq<char>)
    ensures
        0 <= tail(s) <= s.len(),
        forall|i: int| tail(s) <= i < s.len() ==> white(#[trigger] s[i]),
        tail(s) > 0 ==> !white(s[tail(s) - 1]),
    decreases s.len(),
{
    if s.len() > 0 && white(s.last()) {
        let front = s.drop_last();
        trailing_space_is_space(front);
        assert forall|i: int| tail(s) <= i < s.len() implies white(#[trigger] s[i]) by {
            if i < front.len() {
                assert(front[i] == s[i]);
            }
        }
        if tail(s) > 0 {
            assert(front[tail(s) - 1] == s[tail(s) - 1]);
        }
    }
}

/// Stripping a text takes white space from its two ends and nothing else, and
/// all of it.
pub proof fn stripping_takes_only_space(s: Seq<char>) -> (r: (Seq<char>, Seq<char>))
    ensures
        s == r.0 + stripped(s) + r.1,
        forall|i: int| 0 <= i < r.0.len() ==> white(#[trigger] r.0[i]),
        forall|i: int| 0 <= i < r.1.len() ==> white(#[trigger] r.1[i]),
        stripped(s).len() > 0 ==> !white(stripped(s)[0]) && !white(stripped(s).last()),
{
    leading_space_is_space(s);
    trailing_space_is_space(s);
    let from = lead(s);
    let to = tail(s);
    if to <= from {
        assert(s =~= s + Seq::empty() + Seq::empty());
        assert forall|i: int| 0 <= i < s.len() implies white(#[trigger] s[i]) by {}
        (s, Seq::empty())
    } else {
        let a = s.take(from);
        let b = s.skip(to);
        assert(s =~= a + stripped(s) + b);
        assert forall|i: int| 0 <= i < b.len() implies white(#[trigger] b[i]) by {
            assert(b[i] == s[to + i]);
        }
        (a, b)
    }
}

/// Blanks, tabs and line ends are white space; letters, digits and marks are
/// not.
pub proof fn white_space_is_blank(c: char)
    ensures
        c == ' ' || c == '\t' || c == '\n' || c == '\r' ==> white(c),
        0x21 <= c as u32 <= 0x7e ==> !white(c),
{
}

/// Shots go to the directory named, without the blanks round it, and to the
/// usual one where none is named or it is blank.
pub proof fn shots_go_where_they_are_sent(raw: Option<Seq<char>>)
    ensures
        raw is Some && stripped(raw->0).len() > 0 ==> dir_of(raw) == stripped(raw->0),
        raw is None || stripped(raw->0).len() == 0 ==> dir_of(raw) == "shots"@,
{
}

/// The cues are silent for any setting but an empty one and a nought.
pub proof fn cues_are_silenced_by_a_setting(raw: Option<Seq<char>>)
    ensures
        silenced(raw) <==> raw is Some && raw->0.len() > 0 && stripped(raw->0) != seq!['0'],
{
    reveal_strlit("0");
    assert("0"@ =~= seq!['0']);
}

proof fn commas_are_first(s: Seq<char>)
    ensures
        0 <= comma(s) <= s.len(),
        forall|i: int| 0 <= i < comma(s) ==> #[trigger] s[i] != ',',
        comma(s) < s.len() ==> s[comma(s)] == ',',
    decreases s.len(),
{
    if s.len() > 0 && s[0] != ',' {
        let rest = s.skip(1);
        commas_are_first(rest);
        assert forall|i: int| 0 <= i < comma(s) implies #[trigger] s[i] != ',' by {
            if i > 0 {
                assert(rest[i - 1] == s[i]);
            }
        }
        if comma(s) < s.len() {
            assert(rest[comma(rest)] == s[comma(s)]);
        }
    }
}

/// A list is read field by field: what stands before a comma, without the blanks
/// round it, and then the rest; without a comma it is one field.
pub proof fn lists_split_at_commas(field: Seq<char>, rest: Seq<char>)
    requires
        forall|i: int| 0 <= i < field.len() ==> #[trigger] field[i] != ',',
    ensures
        fields(field) == seq![stripped(field)],
        fields(field + seq![','] + rest) == seq![stripped(field)] + fields(rest),
{
    commas_are_first(field);
    if comma(field) < field.len() {
        assert(field[comma(field)] != ',');
    }
    let all = field + seq![','] + rest;
    commas_are_first(all);
    let n = field.len() as int;
    assert(all[n] == ',');
    if comma(all) < n {
        assert(all[comma(all)] == field[comma(all)]);
    }
    assert(comma(all) == n);
    assert(all.take(n) =~= field);
    assert(all.skip(n + 1) =~= rest);
}

// ---------------------------------------------------------------------------
// Shots
// ---------------------------------------------------------------------------

/// A shot's name counts the whole seconds that have passed, and none before the
/// match.
pub proof fn shots_count_whole_seconds(millis: int)
    requires
        millis < 1_000 * 0x1_0000_0000,
    ensures
        millis >= 0 ==> 1_000 * shot_seconds(millis) <= millis < 1_000 * shot_seconds(millis) + 1_000,
        millis < 0 ==> shot_seconds(millis) == 0,
{
}

/// The schedule holds every moment that could be read and is not negative, in
/// order of time.
pub proof fn schedules_run_forward(read: Seq<Option<i64>>, v: i64)
    ensures
        schedule(read).contains(v) <==> v >= 0 && read.contains(Some(v)),
        forall|i: int, j: int|
            0 <= i <= j < schedule(read).len() ==> (#[trigger] schedule(read)[i]) <= (
            #[trigger] schedule(read)[j]),
{
    let f = moment();
    let list = picked(read, f);
    let at = ordered_places(list);
    let s = schedule(read);
    assert forall|k: int| 0 <= k < list.len() implies (#[trigger] list[k]).0 == list[k].1 by {
        picked_holds(read, f, list[k]);
        assert(list.contains(list[k]));
    }
    assert forall|k: int| 0 <= k < s.len() implies s[k] == list[#[trigger] at[k]].1 by {}
    assert forall|i: int, j: int| 0 <= i <= j < s.len() implies (#[trigger] s[i]) <= (
    #[trigger] s[j]) by {
        if i < j {
            assert(list[at[i]].0 <= list[at[j]].0);
        }
    }
    picked_holds(read, f, (v, v));
    if s.contains(v) {
        let k = choose|k: int| 0 <= k < s.len() && s[k] == v;
        assert(list[at[k]] == (v, v));
        assert(list.contains(list[at[k]]));
        let i = choose|i: int| 0 <= i < read.len() && f(#[trigger] read[i]) == Some((v, v));
        assert(read[i] == Some(v));
    }
    if v >= 0 && read.contains(Some(v)) {
        let i = choose|i: int| 0 <= i < read.len() && read[i] == Some(v);
        assert(f(read[i]) == Some((v, v)));
        assert(list.contains((v, v)));
        let j = choose|j: int| 0 <= j < list.len() && list[j] == (v, v);
        assert(at.contains(j));
        let k = choose|k: int| 0 <= k < at.len() && at[k] == j;
        assert(s[k] == v);
    }
}

/// The shots due are those of the queue whose moments have come, from the ones
/// already taken up to the first that has not.
pub proof fn shots_are_taken_as_they_come(queue: Seq<i64>, now: int, taken: int)
    requires
        0 <= taken <= queue.len(),
    ensures
        taken <= due(queue, now, taken) <= queue.len(),
        forall|i: int| taken <= i < due(queue, now, taken) ==> (#[trigger] queue[i]) <= now,
        due(queue, now, taken) < queue.len() ==> queue[due(queue, now, taken)] > now,
    decreases queue.len() - taken,
{
    if taken < queue.len() && queue[taken] <= now {
        shots_are_taken_as_they_come(queue, now, taken + 1);
    }
}

// ---------------------------------------------------------------------------
// Colours and sizes
// ---------------------------------------------------------------------------

/// A colour is lighter under the mouse and lighter still when pressed, by the
/// same amount in each channel, and no channel leaves its range.
pub proof fn touching_lightens(base: Rgb, over: int, down: int)
    requires
        0 <= over <= down <= 1_000,
        base.r <= 1_000,
        base.g <= 1_000,
        base.b <= 1_000,
    ensures
        touched(base, Touch::Away, over, down) == base,
        base.r + over <= 1_000 ==> touched(base, Touch::Over, over, down).r == base.r + over,
        base.g + over <= 1_000 ==> touched(base, Touch::Over, over, down).g == base.g + over,
        base.b + over <= 1_000 ==> touched(base, Touch::Over, over, down).b == base.b + over,
        base.r + down <= 1_000 ==> touched(base, Touch::Down, over, down).r == base.r + down,
        base.g + down <= 1_000 ==> touched(base, Touch::Down, over, down).g == base.g + down,
        base.b + down <= 1_000 ==> touched(base, Touch::Down, over, down).b == base.b + down,
        base.r + down > 1_000 ==> touched(base, Touch::Down, over, down).r == 1_000,
        base.g + down > 1_000 ==> touched(base, Touch::Down, over, down).g == 1_000,
        base.b + down > 1_000 ==> touched(base, Touch::Down, over, down).b == 1_000,
{
}

/// Making lighter adds, making darker takes away, and neither leaves the range.
pub proof fn shifting_stays_in_range(v: int, amount: int)
    ensures
        0 <= v + amount <= 1_000 ==> shifted(v, amount) == v + amount,
        v + amount < 0 ==> shifted(v, amount) == 0,
        v + amount > 1_000 ==> shifted(v, amount) == 1_000,
{
}

/// A hero is drawn fifteen hundredths larger than anybody else.
pub proof fn heroes_are_drawn_larger(unit_scale: int)
    requires
        0 <= unit_scale,
    ensures
        root_scale(false, unit_scale) == unit_scale,
        100 * root_scale(true, unit_scale) <= 115 * unit_scale < 100 * root_scale(true, unit_scale)
            + 100,
{
}

/// A recruit casts by itself as its building says, where it can cast and the
/// building says anything, its first ability; else as its kind does.
pub proof fn recruits_cast_as_they_are_told(
    template: Option<DoctrineTemplate>,
    has_abilities: bool,
    by_default: Option<(usize, u32)>,
)
    ensures
        ({
            let told = template is Some && template->0.autocast is Some && has_abilities;
            born_autocast(template, has_abilities, by_default) == (if told {
                Some((0usize, template->0.autocast->0))
            } else {
                by_default
            })
        }),
{
}

// ---------------------------------------------------------------------------
// The doctrine line
// ---------------------------------------------------------------------------

/// The line of a selection says something exactly where the selection is in a
/// squad or anybody in it has a policy.
pub proof fn policies_are_told_where_there_are_any(d: &DoctrineState, posture: Option<Seq<char>>)
    ensures
        d.reads(posture).len() == 0 <==> d.squad is None && d.leashed == 0 && d.fallback == 0
            && d.prio == PrioPreset::Off && d.autocast == 0,
        d.pieces(posture).len() == (if d.squad is Some {
            if posture is Some {
                2int
            } else {
                1
            }
        } else {
            0
        }) + (if d.leashed > 0 {
            1int
        } else {
            0
        }) + (if d.fallback > 0 {
            1int
        } else {
            0
        }) + (if d.prio != PrioPreset::Off {
            1int
        } else {
            0
        }) + (if d.autocast > 0 {
            1int
        } else {
            0
        }),
{
    reveal_strlit("Doctrine: ");
}

/// The line of a building says something exactly where the building stamps
/// something on what it trains.
pub proof fn templates_are_told_where_there_are_any(t: TemplateView)
    ensures
        t.reads().len() == 0 <==> !t.capable || (t.squad is None && t.retreat is None && t.prio
            == PrioPreset::Off && !t.autocast),
{
    reveal_strlit("Trains with: ");
}

} // verus!
