//! The alert cues: the notes of each, and the sound file they are played from.

use vstd::prelude::*;

use crate::alerts::EventSeverity;
use crate::text::same_text;

verus! {

/// Samples a second.
pub const CUE_RATE: u32 = 44_100;

/// Bytes before the samples.
pub const WAV_HEADER: usize = 44;

/// One note: pitch in hertz, length in thousandths of a second, and peak in
/// thousandths of full volume.
#[derive(Clone, Copy, PartialEq, Eq, Debug, Structural)]
pub struct Tone {
    pub hz: u32,
    pub millis: u32,
    pub gain: u32,
}

/// The notes of a cue: one light tick for news, a rise for a warning, and a
/// lower, louder fall for the worst.
pub open spec fn cue(severity: EventSeverity) -> Seq<Tone> {
    match severity {
        EventSeverity::Info => seq![Tone { hz: 784, millis: 100, gain: 220 }],
        EventSeverity::Warning => seq![
            Tone { hz: 587, millis: 85, gain: 340 },
            Tone { hz: 880, millis: 130, gain: 340 },
        ],
        EventSeverity::Critical => seq![
            Tone { hz: 392, millis: 100, gain: 460 },
            Tone { hz: 294, millis: 180, gain: 460 },
        ],
    }
}

/// The notes of a cue.
pub fn cue_tones(severity: EventSeverity) -> (r: Vec<Tone>)
    ensures
        r@ == cue(severity),
{
    let mut r: Vec<Tone> = Vec::new();
    match severity {
        EventSeverity::Info => {
            r.push(Tone { hz: 784, millis: 100, gain: 220 });
        },
        EventSeverity::Warning => {
            r.push(Tone { hz: 587, millis: 85, gain: 340 });
            r.push(Tone { hz: 880, millis: 130, gain: 340 });
        },
        EventSeverity::Critical => {
            r.push(Tone { hz: 392, millis: 100, gain: 460 });
            r.push(Tone { hz: 294, millis: 180, gain: 460 });
        },
    }
    assert(r@ =~= cue(severity));
    r
}

/// How many samples a note has.
pub fn tone_samples(tone: &Tone) -> (r: u64)
    ensures
        r == tone.millis * CUE_RATE / 1_000,
{
    tone.millis as u64 * CUE_RATE as u64 / 1_000
}

/// A number in two bytes, the low one first.
pub open spec fn le16(v: int) -> Seq<u8> {
    seq![(v % 256) as u8, (v / 256 % 256) as u8]
}

/// A number in four bytes, the lowest first.
pub open spec fn le32(v: int) -> Seq<u8> {
    seq![
        (v % 256) as u8,
        (v / 256 % 256) as u8,
        (v / 65_536 % 256) as u8,
        (v / 16_777_216 % 256) as u8,
    ]
}

/// A signed sample as the number its bytes hold.
pub open spec fn sample_bits(s: i16) -> int {
    if s < 0 {
        s + 65_536
    } else {
        s as int
    }
}

/// The samples, each in two bytes.
pub open spec fn sample_bytes(samples: Seq<i16>) -> Seq<u8>
    decreases samples.len(),
{
    if samples.len() == 0 {
        Seq::empty()
    } else {
        sample_bytes(samples.drop_last()) + le16(sample_bits(samples.last()))
    }
}

/// The header of a file of so many samples: sixteen bits each, one channel.
pub open spec fn wav_header(samples: int) -> Seq<u8> {
    let data = samples * 2;
    // "RIFF", the rest of the file, "WAVE"
    seq![82u8, 73u8, 70u8, 70u8] + le32(36 + data) + seq![87u8, 65u8, 86u8, 69u8]
    // "fmt ", its length, plain samples, one channel
     + seq![102u8, 109u8, 116u8, 32u8] + le32(16) + le16(1) + le16(1)
    // rate, bytes a second, bytes a sample, bits a sample
     + le32(CUE_RATE as int) + le32(CUE_RATE * 2) + le16(2) + le16(16)
    // "data" and how much of it
     + seq![100u8, 97u8, 116u8, 97u8] + le32(data)
}

/// A sound file.
pub open spec fn wav_file(samples: Seq<i16>) -> Seq<u8> {
    wav_header(samples.len() as int) + sample_bytes(samples)
}

fn push16(out: &mut Vec<u8>, v: u32)
    requires
        v < 65_536,
    ensures
        final(out)@ == old(out)@ + le16(v as int),
{
    out.push((v % 256) as u8);
    out.push((v / 256 % 256) as u8);
    assert(out@ =~= old(out)@ + le16(v as int));
}

fn push32(out: &mut Vec<u8>, v: u32)
    ensures
        final(out)@ == old(out)@ + le32(v as int),
{
    out.push((v % 256) as u8);
    out.push((v / 256 % 256) as u8);
    out.push((v / 65_536 % 256) as u8);
    out.push((v / 16_777_216 % 256) as u8);
    assert(out@ =~= old(out)@ + le32(v as int));
}

fn push_tag(out: &mut Vec<u8>, a: u8, b: u8, c: u8, d: u8)
    ensures
        final(out)@ == old(out)@ + seq![a, b, c, d],
{
    out.push(a);
    out.push(b);
    out.push(c);
    out.push(d);
    assert(out@ =~= old(out)@ + seq![a, b, c, d]);
}

/// Frames samples as a sound file: a header and the samples behind it.
pub fn frame_wav(samples: &Vec<i16>) -> (r: Vec<u8>)
    requires
        samples@.len() <= 1_000_000_000,
    ensures
        r@ == wav_file(samples@),
{
    let data: u32 = samples.len() as u32 * 2;
    let mut out: Vec<u8> = Vec::new();
    push_tag(&mut out, 82, 73, 70, 70);
    push32(&mut out, 36 + data);
    push_tag(&mut out, 87, 65, 86, 69);
    push_tag(&mut out, 102, 109, 116, 32);
    push32(&mut out, 16);
    push16(&mut out, 1);
    push16(&mut out, 1);
    push32(&mut out, CUE_RATE);
    push32(&mut out, CUE_RATE * 2);
    push16(&mut out, 2);
    push16(&mut out, 16);
    push_tag(&mut out, 100, 97, 116, 97);
    push32(&mut out, data);
    assert(out@ =~= wav_header(samples@.len() as int));
    let ghost head = out@;
    let mut i: usize = 0;
    assert(out@ =~= head + sample_bytes(samples@.take(0)));
    while i < samples.len()
        invariant
            i <= samples.len(),
            out@ == head + sample_bytes(samples@.take(i as int)),
        decreases samples.len() - i,
    {
        let s: i16 = samples[i];
        let bits: u32 = if s < 0 {
            (s as i32 + 65_536) as u32
        } else {
            s as u32
        };
        assert(samples@.take(i + 1).drop_last() =~= samples@.take(i as int));
        let ghost before = sample_bytes(samples@.take(i as int));
        push16(&mut out, bits);
        assert(out@ =~= head + (before + le16(sample_bits(s))));
        i = i + 1;
    }
    assert(samples@.take(i as int) =~= samples@);
    out
}

proof fn sample_bytes_len(samples: Seq<i16>)
    ensures
        sample_bytes(samples).len() == 2 * samples.len(),
    decreases samples.len(),
{
    if samples.len() > 0 {
        sample_bytes_len(samples.drop_last());
    }
}

/// What four bytes from `at` on say.
pub open spec fn read32(b: Seq<u8>, at: int) -> int {
    b[at] + 256 * b[at + 1] + 65_536 * b[at + 2] + 16_777_216 * b[at + 3]
}

/// The two lengths in the header describe the file that follows them.
pub proof fn the_header_tells_the_truth(samples: Seq<i16>)
    requires
        samples.len() <= 1_000_000_000,
    ensures
        wav_file(samples).len() == WAV_HEADER + 2 * samples.len(),
        read32(wav_file(samples), 40) == wav_file(samples).len() - WAV_HEADER,
        read32(wav_file(samples), 4) == wav_file(samples).len() - 8,
{
    sample_bytes_len(samples);
    let data = 2 * samples.len() as int;
    let f = wav_file(samples);
    read_back(data);
    read_back(36 + data);
    let head = wav_header(samples.len() as int);
    assert(head.len() == 44);
    assert(head.subrange(40, 44) =~= le32(data));
    assert(head.subrange(4, 8) =~= le32(36 + data));
    assert forall|i: int| 40 <= i < 44 implies f[i] == le32(data)[i - 40] by {
        assert(f[i] == head[i]);
        assert(head.subrange(40, 44)[i - 40] == head[i]);
    }
    assert forall|i: int| 4 <= i < 8 implies f[i] == le32(36 + data)[i - 4] by {
        assert(f[i] == head[i]);
        assert(head.subrange(4, 8)[i - 4] == head[i]);
    }
}

proof fn read_back(v: int)
    requires
        0 <= v < 0x1_0000_0000,
    ensures
        read32(le32(v), 0) == v,
{
    let a = v % 256;
    let b = v / 256 % 256;
    let c = v / 65_536 % 256;
    let d = v / 16_777_216 % 256;
    assert(a + 256 * b + 65_536 * c + 16_777_216 * d == v);
}

/// Whether the cues are silenced: the setting is there, is not empty, and is
/// not a nought.
pub open spec fn silenced(raw: Option<Seq<char>>) -> bool {
    match raw {
        Some(v) => v.len() > 0 && crate::shots::stripped(v) != "0"@,
        None => false,
    }
}

/// Whether the cues are silenced.
pub fn muted(raw: Option<&str>) -> (r: bool)
    ensures
        r == silenced(
            match raw {
                Some(v) => Some(v@),
                None => None,
            },
        ),
{
    match raw {
        Some(v) => {
            let s = crate::shots::strip(v);
            v.unicode_len() > 0 && !same_text(s, "0")
        },
        None => false,
    }
}

} // verus!
