//! Standing policy: focus-fire presets, leashes, retreat thresholds, squads and
//! postures, as the player sets them and as the card reads them back.
//!
//! Fractions are thousandths of one, radii thousandths of a world unit.

use vstd::prelude::*;
use vstd::string::*;

use crate::catalog::{TargetClass, UnitKind};
use crate::lists::{
    count, count_step, first_some, first_some_step, in_order, only_if, order_by_key, values,
};
use crate::map::Pos;
use crate::text::{
    dec, digit, fixed0, fixed1, join, joined, magnitude, owned, push_dec, push_fixed0,
    push_fixed1, round_even, sign, texts,
};

verus! {

/// Leash radius written by the quick Guard toggle.
pub const GUARD_RADIUS: i64 = 18_000;

/// Health fraction at which the quick Fallback toggle breaks a unit off.
pub const FALLBACK_FRAC: i64 = 350;

/// Enemies inside a caster's ability radius before auto-cast fires.
pub const AUTOCAST_MIN_ENEMIES: u32 = 3;

/// Ability slots the doctrine card offers an auto-cast toggle for.
pub const MAX_AUTOCAST_SLOTS: usize = 3;

pub const FALLBACK_NUDGE: i64 = 50;

/// Lowest threshold worth expressing; nudging below it turns the policy off.
pub const FALLBACK_MIN: i64 = 50;

/// A unit that retreats above this is retreating at full health.
pub const FALLBACK_MAX: i64 = 950;

pub const LEASH_NUDGE: i64 = 2_000;

pub const LEASH_MIN: i64 = 2_000;

/// A leash wider than this is not a leash.
pub const LEASH_MAX: i64 = 60_000;

/// Radius written by the Defend posture.
pub const DEFEND_RADIUS: i64 = 22_000;

/// Radius of the posture the home guard falls back to: a base rather than a
/// chokepoint.
pub const HOME_GUARD_RADIUS: i64 = 26_000;

/// Seconds between home-guard fires, in thousandths.
pub const HOME_GUARD_COOLDOWN: i64 = 30_000;

/// Highest squad id a gesture mints; it matches the control groups.
pub const MAX_UI_SQUAD: u8 = 3;

/// The retreat thresholds that the fall-back key steps through.
pub open spec fn fallback_ladder() -> Seq<i64> {
    seq![250i64, 350i64, 500i64]
}

/// The leash radii that the guard key steps through.
pub open spec fn leash_ladder() -> Seq<i64> {
    seq![10_000i64, 18_000i64, 30_000i64]
}

/// The retreat thresholds that the fall-back key steps through.
pub fn fallback_steps() -> (r: Vec<i64>)
    ensures
        r@ == fallback_ladder(),
{
    let mut r: Vec<i64> = Vec::new();
    r.push(250);
    r.push(350);
    r.push(500);
    assert(r@ =~= fallback_ladder());
    r
}

/// The leash radii that the guard key steps through.
pub fn leash_steps() -> (r: Vec<i64>)
    ensures
        r@ == leash_ladder(),
{
    let mut r: Vec<i64> = Vec::new();
    r.push(10_000);
    r.push(18_000);
    r.push(30_000);
    assert(r@ =~= leash_ladder());
    r
}

/// One increment up or down from `current`. "Off" starts at `start`, a value
/// below `lo` is off, and one above `hi` is `hi`.
pub open spec fn nudged(
    current: Option<i64>,
    up: bool,
    step: int,
    start: i64,
    lo: int,
    hi: int,
) -> Option<i64> {
    match current {
        None => Some(start),
        Some(v) => {
            let next = if up {
                v + step
            } else {
                v - step
            };
            if next < lo {
                None
            } else if next > hi {
                Some(hi as i64)
            } else {
                Some(next as i64)
            }
        },
    }
}

/// Moves `current` one increment and clamps it, or turns the policy off.
pub fn nudge_value(
    current: Option<i64>,
    up: bool,
    step: i64,
    start: i64,
    lo: i64,
    hi: i64,
) -> (r: Option<i64>)
    ensures
        r == nudged(current, up, step as int, start, lo as int, hi as int),
{
    match current {
        None => Some(start),
        Some(v) => {
            let next: i128 = if up {
                v as i128 + step as i128
            } else {
                v as i128 - step as i128
            };
            if next < lo as i128 {
                None
            } else if next > hi as i128 {
                Some(hi)
            } else {
                Some(next as i64)
            }
        },
    }
}

/// A nudge lands inside the range or turns the policy off, whatever it started
/// from, as long as its own starting value is in the range.
pub proof fn nudge_stays_in_range(
    current: Option<i64>,
    up: bool,
    step: int,
    start: i64,
    lo: int,
    hi: int,
)
    requires
        lo <= start <= hi,
        hi <= i64::MAX,
        i64::MIN <= lo,
    ensures
        match nudged(current, up, step, start, lo, hi) {
            Some(v) => lo <= v <= hi,
            None => true,
        },
{
}

/// A nudge up and a nudge down undo each other inside the range.
pub proof fn nudges_undo(v: i64, step: int, start: i64, lo: int, hi: int)
    requires
        0 <= step,
        i64::MIN <= lo <= v,
        v + step <= hi <= i64::MAX,
    ensures
        nudged(nudged(Some(v), true, step, start, lo, hi), false, step, start, lo, hi) == Some(v),
{
}

/// Bottom of the ladder: `None` once the current value is on or above the last
/// rung, else the lowest rung clearly above it.
pub open spec fn above(current: i64) -> spec_fn(i64) -> Option<i64> {
    |s: i64|
        if s > current + 1 {
            Some(s)
        } else {
            None
        }
}

/// One step up the ladder; "off" steps onto the first rung and the last rung
/// steps off.
pub open spec fn stepped(current: Option<i64>, steps: Seq<i64>) -> Option<i64> {
    match current {
        None => if steps.len() > 0 {
            Some(steps[0])
        } else {
            None
        },
        Some(v) => first_some(steps, above(v)),
    }
}

/// Steps a value through `steps` and back to "off". A value between two rungs
/// steps onto the next rung above it.
pub fn cycle_step(current: Option<i64>, steps: &Vec<i64>) -> (r: Option<i64>)
    ensures
        r == stepped(current, steps@),
{
    match current {
        None => {
            if steps.len() > 0 {
                Some(steps[0])
            } else {
                None
            }
        },
        Some(v) => {
            let mut i: usize = 0;
            while i < steps.len()
                invariant
                    current == Some(v),
                    i <= steps.len(),
                    first_some(steps@.take(i as int), above(v)) is None,
                decreases steps.len() - i,
            {
                proof {
                    first_some_step(steps@, i as int, above(v));
                }
                if steps[i] as i128 > v as i128 + 1 {
                    let found: i64 = steps[i];
                    proof {
                        crate::lists::first_stays(steps@, i + 1, above(v));
                    }
                    return Some(found);
                }
                i = i + 1;
            }
            assert(steps@.take(i as int) =~= steps@);
            None
        },
    }
}

/// The two ladders cycle: off, each rung in turn, off again.
pub proof fn ladders_cycle()
    ensures
        stepped(None, fallback_ladder()) == Some(250i64),
        stepped(Some(250), fallback_ladder()) == Some(350i64),
        stepped(Some(350), fallback_ladder()) == Some(500i64),
        stepped(Some(500), fallback_ladder()) == None::<i64>,
        stepped(None, leash_ladder()) == Some(10_000i64),
        stepped(Some(10_000), leash_ladder()) == Some(18_000i64),
        stepped(Some(18_000), leash_ladder()) == Some(30_000i64),
        stepped(Some(30_000), leash_ladder()) == None::<i64>,
{
    three_rungs(250, 350, 500, 250);
    three_rungs(250, 350, 500, 350);
    three_rungs(250, 350, 500, 500);
    three_rungs(10_000, 18_000, 30_000, 10_000);
    three_rungs(10_000, 18_000, 30_000, 18_000);
    three_rungs(10_000, 18_000, 30_000, 30_000);
}

/// On a ladder of three rungs more than a thousandth apart, every value steps
/// onto the lowest rung clearly above it.
pub proof fn three_rungs(a: i64, b: i64, c: i64, v: i64)
    requires
        a + 1 < b,
        b + 1 < c,
    ensures
        stepped(Some(v), seq![a, b, c]) == (if a > v + 1 {
            Some(a)
        } else if b > v + 1 {
            Some(b)
        } else if c > v + 1 {
            Some(c)
        } else {
            None
        }),
{
    let s = seq![a, b, c];
    first_some_step(s, 0, above(v));
    first_some_step(s, 1, above(v));
    first_some_step(s, 2, above(v));
    assert(s.take(3) =~= s);
    assert(s.take(0) =~= Seq::empty());
}

// ---------------------------------------------------------------------------
// Captions of the numbers
// ---------------------------------------------------------------------------

/// A number of thousandths as a caption shows it: whole when it is within a
/// twentieth of a whole number, else with one decimal.
pub open spec fn trimmed(milli: int) -> Seq<char> {
    let part = magnitude(milli) % 1000;
    if part < 50 || part > 950 {
        fixed0(milli)
    } else {
        fixed1(milli)
    }
}

/// Appends a number of thousandths as a caption shows it.
pub fn push_trimmed(out: &mut String, milli: i64)
    ensures
        final(out)@ == old(out)@ + trimmed(milli as int),
{
    let part: u64 = if milli < 0 {
        ((-(milli as i128)) % 1000) as u64
    } else {
        (milli as i128 % 1000) as u64
    };
    if part < 50 || part > 950 {
        push_fixed0(out, milli);
    } else {
        push_fixed1(out, milli);
    }
}

/// A doctrine number without rounding away what the unit really uses: whole
/// values lose the decimal point, others keep one digit.
pub fn trim_num(milli: i64) -> (r: String)
    ensures
        r@ == trimmed(milli as int),
{
    let mut out = String::new();
    push_trimmed(&mut out, milli);
    assert(out@ =~= trimmed(milli as int));
    out
}

/// A fraction as a whole percentage.
pub open spec fn percent(frac: int) -> Seq<char> {
    fixed0(frac * 100)
}

/// A fraction as a percentage, with a decimal where it has one.
pub open spec fn fine_percent(frac: int) -> Seq<char> {
    trimmed(frac * 100)
}

proof fn hundredfold(n: nat)
    ensures
        round_even(n * 100, 1000) == round_even(n, 10),
        round_even(n * 100, 100) == n,
        (n * 100) % 1000 == (n % 10) * 100,
{
    let q = n / 10;
    let r = n % 10;
    assert(n * 100 == q * 1000 + r * 100);
    assert((n * 100) / 1000 == q && (n * 100) % 1000 == r * 100) by (nonlinear_arith)
        requires
            n * 100 == q * 1000 + r * 100,
            0 <= r < 10,
    ;
}

/// Appends a fraction as a whole percentage.
pub fn push_percent(out: &mut String, frac: i64)
    ensures
        final(out)@ == old(out)@ + percent(frac as int),
{
    proof {
        hundredfold(magnitude(frac as int));
    }
    let mag: u64 = if frac < 0 {
        (-(frac as i128)) as u64
    } else {
        frac as u64
    };
    if frac < 0 {
        proof {
            reveal_strlit("-");
        }
        out.append("-");
    }
    let q: u64 = mag / 10;
    let r: u64 = mag % 10;
    let whole: u64 = if 2 * r < 10 {
        q
    } else if 2 * r > 10 {
        q + 1
    } else {
        q + q % 2
    };
    push_dec(out, whole);
    assert(out@ =~= old(out)@ + (sign(frac as int) + dec(round_even(magnitude(frac as int), 10))));
    assert(sign(frac * 100) == sign(frac as int));
}

/// Appends a fraction as a percentage, with a decimal where it has one.
pub fn push_fine_percent(out: &mut String, frac: i64)
    ensures
        final(out)@ == old(out)@ + fine_percent(frac as int),
{
    proof {
        hundredfold(magnitude(frac as int));
    }
    let mag: u64 = if frac < 0 {
        (-(frac as i128)) as u64
    } else {
        frac as u64
    };
    if mag % 10 == 0 {
        push_percent(out, frac);
    } else {
        if frac < 0 {
            proof {
                reveal_strlit("-");
            }
            out.append("-");
        }
        push_dec(out, mag / 10);
        proof {
            reveal_strlit(".");
        }
        out.append(".");
        push_dec(out, mag % 10);
        assert(dec((mag % 10) as nat) =~= seq![digit((mag % 10) as nat)]);
        assert(sign(frac * 100) == sign(frac as int));
        assert(out@ =~= old(out)@ + fine_percent(frac as int));
    }
}

// ---------------------------------------------------------------------------
// Focus-fire presets
// ---------------------------------------------------------------------------

/// The focus-fire presets one key walks.
#[derive(Clone, Copy, PartialEq, Eq, Debug, Structural)]
pub enum PrioPreset {
    Off,
    HuntHero,
    KillArchers,
    Siege,
    AntiAir,
}

impl PrioPreset {
    /// The preset one press on.
    pub open spec fn after(self) -> PrioPreset {
        match self {
            PrioPreset::Off => PrioPreset::HuntHero,
            PrioPreset::HuntHero => PrioPreset::KillArchers,
            PrioPreset::KillArchers => PrioPreset::Siege,
            PrioPreset::Siege => PrioPreset::AntiAir,
            PrioPreset::AntiAir => PrioPreset::Off,
        }
    }

    /// The preset one press on.
    pub fn next(self) -> (r: PrioPreset)
        ensures
            r == self.after(),
    {
        match self {
            PrioPreset::Off => PrioPreset::HuntHero,
            PrioPreset::HuntHero => PrioPreset::KillArchers,
            PrioPreset::KillArchers => PrioPreset::Siege,
            PrioPreset::Siege => PrioPreset::AntiAir,
            PrioPreset::AntiAir => PrioPreset::Off,
        }
    }

    pub open spec fn caption(self) -> Seq<char> {
        match self {
            PrioPreset::Off => "Priority"@,
            PrioPreset::HuntHero => "Hunt Hero"@,
            PrioPreset::KillArchers => "Kill Archers"@,
            PrioPreset::Siege => "Siege"@,
            PrioPreset::AntiAir => "Anti-Air"@,
        }
    }

    /// Button caption; the empty state just names the button.
    pub fn label(self) -> (r: &'static str)
        ensures
            r@ == self.caption(),
    {
        match self {
            PrioPreset::Off => "Priority",
            PrioPreset::HuntHero => "Hunt Hero",
            PrioPreset::KillArchers => "Kill Archers",
            PrioPreset::Siege => "Siege",
            PrioPreset::AntiAir => "Anti-Air",
        }
    }

    pub open spec fn short(self) -> Seq<char> {
        match self {
            PrioPreset::Off => ""@,
            PrioPreset::HuntHero => "HuntHero"@,
            PrioPreset::KillArchers => "KillArchers"@,
            PrioPreset::Siege => "Siege"@,
            PrioPreset::AntiAir => "AntiAir"@,
        }
    }

    /// Compact tag for the panel's doctrine line.
    pub fn tag(self) -> (r: &'static str)
        ensures
            r@ == self.short(),
    {
        match self {
            PrioPreset::Off => "",
            PrioPreset::HuntHero => "HuntHero",
            PrioPreset::KillArchers => "KillArchers",
            PrioPreset::Siege => "Siege",
            PrioPreset::AntiAir => "AntiAir",
        }
    }

    /// The classes the preset writes, most wanted first.
    pub open spec fn list(self) -> Seq<TargetClass> {
        match self {
            PrioPreset::Off => Seq::empty(),
            PrioPreset::HuntHero => seq![
                TargetClass::Hero,
                TargetClass::Archer,
                TargetClass::Footman,
                TargetClass::Worker,
                TargetClass::Building,
            ],
            PrioPreset::KillArchers => seq![
                TargetClass::Archer,
                TargetClass::Hero,
                TargetClass::Footman,
                TargetClass::Worker,
                TargetClass::Building,
            ],
            PrioPreset::Siege => seq![TargetClass::Building],
            PrioPreset::AntiAir => seq![
                TargetClass::Air,
                TargetClass::Archer,
                TargetClass::Hero,
                TargetClass::Footman,
                TargetClass::Worker,
            ],
        }
    }

    /// The classes the preset writes; an empty list clears the priority.
    pub fn classes(self) -> (r: Vec<TargetClass>)
        ensures
            r@ == self.list(),
    {
        let mut r: Vec<TargetClass> = Vec::new();
        match self {
            PrioPreset::Off => {},
            PrioPreset::HuntHero => {
                r.push(TargetClass::Hero);
                r.push(TargetClass::Archer);
                r.push(TargetClass::Footman);
                r.push(TargetClass::Worker);
                r.push(TargetClass::Building);
            },
            PrioPreset::KillArchers => {
                r.push(TargetClass::Archer);
                r.push(TargetClass::Hero);
                r.push(TargetClass::Footman);
                r.push(TargetClass::Worker);
                r.push(TargetClass::Building);
            },
            PrioPreset::Siege => {
                r.push(TargetClass::Building);
            },
            PrioPreset::AntiAir => {
                r.push(TargetClass::Air);
                r.push(TargetClass::Archer);
                r.push(TargetClass::Hero);
                r.push(TargetClass::Footman);
                r.push(TargetClass::Worker);
            },
        }
        assert(r@ =~= self.list());
        r
    }

    /// The preset a list of classes reads as, by its first class.
    pub open spec fn reading(first: Option<TargetClass>) -> PrioPreset {
        match first {
            Some(TargetClass::Hero) => PrioPreset::HuntHero,
            Some(TargetClass::Archer) => PrioPreset::KillArchers,
            Some(TargetClass::Building) => PrioPreset::Siege,
            Some(TargetClass::Air) => PrioPreset::AntiAir,
            _ => PrioPreset::Off,
        }
    }

    /// The preset a live priority reads as: its first class decides.
    pub fn of(first: Option<TargetClass>) -> (r: PrioPreset)
        ensures
            r == Self::reading(first),
    {
        match first {
            Some(TargetClass::Hero) => PrioPreset::HuntHero,
            Some(TargetClass::Archer) => PrioPreset::KillArchers,
            Some(TargetClass::Building) => PrioPreset::Siege,
            Some(TargetClass::Air) => PrioPreset::AntiAir,
            _ => PrioPreset::Off,
        }
    }
}

/// Five presses come back round, and no fewer do.
pub proof fn presets_cycle(p: PrioPreset)
    ensures
        p.after().after().after().after().after() == p,
        p.after() != p,
        p.after().after() != p,
        p.after().after().after() != p,
        p.after().after().after().after() != p,
{
}

/// What a preset writes reads back as that preset.
pub proof fn preset_reads_back(p: PrioPreset)
    ensures
        PrioPreset::reading(first_class(p.list())) == p,
{
}

/// The first class of a list.
pub open spec fn first_class(classes: Seq<TargetClass>) -> Option<TargetClass> {
    if classes.len() > 0 {
        Some(classes[0])
    } else {
        None
    }
}

/// What a live priority list reads as.
pub fn preset_of(classes: &Vec<TargetClass>) -> (r: PrioPreset)
    ensures
        r == PrioPreset::reading(first_class(classes@)),
{
    if classes.len() > 0 {
        PrioPreset::of(Some(classes[0]))
    } else {
        PrioPreset::of(None)
    }
}

/// The classes to write for a preset, or nothing where the preset clears.
pub fn priority_component(preset: PrioPreset) -> (r: Option<Vec<TargetClass>>)
    ensures
        match r {
            Some(v) => preset != PrioPreset::Off && v@ == preset.list(),
            None => preset == PrioPreset::Off,
        },
{
    match preset {
        PrioPreset::Off => None,
        _ => Some(preset.classes()),
    }
}

// ---------------------------------------------------------------------------
// What one unit carries
// ---------------------------------------------------------------------------

/// The standing policy of one selected unit.
#[derive(Clone, Copy, Debug)]
pub struct UnitDoctrine {
    /// Leash radius, when the unit is leashed.
    pub leash: Option<i64>,
    /// Retreat threshold, when the unit retreats.
    pub retreat: Option<i64>,
    pub prio: PrioPreset,
    pub autocast: bool,
    /// Which ability slots carry an auto-cast rule.
    pub autocast_slots: [bool; 3],
    /// The unit has an ability.
    pub caster: Option<UnitKind>,
    pub squad: Option<u8>,
}

/// Whether an auto-cast policy has a live rule for a slot: an absent rule and
/// one for zero enemies are both off.
pub open spec fn rule_live(policy: Option<[Option<u32>; 3]>, slot: int) -> bool {
    match policy {
        Some(rules) => match rules@[slot] {
            Some(n) => n > 0,
            None => false,
        },
        None => false,
    }
}

fn rule_on(policy: Option<[Option<u32>; 3]>, slot: usize) -> (r: bool)
    requires
        slot < 3,
    ensures
        r == rule_live(policy, slot as int),
{
    match policy {
        Some(rules) => match rules[slot] {
            Some(n) => n > 0,
            None => false,
        },
        None => false,
    }
}

impl UnitDoctrine {
    /// The policy of a unit, from what is set on it.
    pub open spec fn from(
        leash: Option<i64>,
        retreat: Option<i64>,
        first_target: Option<TargetClass>,
        autocast: Option<[Option<u32>; 3]>,
        kind: UnitKind,
        has_abilities: bool,
        squad: Option<u8>,
    ) -> UnitDoctrine {
        UnitDoctrine {
            leash,
            retreat,
            prio: PrioPreset::reading(first_target),
            autocast: autocast is Some,
            autocast_slots: [
                rule_live(autocast, 0),
                rule_live(autocast, 1),
                rule_live(autocast, 2),
            ],
            caster: if has_abilities {
                Some(kind)
            } else {
                None
            },
            squad,
        }
    }

    /// Reads the policy of a unit. Whether it casts at all is a fact about its
    /// kind.
    pub fn read(
        leash: Option<i64>,
        retreat: Option<i64>,
        first_target: Option<TargetClass>,
        autocast: Option<[Option<u32>; 3]>,
        kind: UnitKind,
        has_abilities: bool,
        squad: Option<u8>,
    ) -> (r: UnitDoctrine)
        ensures
            r == Self::from(leash, retreat, first_target, autocast, kind, has_abilities, squad),
    {
        UnitDoctrine {
            leash,
            retreat,
            prio: PrioPreset::of(first_target),
            autocast: autocast.is_some(),
            autocast_slots: [rule_on(autocast, 0), rule_on(autocast, 1), rule_on(autocast, 2)],
            caster: if has_abilities {
                Some(kind)
            } else {
                None
            },
            squad,
        }
    }
}

/// The policies of a selection in slot order, so that every reader agrees on
/// which unit is the first.
pub open spec fn by_slot(list: Seq<(i64, UnitDoctrine)>) -> Seq<UnitDoctrine> {
    values(in_order(list))
}

/// Puts a selection's policies in slot order.
pub fn sorted_doctrine(list: &Vec<(i64, UnitDoctrine)>) -> (r: Vec<UnitDoctrine>)
    ensures
        r@ == by_slot(list@),
{
    let sorted = order_by_key(list);
    let mut out: Vec<UnitDoctrine> = Vec::new();
    let mut i: usize = 0;
    while i < sorted.len()
        invariant
            i <= sorted.len(),
            out@ == values(sorted@).take(i as int),
        decreases sorted.len() - i,
    {
        out.push(sorted[i].1);
        i = i + 1;
        assert(out@ =~= values(sorted@).take(i as int));
    }
    assert(out@ =~= values(sorted@));
    out
}

// ---------------------------------------------------------------------------
// What a selection carries
// ---------------------------------------------------------------------------

/// The policy of a whole selection, tallied.
#[derive(Clone, Copy, Debug)]
pub struct DoctrineState {
    pub units: usize,
    /// Selected units that have an ability.
    pub casters: usize,
    pub leashed: usize,
    /// Radius of the first leashed unit.
    pub leash_radius: i64,
    pub fallback: usize,
    /// Threshold of the first unit that retreats.
    pub fallback_frac: i64,
    pub autocast: usize,
    /// Casters with a live auto-cast rule, per ability slot.
    pub autocast_slots: [usize; 3],
    /// Kind of the first caster, whose abilities name the toggles.
    pub caster: Option<UnitKind>,
    /// Preset of the first unit.
    pub prio: PrioPreset,
    /// Squad of the first unit, where it is in one.
    pub squad: Option<u8>,
    /// How many of the selection are in that squad.
    pub in_squad: usize,
}

pub open spec fn casts() -> spec_fn(UnitDoctrine) -> bool {
    |u: UnitDoctrine| u.caster is Some
}

pub open spec fn is_leashed() -> spec_fn(UnitDoctrine) -> bool {
    |u: UnitDoctrine| u.leash is Some
}

pub open spec fn retreats() -> spec_fn(UnitDoctrine) -> bool {
    |u: UnitDoctrine| u.retreat is Some
}

pub open spec fn autocasts() -> spec_fn(UnitDoctrine) -> bool {
    |u: UnitDoctrine| u.autocast
}

pub open spec fn slot_live(slot: int) -> spec_fn(UnitDoctrine) -> bool {
    |u: UnitDoctrine| u.caster is Some && u.autocast_slots@[slot]
}

pub open spec fn in_the_squad(squad: Option<u8>) -> spec_fn(UnitDoctrine) -> bool {
    |u: UnitDoctrine| u.squad is Some && u.squad == squad
}

pub open spec fn leash_of() -> spec_fn(UnitDoctrine) -> Option<i64> {
    |u: UnitDoctrine| u.leash
}

pub open spec fn retreat_of() -> spec_fn(UnitDoctrine) -> Option<i64> {
    |u: UnitDoctrine| u.retreat
}

pub open spec fn caster_of() -> spec_fn(UnitDoctrine) -> Option<UnitKind> {
    |u: UnitDoctrine| u.caster
}

pub open spec fn or_zero(v: Option<i64>) -> i64 {
    match v {
        Some(x) => x,
        None => 0,
    }
}

/// "All or most of them carry it".
pub open spec fn mostly(carriers: int, total: int) -> bool {
    carriers > 0 && carriers * 2 >= total
}

/// The squad of the first unit, if that unit is in one.
pub open spec fn lead_squad(sorted: Seq<UnitDoctrine>) -> Option<u8> {
    if sorted.len() > 0 {
        sorted[0].squad
    } else {
        None
    }
}

fn first_squad(sorted: &Vec<UnitDoctrine>) -> (r: Option<u8>)
    ensures
        r == lead_squad(sorted@),
{
    if sorted.len() > 0 {
        sorted[0].squad
    } else {
        None
    }
}

impl DoctrineState {
    /// The tally of a selection in slot order.
    pub open spec fn tally(sorted: Seq<UnitDoctrine>) -> DoctrineState {
        DoctrineState {
            units: sorted.len() as usize,
            casters: count(sorted, casts()) as usize,
            leashed: count(sorted, is_leashed()) as usize,
            leash_radius: or_zero(first_some(sorted, leash_of())),
            fallback: count(sorted, retreats()) as usize,
            fallback_frac: or_zero(first_some(sorted, retreat_of())),
            autocast: count(sorted, autocasts()) as usize,
            autocast_slots: [
                count(sorted, slot_live(0)) as usize,
                count(sorted, slot_live(1)) as usize,
                count(sorted, slot_live(2)) as usize,
            ],
            caster: first_some(sorted, caster_of()),
            prio: if sorted.len() > 0 {
                sorted[0].prio
            } else {
                PrioPreset::Off
            },
            squad: lead_squad(sorted),
            in_squad: count(sorted, in_the_squad(lead_squad(sorted))) as usize,
        }
    }

    /// No selection, no policy.
    pub fn empty() -> (r: DoctrineState)
        ensures
            r == Self::tally(Seq::empty()),
    {
        let none: Vec<UnitDoctrine> = Vec::new();
        assert(none@ =~= Seq::empty());
        Self::of(&none)
    }

    /// Tallies a selection, which must be in slot order for "the first unit"
    /// to mean the same to every reader.
    pub fn of(sorted: &Vec<UnitDoctrine>) -> (r: DoctrineState)
        ensures
            r == Self::tally(sorted@),
    {
        let lead = first_squad(sorted);
        let mut casters: usize = 0;
        let mut leashed: usize = 0;
        let mut leash: Option<i64> = None;
        let mut fallback: usize = 0;
        let mut frac: Option<i64> = None;
        let mut autocast: usize = 0;
        let mut slot0: usize = 0;
        let mut slot1: usize = 0;
        let mut slot2: usize = 0;
        let mut caster: Option<UnitKind> = None;
        let mut in_squad: usize = 0;
        let mut i: usize = 0;
        while i < sorted.len()
            invariant
                i <= sorted.len(),
                lead == lead_squad(sorted@),
                casters == count(sorted@.take(i as int), casts()),
                leashed == count(sorted@.take(i as int), is_leashed()),
                leash == first_some(sorted@.take(i as int), leash_of()),
                fallback == count(sorted@.take(i as int), retreats()),
                frac == first_some(sorted@.take(i as int), retreat_of()),
                autocast == count(sorted@.take(i as int), autocasts()),
                slot0 == count(sorted@.take(i as int), slot_live(0)),
                slot1 == count(sorted@.take(i as int), slot_live(1)),
                slot2 == count(sorted@.take(i as int), slot_live(2)),
                caster == first_some(sorted@.take(i as int), caster_of()),
                in_squad == count(sorted@.take(i as int), in_the_squad(lead)),
            decreases sorted.len() - i,
        {
            let u = sorted[i];
            proof {
                let s = sorted@;
                let k = i as int;
                count_step(s, k, casts());
                count_step(s, k, is_leashed());
                first_some_step(s, k, leash_of());
                count_step(s, k, retreats());
                first_some_step(s, k, retreat_of());
                count_step(s, k, autocasts());
                count_step(s, k, slot_live(0));
                count_step(s, k, slot_live(1));
                count_step(s, k, slot_live(2));
                first_some_step(s, k, caster_of());
                count_step(s, k, in_the_squad(lead));
            }
            if u.caster.is_some() {
                casters = casters + 1;
                if u.autocast_slots[0] {
                    slot0 = slot0 + 1;
                }
                if u.autocast_slots[1] {
                    slot1 = slot1 + 1;
                }
                if u.autocast_slots[2] {
                    slot2 = slot2 + 1;
                }
            }
            if caster.is_none() {
                caster = u.caster;
            }
            if u.squad.is_some() && u.squad == lead {
                in_squad = in_squad + 1;
            }
            if u.leash.is_some() {
                leashed = leashed + 1;
            }
            if leash.is_none() {
                leash = u.leash;
            }
            if u.retreat.is_some() {
                fallback = fallback + 1;
            }
            if frac.is_none() {
                frac = u.retreat;
            }
            if u.autocast {
                autocast = autocast + 1;
            }
            i = i + 1;
        }
        assert(sorted@.take(i as int) =~= sorted@);
        DoctrineState {
            units: sorted.len(),
            casters,
            leashed,
            leash_radius: leash.unwrap_or(0),
            fallback,
            fallback_frac: frac.unwrap_or(0),
            autocast,
            autocast_slots: [slot0, slot1, slot2],
            caster,
            prio: if sorted.len() > 0 {
                sorted[0].prio
            } else {
                PrioPreset::Off
            },
            squad: lead,
            in_squad,
        }
    }

    /// "All or most of them carry it": the rule by which a button lights.
    pub fn most(carriers: usize, total: usize) -> (r: bool)
        ensures
            r == mostly(carriers as int, total as int),
    {
        carriers > 0 && (carriers >= total || carriers >= total - carriers)
    }

    pub fn guard_active(&self) -> (r: bool)
        ensures
            r == mostly(self.leashed as int, self.units as int),
    {
        Self::most(self.leashed, self.units)
    }

    pub fn fallback_active(&self) -> (r: bool)
        ensures
            r == mostly(self.fallback as int, self.units as int),
    {
        Self::most(self.fallback, self.units)
    }

    pub fn autocast_active(&self) -> (r: bool)
        ensures
            r == mostly(self.autocast as int, self.casters as int),
    {
        Self::most(self.autocast, self.casters)
    }

    /// Casters with a live rule for a slot; none for a slot no card offers.
    pub open spec fn slot_carriers(&self, slot: int) -> int {
        if 0 <= slot < 3 {
            self.autocast_slots@[slot] as int
        } else {
            0
        }
    }

    /// Most of the selected casters auto-cast this ability slot.
    pub fn autocast_slot_active(&self, slot: usize) -> (r: bool)
        ensures
            r == mostly(self.slot_carriers(slot as int), self.casters as int),
    {
        let carriers: usize = if slot < 3 {
            self.autocast_slots[slot]
        } else {
            0
        };
        Self::most(carriers, self.casters)
    }

    pub open spec fn leash_now(&self) -> Option<i64> {
        if self.leashed > 0 {
            Some(self.leash_radius)
        } else {
            None
        }
    }

    pub open spec fn fallback_now(&self) -> Option<i64> {
        if self.fallback > 0 {
            Some(self.fallback_frac)
        } else {
            None
        }
    }

    /// Radius the selection is leashed at.
    pub fn leash_value(&self) -> (r: Option<i64>)
        ensures
            r == self.leash_now(),
    {
        if self.leashed > 0 {
            Some(self.leash_radius)
        } else {
            None
        }
    }

    /// Threshold the selection falls back at.
    pub fn fallback_value(&self) -> (r: Option<i64>)
        ensures
            r == self.fallback_now(),
    {
        if self.fallback > 0 {
            Some(self.fallback_frac)
        } else {
            None
        }
    }

    /// The pieces of the panel line, in order: the squad and what it is doing,
    /// then each policy, with a count where only part of the selection has it.
    pub open spec fn pieces(&self, posture: Option<Seq<char>>) -> Seq<Seq<char>> {
        (match self.squad {
            Some(squad) => seq![
                "squad "@ + dec(squad as nat) + partly(self.in_squad as int, self.units as int),
            ] + (match posture {
                Some(p) => seq![p],
                None => Seq::empty(),
            }),
            None => Seq::empty(),
        }) + only_if(
            self.leashed > 0,
            "guard("@ + fixed0(self.leash_radius as int) + ")"@ + partly(
                self.leashed as int,
                self.units as int,
            ),
        ) + only_if(
            self.fallback > 0,
            "fallback("@ + percent(self.fallback_frac as int) + "%)"@ + partly(
                self.fallback as int,
                self.units as int,
            ),
        ) + only_if(self.prio != PrioPreset::Off, "prio:"@ + self.prio.short()) + only_if(
            self.autocast > 0,
            "autocast"@ + partly(self.autocast as int, self.casters as int),
        )
    }

    /// The panel's doctrine line; empty when the selection carries no policy.
    pub open spec fn reads(&self, posture: Option<Seq<char>>) -> Seq<char> {
        let pieces = self.pieces(posture);
        if pieces.len() == 0 {
            Seq::empty()
        } else {
            "Doctrine: "@ + joined(pieces, "   "@)
        }
    }

    /// The panel's doctrine line. `posture` is what the squad is doing, in the
    /// panel's words.
    pub fn line(&self, posture: Option<&str>) -> (r: String)
        ensures
            r@ == self.reads(match posture {
                Some(p) => Some(p@),
                None => None,
            }),
    {
        let mut parts: Vec<String> = Vec::new();
        let ghost said: Option<Seq<char>> = match posture {
            Some(p) => Some(p@),
            None => None,
        };
        if let Some(squad) = self.squad {
            let mut s = owned("squad ");
            push_dec(&mut s, squad as u64);
            push_partly(&mut s, self.in_squad, self.units);
            parts.push(s);
            if let Some(p) = posture {
                parts.push(owned(p));
            }
        }
        let ghost lead: Seq<Seq<char>> = match self.squad {
            Some(squad) => seq![
                "squad "@ + dec(squad as nat) + partly(self.in_squad as int, self.units as int),
            ] + (match said {
                Some(p) => seq![p],
                None => Seq::empty(),
            }),
            None => Seq::empty(),
        };
        assert(texts(parts@) =~= lead);
        if self.leashed > 0 {
            let mut s = owned("guard(");
            push_fixed0(&mut s, self.leash_radius);
            s.append(")");
            push_partly(&mut s, self.leashed, self.units);
            parts.push(s);
        }
        if self.fallback > 0 {
            let mut s = owned("fallback(");
            push_percent(&mut s, self.fallback_frac);
            s.append("%)");
            push_partly(&mut s, self.fallback, self.units);
            parts.push(s);
        }
        if self.prio != PrioPreset::Off {
            let mut s = owned("prio:");
            s.append(self.prio.tag());
            parts.push(s);
        }
        if self.autocast > 0 {
            let mut s = owned("autocast");
            push_partly(&mut s, self.autocast, self.casters);
            parts.push(s);
        }
        assert(texts(parts@) =~= self.pieces(said));
        if parts.len() == 0 {
            let out = String::new();
            assert(out@ =~= Seq::empty());
            out
        } else {
            let mut out = owned("Doctrine: ");
            out.append(join(&parts, "   ").as_str());
            out
        }
    }
}

/// A count, where only part of the selection has the policy.
pub open spec fn partly(carriers: int, total: int) -> Seq<char> {
    if carriers < total {
        " x"@ + dec(carriers as nat)
    } else {
        Seq::empty()
    }
}

fn push_partly(out: &mut String, carriers: usize, total: usize)
    ensures
        final(out)@ == old(out)@ + partly(carriers as int, total as int),
{
    if carriers < total {
        out.append(" x");
        push_dec(out, carriers as u64);
    }
    assert(out@ =~= old(out)@ + partly(carriers as int, total as int));
}

/// A selection is never more squadded, leashed or casting than it is large.
pub proof fn tally_is_bounded(sorted: Seq<UnitDoctrine>)
    requires
        sorted.len() <= usize::MAX,
    ensures
        DoctrineState::tally(sorted).leashed <= sorted.len(),
        DoctrineState::tally(sorted).fallback <= sorted.len(),
        DoctrineState::tally(sorted).casters <= sorted.len(),
        DoctrineState::tally(sorted).in_squad <= sorted.len(),
        DoctrineState::tally(sorted).squad is Some <==> DoctrineState::tally(sorted).in_squad > 0,
{
    crate::lists::count_bound(sorted, is_leashed());
    crate::lists::count_bound(sorted, retreats());
    crate::lists::count_bound(sorted, casts());
    let lead = lead_squad(sorted);
    crate::lists::count_bound(sorted, in_the_squad(lead));
    if lead is Some {
        assert(in_the_squad(lead)(sorted[0]));
        crate::lists::count_finds(sorted, 0, in_the_squad(lead));
    } else {
        if count(sorted, in_the_squad(lead)) > 0 {
            let i = crate::lists::count_witness(sorted, in_the_squad(lead));
            assert(in_the_squad(lead)(sorted[i]));
        }
    }
}

// ---------------------------------------------------------------------------
// Postures
// ---------------------------------------------------------------------------

/// The four postures, as the card offers them. The click supplies the rest.
#[derive(Clone, Copy, PartialEq, Eq, Debug, Structural)]
pub enum PostureKind {
    Defend,
    Push,
    Forage,
    /// Screen one of our own units: the click names a unit, not a point.
    Escort,
}

impl PostureKind {
    pub open spec fn title(self) -> Seq<char> {
        match self {
            PostureKind::Defend => "Defend"@,
            PostureKind::Push => "Push"@,
            PostureKind::Forage => "Forage"@,
            PostureKind::Escort => "Escort"@,
        }
    }

    pub fn label(self) -> (r: &'static str)
        ensures
            r@ == self.title(),
    {
        match self {
            PostureKind::Defend => "Defend",
            PostureKind::Push => "Push",
            PostureKind::Forage => "Forage",
            PostureKind::Escort => "Escort",
        }
    }

    /// Whether the gesture is "press, then click one of our units".
    pub fn needs_unit(self) -> (r: bool)
        ensures
            r == (self == PostureKind::Escort),
    {
        match self {
            PostureKind::Escort => true,
            _ => false,
        }
    }
}

/// What a squad is doing.
#[derive(Clone, Copy, PartialEq, Eq, Debug, Structural)]
pub enum SquadPosture {
    Defend { pos: Pos, radius: i64 },
    Push { pos: Pos },
    Escort { unit: u64 },
    Forage { muster: Pos },
}

impl SquadPosture {
    pub open spec fn spec_kind(self) -> PostureKind {
        match self {
            SquadPosture::Defend { .. } => PostureKind::Defend,
            SquadPosture::Push { .. } => PostureKind::Push,
            SquadPosture::Escort { .. } => PostureKind::Escort,
            SquadPosture::Forage { .. } => PostureKind::Forage,
        }
    }

    /// The panel's shorthand. The point is spelled out, because a posture is
    /// its point.
    pub open spec fn shorthand(self) -> Seq<char> {
        match self {
            SquadPosture::Defend { pos, radius } => "defend("@ + fixed0(pos.x as int) + ","@
                + fixed0(pos.z as int) + " r"@ + fixed0(radius as int) + ")"@,
            SquadPosture::Push { pos } => "push("@ + fixed0(pos.x as int) + ","@ + fixed0(
                pos.z as int,
            ) + ")"@,
            SquadPosture::Escort { .. } => "escort"@,
            SquadPosture::Forage { muster } => "forage(muster "@ + fixed0(muster.x as int) + ","@
                + fixed0(muster.z as int) + ")"@,
        }
    }
}

/// A live posture in the panel's shorthand.
pub fn posture_tag(posture: SquadPosture) -> (r: String)
    ensures
        r@ == posture.shorthand(),
{
    match posture {
        SquadPosture::Defend { pos, radius } => {
            let mut s = owned("defend(");
            push_fixed0(&mut s, pos.x as i64);
            s.append(",");
            push_fixed0(&mut s, pos.z as i64);
            s.append(" r");
            push_fixed0(&mut s, radius);
            s.append(")");
            s
        },
        SquadPosture::Push { pos } => {
            let mut s = owned("push(");
            push_fixed0(&mut s, pos.x as i64);
            s.append(",");
            push_fixed0(&mut s, pos.z as i64);
            s.append(")");
            s
        },
        SquadPosture::Escort { .. } => owned("escort"),
        SquadPosture::Forage { muster } => {
            let mut s = owned("forage(muster ");
            push_fixed0(&mut s, muster.x as i64);
            s.append(",");
            push_fixed0(&mut s, muster.z as i64);
            s.append(")");
            s
        },
    }
}

/// Which button a live posture lights.
pub fn posture_kind(posture: SquadPosture) -> (r: PostureKind)
    ensures
        r == posture.spec_kind(),
{
    match posture {
        SquadPosture::Defend { .. } => PostureKind::Defend,
        SquadPosture::Push { .. } => PostureKind::Push,
        SquadPosture::Escort { .. } => PostureKind::Escort,
        SquadPosture::Forage { .. } => PostureKind::Forage,
    }
}

// ---------------------------------------------------------------------------
// The production template
// ---------------------------------------------------------------------------

/// The standing policy a building stamps on everything it trains.
#[derive(Clone, Debug)]
pub struct DoctrineTemplate {
    pub squad: Option<u8>,
    /// Retreat threshold.
    pub retreat: Option<i64>,
    pub priority: Option<Vec<TargetClass>>,
    pub autocast: Option<u32>,
}

/// The template of the one selected building, as the card reads it. `capable`
/// is false when the selection is not a single finished building of ours that
/// trains something.
#[derive(Clone, Copy, PartialEq, Eq, Debug, Structural)]
pub struct TemplateView {
    pub capable: bool,
    pub squad: Option<u8>,
    pub retreat: Option<i64>,
    pub prio: PrioPreset,
    pub autocast: bool,
}

impl TemplateView {
    pub open spec fn blank(capable: bool) -> TemplateView {
        TemplateView { capable, squad: None, retreat: None, prio: PrioPreset::Off, autocast: false }
    }

    pub open spec fn of(capable: bool, template: Option<DoctrineTemplate>) -> TemplateView {
        match template {
            None => Self::blank(capable),
            Some(t) => TemplateView {
                capable,
                squad: t.squad,
                retreat: t.retreat,
                prio: PrioPreset::reading(
                    match t.priority {
                        Some(list) => first_class(list@),
                        None => None,
                    },
                ),
                autocast: match t.autocast {
                    Some(n) => n > 0,
                    None => false,
                },
            },
        }
    }

    /// A template with nothing in it.
    pub fn fresh(capable: bool) -> (r: TemplateView)
        ensures
            r == Self::blank(capable),
    {
        TemplateView { capable, squad: None, retreat: None, prio: PrioPreset::Off, autocast: false }
    }

    /// Reads a building's template.
    pub fn read(capable: bool, template: &Option<DoctrineTemplate>) -> (r: TemplateView)
        ensures
            r == Self::of(capable, *template),
    {
        match template {
            None => Self::fresh(capable),
            Some(t) => TemplateView {
                capable,
                squad: t.squad,
                retreat: t.retreat,
                prio: match &t.priority {
                    Some(list) => preset_of(list),
                    None => PrioPreset::Off,
                },
                autocast: match t.autocast {
                    Some(n) => n > 0,
                    None => false,
                },
            },
        }
    }

    pub open spec fn nothing(self) -> bool {
        self.squad is None && self.retreat is None && self.prio == PrioPreset::Off && !self.autocast
    }

    /// Whether the template stamps nothing at all.
    pub fn is_empty(&self) -> (r: bool)
        ensures
            r == self.nothing(),
    {
        self.squad.is_none() && self.retreat.is_none() && self.prio == PrioPreset::Off
            && !self.autocast
    }

    pub open spec fn pieces(self) -> Seq<Seq<char>> {
        (match self.squad {
            Some(squad) => seq!["squad "@ + dec(squad as nat)],
            None => Seq::empty(),
        }) + (match self.retreat {
            Some(frac) => seq!["fallback("@ + percent(frac as int) + "%)"@],
            None => Seq::empty(),
        }) + only_if(self.prio != PrioPreset::Off, "prio:"@ + self.prio.short()) + only_if(
            self.autocast,
            "autocast"@,
        )
    }

    /// The panel line of a building that stamps something.
    pub open spec fn reads(self) -> Seq<char> {
        if !self.capable || self.nothing() {
            Seq::empty()
        } else {
            "Trains with: "@ + joined(self.pieces(), "   "@)
        }
    }

    /// The panel line of a selected building.
    pub fn line(&self) -> (r: String)
        ensures
            r@ == self.reads(),
    {
        if !self.capable || self.is_empty() {
            let out = String::new();
            assert(out@ =~= Seq::empty());
            return out;
        }
        let mut parts: Vec<String> = Vec::new();
        if let Some(squad) = self.squad {
            let mut s = owned("squad ");
            push_dec(&mut s, squad as u64);
            parts.push(s);
        }
        if let Some(frac) = self.retreat {
            let mut s = owned("fallback(");
            push_percent(&mut s, frac);
            s.append("%)");
            parts.push(s);
        }
        if self.prio != PrioPreset::Off {
            let mut s = owned("prio:");
            s.append(self.prio.tag());
            parts.push(s);
        }
        if self.autocast {
            parts.push(owned("autocast"));
        }
        assert(texts(parts@) =~= self.pieces());
        let mut out = owned("Trains with: ");
        out.append(join(&parts, "   ").as_str());
        out
    }
}

} // verus!
