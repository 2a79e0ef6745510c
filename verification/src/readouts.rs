//! The panel's one-line readouts. Every optional line is the empty text while
//! there is nothing to say, which is how it disappears.

use vstd::prelude::*;
use vstd::string::*;

use crate::doctrine::{push_trimmed, trimmed};
use crate::lists::{in_order, in_order_sorts, order_by_key, values};
use crate::text::{
    alphabetical, alphabetical_forgets, alphabetical_sorts, dec, fixed0, fixed1, join, joined,
    order_texts, owned, push_dec, push_fixed1, push_text, push_thousandths, same_text,
    text_ascending, text_le, text_le_antisymmetric, texts,
};

verus! {

/// How many regions a team may name.
pub const MAX_REGIONS_PER_TEAM: usize = 8;

/// The name the human's one trigger preset is armed under.
pub open spec fn home_guard() -> Seq<char> {
    "home-guard"@
}

/// The corner badge on a selection tile.
pub open spec fn badge(squad: Option<u8>) -> Seq<char> {
    match squad {
        Some(id) => dec(id as nat),
        None => Seq::empty(),
    }
}

/// The corner badge on a selection tile: the squad id, or nothing at all.
pub fn squad_badge(squad: Option<u8>) -> (r: String)
    ensures
        r@ == badge(squad),
{
    let mut out = String::new();
    if let Some(id) = squad {
        push_dec(&mut out, id as u64);
    }
    assert(out@ =~= badge(squad));
    out
}

// ---------------------------------------------------------------------------
// Triggers
// ---------------------------------------------------------------------------

/// A rule of the player's team that fires on its own. Times are thousandths of
/// a second.
#[derive(Clone, Debug)]
pub struct TriggerRule {
    pub name: String,
    /// A once-only rule that has fired is no longer armed.
    pub armed: bool,
    /// Cooldown of a rule that repeats.
    pub repeat: Option<i64>,
    pub last_fired: Option<i64>,
}

#[derive(Clone, Copy, PartialEq, Eq, Debug, Structural)]
pub enum TriggerStatus {
    Armed,
    Spent,
    Cooling,
}

impl TriggerRule {
    /// Where the rule stands: spent when it is not armed, cooling while a
    /// repeat is inside its cooldown, and armed otherwise.
    pub open spec fn standing(&self, now: int) -> TriggerStatus {
        if !self.armed {
            TriggerStatus::Spent
        } else {
            match (self.repeat, self.last_fired) {
                (Some(cooldown), Some(last)) => if now - last < cooldown {
                    TriggerStatus::Cooling
                } else {
                    TriggerStatus::Armed
                },
                _ => TriggerStatus::Armed,
            }
        }
    }

    /// Where the rule stands.
    pub fn status(&self, now: i64) -> (r: TriggerStatus)
        ensures
            r == self.standing(now as int),
    {
        if !self.armed {
            return TriggerStatus::Spent;
        }
        match (self.repeat, self.last_fired) {
            (Some(cooldown), Some(last)) => {
                if (now as i128 - last as i128) < cooldown as i128 {
                    TriggerStatus::Cooling
                } else {
                    TriggerStatus::Armed
                }
            },
            _ => TriggerStatus::Armed,
        }
    }

    pub open spec fn reads(&self, now: int) -> Seq<char> {
        match self.standing(now) {
            TriggerStatus::Armed => self.name@,
            TriggerStatus::Spent => self.name@ + " (spent)"@,
            TriggerStatus::Cooling => self.name@ + " (cooling)"@,
        }
    }
}

/// Whether a rule of that name will fire.
pub open spec fn armed_rule(rules: Seq<TriggerRule>, name: Seq<char>) -> bool {
    exists|i: int| 0 <= i < rules.len() && (#[trigger] rules[i]).name@ == name && rules[i].armed
}

/// Whether a rule of that name will fire. A spent rule does not count.
pub fn has_trigger(rules: &Vec<TriggerRule>, name: &str) -> (r: bool)
    ensures
        r == armed_rule(rules@, name@),
{
    let mut i: usize = 0;
    while i < rules.len()
        invariant
            i <= rules.len(),
            forall|j: int|
                0 <= j < i ==> !((#[trigger] rules@[j]).name@ == name@ && rules@[j].armed),
        decreases rules.len() - i,
    {
        if rules[i].armed && same_text(rules[i].name.as_str(), name) {
            return true;
        }
        i = i + 1;
    }
    false
}

pub open spec fn trigger_pieces(rules: Seq<TriggerRule>, now: int) -> Seq<Seq<char>> {
    rules.map_values(|t: TriggerRule| t.reads(now))
}

/// The trigger readout: every rule, with its state unless it is simply armed.
pub open spec fn trigger_reads(rules: Seq<TriggerRule>, now: int) -> Seq<char> {
    if rules.len() == 0 {
        Seq::empty()
    } else {
        "Triggers: "@ + joined(trigger_pieces(rules, now), "  "@)
    }
}

fn nothing() -> (r: String)
    ensures
        r@ == Seq::<char>::empty(),
{
    String::new()
}

fn headed(head: &str, parts: &Vec<String>, sep: &str) -> (r: String)
    ensures
        r@ == head@ + joined(texts(parts@), sep@),
{
    let mut out = owned(head);
    out.append(join(parts, sep).as_str());
    out
}

/// The trigger readout.
pub fn trigger_line(rules: &Vec<TriggerRule>, now: i64) -> (r: String)
    ensures
        r@ == trigger_reads(rules@, now as int),
{
    if rules.len() == 0 {
        return nothing();
    }
    let mut parts: Vec<String> = Vec::new();
    let mut i: usize = 0;
    while i < rules.len()
        invariant
            i <= rules.len(),
            texts(parts@) == trigger_pieces(rules@, now as int).take(i as int),
        decreases rules.len() - i,
    {
        let mut s = rules[i].name.clone();
        match rules[i].status(now) {
            TriggerStatus::Armed => {},
            TriggerStatus::Spent => s.append(" (spent)"),
            TriggerStatus::Cooling => s.append(" (cooling)"),
        }
        push_text(&mut parts, s);
        proof {
            let all = trigger_pieces(rules@, now as int);
            assert(all.take(i + 1) =~= all.take(i as int).push(all[i as int]));
        }
        i = i + 1;
    }
    assert(texts(parts@) =~= trigger_pieces(rules@, now as int));
    headed("Triggers: ", &parts, "  ")
}

// ---------------------------------------------------------------------------
// Regions
// ---------------------------------------------------------------------------

/// A circle of ground the player's team has named.
#[derive(Clone, Debug)]
pub struct Region {
    pub name: String,
    /// The name in the form in which names are compared.
    pub key: String,
    pub radius: i64,
}

pub open spec fn region_pieces(regions: Seq<Region>) -> Seq<Seq<char>> {
    regions.map_values(|r: Region| r.name@ + " r"@ + trimmed(r.radius as int))
}

/// The region readout: every circle with its radius.
pub open spec fn region_reads(regions: Seq<Region>) -> Seq<char> {
    if regions.len() == 0 {
        Seq::empty()
    } else {
        "Regions: "@ + joined(region_pieces(regions), "  "@)
    }
}

/// The region readout.
pub fn region_line(regions: &Vec<Region>) -> (r: String)
    ensures
        r@ == region_reads(regions@),
{
    if regions.len() == 0 {
        return nothing();
    }
    let mut parts: Vec<String> = Vec::new();
    let mut i: usize = 0;
    while i < regions.len()
        invariant
            i <= regions.len(),
            texts(parts@) == region_pieces(regions@).take(i as int),
        decreases regions.len() - i,
    {
        let mut s = regions[i].name.clone();
        s.append(" r");
        push_trimmed(&mut s, regions[i].radius);
        push_text(&mut parts, s);
        proof {
            let all = region_pieces(regions@);
            assert(all.take(i + 1) =~= all.take(i as int).push(all[i as int]));
        }
        i = i + 1;
    }
    assert(texts(parts@) =~= region_pieces(regions@));
    headed("Regions: ", &parts, "  ")
}

/// The name of the `n`th mark.
pub open spec fn mark_text(n: int) -> Seq<char> {
    "mark "@ + dec(n as nat)
}

/// Whether no region bears the name of the `n`th mark.
pub open spec fn mark_free(regions: Seq<Region>, n: int) -> bool {
    forall|i: int| 0 <= i < regions.len() ==> (#[trigger] regions[i]).key@ != mark_text(n)
}

/// The lowest free mark from `n` on.
pub open spec fn lowest_mark(regions: Seq<Region>, n: int) -> Option<usize>
    decreases MAX_REGIONS_PER_TEAM + 1 - n,
{
    if n > MAX_REGIONS_PER_TEAM {
        None
    } else if mark_free(regions, n) {
        Some(n as usize)
    } else {
        lowest_mark(regions, n + 1)
    }
}

/// The next mark is free, and every lower one is taken; there is none exactly
/// when all are taken.
pub proof fn lowest_mark_is_lowest(regions: Seq<Region>, from: int)
    requires
        1 <= from,
    ensures
        match lowest_mark(regions, from) {
            Some(n) => from <= n <= MAX_REGIONS_PER_TEAM && mark_free(regions, n as int) && forall|
                k: int,
            |
                from <= k < n ==> !#[trigger] mark_free(regions, k),
            None => forall|k: int|
                from <= k <= MAX_REGIONS_PER_TEAM ==> !#[trigger] mark_free(regions, k),
        },
    decreases MAX_REGIONS_PER_TEAM + 1 - from,
{
    if from <= MAX_REGIONS_PER_TEAM && !mark_free(regions, from) {
        lowest_mark_is_lowest(regions, from + 1);
    }
}

fn spell_mark(n: usize) -> (r: String)
    ensures
        r@ == mark_text(n as int),
{
    let mut s = owned("mark ");
    push_dec(&mut s, n as u64);
    s
}

/// The number of the next mark: the lowest that no region bears. There is none
/// once all of them are taken.
pub fn mark_number(regions: &Vec<Region>) -> (r: Option<usize>)
    ensures
        r == lowest_mark(regions@, 1),
{
    let mut n: usize = 1;
    while n <= MAX_REGIONS_PER_TEAM
        invariant
            1 <= n <= MAX_REGIONS_PER_TEAM + 1,
            lowest_mark(regions@, 1) == lowest_mark(regions@, n as int),
        decreases MAX_REGIONS_PER_TEAM + 1 - n,
    {
        let name = spell_mark(n);
        let mut free = true;
        let mut i: usize = 0;
        while i < regions.len()
            invariant
                i <= regions.len(),
                name@ == mark_text(n as int),
                free == (forall|j: int|
                    0 <= j < i ==> (#[trigger] regions@[j]).key@ != mark_text(n as int)),
            decreases regions.len() - i,
        {
            if same_text(regions[i].key.as_str(), name.as_str()) {
                free = false;
            }
            i = i + 1;
        }
        if free {
            return Some(n);
        }
        n = n + 1;
    }
    None
}

/// The same answer, spelled.
pub fn next_mark_name(regions: &Vec<Region>) -> (r: Option<String>)
    ensures
        match r {
            Some(name) => lowest_mark(regions@, 1) is Some && name@ == mark_text(
                lowest_mark(regions@, 1)->0 as int,
            ),
            None => lowest_mark(regions@, 1) is None,
        },
{
    match mark_number(regions) {
        Some(n) => Some(spell_mark(n)),
        None => None,
    }
}

// ---------------------------------------------------------------------------
// Plans
// ---------------------------------------------------------------------------

/// How much of a refusal fits on the line.
pub const WHY_MAX: usize = 34;

#[derive(Clone, Debug)]
pub enum PlanState {
    Running,
    Done,
    Blocked(String),
    Halted(String),
}

/// A sequence of orders that runs on its own.
#[derive(Clone, Debug)]
pub struct PlanRun {
    pub name: String,
    /// The step it is on, counted from one.
    pub step_no: usize,
    pub steps: usize,
    pub state: PlanState,
}

/// A reason, cut to what fits.
pub open spec fn cut(why: Seq<char>) -> Seq<char> {
    if why.len() > WHY_MAX {
        why.take(WHY_MAX as int) + "…"@
    } else {
        why
    }
}

impl PlanRun {
    pub open spec fn reads(&self) -> Seq<char> {
        let head = self.name@ + " "@ + dec(self.step_no as nat) + "/"@ + dec(self.steps as nat);
        match self.state {
            PlanState::Running => head,
            PlanState::Done => head + " (done)"@,
            PlanState::Blocked(why) => head + " (blocked: "@ + cut(why@) + ")"@,
            PlanState::Halted(why) => head + " (halted: "@ + cut(why@) + ")"@,
        }
    }
}

fn push_cut(out: &mut String, why: &String)
    ensures
        final(out)@ == old(out)@ + cut(why@),
{
    if why.as_str().unicode_len() > WHY_MAX {
        out.append(why.as_str().substring_char(0, WHY_MAX));
        out.append("…");
        assert(out@ =~= old(out)@ + cut(why@));
    } else {
        out.append(why.as_str());
    }
}

fn plan_text(plan: &PlanRun) -> (r: String)
    ensures
        r@ == plan.reads(),
{
    let mut s = plan.name.clone();
    s.append(" ");
    push_dec(&mut s, plan.step_no as u64);
    s.append("/");
    push_dec(&mut s, plan.steps as u64);
    match &plan.state {
        PlanState::Running => {},
        PlanState::Done => s.append(" (done)"),
        PlanState::Blocked(why) => {
            s.append(" (blocked: ");
            push_cut(&mut s, why);
            s.append(")");
        },
        PlanState::Halted(why) => {
            s.append(" (halted: ");
            push_cut(&mut s, why);
            s.append(")");
        },
    }
    s
}

pub open spec fn plan_pieces(plans: Seq<PlanRun>) -> Seq<Seq<char>> {
    plans.map_values(|p: PlanRun| p.reads())
}

/// The plan readout: every plan, the step it is on, and why it stopped.
pub open spec fn plan_reads(plans: Seq<PlanRun>) -> Seq<char> {
    if plans.len() == 0 {
        Seq::empty()
    } else {
        "Plans: "@ + joined(plan_pieces(plans), "  "@)
    }
}

/// The plan readout.
pub fn plan_line(plans: &Vec<PlanRun>) -> (r: String)
    ensures
        r@ == plan_reads(plans@),
{
    if plans.len() == 0 {
        return nothing();
    }
    let mut parts: Vec<String> = Vec::new();
    let mut i: usize = 0;
    while i < plans.len()
        invariant
            i <= plans.len(),
            texts(parts@) == plan_pieces(plans@).take(i as int),
        decreases plans.len() - i,
    {
        push_text(&mut parts, plan_text(&plans[i]));
        proof {
            let all = plan_pieces(plans@);
            assert(all.take(i + 1) =~= all.take(i as int).push(all[i as int]));
        }
        i = i + 1;
    }
    assert(texts(parts@) =~= plan_pieces(plans@));
    headed("Plans: ", &parts, "  ")
}

// ---------------------------------------------------------------------------
// Enemy heroes
// ---------------------------------------------------------------------------

#[derive(Clone, Copy, PartialEq, Eq, Debug, Structural)]
pub enum HeroStatus {
    Unknown,
    Alive,
    SeenDying,
}

/// What the player knows of one enemy hero class.
#[derive(Clone, Copy, Debug)]
pub struct HeroIntel {
    pub name: &'static str,
    pub status: HeroStatus,
    /// When it was last seen, in thousandths of a second.
    pub t_seen: Option<i64>,
}

/// How long ago, never negative.
pub open spec fn age(now: int, seen: int) -> int {
    if now > seen {
        now - seen
    } else {
        0
    }
}

impl HeroIntel {
    /// The class and what became of it. A death carries no age, and a level is
    /// never told.
    pub open spec fn reads(self, now: int) -> Seq<char> {
        if self.status == HeroStatus::SeenDying {
            self.name@ + " down"@
        } else {
            self.name@ + " alive"@ + (match self.t_seen {
                Some(t) => " "@ + fixed0(age(now, t as int)) + "s ago"@,
                None => Seq::empty(),
            })
        }
    }
}

pub open spec fn hero_piece(now: int) -> spec_fn(HeroIntel) -> Option<Seq<char>> {
    |h: HeroIntel|
        if h.status == HeroStatus::Unknown {
            None
        } else {
            Some(h.reads(now))
        }
}

/// What the player believes about the enemy's heroes; a class never seen is
/// left out.
pub open spec fn hero_reads(intel: Seq<HeroIntel>, now: int) -> Seq<char> {
    let parts = crate::lists::picked(intel, hero_piece(now));
    if parts.len() == 0 {
        Seq::empty()
    } else {
        "Their heroes: "@ + joined(parts, "   "@)
    }
}

fn hero_text(h: HeroIntel, now: i64) -> (r: String)
    ensures
        r@ == h.reads(now as int),
{
    let mut s = owned(h.name);
    match h.status {
        HeroStatus::SeenDying => {
            s.append(" down");
        },
        _ => {
            s.append(" alive");
            match h.t_seen {
                Some(t) => {
                    s.append(" ");
                    let passed: u64 = if now > t {
                        (now as i128 - t as i128) as u64
                    } else {
                        0
                    };
                    let ghost head = s@;
                    push_thousandths(&mut s, passed);
                    assert(s@ =~= head + fixed0(age(now as int, t as int)));
                    s.append("s ago");
                    assert(s@ =~= h.reads(now as int));
                },
                None => {
                    assert(s@ =~= h.reads(now as int));
                },
            }
        },
    }
    s
}

/// What the player believes about the enemy's heroes.
pub fn enemy_hero_line(intel: &Vec<HeroIntel>, now: i64) -> (r: String)
    ensures
        r@ == hero_reads(intel@, now as int),
{
    let mut parts: Vec<String> = Vec::new();
    let mut i: usize = 0;
    while i < intel.len()
        invariant
            i <= intel.len(),
            texts(parts@) == crate::lists::picked(
                intel@.take(i as int),
                hero_piece(now as int),
            ),
        decreases intel.len() - i,
    {
        proof {
            crate::lists::picked_step(intel@, i as int, hero_piece(now as int));
        }
        if intel[i].status != HeroStatus::Unknown {
            let s = hero_text(intel[i], now);
            push_text(&mut parts, s);
        }
        i = i + 1;
    }
    assert(intel@.take(i as int) =~= intel@);
    if parts.len() == 0 {
        assert(texts(parts@).len() == 0);
        return nothing();
    }
    assert(texts(parts@).len() > 0);
    headed("Their heroes: ", &parts, "   ")
}

// ---------------------------------------------------------------------------
// The chain of command
// ---------------------------------------------------------------------------

/// Neighbouring equal texts, each with how many there were.
pub open spec fn runs(list: Seq<Seq<char>>) -> Seq<(Seq<char>, int)>
    decreases list.len(),
{
    if list.len() == 0 {
        Seq::empty()
    } else {
        let front = runs(list.drop_last());
        let x = list.last();
        if front.len() > 0 && front.last().0 == x {
            front.update(front.len() - 1, (x, front.last().1 + 1))
        } else {
            front.push((x, 1))
        }
    }
}

/// Every run holds at least one text, and together they hold them all.
pub proof fn runs_count(list: Seq<Seq<char>>)
    ensures
        runs(list).len() <= list.len(),
        list.len() > 0 ==> runs(list).len() > 0,
        forall|i: int| 0 <= i < runs(list).len() ==> 1 <= (#[trigger] runs(list)[i]).1 <= list.len(),
    decreases list.len(),
{
    if list.len() > 0 {
        runs_count(list.drop_last());
    }
}

/// A tally: texts with their counts.
pub open spec fn tally_view(t: Seq<(String, usize)>) -> Seq<(Seq<char>, int)> {
    t.map_values(|e: (String, usize)| (e.0@, e.1 as int))
}

fn tally_texts(list: &Vec<String>) -> (r: Vec<(String, usize)>)
    ensures
        tally_view(r@) == runs(texts(list@)),
{
    let mut out: Vec<(String, usize)> = Vec::new();
    let mut i: usize = 0;
    while i < list.len()
        invariant
            i <= list.len(),
            tally_view(out@) == runs(texts(list@).take(i as int)),
        decreases list.len() - i,
    {
        let ghost all = texts(list@);
        proof {
            assert(all.take(i + 1).drop_last() =~= all.take(i as int));
            assert(all.take(i + 1).last() == list@[i as int]@);
            runs_count(all.take(i as int));
            assert(tally_view(out@).len() == out@.len());
        }
        let ghost before = out@;
        let n: usize = out.len();
        if n > 0 && out[n - 1].0 == list[i] {
            let last = out.pop();
            assert(tally_view(before)[n - 1].1 <= i);
            match last {
                Some((text, k)) => {
                    assert(before[n - 1] == (text, k));
                    assert(tally_view(before).last() == (text@, k as int));
                    out.push((text, k + 1));
                },
                None => {},
            }
            assert(tally_view(out@) =~= runs(all.take(i + 1)));
        } else {
            if n > 0 {
                assert(tally_view(before).last().0 == before[n - 1].0@);
            }
            out.push((list[i].clone(), 1));
            assert(tally_view(out@) =~= runs(all.take(i + 1)));
        }
        i = i + 1;
    }
    assert(texts(list@).take(i as int) =~= texts(list@));
    out
}

/// A delay, in seconds with one decimal.
pub open spec fn delay(milli: int) -> Seq<char> {
    fixed1(milli) + "s"@
}

/// Delays, worst first.
pub open spec fn worst_first(links: Seq<i32>) -> Seq<i32> {
    values(in_order(links.map_values(|l: i32| ((-l) as i64, l))))
}

pub open spec fn delays(links: Seq<i32>) -> Seq<Seq<char>> {
    links.map_values(|l: i32| delay(l as int))
}

/// A text, with its count where there was more than one.
pub open spec fn counted(entry: (Seq<char>, int)) -> Seq<char> {
    if entry.1 > 1 {
        entry.0 + " x"@ + dec(entry.1 as nat)
    } else {
        entry.0
    }
}

pub open spec fn counted_all(t: Seq<(Seq<char>, int)>) -> Seq<Seq<char>> {
    t.map_values(|e: (Seq<char>, int)| counted(e))
}

/// At most the first two of a tally.
pub open spec fn top<A>(t: Seq<A>) -> Seq<A> {
    if t.len() > 2 {
        t.take(2)
    } else {
        t
    }
}

/// The largest of the delays, and zero where there are none.
pub open spec fn largest(list: Seq<i32>) -> int
    decreases list.len(),
{
    if list.len() == 0 {
        0
    } else {
        let front = largest(list.drop_last());
        if list.last() > front {
            list.last() as int
        } else {
            front
        }
    }
}

/// What reaching a selection costs: the slowest link first, at most two of
/// them, and the orders still travelling with the worst link they pay.
pub open spec fn link_reads(links: Seq<i32>, in_transit: Seq<i32>) -> Seq<char> {
    if links.len() == 0 {
        Seq::empty()
    } else {
        let tally = runs(delays(worst_first(links)));
        let more = if tally.len() > 2 {
            "  (+"@ + dec((tally.len() - 2) as nat) + " more)"@
        } else {
            Seq::empty()
        };
        let head = "Link: "@ + joined(counted_all(top(tally)), "   "@) + more;
        if in_transit.len() == 0 {
            head
        } else {
            head + ("   ·   "@ + dec(in_transit.len()) + " in transit ("@ + fixed1(
                largest(in_transit),
            ) + "s)"@)
        }
    }
}

fn counted_text(e: &(String, usize)) -> (r: String)
    ensures
        r@ == counted((e.0@, e.1 as int)),
{
    let mut s = e.0.clone();
    if e.1 > 1 {
        s.append(" x");
        push_dec(&mut s, e.1 as u64);
    }
    s
}

fn sorted_delays(links: &Vec<i32>) -> (r: Vec<String>)
    ensures
        texts(r@) == delays(worst_first(links@)),
{
    let mut keyed: Vec<(i64, i32)> = Vec::new();
    let ghost all = links@.map_values(|l: i32| ((-l) as i64, l));
    let mut i: usize = 0;
    while i < links.len()
        invariant
            i <= links.len(),
            all == links@.map_values(|l: i32| ((-l) as i64, l)),
            keyed@ == all.take(i as int),
        decreases links.len() - i,
    {
        let l: i32 = links[i];
        keyed.push((-(l as i64), l));
        i = i + 1;
        assert(keyed@ =~= all.take(i as int));
    }
    assert(keyed@ =~= all);
    let sorted = order_by_key(&keyed);
    let mut out: Vec<String> = Vec::new();
    let mut j: usize = 0;
    while j < sorted.len()
        invariant
            j <= sorted.len(),
            texts(out@) == delays(values(sorted@)).take(j as int),
        decreases sorted.len() - j,
    {
        let mut s = String::new();
        push_fixed1(&mut s, sorted[j].1 as i64);
        s.append("s");
        assert(s@ =~= delay(sorted@[j as int].1 as int));
        push_text(&mut out, s);
        proof {
            let all = delays(values(sorted@));
            assert(all.take(j + 1) =~= all.take(j as int).push(all[j as int]));
        }
        j = j + 1;
    }
    assert(texts(out@) =~= delays(values(sorted@)));
    out
}

fn shown(tally: &Vec<(String, usize)>) -> (r: Vec<String>)
    ensures
        texts(r@) == counted_all(top(tally_view(tally@))),
{
    let mut out: Vec<String> = Vec::new();
    if tally.len() > 0 {
        out.push(counted_text(&tally[0]));
    }
    if tally.len() > 1 {
        out.push(counted_text(&tally[1]));
    }
    assert(texts(out@) =~= counted_all(top(tally_view(tally@))));
    out
}

fn worst_of(list: &Vec<i32>) -> (r: i32)
    ensures
        r == largest(list@),
{
    let mut worst: i32 = 0;
    let mut i: usize = 0;
    while i < list.len()
        invariant
            i <= list.len(),
            worst == largest(list@.take(i as int)),
        decreases list.len() - i,
    {
        assert(list@.take(i + 1).drop_last() =~= list@.take(i as int));
        if list[i] > worst {
            worst = list[i];
        }
        i = i + 1;
    }
    assert(list@.take(i as int) =~= list@);
    worst
}

/// What reaching a selection costs, for the info panel. `links` holds every
/// selected unit's delay and `in_transit` the delay each travelling order pays.
pub fn link_line(links: &Vec<i32>, in_transit: &Vec<i32>) -> (r: String)
    ensures
        r@ == link_reads(links@, in_transit@),
{
    if links.len() == 0 {
        return nothing();
    }
    let tally = tally_texts(&sorted_delays(links));
    let ghost t = runs(delays(worst_first(links@)));
    assert(tally@.len() == t.len());
    let parts = shown(&tally);
    let mut out = headed("Link: ", &parts, "   ");
    let ghost lead = out@;
    if tally.len() > 2 {
        out.append("  (+");
        push_dec(&mut out, (tally.len() - 2) as u64);
        out.append(" more)");
        assert(out@ =~= lead + ("  (+"@ + dec((t.len() - 2) as nat) + " more)"@));
    } else {
        assert(out@ =~= lead + Seq::empty());
    }
    if in_transit.len() > 0 {
        let ghost head = out@;
        out.append("   ·   ");
        push_dec(&mut out, in_transit.len() as u64);
        out.append(" in transit (");
        push_fixed1(&mut out, worst_of(in_transit) as i64);
        out.append("s)");
        assert(out@ =~= head + ("   ·   "@ + dec(in_transit@.len()) + " in transit ("@ + fixed1(
            largest(in_transit@),
        ) + "s)"@));
    }
    out
}

/// How much of the army is inside its own chain of command; nothing at all
/// while the mechanic is off.
pub open spec fn coverage_reads(on: bool, nodes: nat, covered: nat, total: nat) -> Seq<char> {
    if !on {
        Seq::empty()
    } else {
        "Chain: "@ + dec(nodes) + (if nodes == 1 {
            " node"@
        } else {
            " nodes"@
        }) + " · "@ + dec(covered) + "/"@ + dec(total) + " in reach"@
    }
}

/// How much of the army is inside its own chain of command, for the top bar.
pub fn coverage_line(on: bool, nodes: usize, covered: usize, total: usize) -> (r: String)
    ensures
        r@ == coverage_reads(on, nodes as nat, covered as nat, total as nat),
{
    if !on {
        return nothing();
    }
    let mut s = owned("Chain: ");
    push_dec(&mut s, nodes as u64);
    if nodes == 1 {
        s.append(" node");
    } else {
        s.append(" nodes");
    }
    s.append(" · ");
    push_dec(&mut s, covered as u64);
    s.append("/");
    push_dec(&mut s, total as u64);
    s.append(" in reach");
    s
}

// ---------------------------------------------------------------------------
// Why
// ---------------------------------------------------------------------------

/// The tally of the answers: each distinct one in dictionary order, counted.
pub open spec fn reasons(answers: Seq<Seq<char>>) -> Seq<(Seq<char>, int)> {
    runs(alphabetical(answers))
}

/// The positions of a tally, commonest first; equal counts keep their order.
pub open spec fn ranking(t: Seq<(Seq<char>, int)>) -> Seq<usize> {
    values(in_order(Seq::new(t.len(), |i: int| ((-t[i].1) as i64, i as usize))))
}

pub open spec fn numbered(e: (Seq<char>, int)) -> Seq<char> {
    e.0 + " x"@ + dec(e.1 as nat)
}

/// The selection's answer to "why are you doing that?": one reason for all, or
/// the two commonest with how many gave them and how many more there are.
pub open spec fn why_reads(answers: Seq<Seq<char>>) -> Seq<char> {
    let t = reasons(answers);
    if answers.len() == 0 {
        Seq::empty()
    } else if t.len() == 1 {
        "Why: "@ + t[0].0
    } else {
        let order = ranking(t);
        let two = numbered(t[order[0] as int]) + "   "@ + numbered(t[order[1] as int]);
        if t.len() > 2 {
            "Why: "@ + two + "   (+"@ + dec((t.len() - 2) as nat) + " more)"@
        } else {
            "Why: "@ + two
        }
    }
}

/// The ranking names positions of the tally, each once, commonest first.
pub proof fn ranking_ranks(t: Seq<(Seq<char>, int)>)
    requires
        t.len() <= usize::MAX,
        forall|i: int| 0 <= i < t.len() ==> 0 <= (#[trigger] t[i]).1 <= i64::MAX,
    ensures
        ranking(t).len() == t.len(),
        forall|i: int| 0 <= i < t.len() ==> 0 <= (#[trigger] ranking(t)[i]) < t.len(),
        forall|i: int, j: int|
            0 <= i <= j < t.len() ==> t[(#[trigger] ranking(t)[i]) as int].1 >= t[(
            #[trigger] ranking(t)[j]) as int].1,
{
    broadcast use vstd::seq_lib::group_to_multiset_ensures;

    let keyed = Seq::new(t.len(), |i: int| ((-t[i].1) as i64, i as usize));
    in_order_sorts(keyed);
    let sorted = in_order(keyed);
    assert forall|i: int| 0 <= i < t.len() implies 0 <= (#[trigger] ranking(t)[i]) < t.len()
        && sorted[i].0 == -t[ranking(t)[i] as int].1 by {
        assert(sorted.to_multiset().count(sorted[i]) > 0);
        assert(keyed.to_multiset().count(sorted[i]) > 0);
        assert(keyed.contains(sorted[i]));
    }
    assert forall|i: int, j: int| 0 <= i <= j < t.len() implies t[(
    #[trigger] ranking(t)[i]) as int].1 >= t[(#[trigger] ranking(t)[j]) as int].1 by {
        assert(sorted[i].0 <= sorted[j].0);
    }
}

fn push_numbered(out: &mut String, e: &(String, usize))
    ensures
        final(out)@ == old(out)@ + numbered((e.0@, e.1 as int)),
{
    out.append(e.0.as_str());
    out.append(" x");
    push_dec(out, e.1 as u64);
    assert(out@ =~= old(out)@ + numbered((e.0@, e.1 as int)));
}

/// The selection's answer to "why are you doing that?". One unit answers for
/// itself; several answer as a tally, the majority's reason first.
pub fn why_line(answers: &Vec<String>) -> (r: String)
    requires
        answers@.len() <= i64::MAX,
    ensures
        r@ == why_reads(texts(answers@)),
{
    if answers.len() == 0 {
        return nothing();
    }
    let sorted = order_texts(answers);
    let tally = tally_texts(&sorted);
    let ghost t = reasons(texts(answers@));
    proof {
        alphabetical_sorts(texts(answers@));
        runs_count(alphabetical(texts(answers@)));
        assert(tally@.len() == t.len());
    }
    let mut out = owned("Why: ");
    if tally.len() == 1 {
        out.append(tally[0].0.as_str());
        assert(t[0].0 == tally@[0].0@);
        return out;
    }
    let mut keyed: Vec<(i64, usize)> = Vec::new();
    let ghost all = Seq::new(t.len(), |i: int| ((-t[i].1) as i64, i as usize));
    let mut i: usize = 0;
    while i < tally.len()
        invariant
            i <= tally.len(),
            tally_view(tally@) == t,
            t.len() == tally@.len(),
            forall|k: int| 0 <= k < t.len() ==> 0 <= (#[trigger] t[k]).1 <= i64::MAX,
            all == Seq::new(t.len(), |i: int| ((-t[i].1) as i64, i as usize)),
            keyed@ == all.take(i as int),
        decreases tally.len() - i,
    {
        assert(t[i as int].1 == tally@[i as int].1);
        keyed.push((-(tally[i].1 as i64), i));
        i = i + 1;
        assert(keyed@ =~= all.take(i as int));
    }
    assert(keyed@ =~= all);
    let order = order_by_key(&keyed);
    proof {
        ranking_ranks(t);
        assert(order@.len() == t.len());
    }
    let first: usize = order[0].1;
    let second: usize = order[1].1;
    assert(first == ranking(t)[0] && second == ranking(t)[1]);
    assert(t[first as int] == (tally@[first as int].0@, tally@[first as int].1 as int));
    assert(t[second as int] == (tally@[second as int].0@, tally@[second as int].1 as int));
    push_numbered(&mut out, &tally[first]);
    out.append("   ");
    push_numbered(&mut out, &tally[second]);
    assert(out@ =~= "Why: "@ + (numbered(t[first as int]) + "   "@ + numbered(t[second as int])));
    if tally.len() > 2 {
        out.append("   (+");
        push_dec(&mut out, (tally.len() - 2) as u64);
        out.append(" more)");
    }
    out
}

/// The line reads the same in whatever order the units answer.
pub proof fn reasons_have_no_order(answers: Seq<Seq<char>>, others: Seq<Seq<char>>)
    requires
        answers.to_multiset() == others.to_multiset(),
    ensures
        why_reads(answers) == why_reads(others),
{
    broadcast use vstd::seq_lib::group_to_multiset_ensures;

    alphabetical_forgets(answers, others);
    assert(answers.len() == answers.to_multiset().len());
    assert(others.len() == others.to_multiset().len());
}

proof fn one_run(list: Seq<Seq<char>>, a: Seq<char>)
    requires
        list.len() > 0,
        forall|i: int| 0 <= i < list.len() ==> list[i] == a,
    ensures
        runs(list) == seq![(a, list.len() as int)],
    decreases list.len(),
{
    let front = list.drop_last();
    if front.len() > 0 {
        one_run(front, a);
    } else {
        assert(runs(front) =~= Seq::empty());
    }
    assert(runs(list) =~= seq![(a, list.len() as int)]);
}

/// Silence where nobody answers, and only there; and where all give one reason
/// it is told plainly, without a count.
pub proof fn one_mind_answers_plainly(answers: Seq<Seq<char>>, a: Seq<char>)
    ensures
        why_reads(answers).len() == 0 <==> answers.len() == 0,
        answers.len() > 0 && (forall|i: int| 0 <= i < answers.len() ==> answers[i] == a)
            ==> why_reads(answers) == "Why: "@ + a,
{
    broadcast use vstd::seq_lib::group_to_multiset_ensures;

    reveal_strlit("Why: ");
    if answers.len() > 0 && (forall|i: int| 0 <= i < answers.len() ==> answers[i] == a) {
        alphabetical_sorts(answers);
        let sorted = alphabetical(answers);
        assert forall|i: int| 0 <= i < sorted.len() implies sorted[i] == a by {
            assert(sorted.to_multiset().count(sorted[i]) > 0);
            assert(answers.to_multiset().count(sorted[i]) > 0);
            assert(answers.contains(sorted[i]));
        }
        one_run(sorted, a);
    }
}

/// In an ordered list each run is one text with all of its occurrences.
proof fn runs_hold_all(list: Seq<Seq<char>>)
    requires
        text_ascending(list),
    ensures
        list.len() > 0 ==> runs(list).len() > 0 && runs(list).last().0 == list.last(),
        forall|k: int|
            0 <= k < runs(list).len() ==> (#[trigger] runs(list)[k]).1 == list.to_multiset().count(
                runs(list)[k].0,
            ),
        forall|i: int|
            0 <= i < list.len() ==> exists|k: int|
                0 <= k < runs(list).len() && (#[trigger] runs(list)[k]).0 == #[trigger] list[i],
    decreases list.len(),
{
    broadcast use vstd::seq_lib::group_to_multiset_ensures;

    if list.len() > 0 {
        let front = list.drop_last();
        let x = list.last();
        assert forall|i: int, j: int| 0 <= i <= j < front.len() implies text_le(
            #[trigger] front[i],
            #[trigger] front[j],
        ) by {
            assert(front[i] == list[i] && front[j] == list[j]);
        }
        runs_hold_all(front);
        assert(list =~= front.push(x));
        assert(list.to_multiset() =~= front.to_multiset().insert(x));
        let r = runs(front);
        let all = runs(list);
        let grown = r.len() > 0 && r.last().0 == x;
        if !grown {
            // The text is new: it comes after every text before it.
            assert(!front.contains(x)) by {
                if front.contains(x) {
                    let i = choose|i: int| 0 <= i < front.len() && front[i] == x;
                    let m = front.len() - 1;
                    assert(text_le(front[i], front[m]));
                    assert(text_le(list[m], list[m + 1]));
                    text_le_antisymmetric(front[m], x);
                }
            }
            assert(front.to_multiset().count(x) == 0);
        }
        runs_differ(front);
        assert forall|k: int| 0 <= k < all.len() implies (#[trigger] all[k]).1
            == list.to_multiset().count(all[k].0) by {
            if k < r.len() {
                assert(r[k].1 == front.to_multiset().count(r[k].0));
                if grown {
                    if k < r.len() - 1 {
                        assert(all[k] == r[k]);
                        assert(r[k].0 != r[r.len() - 1].0);
                    }
                } else {
                    assert(all[k] == r[k]);
                    assert(r[k].0 != x) by {
                        if r[k].0 == x {
                            runs_count(front);
                        }
                    }
                }
            }
        }
        assert forall|i: int| 0 <= i < list.len() implies exists|k: int|
            0 <= k < all.len() && (#[trigger] all[k]).0 == #[trigger] list[i] by {
            if i < front.len() {
                assert(front[i] == list[i]);
                let k = choose|k: int| 0 <= k < r.len() && (#[trigger] r[k]).0 == front[i];
                assert(all[k].0 == list[i]);
            } else {
                assert(all[all.len() - 1].0 == list[i]);
            }
        }
    }
}

/// In an ordered list no two runs are of one text.
proof fn runs_differ(list: Seq<Seq<char>>)
    requires
        text_ascending(list),
    ensures
        list.len() > 0 ==> runs(list).len() > 0 && runs(list).last().0 == list.last(),
        forall|i: int, j: int|
            0 <= i < j < runs(list).len() ==> (#[trigger] runs(list)[i]).0 != (
            #[trigger] runs(list)[j]).0,
        forall|k: int| 0 <= k < runs(list).len() ==> list.contains((#[trigger] runs(list)[k]).0),
    decreases list.len(),
{
    if list.len() > 0 {
        let front = list.drop_last();
        let x = list.last();
        assert forall|i: int, j: int| 0 <= i <= j < front.len() implies text_le(
            #[trigger] front[i],
            #[trigger] front[j],
        ) by {
            assert(front[i] == list[i] && front[j] == list[j]);
        }
        runs_differ(front);
        let r = runs(front);
        let all = runs(list);
        assert forall|k: int| 0 <= k < r.len() implies list.contains((#[trigger] r[k]).0) by {
            assert(front.contains(r[k].0));
            let i = choose|i: int| 0 <= i < front.len() && front[i] == r[k].0;
            assert(list[i] == r[k].0);
        }
        assert(list[list.len() - 1] == x);
        if !(r.len() > 0 && r.last().0 == x) {
            assert forall|k: int| 0 <= k < r.len() implies (#[trigger] r[k]).0 != x by {
                if r[k].0 == x {
                    assert(front.contains(x));
                    let i = choose|i: int| 0 <= i < front.len() && front[i] == x;
                    let m = front.len() - 1;
                    assert(text_le(front[i], front[m]));
                    assert(text_le(list[m], list[m + 1]));
                    text_le_antisymmetric(front[m], x);
                }
            }
        }
        assert forall|i: int, j: int| 0 <= i < j < all.len() implies (#[trigger] all[i]).0 != (
        #[trigger] all[j]).0 by {
            if j < r.len() {
                assert(all[i].0 == r[i].0 && all[j].0 == r[j].0);
                assert(r[i].0 != r[j].0);
            } else {
                assert(all[i].0 == r[i].0 && all[j].0 == x);
            }
        }
        assert forall|k: int| 0 <= k < all.len() implies list.contains((#[trigger] all[k]).0) by {
            if k < r.len() {
                assert(all[k].0 == r[k].0);
            } else {
                assert(all[k].0 == x);
            }
        }
    }
}

/// The reason a split selection leads with, and how many gave it.
pub open spec fn leading_reason(answers: Seq<Seq<char>>) -> (Seq<char>, int) {
    reasons(answers)[ranking(reasons(answers))[0] as int]
}

/// A selection that has split leads with a reason that no other outnumbers, and
/// with how many gave it.
pub proof fn the_majority_leads(answers: Seq<Seq<char>>, i: int, j: int)
    requires
        0 <= i < answers.len() <= i64::MAX,
        answers.len() <= usize::MAX,
        0 <= j < answers.len(),
        answers[i] != answers[j],
    ensures
        ({
            let lead = leading_reason(answers);
            let shown = "Why: "@ + numbered(lead);
            &&& lead.1 == answers.to_multiset().count(lead.0)
            &&& lead.1 > 0
            &&& forall|k: int|
                0 <= k < answers.len() ==> answers.to_multiset().count(#[trigger] answers[k])
                    <= lead.1
            &&& shown.len() <= why_reads(answers).len()
            &&& why_reads(answers).take(shown.len() as int) == shown
        }),
{
    broadcast use vstd::seq_lib::group_to_multiset_ensures;

    let sorted = alphabetical(answers);
    let t = reasons(answers);
    alphabetical_sorts(answers);
    runs_count(sorted);
    runs_hold_all(sorted);
    ranking_ranks(t);
    assert forall|k: int| 0 <= k < answers.len() implies exists|m: int|
        0 <= m < t.len() && (#[trigger] t[m]).0 == #[trigger] answers[k] by {
        assert(answers.to_multiset().count(answers[k]) > 0);
        assert(sorted.contains(answers[k]));
        let n = choose|n: int| 0 <= n < sorted.len() && sorted[n] == answers[k];
        assert(sorted[n] == answers[k]);
    }
    let a = choose|m: int| 0 <= m < t.len() && (#[trigger] t[m]).0 == answers[i];
    let b = choose|m: int| 0 <= m < t.len() && (#[trigger] t[m]).0 == answers[j];
    assert(a != b);
    assert(t.len() >= 2);
    let order = ranking(t);
    let lead = leading_reason(answers);
    assert(0 <= order[0] < t.len());
    assert forall|k: int| 0 <= k < answers.len() implies answers.to_multiset().count(
        #[trigger] answers[k],
    ) <= lead.1 by {
        let m = choose|m: int| 0 <= m < t.len() && (#[trigger] t[m]).0 == answers[k];
        let n = ranking_finds(t, m);
        assert(t[order[0] as int].1 >= t[order[n] as int].1);
    }
    let shown = "Why: "@ + numbered(lead);
    assert(why_reads(answers).take(shown.len() as int) =~= shown);
}

/// Every position of a tally is somewhere in its ranking.
proof fn ranking_finds(t: Seq<(Seq<char>, int)>, m: int) -> (n: int)
    requires
        t.len() <= usize::MAX,
        0 <= m < t.len(),
        forall|i: int| 0 <= i < t.len() ==> 0 <= (#[trigger] t[i]).1 <= i64::MAX,
    ensures
        0 <= n < t.len(),
        n < ranking(t).len(),
        ranking(t)[n] == m,
{
    broadcast use vstd::seq_lib::group_to_multiset_ensures;

    let keyed = Seq::new(t.len(), |i: int| ((-t[i].1) as i64, i as usize));
    in_order_sorts(keyed);
    let sorted = in_order(keyed);
    assert(keyed[m] == ((-t[m].1) as i64, m as usize));
    assert(keyed.to_multiset().count(keyed[m]) > 0);
    assert(sorted.contains(keyed[m]));
    choose|n: int| 0 <= n < sorted.len() && sorted[n] == keyed[m]
}

} // verus!
