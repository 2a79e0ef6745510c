//! Answering the co-commander: what the keys and buttons say, and what the
//! cards show.
//!
//! Times are thousandths of a second of the match.

use vstd::prelude::*;
use vstd::string::*;

use crate::alerts::{EventSeverity, Rgb};
use crate::lists::{picked, picked_step};
use crate::text::{
    dec, join, joined, owned, push_dec, push_text, push_thousandths, round_even, texts,
};
use crate::ui_state::{UiState, UiView};

verus! {

/// Most sentences on a card before the rest are counted.
pub const PROP_MAX_SENTENCES: usize = 4;

/// Which of the three refusals a veto is.
#[derive(Clone, Copy, PartialEq, Eq, Debug, Structural)]
pub enum VetoReason {
    NotNow,
    WrongTarget,
    Never,
}

pub open spec fn refusal(ctrl: bool, shift: bool) -> VetoReason {
    if ctrl {
        VetoReason::Never
    } else if shift {
        VetoReason::WrongTarget
    } else {
        VetoReason::NotNow
    }
}

/// Which refusal the keys held mean. The stronger one wins.
pub fn veto_reason(ctrl: bool, shift: bool) -> (r: VetoReason)
    ensures
        r == refusal(ctrl, shift),
{
    if ctrl {
        VetoReason::Never
    } else if shift {
        VetoReason::WrongTarget
    } else {
        VetoReason::NotNow
    }
}

/// An answer.
#[derive(Clone, Copy, PartialEq, Eq, Debug, Structural)]
pub enum Verdict {
    Approve,
    Veto(VetoReason),
}

/// An answer to one proposal.
#[derive(Clone, Copy, PartialEq, Eq, Debug, Structural)]
pub struct ProposalVerdict {
    pub id: u32,
    pub verdict: Verdict,
}

/// A proposal that waits for an answer.
#[derive(Debug)]
pub struct Proposal {
    pub id: u32,
    pub note: String,
    /// What would happen, one sentence each.
    pub sentences: Vec<String>,
    /// What it would disturb.
    pub conflicts: Vec<String>,
    pub urgent: bool,
    pub proposed_at: u64,
    pub expires_at: u64,
}

/// What was pressed.
#[derive(Debug)]
pub struct Answers {
    pub ctrl: bool,
    pub shift: bool,
    /// The approve key went down.
    pub approve: bool,
    /// The veto key went down.
    pub veto: bool,
    /// Buttons clicked: which card, and whether it was the approving one.
    pub clicks: Vec<(usize, bool)>,
}

pub open spec fn answer(approve: bool, a: Answers) -> Verdict {
    if approve {
        Verdict::Approve
    } else {
        Verdict::Veto(refusal(a.ctrl, a.shift))
    }
}

pub open spec fn clicked(pending: Seq<Proposal>, a: Answers) -> spec_fn((usize, bool)) -> Option<
    ProposalVerdict,
> {
    |c: (usize, bool)|
        if c.0 < pending.len() {
            Some(ProposalVerdict { id: pending[c.0 as int].id, verdict: answer(c.1, a) })
        } else {
            None
        }
}

/// What the keys say: they always mean the top card, and approving wins.
pub open spec fn keyed(pending: Seq<Proposal>, a: Answers) -> Seq<ProposalVerdict> {
    if pending.len() > 0 && (a.approve || a.veto) {
        seq![ProposalVerdict { id: pending[0].id, verdict: answer(a.approve, a) }]
    } else {
        Seq::empty()
    }
}

/// The answers of a frame: clicks name their card, and then the keys. There are
/// none once the game is over or while nobody has the seat.
pub open spec fn answered(
    game_over: bool,
    seated: bool,
    pending: Seq<Proposal>,
    a: Answers,
) -> Seq<ProposalVerdict> {
    if game_over || !seated {
        Seq::empty()
    } else {
        picked(a.clicks@, clicked(pending, a)) + keyed(pending, a)
    }
}

/// Turns keys and buttons into answers.
pub fn proposal_input(
    game_over: bool,
    seated: bool,
    pending: &Vec<Proposal>,
    a: &Answers,
) -> (r: Vec<ProposalVerdict>)
    ensures
        r@ == answered(game_over, seated, pending@, *a),
{
    let mut out: Vec<ProposalVerdict> = Vec::new();
    if game_over || !seated {
        assert(out@ =~= Seq::empty());
        return out;
    }
    let ghost f = clicked(pending@, *a);
    let mut i: usize = 0;
    while i < a.clicks.len()
        invariant
            i <= a.clicks.len(),
            f == clicked(pending@, *a),
            out@ == picked(a.clicks@.take(i as int), f),
        decreases a.clicks.len() - i,
    {
        proof {
            picked_step(a.clicks@, i as int, f);
        }
        let (card, approve) = a.clicks[i];
        if card < pending.len() {
            let verdict = if approve {
                Verdict::Approve
            } else {
                Verdict::Veto(veto_reason(a.ctrl, a.shift))
            };
            out.push(ProposalVerdict { id: pending[card].id, verdict });
        }
        i = i + 1;
    }
    assert(a.clicks@.take(i as int) =~= a.clicks@);
    if pending.len() > 0 && (a.approve || a.veto) {
        let verdict = if a.approve {
            Verdict::Approve
        } else {
            Verdict::Veto(veto_reason(a.ctrl, a.shift))
        };
        out.push(ProposalVerdict { id: pending[0].id, verdict });
    }
    assert(out@ =~= answered(game_over, seated, pending@, *a));
    out
}

/// With nothing pending no key and no click is an answer.
pub proof fn nothing_pending_nothing_answered(game_over: bool, seated: bool, a: Answers)
    ensures
        answered(game_over, seated, Seq::<Proposal>::empty(), a) == Seq::<ProposalVerdict>::empty(),
{
    none_clicked(a.clicks@, a);
    assert(answered(game_over, seated, Seq::<Proposal>::empty(), a) =~= Seq::<
        ProposalVerdict,
    >::empty());
}

proof fn none_clicked(clicks: Seq<(usize, bool)>, a: Answers)
    ensures
        picked(clicks, clicked(Seq::<Proposal>::empty(), a)).len() == 0,
    decreases clicks.len(),
{
    if clicks.len() > 0 {
        none_clicked(clicks.drop_last(), a);
    }
}

/// A held key never turns a yes into a no.
pub proof fn modifiers_never_refuse(a: Answers)
    ensures
        answer(true, a) == Verdict::Approve,
{
}

// ---------------------------------------------------------------------------
// The cards
// ---------------------------------------------------------------------------

impl Proposal {
    /// Time left, never negative.
    pub open spec fn left(&self, now: int) -> nat {
        if self.expires_at > now {
            (self.expires_at - now) as nat
        } else {
            0
        }
    }

    /// How long it has waited, no longer than it may; less than nothing where
    /// it is dated after now.
    pub open spec fn waited(&self, now: int, ttl: int) -> int {
        if now - self.proposed_at < ttl {
            now - self.proposed_at
        } else {
            ttl
        }
    }
}

/// A time in whole seconds, upward on a tie.
pub open spec fn seconds(millis: nat) -> nat {
    (millis + 500) / 1_000
}

/// A wait in whole seconds, away from zero on a tie; one below zero keeps its
/// sign even where it rounds to nothing.
pub open spec fn wait_reads(millis: int) -> Seq<char> {
    if millis < 0 {
        "-"@ + dec(seconds((-millis) as nat))
    } else {
        dec(seconds(millis as nat))
    }
}

/// The legend of the keys.
pub open spec fn legend() -> Seq<char> {
    "\n[Enter] approve   [Bksp] not now   +Shift wrong target   +Ctrl never"@
}

/// A card's headline. Only the top card carries the legend of the keys.
pub open spec fn head_reads(p: &Proposal, card: int, now: int, ttl: int) -> Seq<char> {
    "#"@ + dec(p.id as nat) + "  copilot"@ + (if p.urgent {
        "  URGENT"@
    } else {
        Seq::empty()
    }) + "   "@ + dec(round_even(p.left(now), 1_000)) + "s left   ("@ + wait_reads(
        p.waited(now, ttl),
    ) + "/"@ + dec(seconds(ttl as nat)) + ")"@ + (if card == 0 {
        legend()
    } else {
        Seq::empty()
    })
}

fn push_wait(out: &mut String, p: &Proposal, now: u64, ttl: u32)
    ensures
        final(out)@ == old(out)@ + wait_reads(p.waited(now as int, ttl as int)),
{
    if now < p.proposed_at {
        let early: u64 = p.proposed_at - now;
        out.append("-");
        push_dec(out, early / 1_000 + (early % 1_000 + 500) / 1_000);
    } else {
        let age: u64 = now - p.proposed_at;
        let waited: u64 = if age < ttl as u64 {
            age
        } else {
            ttl as u64
        };
        push_dec(out, (waited + 500) / 1_000);
    }
    assert(out@ =~= old(out)@ + wait_reads(p.waited(now as int, ttl as int)));
}

/// A card's headline. `ttl` is how long a proposal may wait.
pub fn proposal_head(p: &Proposal, card: usize, now: u64, ttl: u32) -> (r: String)
    ensures
        r@ == head_reads(p, card as int, now as int, ttl as int),
{
    let mut s = owned("#");
    push_dec(&mut s, p.id as u64);
    s.append("  copilot");
    if p.urgent {
        s.append("  URGENT");
    }
    s.append("   ");
    let left: u64 = if p.expires_at > now {
        p.expires_at - now
    } else {
        0
    };
    push_thousandths(&mut s, left);
    s.append("s left   (");
    push_wait(&mut s, p, now, ttl);
    s.append("/");
    push_dec(&mut s, (ttl as u64 + 500) / 1_000);
    s.append(")");
    if card == 0 {
        s.append("\n[Enter] approve   [Bksp] not now   +Shift wrong target   +Ctrl never");
    }
    assert(s@ =~= head_reads(p, card as int, now as int, ttl as int));
    s
}

pub open spec fn happens(list: Seq<Seq<char>>) -> Seq<Seq<char>> {
    list.map_values(|s: Seq<char>| "  - "@ + s)
}

pub open spec fn disturbs(list: Seq<Seq<char>>) -> Seq<Seq<char>> {
    list.map_values(|s: Seq<char>| "  ! "@ + s)
}

/// The lines of a card: what would happen, how much more, and what it would
/// disturb.
pub open spec fn body_lines(sentences: Seq<Seq<char>>, conflicts: Seq<Seq<char>>) -> Seq<Seq<char>> {
    (if sentences.len() > PROP_MAX_SENTENCES {
        happens(sentences.take(PROP_MAX_SENTENCES as int)).push(
            "  - (+"@ + dec((sentences.len() - PROP_MAX_SENTENCES) as nat) + " more)"@,
        )
    } else {
        happens(sentences)
    }) + disturbs(conflicts)
}

/// A card's lower half.
pub fn proposal_body(p: &Proposal) -> (r: String)
    ensures
        r@ == joined(body_lines(texts(p.sentences@), texts(p.conflicts@)), "\n"@),
{
    let mut lines: Vec<String> = Vec::new();
    let n: usize = if p.sentences.len() < PROP_MAX_SENTENCES {
        p.sentences.len()
    } else {
        PROP_MAX_SENTENCES
    };
    let ghost all = happens(texts(p.sentences@));
    let mut i: usize = 0;
    assert(texts(lines@) =~= all.take(0));
    while i < n
        invariant
            i <= n <= p.sentences.len(),
            all == happens(texts(p.sentences@)),
            texts(lines@) == all.take(i as int),
        decreases n - i,
    {
        let mut s = owned("  - ");
        s.append(p.sentences[i].as_str());
        push_text(&mut lines, s);
        assert(all.take(i + 1) =~= all.take(i as int).push(all[i as int]));
        i = i + 1;
    }
    if p.sentences.len() > PROP_MAX_SENTENCES {
        let mut s = owned("  - (+");
        push_dec(&mut s, (p.sentences.len() - PROP_MAX_SENTENCES) as u64);
        s.append(" more)");
        push_text(&mut lines, s);
        assert(happens(texts(p.sentences@).take(4)) =~= all.take(4));
    } else {
        assert(all.take(n as int) =~= all);
    }
    let ghost upper = texts(lines@);
    let ghost below = disturbs(texts(p.conflicts@));
    let mut j: usize = 0;
    assert(texts(lines@) =~= upper + below.take(0));
    while j < p.conflicts.len()
        invariant
            j <= p.conflicts.len(),
            below == disturbs(texts(p.conflicts@)),
            texts(lines@) == upper + below.take(j as int),
        decreases p.conflicts.len() - j,
    {
        let mut s = owned("  ! ");
        s.append(p.conflicts[j].as_str());
        push_text(&mut lines, s);
        assert(upper + below.take(j + 1) =~= (upper + below.take(j as int)).push(below[j as int]));
        j = j + 1;
    }
    assert(below.take(j as int) =~= below);
    join(&lines, "\n")
}

/// The co-commander's own colour.
pub open spec fn partner_rgb() -> Rgb {
    Rgb { r: 680, g: 630, b: 1000 }
}

/// A card's colour: the co-commander's, or the alerts' warning where it claims
/// that time is short.
pub fn accent_of(urgent: bool) -> (r: Rgb)
    ensures
        r == (if urgent {
            crate::alerts::severity_rgb(EventSeverity::Warning)
        } else {
            partner_rgb()
        }),
{
    if urgent {
        crate::alerts::severity_color(EventSeverity::Warning)
    } else {
        Rgb { r: 680, g: 630, b: 1000 }
    }
}

/// Notes how many cards are on screen, so that a click on one is not a click on
/// the world.
pub fn publish_cards(pending: &Vec<Proposal>, ui: &mut UiState)
    ensures
        final(ui)@ == (UiView { prop_cards: pending@.len() as usize, ..old(ui)@ }),
{
    ui.prop_cards = pending.len();
}

} // verus!
