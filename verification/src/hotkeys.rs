//! The hotkey registry: which key fires which action.
//!
//! The registry itself is data. The library asks it one question, "what key is
//! this action on?", and draws every tile's key from the answer.

use vstd::prelude::*;

use crate::catalog::BuildingKind;
use crate::lists::{first_some, first_some_step, first_stays};

verus! {

/// The keys the client listens to.
#[derive(Clone, Copy, PartialEq, Eq, Debug, Structural)]
pub enum Key {
    /// A letter key, by its capital.
    Letter(char),
    Digit(u8),
    Escape,
    Tab,
    Space,
    Enter,
    Backspace,
    Minus,
    Equal,
    BracketLeft,
    BracketRight,
    Semicolon,
    Quote,
    Comma,
    Period,
    Function(u8),
}

/// Everything a key can be bound to on a card.
#[derive(Clone, Copy, PartialEq, Eq, Debug, Structural)]
pub enum Action {
    AttackMove,
    Stop,
    HeroAbility(usize),
    ItemSlot(usize),
    TrainSlot(usize),
    BuildingAbility(usize),
    TierUp,
    ShopSlot(usize),
    QuickGuard,
    QuickFallback,
    QuickPriority,
    QuickAutoCast,
    ModeToggle,
    PostureDefend,
    PosturePush,
    PostureForage,
    PostureEscort,
    StandDown,
    CycleFallback,
    CycleLeash,
    CyclePriority,
    AutoCastSlot(usize),
    HomeGuard,
    TemplateSquad,
    TemplateFallback,
    TemplatePriority,
    TemplateAutoCast,
    TemplateClear,
    MarkRegion,
    ClearRegions,
    NudgeFallbackDown,
    NudgeFallbackUp,
    NudgeLeashDown,
    NudgeLeashUp,
    NudgeRegionDown,
    NudgeRegionUp,
}

/// The three keys that are on no card: they mean the same thing on all of them.
pub const CANCEL: Key = Key::Escape;

pub const IDLE_WORKER: Key = Key::Period;

pub const NEXT_CARD_PAGE: Key = Key::Tab;

/// The registry: one row per bound action, and the build card of the player's
/// race in card order.
#[derive(Debug)]
pub struct Hotkeys {
    pub rows: Vec<(Action, Key)>,
    pub builds: Vec<(BuildingKind, Key)>,
}

/// The key of a row, when the row is about `action`.
pub open spec fn on_row(action: Action) -> spec_fn((Action, Key)) -> Option<Key> {
    |row: (Action, Key)|
        if row.0 == action {
            Some(row.1)
        } else {
            None
        }
}

impl Hotkeys {
    /// The key of the first row for `action`.
    pub open spec fn key_of(&self, action: Action) -> Option<Key> {
        first_some(self.rows@, on_row(action))
    }

    /// The key of an action that must be bound; Escape stands in for a row
    /// that is missing from the registry.
    pub open spec fn bound(&self, action: Action) -> Key {
        match self.key_of(action) {
            Some(key) => key,
            None => Key::Escape,
        }
    }

    /// The key of the first row for `action`.
    pub fn key(&self, action: Action) -> (r: Option<Key>)
        ensures
            r == self.key_of(action),
    {
        let mut i: usize = 0;
        while i < self.rows.len()
            invariant
                i <= self.rows.len(),
                first_some(self.rows@.take(i as int), on_row(action)) is None,
            decreases self.rows.len() - i,
        {
            proof {
                first_some_step(self.rows@, i as int, on_row(action));
            }
            if self.rows[i].0 == action {
                let found = self.rows[i].1;
                proof {
                    first_stays(self.rows@, i + 1, on_row(action));
                }
                return Some(found);
            }
            i = i + 1;
        }
        assert(self.rows@.take(i as int) =~= self.rows@);
        None
    }

    /// The key of an action that must be bound.
    pub fn bind(&self, action: Action) -> (r: Key)
        ensures
            r == self.bound(action),
    {
        match self.key(action) {
            Some(key) => key,
            None => Key::Escape,
        }
    }
}

} // verus!
