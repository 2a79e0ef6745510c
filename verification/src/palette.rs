//! The colours of the HUD: tiles, bars, the supply line and the banner.

use vstd::prelude::*;

use crate::alerts::Rgb;
use crate::hud::{Tint, Winner};
use crate::minimap::{lighten, shifted};
use crate::panel::{CardFacts, Face, HpTint};

verus! {

pub open spec fn white() -> Rgb {
    Rgb { r: 1_000, g: 1_000, b: 1_000 }
}

/// A slot with nothing to say.
pub open spec fn slot() -> Rgb {
    Rgb { r: 130, g: 150, b: 200 }
}

/// What the mouse does to a tile.
#[derive(Clone, Copy, PartialEq, Eq, Debug, Structural)]
pub enum Touch {
    Away,
    Over,
    Down,
}

/// A colour, made lighter.
pub open spec fn lightened(c: Rgb, amount: int) -> Rgb {
    Rgb {
        r: shifted(c.r as int, amount) as u16,
        g: shifted(c.g as int, amount) as u16,
        b: shifted(c.b as int, amount) as u16,
    }
}

/// A tile's colour, lighter under the mouse and lighter still when pressed.
pub open spec fn touched(base: Rgb, touch: Touch, over: int, down: int) -> Rgb {
    match touch {
        Touch::Away => base,
        Touch::Over => lightened(base, over),
        Touch::Down => lightened(base, down),
    }
}

fn touch_up(base: Rgb, touch: Touch, over: i64, down: i64) -> (r: Rgb)
    requires
        0 <= over <= 1_000,
        0 <= down <= 1_000,
    ensures
        r == touched(base, touch, over as int, down as int),
{
    match touch {
        Touch::Away => base,
        Touch::Over => lighten(base, over),
        Touch::Down => lighten(base, down),
    }
}

/// What a command tile wears while the mouse is elsewhere.
pub open spec fn tile_base(tint: Tint) -> Rgb {
    match tint {
        Tint::Dark => Rgb { r: 90, g: 90, b: 120 },
        Tint::Armed => Rgb { r: 300, g: 550, b: 300 },
        Tint::Poor => Rgb { r: 240, g: 110, b: 110 },
        Tint::Plain => slot(),
    }
}

/// The colour of a command tile.
pub fn tile_fill(tint: Tint, touch: Touch) -> (r: Rgb)
    ensures
        r == touched(tile_base(tint), touch, 120, 220),
{
    let base = match tint {
        Tint::Dark => Rgb { r: 90, g: 90, b: 120 },
        Tint::Armed => Rgb { r: 300, g: 550, b: 300 },
        Tint::Poor => Rgb { r: 240, g: 110, b: 110 },
        Tint::Plain => Rgb { r: 130, g: 150, b: 200 },
    };
    touch_up(base, touch, 120, 220)
}

/// What a selection tile wears: the colour of its side, a little lighter for a
/// building.
pub open spec fn card_base(c: CardFacts, side: Rgb) -> Rgb {
    if c.face is Building {
        lightened(side, 120)
    } else {
        side
    }
}

/// The colour of a selection tile. `side` is the colour of its owner.
pub fn card_fill(c: &CardFacts, side: Rgb, touch: Touch) -> (r: Rgb)
    ensures
        r == touched(card_base(*c, side), touch, 160, 280),
{
    let base = match c.face {
        Face::Building(_) => lighten(side, 120),
        _ => side,
    };
    touch_up(base, touch, 160, 280)
}

/// The colour of a queue tile: a warning that a click cancels.
pub fn queue_fill(touch: Touch) -> (r: Rgb)
    ensures
        r == (if touch == Touch::Away {
            slot()
        } else {
            Rgb { r: 420, g: 200, b: 200 }
        }),
{
    match touch {
        Touch::Away => Rgb { r: 130, g: 150, b: 200 },
        _ => Rgb { r: 420, g: 200, b: 200 },
    }
}

/// The colour of a health bar.
pub fn health_fill(tint: HpTint) -> (r: Rgb)
    ensures
        r == (match tint {
            HpTint::Green => Rgb { r: 300, g: 800, b: 350 },
            HpTint::Yellow => Rgb { r: 900, g: 760, b: 250 },
            HpTint::Red => Rgb { r: 880, g: 250, b: 220 },
        }),
{
    match tint {
        HpTint::Green => Rgb { r: 300, g: 800, b: 350 },
        HpTint::Yellow => Rgb { r: 900, g: 760, b: 250 },
        HpTint::Red => Rgb { r: 880, g: 250, b: 220 },
    }
}

/// The colour of the supply line: red once nothing more can be trained.
pub fn supply_ink(blocked: bool) -> (r: Rgb)
    ensures
        r == (if blocked {
            Rgb { r: 1_000, g: 350, b: 300 }
        } else {
            white()
        }),
{
    if blocked {
        Rgb { r: 1_000, g: 350, b: 300 }
    } else {
        Rgb { r: 1_000, g: 1_000, b: 1_000 }
    }
}

/// The banner's colour: that of the winning side to a watcher, that of the
/// outcome to a player.
pub open spec fn banner_wears(winner: Option<Winner>, watched: bool) -> Rgb {
    match winner {
        Some(Winner::Human) => if watched {
            Rgb { r: 450, g: 650, b: 1_000 }
        } else {
            Rgb { r: 450, g: 1_000, b: 500 }
        },
        Some(Winner::Claude) => if watched {
            Rgb { r: 1_000, g: 450, b: 350 }
        } else {
            Rgb { r: 1_000, g: 350, b: 300 }
        },
        None => white(),
    }
}

/// The banner's colour.
pub fn banner_ink(winner: Option<Winner>, watched: bool) -> (r: Rgb)
    ensures
        r == banner_wears(winner, watched),
{
    match winner {
        Some(Winner::Human) => if watched {
            Rgb { r: 450, g: 650, b: 1_000 }
        } else {
            Rgb { r: 450, g: 1_000, b: 500 }
        },
        Some(Winner::Claude) => if watched {
            Rgb { r: 1_000, g: 450, b: 350 }
        } else {
            Rgb { r: 1_000, g: 350, b: 300 }
        },
        None => Rgb { r: 1_000, g: 1_000, b: 1_000 },
    }
}

} // verus!
