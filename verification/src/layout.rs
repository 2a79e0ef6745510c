//! Where the HUD's panels lie for a window of a given size, and the minimap's
//! own coordinates.
//!
//! Screen lengths are thousandths of a logical pixel.

use vstd::prelude::*;

use crate::map::{
    rounded, round_div, rounded_is_bounded, rounded_is_close, Pos, MAP_HALF,
};
use crate::ui_state::Px;

verus! {

pub const TOP_BAR_H: i64 = 34_000;

/// Gap between console zones and the console's edge.
pub const PAD: i64 = 8_000;

/// The edge the minimap wants, and gets wherever there is room.
pub const MINIMAP_PX: i64 = 184_000;

/// What the console needs beyond the map itself: a gap above and below, and a
/// border of one pixel each side.
pub const MINIMAP_CHROME: i64 = 18_000;

/// Never shrink the map past the point where a dot is a dot.
pub const MINIMAP_MIN_PX: i64 = 120_000;

/// Edge of a command tile.
pub const CMD_PX: i64 = 52_000;

pub const CMD_GAP: i64 = 6_000;

/// The line under the tiles that says which page is showing.
pub const CMD_PAGE_LINE_H: i64 = 14_000;

/// Width the alert stack wants.
pub const NOTIF_W: i64 = 322_000;

/// Height of one alert row for hit tests: two lines of text.
pub const NOTIF_ROW_HIT_H: i64 = 41_000;

/// Width the proposal panel wants.
pub const PROP_W: i64 = 360_000;

pub const PROP_GAP: i64 = 6_000;

/// Height of one proposal card for hit tests.
pub const PROP_CARD_HIT_H: i64 = 148_000;

/// The share of a window's width that the alert stack may take, in hundredths.
pub const NOTIF_MAX_FRAC: i64 = 52;

/// The share of a window's width that the proposal panel may take, in
/// hundredths.
pub const PROP_MAX_FRAC: i64 = 44;

/// The share of a window's width that the minimap may take, in hundredths.
pub const MINIMAP_MAX_W_FRAC: i64 = 28;

/// The share of a window's height that the console may take, in hundredths.
pub const CONSOLE_MAX_H_FRAC: i64 = 34;

/// The height of the command card: three rows of tiles, their gaps, the page
/// line and the margins.
pub const CARD_H: i64 = 198_000;

/// The size of the window.
#[derive(Clone, Copy, PartialEq, Eq, Debug, Structural)]
pub struct Window {
    pub width: i32,
    pub height: i32,
}

/// What the console and the minimap measure.
#[derive(Clone, Copy, PartialEq, Eq, Debug, Structural)]
pub struct HudLayout {
    pub console_h: i64,
    pub minimap_px: i64,
}

/// A rectangle on the screen, edges included.
#[derive(Clone, Copy, PartialEq, Eq, Debug, Structural)]
pub struct Rect {
    pub x0: i128,
    pub y0: i128,
    pub x1: i128,
    pub y1: i128,
}

impl Rect {
    pub open spec fn has(self, p: Px) -> bool {
        self.x0 <= p.x <= self.x1 && self.y0 <= p.y <= self.y1
    }

    /// Whether a point lies in the rectangle.
    pub fn contains(self, p: Px) -> (r: bool)
        ensures
            r == self.has(p),
    {
        self.x0 <= p.x as i128 && p.x as i128 <= self.x1 && self.y0 <= p.y as i128 && p.y as i128
            <= self.y1
    }

    /// The rectangle between two corners, in whatever order they come.
    pub open spec fn between(a: Px, b: Px) -> Rect {
        Rect {
            x0: least(a.x as int, b.x as int) as i128,
            y0: least(a.y as int, b.y as int) as i128,
            x1: most(a.x as int, b.x as int) as i128,
            y1: most(a.y as int, b.y as int) as i128,
        }
    }

    /// The rectangle between two corners.
    pub fn from_corners(a: Px, b: Px) -> (r: Rect)
        ensures
            r == Self::between(a, b),
            r.has(a),
            r.has(b),
    {
        let (x0, x1): (i32, i32) = if a.x < b.x {
            (a.x, b.x)
        } else {
            (b.x, a.x)
        };
        let (y0, y1): (i32, i32) = if a.y < b.y {
            (a.y, b.y)
        } else {
            (b.y, a.y)
        };
        Rect { x0: x0 as i128, y0: y0 as i128, x1: x1 as i128, y1: y1 as i128 }
    }
}

pub open spec fn least(a: int, b: int) -> int {
    if a < b {
        a
    } else {
        b
    }
}

pub open spec fn most(a: int, b: int) -> int {
    if a < b {
        b
    } else {
        a
    }
}

fn smaller(a: i64, b: i64) -> (r: i64)
    ensures
        r == least(a as int, b as int),
{
    if a < b {
        a
    } else {
        b
    }
}

fn larger(a: i64, b: i64) -> (r: i64)
    ensures
        r == most(a as int, b as int),
{
    if a < b {
        b
    } else {
        a
    }
}

/// A share of a length, in hundredths. A window has no negative size.
pub open spec fn share(len: int, hundredths: int) -> int {
    if len <= 0 {
        0
    } else {
        len * hundredths / 100
    }
}

fn share_of(len: i32, hundredths: i64) -> (r: i64)
    requires
        0 <= hundredths <= 100,
    ensures
        r == share(len as int, hundredths as int),
        0 <= r <= 0x7fff_ffff,
{
    if len <= 0 {
        return 0;
    }
    let n: i64 = len as i64;
    assert(0 <= n * hundredths <= n * 100) by (nonlinear_arith)
        requires
            0 <= hundredths <= 100,
            0 <= n,
    ;
    n * hundredths / 100
}

/// The console's height: as tall as a full minimap wants, within its share of
/// the window, but never so short that a command tile is cut.
pub open spec fn console_height(window: Window) -> int {
    most(
        least(
            MINIMAP_PX + MINIMAP_CHROME,
            most(share(window.height as int, CONSOLE_MAX_H_FRAC as int), CARD_H as int),
        ),
        CARD_H as int,
    )
}

/// The minimap's edge: what the console leaves, within its share of the
/// window's width, and inside its legible range.
pub open spec fn minimap_edge(window: Window) -> int {
    crate::map::clamped(
        least(
            console_height(window) - MINIMAP_CHROME,
            share(window.width as int, MINIMAP_MAX_W_FRAC as int),
        ),
        MINIMAP_MIN_PX as int,
        MINIMAP_PX as int,
    )
}

pub open spec fn layout(window: Window) -> HudLayout {
    HudLayout {
        console_h: console_height(window) as i64,
        minimap_px: minimap_edge(window) as i64,
    }
}

/// What the console and the minimap measure in a window.
pub fn hud_layout(window: Window) -> (r: HudLayout)
    ensures
        r == layout(window),
{
    let console_h: i64 = larger(
        smaller(
            MINIMAP_PX + MINIMAP_CHROME,
            larger(share_of(window.height, CONSOLE_MAX_H_FRAC), CARD_H),
        ),
        CARD_H,
    );
    let room: i64 = smaller(
        console_h - MINIMAP_CHROME,
        share_of(window.width, MINIMAP_MAX_W_FRAC),
    );
    let minimap_px: i64 = if room < MINIMAP_MIN_PX {
        MINIMAP_MIN_PX
    } else if room > MINIMAP_PX {
        MINIMAP_PX
    } else {
        room
    };
    HudLayout { console_h, minimap_px }
}

impl Default for HudLayout {
    /// The layout at full size, for whatever is built before a window is there.
    fn default() -> (r: Self)
        ensures
            r == layout(Window { width: 1_280_000, height: 800_000 }),
    {
        hud_layout(Window { width: 1_280_000, height: 800_000 })
    }
}

/// At every window size the minimap fits its console, no command tile is cut,
/// the console is no taller than a full minimap needs, and the minimap stays
/// legible.
pub proof fn the_console_holds_its_contents(window: Window)
    ensures
        minimap_edge(window) + MINIMAP_CHROME <= console_height(window),
        console_height(window) >= 3 * CMD_PX + 2 * CMD_GAP + CMD_PAGE_LINE_H + 2 * PAD,
        console_height(window) <= MINIMAP_PX + MINIMAP_CHROME,
        MINIMAP_MIN_PX <= minimap_edge(window) <= MINIMAP_PX,
{
}

/// How wide the alert stack renders.
pub open spec fn alert_width(window: Window) -> int {
    least(NOTIF_W as int, share(window.width as int, NOTIF_MAX_FRAC as int))
}

/// Where the alert stack starts: pinned to the right edge, and never off the
/// left one.
pub open spec fn alert_left(window: Window) -> int {
    most(window.width - PAD - alert_width(window), 0)
}

/// Where the proposal panel ends: as wide as it wants to be, unless the window
/// is too narrow for that, and never past where the alert stack starts.
pub open spec fn proposal_right(window: Window) -> int {
    least(
        PAD + least(PROP_W as int, share(window.width as int, PROP_MAX_FRAC as int)),
        alert_left(window),
    )
}

/// Where the proposal panel starts: one gap in, while there is room for a gap.
pub open spec fn proposal_left(window: Window) -> int {
    least(PAD as int, proposal_right(window))
}

/// How wide the proposal panel renders.
pub open spec fn proposal_width(window: Window) -> int {
    proposal_right(window) - proposal_left(window)
}

/// How wide the alert stack renders: what it wants, unless the window is too
/// narrow for that.
pub fn notif_width(window: Window) -> (r: i64)
    ensures
        r == alert_width(window),
        0 <= r <= NOTIF_W,
{
    smaller(NOTIF_W, share_of(window.width, NOTIF_MAX_FRAC))
}

fn notif_left(window: Window) -> (r: i64)
    ensures
        r == alert_left(window),
        0 <= r <= i32::MAX,
{
    larger(window.width as i64 - PAD - notif_width(window), 0)
}

fn prop_right(window: Window) -> (r: i64)
    ensures
        r == proposal_right(window),
        0 <= r <= i32::MAX,
{
    smaller(PAD + smaller(PROP_W, share_of(window.width, PROP_MAX_FRAC)), notif_left(window))
}

/// How wide the proposal panel renders.
pub fn prop_width(window: Window) -> (r: i64)
    ensures
        r == proposal_width(window),
        0 <= r <= PROP_W,
{
    let right: i64 = prop_right(window);
    right - smaller(PAD, right)
}

/// The alert stack's rectangle: top right, and as tall as it has rows.
pub open spec fn alert_rect(window: Window, rows: nat) -> Option<Rect> {
    if rows == 0 {
        None
    } else {
        let left = alert_left(window);
        Some(
            Rect {
                x0: left as i128,
                y0: (TOP_BAR_H + PAD) as i128,
                x1: (left + alert_width(window)) as i128,
                y1: (TOP_BAR_H + PAD + rows * NOTIF_ROW_HIT_H) as i128,
            },
        )
    }
}

/// The proposal panel's rectangle: top left, and as tall as it has cards.
pub open spec fn proposal_rect(window: Window, cards: nat) -> Option<Rect> {
    if cards == 0 {
        None
    } else {
        Some(
            Rect {
                x0: proposal_left(window) as i128,
                y0: (TOP_BAR_H + PAD) as i128,
                x1: proposal_right(window) as i128,
                y1: (TOP_BAR_H + PAD + cards * (PROP_CARD_HIT_H + PROP_GAP)) as i128,
            },
        )
    }
}

/// The alert stack's rectangle, and nothing while it is empty.
pub fn notif_rect(window: Window, rows: usize) -> (r: Option<Rect>)
    ensures
        r == alert_rect(window, rows as nat),
{
    if rows == 0 {
        return None;
    }
    let width: i64 = notif_width(window);
    let left: i64 = notif_left(window);
    Some(
        Rect {
            x0: left as i128,
            y0: (TOP_BAR_H + PAD) as i128,
            x1: (left + width) as i128,
            y1: (TOP_BAR_H + PAD) as i128 + rows as i128 * 41_000,
        },
    )
}

/// The proposal panel's rectangle, and nothing while no card is pending.
pub fn prop_rect(window: Window, cards: usize) -> (r: Option<Rect>)
    ensures
        r == proposal_rect(window, cards as nat),
{
    if cards == 0 {
        return None;
    }
    let right: i64 = prop_right(window);
    Some(
        Rect {
            x0: smaller(PAD, right) as i128,
            y0: (TOP_BAR_H + PAD) as i128,
            x1: right as i128,
            y1: (TOP_BAR_H + PAD) as i128 + cards as i128 * 154_000,
        },
    )
}

/// In every window the proposal panel ends where the alert stack starts or
/// before, however many cards and rows they hold.
pub proof fn the_floating_panels_never_overlap(window: Window, rows: nat, cards: nat)
    requires
        rows > 0,
        cards > 0,
    ensures
        proposal_rect(window, cards) is Some,
        alert_rect(window, rows) is Some,
        proposal_rect(window, cards)->0.x0 <= proposal_rect(window, cards)->0.x1,
        proposal_rect(window, cards)->0.x1 <= alert_rect(window, rows)->0.x0,
        alert_rect(window, rows)->0.x0 <= alert_rect(window, rows)->0.x1,
{
}

/// From a width of four hundred pixels on each panel gets all it may ask for.
pub proof fn wide_windows_hold_both_panels(window: Window)
    requires
        window.width >= 400_000,
    ensures
        proposal_width(window) == least(
            PROP_W as int,
            share(window.width as int, PROP_MAX_FRAC as int),
        ),
        alert_width(window) + proposal_width(window) + 2 * PAD <= window.width,
{
}

/// The minimap's rectangle: the console's top left, one gap in.
pub open spec fn map_rect(window: Window, hud: HudLayout) -> Rect {
    let top = window.height - hud.console_h + PAD;
    Rect {
        x0: PAD as i128,
        y0: top as i128,
        x1: (PAD + hud.minimap_px) as i128,
        y1: (top + hud.minimap_px) as i128,
    }
}

/// The minimap's rectangle.
pub fn minimap_rect(window: Window, hud: HudLayout) -> (r: Rect)
    ensures
        r == map_rect(window, hud),
{
    let top: i128 = window.height as i128 - hud.console_h as i128 + PAD as i128;
    Rect {
        x0: PAD as i128,
        y0: top,
        x1: PAD as i128 + hud.minimap_px as i128,
        y1: top + hud.minimap_px as i128,
    }
}

/// Whether a point lies on a panel of the HUD: the bar, the console, and the
/// two floating panels while they have something in them.
pub open spec fn on_hud(
    cursor: Px,
    window: Window,
    notif_rows: nat,
    prop_cards: nat,
    hud: HudLayout,
) -> bool {
    ||| cursor.y < TOP_BAR_H
    ||| cursor.y > window.height - hud.console_h
    ||| alert_rect(window, notif_rows) is Some && alert_rect(window, notif_rows)->0.has(cursor)
    ||| proposal_rect(window, prop_cards) is Some && proposal_rect(window, prop_cards)->0.has(
        cursor,
    )
}

/// Whether the cursor is on a panel of the HUD, and so not on the world.
pub fn cursor_over_hud(
    cursor: Px,
    window: Window,
    notif_rows: usize,
    prop_cards: usize,
    hud: HudLayout,
) -> (r: bool)
    ensures
        r == on_hud(cursor, window, notif_rows as nat, prop_cards as nat, hud),
{
    if (cursor.y as i64) < TOP_BAR_H {
        return true;
    }
    if cursor.y as i128 > window.height as i128 - hud.console_h as i128 {
        return true;
    }
    if let Some(rect) = notif_rect(window, notif_rows) {
        if rect.contains(cursor) {
            return true;
        }
    }
    if let Some(rect) = prop_rect(window, prop_cards) {
        if rect.contains(cursor) {
            return true;
        }
    }
    false
}

// ---------------------------------------------------------------------------
// The minimap's coordinates
// ---------------------------------------------------------------------------

/// A point of the map.
pub open spec fn on_ground(p: Pos) -> bool {
    -MAP_HALF <= p.x <= MAP_HALF && -MAP_HALF <= p.z <= MAP_HALF
}

/// Where a point of the ground lies on a minimap `px` wide: east is right and
/// north is up.
pub open spec fn to_minimap(p: Pos, px: int) -> (int, int) {
    (rounded((p.x + MAP_HALF) * px, 2 * MAP_HALF), rounded((MAP_HALF - p.z) * px, 2 * MAP_HALF))
}

/// Which point of the ground a minimap offset names.
pub open spec fn from_minimap(u: int, v: int, px: int) -> Pos {
    Pos {
        x: (rounded(u * (2 * MAP_HALF), px) - MAP_HALF) as i32,
        z: (MAP_HALF - rounded(v * (2 * MAP_HALF), px)) as i32,
    }
}

/// Where a point of the ground lies on the minimap.
pub fn world_to_minimap(p: Pos, px: i64) -> (r: (i64, i64))
    requires
        0 <= px <= 1_000_000_000,
    ensures
        (r.0 as int, r.1 as int) == to_minimap(p, px as int),
        on_ground(p) ==> 0 <= r.0 <= px && 0 <= r.1 <= px,
        -11_000 * px <= r.0 <= 11_000 * px,
        -11_000 * px <= r.1 <= 11_000 * px,
{
    let a: i128 = p.x as i128 + MAP_HALF as i128;
    let b: i128 = MAP_HALF as i128 - p.z as i128;
    proof {
        assert(-11_000 * px * 200_000 <= a * px <= 11_000 * px * 200_000 && -11_000 * px * 200_000
            <= b * px <= 11_000 * px * 200_000) by (nonlinear_arith)
            requires
                -2_200_000_000 <= a <= 2_200_000_000,
                -2_200_000_000 <= b <= 2_200_000_000,
                0 <= px,
        ;
        rounded_is_bounded(a * px, 200_000, -11_000 * px, 11_000 * px);
        rounded_is_bounded(b * px, 200_000, -11_000 * px, 11_000 * px);
        if on_ground(p) {
            assert(0 <= a * px <= px * 200_000 && 0 <= b * px <= px * 200_000) by (nonlinear_arith)
                requires
                    0 <= a <= 200_000,
                    0 <= b <= 200_000,
                    0 <= px,
            ;
            rounded_is_bounded(a * px, 200_000, 0, px as int);
            rounded_is_bounded(b * px, 200_000, 0, px as int);
        }
    }
    (round_div(a * px as i128, 200_000) as i64, round_div(b * px as i128, 200_000) as i64)
}

/// Which point of the ground a minimap offset names.
pub fn minimap_to_world(u: i64, v: i64, px: i64) -> (r: Pos)
    requires
        0 < px <= 1_000_000_000,
        0 <= u <= px,
        0 <= v <= px,
    ensures
        r == from_minimap(u as int, v as int, px as int),
        on_ground(r),
{
    proof {
        assert(0 <= u * 200_000 <= 200_000 * px && 0 <= v * 200_000 <= 200_000 * px);
        rounded_is_bounded(u * 200_000, px as int, 0, 200_000);
        rounded_is_bounded(v * 200_000, px as int, 0, 200_000);
    }
    let x: i128 = round_div(u as i128 * 200_000, px as i128) - MAP_HALF as i128;
    let z: i128 = MAP_HALF as i128 - round_div(v as i128 * 200_000, px as i128);
    Pos { x: x as i32, z: z as i32 }
}

proof fn round_trip(a: int, px: int)
    requires
        0 <= a <= 200_000,
        MINIMAP_MIN_PX <= px <= MINIMAP_PX,
    ensures
        ({
            let u = rounded(a * px, 200_000);
            let back = rounded(u * 200_000, px);
            &&& 0 <= back <= 200_000
            &&& -1 <= back - a <= 1
        }),
{
    let u = rounded(a * px, 200_000);
    let back = rounded(u * 200_000, px);
    assert(0 <= a * px <= px * 200_000) by (nonlinear_arith)
        requires
            0 <= a <= 200_000,
            0 <= px,
    ;
    rounded_is_bounded(a * px, 200_000, 0, px);
    assert(0 * px <= u * 200_000 <= 200_000 * px);
    rounded_is_bounded(u * 200_000, px, 0, 200_000);
    rounded_is_close(a * px, 200_000);
    rounded_is_close(u * 200_000, px);
    let n = u * 200_000;
    assert(2 * n - px < 2 * (px * back) <= 2 * n + px) by (nonlinear_arith)
        requires
            2 * n - px < 2 * px * back <= 2 * n + px,
    ;
    let ap = a * px;
    let bp = back * px;
    assert(px * back == bp) by (nonlinear_arith)
        requires
            bp == back * px,
    ;
    assert((back - a) * px == bp - ap) by (nonlinear_arith)
        requires
            bp == back * px,
            ap == a * px,
    ;
    assert(-2 * px < bp - ap < 2 * px);
    assert(-2 < back - a < 2) by (nonlinear_arith)
        requires
            -2 * px < (back - a) * px < 2 * px,
            px > 0,
    ;
}

/// A click on the minimap lands where the map was drawn: whatever size the
/// minimap has, there and back moves a point by at most a thousandth of a world
/// unit each way.
pub proof fn minimap_round_trips(p: Pos, window: Window)
    requires
        on_ground(p),
    ensures
        ({
            let px = minimap_edge(window);
            let uv = to_minimap(p, px);
            let back = from_minimap(uv.0, uv.1, px);
            &&& -1 <= back.x - p.x <= 1
            &&& -1 <= back.z - p.z <= 1
        }),
{
    let px = minimap_edge(window);
    round_trip(p.x + MAP_HALF, px);
    round_trip(MAP_HALF - p.z, px);
}

} // verus!
