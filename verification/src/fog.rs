//! The fog: how dark each state is, what it hides, and how memories fade.

use vstd::prelude::*;

use crate::catalog::ResourceKind;
use crate::map::Pos;
use crate::nav::{NavGrid, CELLS};
use crate::route::cell_at;

verus! {

/// What the player knows of a cell.
#[derive(Clone, Copy, PartialEq, Eq, Debug, Structural)]
pub enum CellVis {
    Unexplored,
    /// Seen once, and remembered.
    Explored,
    Visible,
}

/// How much of a thing's colour survives, in thousandths.
pub open spec fn shade(cell: CellVis) -> int {
    match cell {
        CellVis::Unexplored => 120,
        CellVis::Explored => 560,
        CellVis::Visible => 1_000,
    }
}

/// How much black lies over a cell, in thousandths.
pub open spec fn darkness(cell: CellVis) -> int {
    1_000 - shade(cell)
}

/// How much of a thing's colour survives, in thousandths.
pub fn fog_shade(cell: CellVis) -> (r: u32)
    ensures
        r == shade(cell),
{
    match cell {
        CellVis::Unexplored => 120,
        CellVis::Explored => 560,
        CellVis::Visible => 1_000,
    }
}

/// How much black the overlay lays over a cell, in thousandths.
pub fn fog_alpha(cell: CellVis) -> (r: u32)
    ensures
        r == darkness(cell),
{
    1_000 - fog_shade(cell)
}

/// The overlay and the tint are one darkness, and the three states are at least
/// a quarter of the range apart.
pub proof fn one_darkness(cell: CellVis)
    ensures
        darkness(cell) + shade(cell) == 1_000,
        darkness(CellVis::Visible) == 0,
        darkness(CellVis::Explored) - darkness(CellVis::Visible) > 250,
        darkness(CellVis::Unexplored) - darkness(CellVis::Explored) > 250,
{
}

/// A darkness as a texel holds it.
pub open spec fn texel(cell: CellVis) -> u8 {
    (darkness(cell) * 255 / 1_000) as u8
}

/// A texture with the darkness of the first `n` cells painted in: one texel of
/// four bytes per cell, in the grid's own order, and nothing but their last
/// byte touched.
pub open spec fn painted(cells: Seq<CellVis>, data: Seq<u8>) -> Seq<u8> {
    Seq::new(
        data.len(),
        |k: int|
            if k % 4 == 3 && k / 4 < cells.len() {
                texel(cells[k / 4])
            } else {
                data[k]
            },
    )
}

/// Paints the darkness of every cell into a texture.
pub fn paint_fog(cells: &Vec<CellVis>, data: &mut Vec<u8>)
    requires
        4 * cells@.len() <= old(data)@.len(),
    ensures
        final(data)@ == painted(cells@, old(data)@),
{
    let len: usize = data.len();
    let mut i: usize = 0;
    assert(data@ =~= painted(cells@.take(0), old(data)@));
    while i < cells.len()
        invariant
            i <= cells.len(),
            len == old(data)@.len(),
            4 * cells@.len() <= old(data)@.len(),
            data@ == painted(cells@.take(i as int), old(data)@),
        decreases cells.len() - i,
    {
        let a: u8 = (fog_alpha(cells[i]) * 255 / 1_000) as u8;
        let ghost before = data@;
        assert(i * 4 + 3 < len);
        data.set(i * 4 + 3, a);
        proof {
            let next = painted(cells@.take(i + 1), old(data)@);
            assert forall|k: int| 0 <= k < next.len() implies data@[k] == next[k] by {
                if k == i * 4 + 3 {
                    assert(k / 4 == i && k % 4 == 3);
                    assert(cells@.take(i + 1)[i as int] == cells@[i as int]);
                } else {
                    assert(data@[k] == before[k]);
                    if k % 4 == 3 && k / 4 < i {
                        assert(cells@.take(i + 1)[k / 4] == cells@.take(i as int)[k / 4]);
                    } else {
                        assert(!(k % 4 == 3 && k / 4 == i));
                    }
                }
            }
            assert(data@ =~= next);
        }
        i = i + 1;
    }
    assert(cells@.take(i as int) =~= cells@);
}

/// The state of the cell a point lies in; a point off the map lies in none.
pub open spec fn state_at(cells: Seq<CellVis>, p: Pos) -> Option<CellVis> {
    match cell_at(p.x as int, p.z as int) {
        Some(c) => Some(cells[c.number()]),
        None => None,
    }
}

/// The state whose shade scenery wears: that of the cell it stands over,
/// however high above the ground it hangs.
pub fn apply_fog_tint(cells: &Vec<CellVis>, p: Pos) -> (r: Option<CellVis>)
    requires
        cells@.len() == CELLS,
    ensures
        r == state_at(cells@, p),
{
    match NavGrid::world_to_cell(p) {
        Some(c) => Some(cells[NavGrid::idx(c)]),
        None => None,
    }
}

/// Whether a unit or building is drawn: ours always, theirs while seen.
pub fn shown_in_fog(own: bool, seen: bool) -> (r: bool)
    ensures
        r == (own || seen),
{
    own || seen
}

/// Whether a resource node is drawn: a mine is public, and trees appear once
/// their ground has been explored.
pub fn node_shown(kind: ResourceKind, known: bool) -> (r: bool)
    ensures
        r == (kind == ResourceKind::Gold || known),
{
    match kind {
        ResourceKind::Gold => true,
        ResourceKind::Lumber => known,
    }
}

/// How many steps a memory fades in.
pub const INTEL_FADE_STEPS: usize = 4;

/// Which step a memory of that age is at, of a memory that lasts `ttl`.
pub open spec fn fade(age: int, ttl: int) -> int {
    if age <= 0 {
        0
    } else if age >= ttl {
        INTEL_FADE_STEPS - 1
    } else {
        age * INTEL_FADE_STEPS / ttl
    }
}

/// Which step a memory of that age is at: the first when fresh, the last when
/// it is about to go.
pub fn intel_fade_step(age: i64, ttl: i64) -> (r: usize)
    requires
        ttl > 0,
    ensures
        r == fade(age as int, ttl as int),
        r < INTEL_FADE_STEPS,
{
    if age <= 0 {
        return 0;
    }
    if age >= ttl {
        return INTEL_FADE_STEPS - 1;
    }
    let n: i128 = age as i128 * 4;
    assert(0 <= n / (ttl as i128) < 4) by (nonlinear_arith)
        requires
            n == age * 4,
            0 < age < ttl,
    ;
    (n / ttl as i128) as usize
}

/// A memory never brightens with age.
pub proof fn memories_only_fade(a: int, b: int, ttl: int)
    requires
        0 < ttl,
        a <= b,
    ensures
        0 <= fade(a, ttl) <= fade(b, ttl) <= INTEL_FADE_STEPS - 1,
        fade(0, ttl) == 0,
        fade(ttl, ttl) == INTEL_FADE_STEPS - 1,
{
    if 0 < a < ttl {
        assert(0 <= a * 4 / ttl <= 3) by (nonlinear_arith)
            requires
                0 < a < ttl,
        ;
    }
    if 0 < b < ttl {
        assert(0 <= b * 4 / ttl <= 3) by (nonlinear_arith)
            requires
                0 < b < ttl,
        ;
        if 0 < a {
            vstd::arithmetic::div_mod::lemma_div_is_ordered(a * 4, b * 4, ttl);
        }
    }
}

} // verus!
