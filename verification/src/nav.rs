//! Pathfinding on the navigation grid.
//!
//! Costs are in parts of a cell: a straight step is 2^23 of them, and a
//! diagonal one the square root of two as a single-precision number holds it.

use vstd::prelude::*;

use crate::heap::MinHeap;

verus! {

/// Cells along one edge of the grid.
pub const GRID_DIM: usize = 100;

/// Cells in the grid.
pub const CELLS: usize = 10_000;

/// Cost of a step to a neighbour in the same row or column.
pub const STRAIGHT: u64 = 8_388_608;

/// Cost of a step to a diagonal neighbour.
pub const DIAGONAL: u64 = 11_863_283;

/// How finely the search tells two costs apart: a sixty-fourth of a cell.
pub const GRAIN: u64 = 131_072;

/// A cell of the grid.
#[derive(Clone, Copy, PartialEq, Eq, Debug, Structural)]
pub struct Cell {
    pub x: usize,
    pub z: usize,
}

/// Which cells can be walked on.
#[derive(Debug)]
pub struct NavGrid {
    /// One flag per cell, row by row.
    pub blocked: Vec<bool>,
}

impl Cell {
    pub open spec fn in_grid(self) -> bool {
        self.x < GRID_DIM && self.z < GRID_DIM
    }

    /// The number of a cell, row by row.
    pub open spec fn number(self) -> int {
        self.z * 100 + self.x
    }
}

/// The cell of a number.
pub open spec fn cell_of(i: int) -> Cell {
    Cell { x: (i % 100) as usize, z: (i / 100) as usize }
}

/// Numbers and cells of the grid are one to one.
pub proof fn numbering(i: int, c: Cell)
    ensures
        0 <= i < CELLS ==> cell_of(i).in_grid() && cell_of(i).number() == i,
        c.in_grid() ==> 0 <= c.number() < CELLS && cell_of(c.number()) == c,
{
}

impl NavGrid {
    pub open spec fn wf(&self) -> bool {
        self.blocked@.len() == CELLS
    }

    pub open spec fn is_free(&self, c: Cell) -> bool {
        c.in_grid() && !self.blocked@[c.number()]
    }

    /// The number of a cell.
    pub fn idx(c: Cell) -> (r: usize)
        requires
            c.in_grid(),
        ensures
            r == c.number(),
            r < CELLS,
    {
        c.z * GRID_DIM + c.x
    }

    /// Whether a cell cannot be walked on.
    pub fn is_blocked(&self, c: Cell) -> (r: bool)
        requires
            self.wf(),
            c.in_grid(),
        ensures
            r == !self.is_free(c),
    {
        self.blocked[Self::idx(c)]
    }
}

/// The size of a difference.
pub open spec fn gap(a: int, b: int) -> int {
    if a < b {
        b - a
    } else {
        a - b
    }
}

/// Whether two cells touch at a corner only.
pub open spec fn diagonal(a: Cell, b: Cell) -> bool {
    a.x != b.x && a.z != b.z
}

/// One step: to a free neighbour, and round no corner of a blocked cell.
pub open spec fn step(nav: &NavGrid, a: Cell, b: Cell) -> bool {
    &&& a.in_grid()
    &&& nav.is_free(b)
    &&& a != b
    &&& gap(a.x as int, b.x as int) <= 1
    &&& gap(a.z as int, b.z as int) <= 1
    &&& diagonal(a, b) ==> nav.is_free(Cell { x: b.x, z: a.z }) && nav.is_free(
        Cell { x: a.x, z: b.z },
    )
}

/// What a step costs.
pub open spec fn step_cost(a: Cell, b: Cell) -> int {
    if diagonal(a, b) {
        DIAGONAL as int
    } else {
        STRAIGHT as int
    }
}

/// A walk from one cell to another, both included.
pub open spec fn is_walk(nav: &NavGrid, w: Seq<Cell>, a: Cell, b: Cell) -> bool {
    &&& w.len() > 0
    &&& w[0] == a
    &&& w.last() == b
    &&& forall|i: int| 0 <= i < w.len() - 1 ==> step(nav, #[trigger] w[i], w[i + 1])
}

/// What a walk costs.
pub open spec fn walk_cost(w: Seq<Cell>) -> int
    decreases w.len(),
{
    if w.len() <= 1 {
        0
    } else {
        walk_cost(w.drop_last()) + step_cost(w[w.len() - 2], w.last())
    }
}

/// Whether some walk leads from one cell to another.
pub open spec fn reachable(nav: &NavGrid, a: Cell, b: Cell) -> bool {
    exists|w: Seq<Cell>| is_walk(nav, w, a, b)
}

/// The cost of the cheapest walk on an empty grid.
pub open spec fn octile_cost(a: Cell, b: Cell) -> int {
    let dx = gap(a.x as int, b.x as int);
    let dz = gap(a.z as int, b.z as int);
    let lo = if dx < dz {
        dx
    } else {
        dz
    };
    let hi = if dx < dz {
        dz
    } else {
        dx
    };
    (hi - lo) * STRAIGHT + lo * DIAGONAL
}

/// The estimate of what is left to walk.
pub fn octile(a: Cell, b: Cell) -> (r: u64)
    requires
        a.in_grid(),
        b.in_grid(),
    ensures
        r == octile_cost(a, b),
        r <= 99 * DIAGONAL,
{
    let dx: u64 = if a.x < b.x {
        (b.x - a.x) as u64
    } else {
        (a.x - b.x) as u64
    };
    let dz: u64 = if a.z < b.z {
        (b.z - a.z) as u64
    } else {
        (a.z - b.z) as u64
    };
    let (lo, hi): (u64, u64) = if dx < dz {
        (dx, dz)
    } else {
        (dz, dx)
    };
    (hi - lo) * STRAIGHT + lo * DIAGONAL
}

/// The estimate never promises more than a step saves.
pub proof fn estimate_is_consistent(nav: &NavGrid, a: Cell, b: Cell, goal: Cell)
    requires
        step(nav, a, b),
    ensures
        octile_cost(a, goal) <= step_cost(a, b) + octile_cost(b, goal),
{
}

/// A walk costs at least what the estimate falls by.
proof fn estimate_along_walk(nav: &NavGrid, w: Seq<Cell>, j: int, goal: Cell)
    requires
        0 <= j < w.len(),
        forall|i: int| 0 <= i < w.len() - 1 ==> step(nav, #[trigger] w[i], w[i + 1]),
    ensures
        octile_cost(w[j], goal) + walk_cost(w.take(j + 1)) <= walk_cost(w) + octile_cost(
            w.last(),
            goal,
        ),
    decreases w.len(),
{
    if j == w.len() - 1 {
        assert(w.take(j + 1) =~= w);
    } else {
        let front = w.drop_last();
        assert forall|i: int| 0 <= i < front.len() - 1 implies step(
            nav,
            #[trigger] front[i],
            front[i + 1],
        ) by {
            assert(step(nav, w[i], w[i + 1]));
        }
        estimate_along_walk(nav, front, j, goal);
        assert(front.take(j + 1) =~= w.take(j + 1));
        let k = w.len() - 2;
        assert(step(nav, w[k], w[k + 1]));
        estimate_is_consistent(nav, w[k], w[k + 1], goal);
        assert(front.last() == w[k]);
        assert(front[j] == w[j]);
    }
}

/// No octile estimate is above the cost of a walk that exists.
pub proof fn estimate_is_a_lower_bound(nav: &NavGrid, w: Seq<Cell>, a: Cell, b: Cell)
    requires
        is_walk(nav, w, a, b),
    ensures
        octile_cost(a, b) <= walk_cost(w),
{
    estimate_along_walk(nav, w, 0, b);
    assert(w.take(1).len() == 1);
}

/// Whether nothing is blocked.
pub open spec fn open_grid(nav: &NavGrid) -> bool {
    forall|c: Cell| c.in_grid() ==> #[trigger] nav.is_free(c)
}

/// The cell one step on from `a`, straight towards `goal`.
pub open spec fn toward(a: Cell, goal: Cell) -> Cell {
    Cell {
        x: (if a.x < goal.x {
            a.x + 1
        } else if a.x > goal.x {
            a.x - 1
        } else {
            a.x as int
        }) as usize,
        z: (if a.z < goal.z {
            a.z + 1
        } else if a.z > goal.z {
            a.z - 1
        } else {
            a.z as int
        }) as usize,
    }
}

/// How many steps two cells are apart on an empty grid.
pub open spec fn steps_apart(a: Cell, b: Cell) -> int {
    let dx = gap(a.x as int, b.x as int);
    let dz = gap(a.z as int, b.z as int);
    if dx < dz {
        dz
    } else {
        dx
    }
}

/// How many of those steps are diagonal.
pub open spec fn slants(a: Cell, b: Cell) -> int {
    let dx = gap(a.x as int, b.x as int);
    let dz = gap(a.z as int, b.z as int);
    if dx < dz {
        dx
    } else {
        dz
    }
}

/// The step towards the goal is one, and costs just what it saves.
proof fn toward_is_straight(nav: &NavGrid, a: Cell, goal: Cell)
    requires
        open_grid(nav),
        a.in_grid(),
        goal.in_grid(),
        a != goal,
    ensures
        step(nav, a, toward(a, goal)),
        steps_apart(toward(a, goal), goal) == steps_apart(a, goal) - 1,
        step_cost(a, toward(a, goal)) + octile_cost(toward(a, goal), goal) == octile_cost(a, goal),
{
    let n = toward(a, goal);
    assert(nav.is_free(n));
    assert(nav.is_free(Cell { x: n.x, z: a.z }));
    assert(nav.is_free(Cell { x: a.x, z: n.z }));
}

/// A step either costs just what it saves, and then leads one step nearer the
/// goal, or it wastes many grains.
proof fn waste_is_large(nav: &NavGrid, a: Cell, b: Cell, goal: Cell)
    requires
        step(nav, a, b),
    ensures
        step_cost(a, b) + octile_cost(b, goal) == octile_cost(a, goal) || step_cost(a, b)
            + octile_cost(b, goal) >= octile_cost(a, goal) + 4_913_933,
        step_cost(a, b) + octile_cost(b, goal) == octile_cost(a, goal) ==> steps_apart(b, goal)
            == steps_apart(a, goal) - 1,
{
}

/// How many steps of a walk are diagonal.
pub open spec fn diagonals(w: Seq<Cell>) -> int
    decreases w.len(),
{
    if w.len() <= 1 {
        0
    } else {
        diagonals(w.drop_last()) + (if diagonal(w[w.len() - 2], w.last()) {
            1int
        } else {
            0int
        })
    }
}

/// A walk that costs no more than the estimate takes the fewest steps there
/// are, and as many of them diagonal as can be.
pub proof fn cheapest_walks_are_shortest(nav: &NavGrid, w: Seq<Cell>, a: Cell, b: Cell)
    requires
        is_walk(nav, w, a, b),
        walk_cost(w) == octile_cost(a, b),
    ensures
        w.len() - 1 == steps_apart(a, b),
        diagonals(w) == slants(a, b),
{
    shortest_so_far(nav, w, b);
    parts_of_cost(w);
}

proof fn shortest_so_far(nav: &NavGrid, w: Seq<Cell>, goal: Cell)
    requires
        w.len() > 0,
        forall|i: int| 0 <= i < w.len() - 1 ==> step(nav, #[trigger] w[i], w[i + 1]),
        walk_cost(w) + octile_cost(w.last(), goal) == octile_cost(w[0], goal),
    ensures
        w.len() - 1 + steps_apart(w.last(), goal) == steps_apart(w[0], goal),
    decreases w.len(),
{
    if w.len() > 1 {
        let front = w.drop_last();
        let k = w.len() - 2;
        assert forall|i: int| 0 <= i < front.len() - 1 implies step(
            nav,
            #[trigger] front[i],
            front[i + 1],
        ) by {
            assert(step(nav, w[i], w[i + 1]));
        }
        assert(step(nav, w[k], w[k + 1]));
        assert(front.last() == w[k] && front[0] == w[0]);
        estimate_along_walk(nav, front, 0, goal);
        assert(walk_cost(front.take(1)) == 0);
        waste_is_large(nav, w[k], w[k + 1], goal);
        shortest_so_far(nav, front, goal);
    }
}

proof fn parts_of_cost(w: Seq<Cell>)
    requires
        w.len() > 0,
    ensures
        walk_cost(w) == (w.len() - 1) * STRAIGHT + diagonals(w) * (DIAGONAL - STRAIGHT),
    decreases w.len(),
{
    if w.len() > 1 {
        parts_of_cost(w.drop_last());
    }
}

/// The neighbour of a cell in one of the eight directions, if the grid has it.
pub open spec fn neighbour(c: Cell, k: int) -> Option<Cell> {
    let (dx, dz) = offset(k);
    if 0 <= c.x + dx < 100 && 0 <= c.z + dz < 100 {
        Some(Cell { x: (c.x + dx) as usize, z: (c.z + dz) as usize })
    } else {
        None
    }
}

/// The eight directions, straight ones first.
pub open spec fn offset(k: int) -> (int, int) {
    if k == 0 {
        (1, 0)
    } else if k == 1 {
        (-1, 0)
    } else if k == 2 {
        (0, 1)
    } else if k == 3 {
        (0, -1)
    } else if k == 4 {
        (1, 1)
    } else if k == 5 {
        (1, -1)
    } else if k == 6 {
        (-1, 1)
    } else {
        (-1, -1)
    }
}

proof fn steps_are_neighbours(nav: &NavGrid, a: Cell, b: Cell) -> (k: int)
    requires
        step(nav, a, b),
    ensures
        0 <= k < 8,
        neighbour(a, k) == Some(b),
{
    let dx = b.x - a.x;
    let dz = b.z - a.z;
    if dx == 1 && dz == 0 {
        0
    } else if dx == -1 && dz == 0 {
        1
    } else if dx == 0 && dz == 1 {
        2
    } else if dx == 0 && dz == -1 {
        3
    } else if dx == 1 && dz == 1 {
        4
    } else if dx == 1 && dz == -1 {
        5
    } else if dx == -1 && dz == 1 {
        6
    } else {
        7
    }
}

fn find_neighbour(c: Cell, k: usize) -> (r: Option<Cell>)
    requires
        c.in_grid(),
        k < 8,
    ensures
        r == neighbour(c, k as int),
{
    let (dx, dz): (i64, i64) = if k == 0 {
        (1, 0)
    } else if k == 1 {
        (-1, 0)
    } else if k == 2 {
        (0, 1)
    } else if k == 3 {
        (0, -1)
    } else if k == 4 {
        (1, 1)
    } else if k == 5 {
        (1, -1)
    } else if k == 6 {
        (-1, 1)
    } else {
        (-1, -1)
    };
    let nx: i64 = c.x as i64 + dx;
    let nz: i64 = c.z as i64 + dz;
    if nx < 0 || nz < 0 || nx >= 100 || nz >= 100 {
        None
    } else {
        Some(Cell { x: nx as usize, z: nz as usize })
    }
}

/// Whether a neighbour may be stepped to.
fn may_step(nav: &NavGrid, a: Cell, b: Cell) -> (r: bool)
    requires
        nav.wf(),
        a.in_grid(),
        b.in_grid(),
        exists|k: int| 0 <= k < 8 && neighbour(a, k) == Some(b),
    ensures
        r == step(nav, a, b),
{
    if nav.is_blocked(b) {
        return false;
    }
    if a.x != b.x && a.z != b.z {
        if nav.is_blocked(Cell { x: b.x, z: a.z }) || nav.is_blocked(Cell { x: a.x, z: b.z }) {
            return false;
        }
    }
    true
}

// ---------------------------------------------------------------------------
// The search
// ---------------------------------------------------------------------------

/// Buffers that one search hands to the next. A stamp per cell says in which
/// search it was last seen or closed, so nothing has to be cleared.
#[derive(Debug)]
pub struct PathScratch {
    pub g: Vec<u64>,
    pub came: Vec<u32>,
    pub seen: Vec<u32>,
    pub closed: Vec<u32>,
    pub generation: u32,
}

impl PathScratch {
    /// No stamp is newer than the last search.
    pub open spec fn wf(&self) -> bool {
        &&& self.g@.len() == CELLS
        &&& self.came@.len() == CELLS
        &&& self.seen@.len() == CELLS
        &&& self.closed@.len() == CELLS
        &&& forall|i: int| 0 <= i < CELLS ==> #[trigger] self.seen@[i] <= self.generation
        &&& forall|i: int| 0 <= i < CELLS ==> #[trigger] self.closed@[i] <= self.generation
    }

    /// Fresh buffers.
    pub fn new() -> (r: PathScratch)
        ensures
            r.wf(),
    {
        let mut g: Vec<u64> = Vec::new();
        let mut came: Vec<u32> = Vec::new();
        let mut seen: Vec<u32> = Vec::new();
        let mut closed: Vec<u32> = Vec::new();
        let mut i: usize = 0;
        while i < CELLS
            invariant
                i <= CELLS,
                g@.len() == i,
                came@.len() == i,
                seen@.len() == i,
                closed@.len() == i,
                forall|k: int| 0 <= k < i ==> #[trigger] seen@[k] == 0,
                forall|k: int| 0 <= k < i ==> #[trigger] closed@[k] == 0,
            decreases CELLS - i,
        {
            g.push(0);
            came.push(u32::MAX);
            seen.push(0);
            closed.push(0);
            i = i + 1;
        }
        PathScratch { g, came, seen, closed, generation: 0 }
    }

    /// Opens a new search: no cell bears its stamp. Once the stamps run out all
    /// of them are wiped.
    fn begin(&mut self)
        requires
            old(self).wf(),
        ensures
            final(self).wf(),
            forall|i: int|
                0 <= i < CELLS ==> #[trigger] final(self).seen@[i] != final(self).generation,
            forall|i: int|
                0 <= i < CELLS ==> #[trigger] final(self).closed@[i] != final(self).generation,
    {
        if self.generation < u32::MAX {
            self.generation = self.generation + 1;
        } else {
            let mut i: usize = 0;
            while i < CELLS
                invariant
                    i <= CELLS,
                    self.g@.len() == CELLS,
                    self.came@.len() == CELLS,
                    self.seen@.len() == CELLS,
                    self.closed@.len() == CELLS,
                    forall|k: int| 0 <= k < i ==> #[trigger] self.seen@[k] == 0,
                    forall|k: int| 0 <= k < i ==> #[trigger] self.closed@[k] == 0,
                decreases CELLS - i,
            {
                self.seen.set(i, 0);
                self.closed.set(i, 0);
                i = i + 1;
            }
            self.generation = 1;
        }
    }

    pub open spec fn is_seen(&self, i: int) -> bool {
        self.seen@[i] == self.generation
    }

    pub open spec fn is_closed(&self, i: int) -> bool {
        self.closed@[i] == self.generation
    }
}

/// The rank of a cell in the queue: its rounded cost first, its number second.
pub open spec fn rank(g: int, i: int, goal: Cell) -> int {
    ((g + octile_cost(cell_of(i), goal)) / (GRAIN as int)) * 10_000 + i
}

/// A bound on every cost of the search.
pub open spec fn cost_cap() -> int {
    CELLS * DIAGONAL
}

fn rank_of(g: u64, i: usize, goal: Cell) -> (r: u64)
    requires
        i < CELLS,
        goal.in_grid(),
        g <= cost_cap(),
    ensures
        r == rank(g as int, i as int, goal),
{
    let c = Cell { x: i % 100, z: i / 100 };
    let f: u64 = g + octile(c, goal);
    (f / GRAIN) * 10_000 + i as u64
}

proof fn rank_parts(g: int, i: int, goal: Cell)
    requires
        0 <= i < CELLS,
        0 <= g,
    ensures
        rank(g, i, goal) % 10_000 == i,
        rank(g, i, goal) / 10_000 == (g + octile_cost(cell_of(i), goal)) / (GRAIN as int),
{
}

proof fn rank_grows(g1: int, g2: int, i: int, goal: Cell)
    requires
        0 <= g1 <= g2,
    ensures
        rank(g1, i, goal) <= rank(g2, i, goal),
{
    vstd::arithmetic::div_mod::lemma_div_is_ordered(
        g1 + octile_cost(cell_of(i), goal),
        g2 + octile_cost(cell_of(i), goal),
        GRAIN as int,
    );
}

// ---------------------------------------------------------------------------
// The search, step by step
// ---------------------------------------------------------------------------

/// What a search knows of a cell it has seen: what it costs to get there, and
/// from which cell it is reached.
pub struct Mark {
    pub cost: int,
    pub from: int,
}

/// A search as it stands: what each cell seen so far costs and from where it
/// was reached, which cells are settled, and what waits in the queue.
pub struct Search {
    pub cells: Seq<Option<Mark>>,
    pub closed: Seq<bool>,
    pub open: vstd::multiset::Multiset<u64>,
}

/// The search before its first step: only the start has been seen.
pub open spec fn opened(start: Cell, goal: Cell) -> Search {
    Search {
        cells: Seq::new(
            CELLS as nat,
            |i: int|
                if i == start.number() {
                    Some(Mark { cost: 0, from: u32::MAX as int })
                } else {
                    None
                },
        ),
        closed: Seq::new(CELLS as nat, |i: int| false),
        open: vstd::multiset::Multiset::empty().insert(rank(0, start.number(), goal) as u64),
    }
}

/// The search after a look at one step out of a settled cell: an unsettled cell
/// is reached from there where that is cheaper than what was known.
pub open spec fn looked_at(st: Search, from: int, to: int, goal: Cell) -> Search {
    let g = st.cells[from]->0.cost + step_cost(cell_of(from), cell_of(to));
    if st.closed[to] || (st.cells[to] is Some && st.cells[to]->0.cost <= g) {
        st
    } else {
        Search {
            cells: st.cells.update(to, Some(Mark { cost: g, from })),
            open: st.open.insert(rank(g, to, goal) as u64),
            ..st
        }
    }
}

/// The search after a look in the first `k` directions out of a settled cell.
pub open spec fn spread(nav: &NavGrid, st: Search, from: int, goal: Cell, k: int) -> Search
    decreases k,
{
    if k <= 0 {
        st
    } else {
        let before = spread(nav, st, from, goal, k - 1);
        match neighbour(cell_of(from), k - 1) {
            Some(n) => if step(nav, cell_of(from), n) {
                looked_at(before, from, n.number(), goal)
            } else {
                before
            },
            None => before,
        }
    }
}

/// The smallest number in a queue.
pub open spec fn least_of(open: vstd::multiset::Multiset<u64>) -> u64 {
    choose|x: u64| #[trigger]
        open.count(x) > 0 && forall|y: u64| #[trigger] open.count(y) > 0 ==> x <= y
}

/// Whether a search is over: the goal is settled, or nothing waits any more.
pub open spec fn ended(st: Search, goal: Cell) -> bool {
    st.open.len() == 0 || st.closed[goal.number()]
}

/// The search one step on: the head of the queue is settled, unless it is
/// already, and every step out of it is looked at, unless it is the goal.
pub open spec fn advanced(nav: &NavGrid, st: Search, goal: Cell) -> Search {
    if ended(st, goal) {
        st
    } else {
        let head = least_of(st.open);
        let i = head as int % 10_000;
        let rest = st.open.remove(head);
        if st.closed[i] {
            Search { open: rest, ..st }
        } else {
            let settled = Search { closed: st.closed.update(i, true), open: rest, ..st };
            if i == goal.number() {
                settled
            } else {
                spread(nav, settled, i, goal, 8)
            }
        }
    }
}

/// The search after `n` steps.
pub open spec fn stepped(nav: &NavGrid, start: Cell, goal: Cell, n: nat) -> Search
    decreases n,
{
    if n == 0 {
        opened(start, goal)
    } else {
        advanced(nav, stepped(nav, start, goal, (n - 1) as nat), goal)
    }
}

/// The search when it is over.
pub open spec fn outcome(nav: &NavGrid, start: Cell, goal: Cell) -> Search {
    let n = choose|n: nat| #[trigger] ended(stepped(nav, start, goal, n), goal);
    stepped(nav, start, goal, n)
}

/// The cells by which a cell was reached from the start, which is left out;
/// `n` bounds how many.
pub open spec fn trail(cells: Seq<Option<Mark>>, start: int, i: int, n: nat) -> Seq<Cell>
    decreases n,
{
    if n == 0 || i == start {
        Seq::empty()
    } else {
        trail(cells, start, cells[i]->0.from, (n - 1) as nat).push(cell_of(i))
    }
}

/// The path a search gives: a matter of the grid, the start and the goal alone.
pub open spec fn answer(nav: &NavGrid, start: Cell, goal: Cell) -> Option<Seq<Cell>> {
    let st = outcome(nav, start, goal);
    if start == goal || !st.closed[goal.number()] {
        None
    } else {
        Some(trail(st.cells, start.number(), goal.number(), CELLS as nat))
    }
}

proof fn over_is_over(nav: &NavGrid, start: Cell, goal: Cell, n: nat, m: nat)
    requires
        n <= m,
        ended(stepped(nav, start, goal, n), goal),
    ensures
        stepped(nav, start, goal, m) == stepped(nav, start, goal, n),
    decreases m,
{
    if n < m {
        over_is_over(nav, start, goal, n, (m - 1) as nat);
    }
}

/// A search ends in one way.
proof fn one_outcome(nav: &NavGrid, start: Cell, goal: Cell, n: nat)
    requires
        ended(stepped(nav, start, goal, n), goal),
    ensures
        outcome(nav, start, goal) == stepped(nav, start, goal, n),
{
    let m = choose|m: nat| #[trigger] ended(stepped(nav, start, goal, m), goal);
    if n <= m {
        over_is_over(nav, start, goal, n, m);
    } else {
        over_is_over(nav, start, goal, m, n);
    }
}

/// The search that a set of buffers and a queue stand for.
spec fn stands_for(sc: &PathScratch, open: vstd::multiset::Multiset<u64>) -> Search {
    Search {
        cells: Seq::new(
            CELLS as nat,
            |i: int|
                if sc.is_seen(i) {
                    Some(Mark { cost: sc.g@[i] as int, from: sc.came@[i] as int })
                } else {
                    None
                },
        ),
        closed: Seq::new(CELLS as nat, |i: int| sc.is_closed(i)),
        open,
    }
}

/// On an empty grid every settled cell is on a cheapest walk to the goal.
spec fn straight_ahead(nav: &NavGrid, sc: &PathScratch, start: int, goal: Cell) -> bool {
    open_grid(nav) ==> forall|c: int|
        0 <= c < CELLS && #[trigger] sc.is_closed(c) ==> sc.g@[c] + octile_cost(cell_of(c), goal)
            == octile_cost(cell_of(start), goal)
}

/// On an empty grid a cell on a cheapest walk waits in the queue.
proof fn open_ahead(nav: &NavGrid, sc: &PathScratch, start: int, goal: Cell, c: int) -> (i: int)
    requires
        open_grid(nav),
        goal.in_grid(),
        0 <= c < CELLS,
        sc.is_closed(c),
        !sc.is_closed(goal.number()),
        straight_ahead(nav, sc, start, goal),
        all_expanded(nav, sc, -1),
    ensures
        0 <= i < CELLS,
        sc.is_seen(i),
        !sc.is_closed(i),
        sc.g@[i] + octile_cost(cell_of(i), goal) <= octile_cost(cell_of(start), goal),
    decreases steps_apart(cell_of(c), goal),
{
    let here = cell_of(c);
    numbering(c, here);
    numbering(c, goal);
    toward_is_straight(nav, here, goal);
    let n = toward(here, goal);
    numbering(n.number(), n);
    assert(expanded(nav, sc, c, n.number()));
    if sc.is_closed(n.number()) {
        open_ahead(nav, sc, start, goal, n.number())
    } else {
        n.number()
    }
}

/// On an empty grid the cell at the head of the queue is within a grain of a
/// cheapest walk.
proof fn head_is_low(
    nav: &NavGrid,
    sc: &PathScratch,
    open: vstd::multiset::Multiset<u64>,
    start: int,
    goal: Cell,
    order: Seq<int>,
    head: u64,
    idx: int,
)
    requires
        open_grid(nav),
        goal.in_grid(),
        tree(nav, sc, start, order),
        queued(sc, open, goal),
        straight_ahead(nav, sc, start, goal),
        all_expanded(nav, sc, -1),
        !sc.is_closed(goal.number()),
        sc.is_closed(start),
        0 <= idx < CELLS,
        head >= rank(sc.g@[idx] as int, idx, goal),
        forall|e: u64| #[trigger] open.count(e) > 0 ==> head <= e,
        order.len() <= CELLS,
    ensures
        sc.g@[idx] + octile_cost(cell_of(idx), goal) < octile_cost(cell_of(start), goal) + GRAIN,
{
    let i = open_ahead(nav, sc, start, goal, start);
    let gi = sc.g@[i] as int;
    assert(order.len() * DIAGONAL <= cost_cap()) by (nonlinear_arith)
        requires
            order.len() <= CELLS,
            cost_cap() == CELLS * DIAGONAL,
    ;
    rank_fits(gi, i, goal);
    assert(open.count(rank(gi, i, goal) as u64) > 0);
    ranks_compare(sc.g@[idx] as int, idx, gi, i, goal, head as int);
}

/// A step off the cheapest walks is a step out of reach.
proof fn low_is_straight(nav: &NavGrid, gp: int, g: int, p: Cell, c: Cell, goal: Cell, best: int)
    requires
        step(nav, p, c),
        gp + octile_cost(p, goal) == best,
        g == gp + step_cost(p, c),
        g + octile_cost(c, goal) < best + GRAIN,
    ensures
        g + octile_cost(c, goal) == best,
{
    waste_is_large(nav, p, c, goal);
}

/// On an empty grid the cell at the head of the queue is on a cheapest walk.
proof fn head_is_straight(
    nav: &NavGrid,
    sc: &PathScratch,
    open: vstd::multiset::Multiset<u64>,
    start: int,
    goal: Cell,
    order: Seq<int>,
    head: u64,
    idx: int,
)
    requires
        open_grid(nav),
        goal.in_grid(),
        tree(nav, sc, start, order),
        queued(sc, open, goal),
        straight_ahead(nav, sc, start, goal),
        all_expanded(nav, sc, -1),
        !sc.is_closed(goal.number()),
        0 <= idx < CELLS,
        sc.is_seen(idx),
        !sc.is_closed(start) ==> idx == start,
        head >= rank(sc.g@[idx] as int, idx, goal),
        forall|e: u64| #[trigger] open.count(e) > 0 ==> head <= e,
        order.len() <= CELLS,
    ensures
        sc.g@[idx] + octile_cost(cell_of(idx), goal) == octile_cost(cell_of(start), goal),
{
    if idx != start {
        head_is_low(nav, sc, open, start, goal, order, head, idx);
        let p = sc.came@[idx] as int;
        assert(sc.is_closed(p));
        low_is_straight(
            nav,
            sc.g@[p] as int,
            sc.g@[idx] as int,
            cell_of(p),
            cell_of(idx),
            goal,
            octile_cost(cell_of(start), goal),
        );
    }
}

/// What holds of the cells seen so far.
spec fn tree(nav: &NavGrid, sc: &PathScratch, start: int, order: Seq<int>) -> bool {
    &&& sc.wf()
    &&& 0 <= start < CELLS
    &&& sc.is_seen(start)
    &&& sc.g@[start] == 0
    &&& forall|i: int| 0 <= i < CELLS && #[trigger] sc.is_closed(i) ==> sc.is_seen(i)
    &&& forall|i: int|
        0 <= i < CELLS && #[trigger] sc.is_seen(i) && i != start ==> {
            let p = sc.came@[i] as int;
            &&& 0 <= p < CELLS
            &&& sc.is_closed(p)
            &&& step(nav, cell_of(p), cell_of(i))
            &&& sc.g@[i] == sc.g@[p] + step_cost(cell_of(p), cell_of(i))
        }
    &&& forall|i: int|
        0 <= i < CELLS && #[trigger] sc.is_seen(i) ==> sc.g@[i] <= order.len() * DIAGONAL
}

/// The closed cells, in the order in which they were closed: each once, and
/// each behind the cell it was reached from.
spec fn closing(sc: &PathScratch, start: int, order: Seq<int>) -> bool {
    &&& order.no_duplicates()
    &&& forall|k: int|
        0 <= k < order.len() ==> 0 <= (#[trigger] order[k]) < CELLS && sc.is_closed(order[k])
    &&& forall|i: int| 0 <= i < CELLS && #[trigger] sc.is_closed(i) ==> order.contains(i)
    &&& order.len() > 0 ==> order[0] == start
    &&& forall|k: int|
        0 < k < order.len() ==> exists|j: int|
            0 <= j < k && #[trigger] order[j] == sc.came@[#[trigger] order[k]] as int
}

/// A step out of a closed cell has been looked at.
spec fn expanded(nav: &NavGrid, sc: &PathScratch, c: int, i: int) -> bool {
    step(nav, cell_of(c), cell_of(i)) ==> sc.is_seen(i) && (!sc.is_closed(i) ==> sc.g@[i]
        <= sc.g@[c] + step_cost(cell_of(c), cell_of(i)))
}

/// Every cell seen but not closed is queued at its rank, and nothing is queued
/// below its rank.
spec fn queued(
    sc: &PathScratch,
    open: vstd::multiset::Multiset<u64>,
    goal: Cell,
) -> bool {
    &&& forall|e: u64|
        #[trigger] open.count(e) > 0 ==> {
            let i = e as int % 10_000;
            &&& sc.is_seen(i)
            &&& !sc.is_closed(i) ==> e >= rank(sc.g@[i] as int, i, goal)
        }
    &&& forall|i: int|
        0 <= i < CELLS && #[trigger] sc.is_seen(i) && !sc.is_closed(i) ==> open.count(
            rank(sc.g@[i] as int, i, goal) as u64,
        ) > 0
}

/// No walk to a closed cell is cheaper than its cost by more than a grain a
/// step.
spec fn near_best(nav: &NavGrid, sc: &PathScratch, start: int, c: int) -> bool {
    forall|w: Seq<Cell>| #[trigger]
        is_walk(nav, w, cell_of(start), cell_of(c)) ==> sc.g@[c] <= walk_cost(w) + (w.len() - 1)
            * GRAIN
}

spec fn all_near_best(nav: &NavGrid, sc: &PathScratch, start: int) -> bool {
    forall|c: int| 0 <= c < CELLS && #[trigger] sc.is_closed(c) ==> near_best(nav, sc, start, c)
}

spec fn all_expanded(nav: &NavGrid, sc: &PathScratch, but: int) -> bool {
    forall|c: int, i: int|
        0 <= c < CELLS && 0 <= i < CELLS && c != but && #[trigger] sc.is_closed(c)
            ==> #[trigger] expanded(nav, sc, c, i)
}

/// A list of distinct cells is no longer than the grid.
proof fn order_fits(order: Seq<int>)
    requires
        order.no_duplicates(),
        forall|k: int| 0 <= k < order.len() ==> 0 <= (#[trigger] order[k]) < CELLS,
    ensures
        order.len() <= CELLS,
{
    order.unique_seq_to_set();
    let all = vstd::set_lib::set_int_range(0, CELLS as int);
    vstd::set_lib::lemma_int_range(0, CELLS as int);
    assert(order.to_set().subset_of(all));
    vstd::set_lib::lemma_len_subset(order.to_set(), all);
}

/// While nothing is closed, only the start has been seen.
proof fn start_is_first(nav: &NavGrid, sc: &PathScratch, start: int, order: Seq<int>, idx: int)
    requires
        tree(nav, sc, start, order),
        closing(sc, start, order),
        0 <= idx < CELLS,
        sc.is_seen(idx),
        !sc.is_closed(start),
    ensures
        idx == start,
{
    if idx != start {
        let p = sc.came@[idx] as int;
        assert(sc.is_closed(p));
        assert(order.contains(p));
        assert(sc.is_closed(order[0]));
    }
}

/// A queue by rounded cost takes no cell before another by more than a grain.
proof fn ranks_compare(g: int, idx: int, gi: int, i: int, goal: Cell, head: int)
    requires
        0 <= idx < CELLS,
        0 <= i < CELLS,
        0 <= g,
        0 <= gi,
        rank(g, idx, goal) <= head <= rank(gi, i, goal),
    ensures
        g + octile_cost(cell_of(idx), goal) < gi + octile_cost(cell_of(i), goal) + GRAIN,
{
    grains_compare(
        g + octile_cost(cell_of(idx), goal),
        idx,
        gi + octile_cost(cell_of(i), goal),
        i,
    );
}

proof fn grains_compare(f: int, idx: int, fi: int, i: int)
    requires
        0 <= idx,
        i < 10_000,
        (f / 131_072) * 10_000 + idx <= (fi / 131_072) * 10_000 + i,
    ensures
        f < fi + 131_072,
{
}

/// The cost of a walk's next cell, from what is known of the one before.
proof fn next_cost(
    nav: &NavGrid,
    sc: &PathScratch,
    start: int,
    w: Seq<Cell>,
    b: Cell,
    j: int,
)
    requires
        0 <= start < CELLS,
        0 < j < w.len(),
        is_walk(nav, w, cell_of(start), b),
        sc.is_closed(w[j - 1].number()),
        !sc.is_closed(w[j].number()),
        all_near_best(nav, sc, start),
        all_expanded(nav, sc, -1),
    ensures
        w[j].in_grid(),
        sc.is_seen(w[j].number()),
        sc.g@[w[j].number()] <= walk_cost(w.take(j + 1)) + (j - 1) * GRAIN,
{
    numbering(start, w[0]);
    walk_in_grid(nav, w, cell_of(start), b, j);
    walk_in_grid(nav, w, cell_of(start), b, j - 1);
    let c = w[j - 1].number();
    let i = w[j].number();
    numbering(c, w[j - 1]);
    numbering(i, w[j]);
    let prefix = w.take(j);
    assert(is_walk(nav, prefix, cell_of(start), cell_of(c))) by {
        assert forall|k: int| 0 <= k < prefix.len() - 1 implies step(
            nav,
            #[trigger] prefix[k],
            prefix[k + 1],
        ) by {
            assert(step(nav, w[k], w[k + 1]));
        }
    }
    assert(near_best(nav, sc, start, c));
    assert(step(nav, w[j - 1], w[j - 1 + 1]));
    assert(expanded(nav, sc, c, i));
    let through = w.take(j + 1);
    assert(through.drop_last() =~= prefix);
    assert(through[through.len() - 2] == w[j - 1] && through.last() == w[j]);
}

/// The cell at the head of the queue is near best.
proof fn head_is_near_best(
    nav: &NavGrid,
    sc: &PathScratch,
    open: vstd::multiset::Multiset<u64>,
    start: int,
    goal: Cell,
    order: Seq<int>,
    head: u64,
    idx: int,
    w: Seq<Cell>,
)
    requires
        goal.in_grid(),
        tree(nav, sc, start, order),
        queued(sc, open, goal),
        all_near_best(nav, sc, start),
        all_expanded(nav, sc, -1),
        0 <= idx < CELLS,
        !sc.is_closed(idx),
        !sc.is_closed(start) ==> idx == start,
        head >= rank(sc.g@[idx] as int, idx, goal),
        forall|e: u64| #[trigger] open.count(e) > 0 ==> head <= e,
        order.len() <= CELLS,
        is_walk(nav, w, cell_of(start), cell_of(idx)),
    ensures
        sc.g@[idx] <= walk_cost(w) + (w.len() - 1) * GRAIN,
{
    let n = w.len() - 1;
    // The first cell of the walk that is not closed.
    let j = first_open(nav, sc, start, w, idx);
    if j == 0 {
        numbering(start, w[0]);
        walk_cost_positive(w);
        assert(n * GRAIN >= 0) by (nonlinear_arith)
            requires
                n >= 0,
        ;
    } else {
        next_cost(nav, sc, start, w, cell_of(idx), j);
        let i = w[j].number();
        numbering(i, w[j]);
        let gi = sc.g@[i] as int;
        assert(order.len() * DIAGONAL <= cost_cap()) by (nonlinear_arith)
            requires
                order.len() <= CELLS,
                cost_cap() == CELLS * DIAGONAL,
        ;
        // Its rank is queued, so the head's is no larger.
        rank_fits(gi, i, goal);
        assert(open.count(rank(gi, i, goal) as u64) > 0);
        ranks_compare(sc.g@[idx] as int, idx, gi, i, goal, head as int);
        estimate_along_walk(nav, w, j, goal);
        assert((j - 1) * GRAIN + GRAIN <= n * GRAIN) by (nonlinear_arith)
            requires
                j <= n,
        ;
    }
}

proof fn rank_fits(g: int, i: int, goal: Cell)
    requires
        0 <= i < CELLS,
        goal.in_grid(),
        0 <= g <= cost_cap(),
    ensures
        0 <= rank(g, i, goal) <= u64::MAX,
{
    numbering(i, goal);
    assert(octile_cost(cell_of(i), goal) <= 99 * DIAGONAL);
}

proof fn walk_cost_positive(w: Seq<Cell>)
    ensures
        walk_cost(w) >= 0,
    decreases w.len(),
{
    if w.len() > 1 {
        walk_cost_positive(w.drop_last());
    }
}

proof fn walk_in_grid(nav: &NavGrid, w: Seq<Cell>, a: Cell, b: Cell, k: int)
    requires
        is_walk(nav, w, a, b),
        a.in_grid(),
        0 <= k < w.len(),
    ensures
        w[k].in_grid(),
{
    if k > 0 {
        assert(step(nav, w[k - 1], w[k - 1 + 1]));
    }
}

/// The first cell of a walk that is not closed.
proof fn first_open(nav: &NavGrid, sc: &PathScratch, start: int, w: Seq<Cell>, idx: int) -> (j: int)
    requires
        0 <= start < CELLS,
        0 <= idx < CELLS,
        !sc.is_closed(idx),
        is_walk(nav, w, cell_of(start), cell_of(idx)),
    ensures
        0 <= j < w.len(),
        !sc.is_closed(w[j].number()),
        j > 0 ==> sc.is_closed(w[j - 1].number()),
{
    numbering(idx, w.last());
    first_open_from(sc, w, w.len() - 1)
}

proof fn first_open_from(sc: &PathScratch, w: Seq<Cell>, k: int) -> (j: int)
    requires
        0 <= k < w.len(),
        !sc.is_closed(w[k].number()),
    ensures
        0 <= j <= k,
        !sc.is_closed(w[j].number()),
        j > 0 ==> sc.is_closed(w[j - 1].number()),
    decreases k,
{
    if k > 0 && !sc.is_closed(w[k - 1].number()) {
        first_open_from(sc, w, k - 1)
    } else {
        k
    }
}

/// With nothing left in the queue, a cell that is not closed cannot be reached.
proof fn unclosed_is_unreachable(
    nav: &NavGrid,
    sc: &PathScratch,
    open: vstd::multiset::Multiset<u64>,
    start: int,
    goal: Cell,
    order: Seq<int>,
)
    requires
        nav.wf(),
        goal.in_grid(),
        tree(nav, sc, start, order),
        queued(sc, open, goal),
        all_expanded(nav, sc, -1),
        open == vstd::multiset::Multiset::<u64>::empty(),
        !sc.is_closed(goal.number()),
    ensures
        !reachable(nav, cell_of(start), goal),
{
    if reachable(nav, cell_of(start), goal) {
        let w = choose|w: Seq<Cell>| is_walk(nav, w, cell_of(start), goal);
        numbering(goal.number(), goal);
        numbering(start, goal);
        let j = first_open(nav, sc, start, w, goal.number());
        walk_in_grid(nav, w, cell_of(start), goal, j);
        numbering(w[j].number(), w[j]);
        if j > 0 {
            walk_in_grid(nav, w, cell_of(start), goal, j - 1);
            numbering(w[j - 1].number(), w[j - 1]);
            assert(step(nav, w[j - 1], w[j - 1 + 1]));
            assert(expanded(nav, sc, w[j - 1].number(), w[j].number()));
        }
        assert(sc.is_seen(w[j].number()));
        assert(open.count(rank(sc.g@[w[j].number()] as int, w[j].number(), goal) as u64) > 0);
    }
}

/// Everything that holds between two steps of the search. The steps out of the
/// cell `but` may still have to be looked at.
#[verifier::opaque]
spec fn searching(
    nav: &NavGrid,
    sc: &PathScratch,
    open: vstd::multiset::Multiset<u64>,
    start: int,
    goal: Cell,
    order: Seq<int>,
    but: int,
) -> bool {
    &&& tree(nav, sc, start, order)
    &&& closing(sc, start, order)
    &&& queued(sc, open, goal)
    &&& all_near_best(nav, sc, start)
    &&& straight_ahead(nav, sc, start, goal)
    &&& all_expanded(nav, sc, but)
    &&& order.len() <= CELLS
}

/// Looks at one step out of a closed cell.
fn relax(
    nav: &NavGrid,
    sc: &mut PathScratch,
    open: &mut MinHeap,
    start: usize,
    goal: Cell,
    idx: usize,
    n: Cell,
    Ghost(order): Ghost<Seq<int>>,
)
    requires
        goal.in_grid(),
        searching(nav, old(sc), old(open).view(), start as int, goal, order, idx as int),
        idx < CELLS,
        old(sc).is_closed(idx as int),
        old(sc).g@[idx as int] + DIAGONAL <= order.len() * DIAGONAL,
        step(nav, cell_of(idx as int), n),
    ensures
        searching(nav, final(sc), final(open).view(), start as int, goal, order, idx as int),
        final(sc).closed@ == old(sc).closed@,
        final(sc).generation == old(sc).generation,
        final(sc).g@[idx as int] == old(sc).g@[idx as int],
        forall|i: int|
            0 <= i < CELLS && #[trigger] expanded(nav, old(sc), idx as int, i) ==> expanded(
                nav,
                final(sc),
                idx as int,
                i,
            ),
        expanded(nav, final(sc), idx as int, n.number()),
        stands_for(final(sc), final(open).view()) == looked_at(
            stands_for(old(sc), old(open).view()),
            idx as int,
            n.number(),
            goal,
        ),
{
    let ghost then = stands_for(sc, open.view());
    proof {
        reveal(searching);
        assert(sc.is_seen(idx as int));
        assert(then.cells[idx as int] is Some);
        numbering(n.number(), n);
        assert(order.len() * DIAGONAL <= cost_cap()) by (nonlinear_arith)
            requires
                order.len() <= CELLS,
                cost_cap() == CELLS * DIAGONAL,
        ;
    }
    let ni: usize = NavGrid::idx(n);
    if sc.closed[ni] == sc.generation {
        assert(sc.is_closed(n.number()));
        return ;
    }
    let cost: u64 = if idx % 100 != n.x && idx / 100 != n.z {
        DIAGONAL
    } else {
        STRAIGHT
    };
    let tentative: u64 = sc.g[idx] + cost;
    if sc.seen[ni] == sc.generation && sc.g[ni] <= tentative {
        return ;
    }
    let ghost before = *sc;
    let ghost queue = open.view();
    sc.seen.set(ni, sc.generation);
    sc.g.set(ni, tentative);
    sc.came.set(ni, idx as u32);
    let r: u64 = rank_of(tentative, ni, goal);
    open.push(r);
    proof {
        relaxed(nav, &before, sc, queue, start as int, goal, order, idx as int, ni as int, r);
        let now = stands_for(sc, open.view());
        let wanted = looked_at(then, idx as int, n.number(), goal);
        assert(now.cells =~= wanted.cells);
        assert(now.closed =~= wanted.closed);
    }
}

/// Lowering the cost of an open cell keeps the search in order.
proof fn relaxed(
    nav: &NavGrid,
    before: &PathScratch,
    sc: &PathScratch,
    queue: vstd::multiset::Multiset<u64>,
    start: int,
    goal: Cell,
    order: Seq<int>,
    idx: int,
    ni: int,
    r: u64,
)
    requires
        goal.in_grid(),
        searching(nav, before, queue, start, goal, order, idx),
        0 <= idx < CELLS,
        0 <= ni < CELLS,
        before.is_closed(idx),
        !before.is_closed(ni),
        before.g@[idx] + DIAGONAL <= order.len() * DIAGONAL,
        step(nav, cell_of(idx), cell_of(ni)),
        before.is_seen(ni) ==> before.g@[ni] > before.g@[idx] + step_cost(
            cell_of(idx),
            cell_of(ni),
        ),
        sc.generation == before.generation,
        sc.closed@ == before.closed@,
        sc.seen@ == before.seen@.update(ni, before.generation),
        sc.g@ == before.g@.update(
            ni,
            (before.g@[idx] + step_cost(cell_of(idx), cell_of(ni))) as u64,
        ),
        before.g@[idx] + step_cost(cell_of(idx), cell_of(ni)) <= u64::MAX,
        sc.came@ == before.came@.update(ni, idx as u32),
        r == rank(sc.g@[ni] as int, ni, goal),
    ensures
        searching(nav, sc, queue.insert(r), start, goal, order, idx),
        sc.g@[idx] == before.g@[idx],
        forall|i: int|
            0 <= i < CELLS && #[trigger] expanded(nav, before, idx, i) ==> expanded(
                nav,
                sc,
                idx,
                i,
            ),
        expanded(nav, sc, idx, ni),
{
    reveal(searching);
    assert(ni != idx);
    // The start is never relaxed: it costs nothing already.
    assert(ni != start) by {
        if ni == start {
            assert(before.g@[start] == 0);
        }
    }
    assert forall|i: int| 0 <= i < CELLS && #[trigger] sc.is_closed(i) implies before.is_closed(
        i,
    ) by {}
    assert forall|i: int| 0 <= i < CELLS && #[trigger] sc.is_seen(i) implies before.is_seen(i) || i
        == ni by {}
    assert(tree(nav, sc, start, order)) by {
        assert forall|i: int| 0 <= i < CELLS && #[trigger] sc.is_seen(i) && i != start implies {
            let p = sc.came@[i] as int;
            &&& 0 <= p < CELLS
            &&& sc.is_closed(p)
            &&& step(nav, cell_of(p), cell_of(i))
            &&& sc.g@[i] == sc.g@[p] + step_cost(cell_of(p), cell_of(i))
        } by {
            if i != ni {
                assert(before.is_seen(i));
                let p = before.came@[i] as int;
                assert(before.is_closed(p));
                assert(p != ni);
            }
        }
        assert forall|i: int| 0 <= i < CELLS && #[trigger] sc.is_closed(i) implies sc.is_seen(
            i,
        ) by {
            assert(before.is_closed(i));
        }
        assert forall|i: int| 0 <= i < CELLS && #[trigger] sc.is_seen(i) implies sc.g@[i]
            <= order.len() * DIAGONAL by {
            if i != ni {
                assert(before.is_seen(i));
            }
        }
    }
    assert(closing(sc, start, order)) by {
        assert forall|k: int| 0 <= k < order.len() implies 0 <= (#[trigger] order[k]) < CELLS
            && sc.is_closed(order[k]) by {
            assert(before.is_closed(order[k]));
        }
        assert forall|i: int| 0 <= i < CELLS && #[trigger] sc.is_closed(i) implies order.contains(
            i,
        ) by {
            assert(before.is_closed(i));
        }
        assert forall|k: int| 0 < k < order.len() implies exists|j: int|
            0 <= j < k && #[trigger] order[j] == sc.came@[#[trigger] order[k]] as int by {
            assert(before.is_closed(order[k]));
            let j = choose|j: int|
                0 <= j < k && #[trigger] order[j] == before.came@[order[k]] as int;
            assert(order[j] == sc.came@[order[k]] as int);
        }
    }
    assert(queued(sc, queue.insert(r), goal)) by {
        let after = queue.insert(r);
        assert(order.len() * DIAGONAL <= cost_cap()) by (nonlinear_arith)
            requires
                order.len() <= CELLS,
                cost_cap() == CELLS * DIAGONAL,
        ;
        assert forall|e: u64| #[trigger] after.count(e) > 0 implies {
            let i = e as int % 10_000;
            &&& sc.is_seen(i)
            &&& !sc.is_closed(i) ==> e >= rank(sc.g@[i] as int, i, goal)
        } by {
            let i = e as int % 10_000;
            rank_parts(sc.g@[ni] as int, ni, goal);
            if e != r {
                assert(queue.count(e) > 0);
                assert(before.is_seen(i));
                if i == ni {
                    rank_grows(sc.g@[ni] as int, before.g@[ni] as int, ni, goal);
                }
            }
        }
        assert forall|i: int|
            0 <= i < CELLS && #[trigger] sc.is_seen(i) && !sc.is_closed(i) implies after.count(
            rank(sc.g@[i] as int, i, goal) as u64,
        ) > 0 by {
            if i != ni {
                assert(before.is_seen(i));
                assert(!before.is_closed(i));
            }
        }
    }
    assert(all_near_best(nav, sc, start)) by {
        assert forall|c: int| 0 <= c < CELLS && #[trigger] sc.is_closed(c) implies near_best(
            nav,
            sc,
            start,
            c,
        ) by {
            assert(before.is_closed(c));
            assert(near_best(nav, before, start, c));
            assert(c != ni);
        }
    }
    assert(straight_ahead(nav, sc, start, goal)) by {
        if open_grid(nav) {
            assert forall|c: int| 0 <= c < CELLS && #[trigger] sc.is_closed(c) implies sc.g@[c]
                + octile_cost(cell_of(c), goal) == octile_cost(cell_of(start), goal) by {
                assert(before.is_closed(c));
                assert(c != ni);
            }
        }
    }
    assert forall|c: int, i: int|
        0 <= c < CELLS && 0 <= i < CELLS && before.is_closed(c) && #[trigger] expanded(
            nav,
            before,
            c,
            i,
        ) implies expanded(nav, sc, c, i) by {
        assert(c != ni);
    }
    assert(all_expanded(nav, sc, idx)) by {
        assert forall|c: int, i: int|
            0 <= c < CELLS && 0 <= i < CELLS && c != idx && #[trigger] sc.is_closed(
                c,
            ) implies #[trigger] expanded(nav, sc, c, i) by {
            assert(before.is_closed(c));
            assert(expanded(nav, before, c, i));
        }
    }
}

/// Looks at every step out of the cell just closed.
fn expand(
    nav: &NavGrid,
    sc: &mut PathScratch,
    open: &mut MinHeap,
    start: usize,
    goal: Cell,
    idx: usize,
    Ghost(order): Ghost<Seq<int>>,
)
    requires
        nav.wf(),
        goal.in_grid(),
        searching(nav, old(sc), old(open).view(), start as int, goal, order, idx as int),
        idx < CELLS,
        old(sc).is_closed(idx as int),
        old(sc).g@[idx as int] + DIAGONAL <= order.len() * DIAGONAL,
    ensures
        searching(nav, final(sc), final(open).view(), start as int, goal, order, -1),
        final(sc).closed@ == old(sc).closed@,
        final(sc).generation == old(sc).generation,
        stands_for(final(sc), final(open).view()) == spread(
            nav,
            stands_for(old(sc), old(open).view()),
            idx as int,
            goal,
            8,
        ),
{
    let ghost then = stands_for(sc, open.view());
    let here = Cell { x: idx % 100, z: idx / 100 };
    assert(here == cell_of(idx as int));
    proof {
        numbering(idx as int, here);
    }
    let mut k: usize = 0;
    while k < 8
        invariant
            nav.wf(),
            goal.in_grid(),
            k <= 8,
            idx < CELLS,
            here == cell_of(idx as int),
            here.in_grid(),
            searching(nav, sc, open.view(), start as int, goal, order, idx as int),
            sc.closed@ == old(sc).closed@,
            sc.generation == old(sc).generation,
            sc.is_closed(idx as int),
            sc.g@[idx as int] + DIAGONAL <= order.len() * DIAGONAL,
            then == stands_for(old(sc), old(open).view()),
            stands_for(sc, open.view()) == spread(nav, then, idx as int, goal, k as int),
            forall|q: int|
                0 <= q < k && (#[trigger] neighbour(here, q)) is Some ==> expanded(
                    nav,
                    sc,
                    idx as int,
                    neighbour(here, q)->0.number(),
                ),
        decreases 8 - k,
    {
        if let Some(n) = find_neighbour(here, k) {
            proof {
                numbering(n.number(), n);
                assert forall|q: int|
                    0 <= q < k && (#[trigger] neighbour(here, q)) is Some implies 0 <= neighbour(
                    here,
                    q,
                )->0.number() < CELLS by {}
            }
            if may_step(nav, here, n) {
                relax(nav, sc, open, start, goal, idx, n, Ghost(order));
            }
        }
        k = k + 1;
    }
    proof {
        reveal(searching);
        assert(all_expanded(nav, sc, -1)) by {
            assert forall|c: int, i: int|
                0 <= c < CELLS && 0 <= i < CELLS && c != -1 && #[trigger] sc.is_closed(
                    c,
                ) implies #[trigger] expanded(nav, sc, c, i) by {
                if c == idx && step(nav, cell_of(c), cell_of(i)) {
                    let q = steps_are_neighbours(nav, cell_of(c), cell_of(i));
                    numbering(i, cell_of(i));
                    assert(neighbour(here, q) is Some);
                }
            }
        }
    }
}

/// Taking a cell off the queue that is closed already changes nothing.
proof fn stale_entry(
    nav: &NavGrid,
    sc: &PathScratch,
    open: vstd::multiset::Multiset<u64>,
    start: int,
    goal: Cell,
    order: Seq<int>,
    head: u64,
)
    requires
        goal.in_grid(),
        searching(nav, sc, open, start, goal, order, -1),
        sc.is_closed(head as int % 10_000),
    ensures
        searching(nav, sc, open.remove(head), start, goal, order, -1),
{
    reveal(searching);
    let after = open.remove(head);
    assert(order.len() * DIAGONAL <= cost_cap()) by (nonlinear_arith)
        requires
            order.len() <= CELLS,
            cost_cap() == CELLS * DIAGONAL,
    ;
    assert(queued(sc, after, goal)) by {
        assert forall|e: u64| #[trigger] after.count(e) > 0 implies {
            let i = e as int % 10_000;
            &&& sc.is_seen(i)
            &&& !sc.is_closed(i) ==> e >= rank(sc.g@[i] as int, i, goal)
        } by {
            assert(open.count(e) > 0);
        }
        assert forall|i: int|
            0 <= i < CELLS && #[trigger] sc.is_seen(i) && !sc.is_closed(i) implies after.count(
            rank(sc.g@[i] as int, i, goal) as u64,
        ) > 0 by {
            rank_parts(sc.g@[i] as int, i, goal);
            rank_fits(sc.g@[i] as int, i, goal);
            assert(open.count(rank(sc.g@[i] as int, i, goal) as u64) > 0);
        }
    }
}

/// Closing the cell at the head of the queue keeps the search in order.
proof fn closed_head(
    nav: &NavGrid,
    before: &PathScratch,
    sc: &PathScratch,
    open: vstd::multiset::Multiset<u64>,
    start: int,
    goal: Cell,
    order: Seq<int>,
    head: u64,
    idx: int,
)
    requires
        goal.in_grid(),
        searching(nav, before, open, start, goal, order, -1),
        open.count(head) > 0,
        forall|e: u64| #[trigger] open.count(e) > 0 ==> head <= e,
        idx == head as int % 10_000,
        !before.is_closed(idx),
        !before.is_closed(goal.number()),
        sc.generation == before.generation,
        sc.seen@ == before.seen@,
        sc.g@ == before.g@,
        sc.came@ == before.came@,
        sc.closed@ == before.closed@.update(idx, before.generation),
    ensures
        searching(nav, sc, open.remove(head), start, goal, order.push(idx), idx),
        sc.is_closed(idx),
        sc.g@[idx] + DIAGONAL <= order.push(idx).len() * DIAGONAL,
{
    reveal(searching);
    let after = open.remove(head);
    let next = order.push(idx);
    assert(before.is_seen(idx));
    assert(order.len() * DIAGONAL + DIAGONAL == next.len() * DIAGONAL) by (nonlinear_arith)
        requires
            next.len() == order.len() + 1,
    ;
    assert(order.len() * DIAGONAL <= cost_cap()) by (nonlinear_arith)
        requires
            order.len() <= CELLS,
            cost_cap() == CELLS * DIAGONAL,
    ;
    if !before.is_closed(start) {
        start_is_first(nav, before, start, order, idx);
    }
    assert forall|i: int| 0 <= i < CELLS && #[trigger] sc.is_closed(i) implies before.is_closed(i)
        || i == idx by {}
    assert forall|i: int| 0 <= i < CELLS && #[trigger] before.is_closed(i) implies sc.is_closed(
        i,
    ) by {}
    assert forall|i: int| 0 <= i < CELLS && #[trigger] sc.is_seen(i) implies before.is_seen(i) by {}
    assert(tree(nav, sc, start, next)) by {
        assert(before.is_seen(start));
        assert forall|i: int| 0 <= i < CELLS && #[trigger] sc.is_seen(i) && i != start implies {
            let p = sc.came@[i] as int;
            &&& 0 <= p < CELLS
            &&& sc.is_closed(p)
            &&& step(nav, cell_of(p), cell_of(i))
            &&& sc.g@[i] == sc.g@[p] + step_cost(cell_of(p), cell_of(i))
        } by {
            assert(before.is_seen(i));
            assert(before.is_closed(before.came@[i] as int));
        }
        assert forall|i: int| 0 <= i < CELLS && #[trigger] sc.is_closed(i) implies sc.is_seen(
            i,
        ) by {
            if i != idx {
                assert(before.is_closed(i));
                assert(before.is_seen(i));
            }
        }
        assert forall|i: int| 0 <= i < CELLS && #[trigger] sc.is_seen(i) implies sc.g@[i]
            <= next.len() * DIAGONAL by {
            assert(before.is_seen(i));
        }
    }
    assert(closing(sc, start, next)) by {
        assert(!order.contains(idx)) by {
            if order.contains(idx) {
                let k = choose|k: int| 0 <= k < order.len() && order[k] == idx;
                assert(before.is_closed(order[k]));
            }
        }
        assert(next.no_duplicates());
        assert forall|k: int| 0 <= k < next.len() implies 0 <= (#[trigger] next[k]) < CELLS
            && sc.is_closed(next[k]) by {
            if k < order.len() {
                assert(before.is_closed(order[k]));
            }
        }
        assert forall|i: int| 0 <= i < CELLS && #[trigger] sc.is_closed(i) implies next.contains(
            i,
        ) by {
            if i == idx {
                assert(next[order.len() as int] == idx);
            } else {
                assert(before.is_closed(i));
                let k = choose|k: int| 0 <= k < order.len() && order[k] == i;
                assert(next[k] == i);
            }
        }
        if order.len() == 0 {
            if before.is_closed(start) {
                assert(order.contains(start));
            }
            assert(idx == start);
        }
        assert forall|k: int| 0 < k < next.len() implies exists|j: int|
            0 <= j < k && #[trigger] next[j] == sc.came@[#[trigger] next[k]] as int by {
            if k < order.len() {
                assert(before.is_closed(order[k]));
                let j = choose|j: int|
                    0 <= j < k && #[trigger] order[j] == before.came@[order[k]] as int;
                assert(next[j] == sc.came@[next[k]] as int);
            } else {
                assert(before.is_closed(order[0]));
                assert(idx != start);
                assert(before.is_closed(before.came@[idx] as int));
                assert(order.contains(before.came@[idx] as int));
                let j = choose|j: int|
                    0 <= j < order.len() && order[j] == before.came@[idx] as int;
                assert(next[j] == sc.came@[next[k]] as int);
            }
        }
    }
    order_fits(next);
    assert(queued(sc, after, goal)) by {
        assert forall|e: u64| #[trigger] after.count(e) > 0 implies {
            let i = e as int % 10_000;
            &&& sc.is_seen(i)
            &&& !sc.is_closed(i) ==> e >= rank(sc.g@[i] as int, i, goal)
        } by {
            assert(open.count(e) > 0);
            assert(before.is_seen(e as int % 10_000));
        }
        assert forall|i: int|
            0 <= i < CELLS && #[trigger] sc.is_seen(i) && !sc.is_closed(i) implies after.count(
            rank(sc.g@[i] as int, i, goal) as u64,
        ) > 0 by {
            assert(before.is_seen(i));
            assert(!before.is_closed(i));
            rank_parts(sc.g@[i] as int, i, goal);
            rank_fits(sc.g@[i] as int, i, goal);
            assert(open.count(rank(before.g@[i] as int, i, goal) as u64) > 0);
        }
    }
    assert(all_near_best(nav, sc, start)) by {
        assert forall|c: int| 0 <= c < CELLS && #[trigger] sc.is_closed(c) implies near_best(
            nav,
            sc,
            start,
            c,
        ) by {
            if c == idx {
                assert forall|w: Seq<Cell>| #[trigger]
                    is_walk(nav, w, cell_of(start), cell_of(c)) implies sc.g@[c] <= walk_cost(w) + (
                w.len() - 1) * GRAIN by {
                    head_is_near_best(nav, before, open, start, goal, order, head, idx, w);
                }
            } else {
                assert(before.is_closed(c));
                assert(near_best(nav, before, start, c));
            }
        }
    }
    assert(straight_ahead(nav, sc, start, goal)) by {
        if open_grid(nav) {
            head_is_straight(nav, before, open, start, goal, order, head, idx);
            assert forall|c: int| 0 <= c < CELLS && #[trigger] sc.is_closed(c) implies sc.g@[c]
                + octile_cost(cell_of(c), goal) == octile_cost(cell_of(start), goal) by {
                if c != idx {
                    assert(before.is_closed(c));
                }
            }
        }
    }
    assert(all_expanded(nav, sc, idx)) by {
        assert forall|c: int, i: int|
            0 <= c < CELLS && 0 <= i < CELLS && c != idx && #[trigger] sc.is_closed(
                c,
            ) implies #[trigger] expanded(nav, sc, c, i) by {
            assert(before.is_closed(c));
            assert(expanded(nav, before, c, i));
        }
    }
}

/// The trail to a settled cell is no longer than its place in the order.
proof fn trails_settle(
    nav: &NavGrid,
    sc: &PathScratch,
    open: vstd::multiset::Multiset<u64>,
    start: int,
    order: Seq<int>,
    k: int,
    n: nat,
)
    requires
        tree(nav, sc, start, order),
        closing(sc, start, order),
        0 <= k < order.len(),
        k <= n,
    ensures
        trail(stands_for(sc, open).cells, start, order[k], n) == trail(
            stands_for(sc, open).cells,
            start,
            order[k],
            k as nat,
        ),
    decreases k,
{
    if k > 0 {
        assert(sc.is_closed(order[k]));
        assert(sc.is_seen(order[k]));
        assert(order[k] != order[0]);
        let j = choose|j: int| 0 <= j < k && #[trigger] order[j] == sc.came@[order[k]] as int;
        trails_settle(nav, sc, open, start, order, j, (n - 1) as nat);
        trails_settle(nav, sc, open, start, order, j, (k - 1) as nat);
    }
}

/// A trail goes up the order in which its cells were settled.
proof fn trail_climbs(
    nav: &NavGrid,
    sc: &PathScratch,
    open: vstd::multiset::Multiset<u64>,
    start: int,
    order: Seq<int>,
    k: int,
) -> (spots: Seq<int>)
    requires
        tree(nav, sc, start, order),
        closing(sc, start, order),
        0 <= k < order.len(),
    ensures
        ({
            let t = trail(stands_for(sc, open).cells, start, order[k], k as nat);
            &&& spots.len() == t.len()
            &&& forall|i: int|
                0 <= i < t.len() ==> 0 < (#[trigger] spots[i]) <= k && t[i] == cell_of(
                    order[spots[i]],
                )
            &&& forall|i: int, j: int|
                0 <= i < j < t.len() ==> #[trigger] spots[i] < #[trigger] spots[j]
        }),
    decreases k,
{
    let cells = stands_for(sc, open).cells;
    let t = trail(cells, start, order[k], k as nat);
    if k == 0 {
        Seq::empty()
    } else {
        assert(sc.is_closed(order[k]));
        assert(sc.is_seen(order[k]));
        assert(order[k] != order[0]);
        let j = choose|j: int| 0 <= j < k && #[trigger] order[j] == sc.came@[order[k]] as int;
        let before = trail_climbs(nav, sc, open, start, order, j);
        trails_settle(nav, sc, open, start, order, j, (k - 1) as nat);
        let short = trail(cells, start, order[j], j as nat);
        assert(t == short.push(cell_of(order[k])));
        let spots = before.push(k);
        assert forall|i: int| 0 <= i < t.len() implies 0 < (#[trigger] spots[i]) <= k && t[i]
            == cell_of(order[spots[i]]) by {
            if i < short.len() {
                assert(spots[i] == before[i]);
                assert(t[i] == short[i]);
            }
        }
        assert forall|a: int, b: int| 0 <= a < b < t.len() implies #[trigger] spots[a]
            < #[trigger] spots[b] by {
            assert(spots[a] == before[a]);
            if b < short.len() {
                assert(spots[b] == before[b]);
            }
        }
        spots
    }
}

/// A trail comes to no cell twice, nor back to the start.
proof fn trails_never_cross(
    nav: &NavGrid,
    sc: &PathScratch,
    open: vstd::multiset::Multiset<u64>,
    start: int,
    order: Seq<int>,
    k: int,
)
    requires
        tree(nav, sc, start, order),
        closing(sc, start, order),
        0 <= k < order.len(),
    ensures
        (seq![cell_of(start)] + trail(
            stands_for(sc, open).cells,
            start,
            order[k],
            k as nat,
        )).no_duplicates(),
{
    let t = trail(stands_for(sc, open).cells, start, order[k], k as nat);
    let spots = trail_climbs(nav, sc, open, start, order, k);
    let whole = seq![cell_of(start)] + t;
    let all = seq![0int] + spots;
    assert forall|i: int, j: int| 0 <= i < j < whole.len() implies whole[i] != whole[j] by {
        assert(whole[j] == t[j - 1] && all[j] == spots[j - 1]);
        let a = if i == 0 {
            0
        } else {
            spots[i - 1]
        };
        let b = spots[j - 1];
        if i > 0 {
            assert(whole[i] == t[i - 1]);
            assert(spots[i - 1] < spots[j - 1]);
        }
        assert(whole[i] == cell_of(order[a]));
        assert(order[a] != order[b]);
        assert(0 <= order[a] < CELLS && 0 <= order[b] < CELLS);
        numbering(order[a], whole[i]);
        numbering(order[b], whole[j]);
    }
}

/// Putting a cell in front of a walk adds the first step's cost.
proof fn walk_cost_front(a: Cell, w: Seq<Cell>)
    requires
        w.len() > 0,
    ensures
        walk_cost(seq![a] + w) == step_cost(a, w[0]) + walk_cost(w),
    decreases w.len(),
{
    let v = seq![a] + w;
    if w.len() == 1 {
        assert(v.drop_last() =~= seq![a]);
        assert(walk_cost(v.drop_last()) == 0);
        assert(v[0] == a && v.last() == w[0]);
    } else {
        assert(v.drop_last() =~= seq![a] + w.drop_last());
        walk_cost_front(a, w.drop_last());
        assert(v[v.len() - 2] == w[w.len() - 2]);
    }
}

/// The smallest number in a queue is the one taken out.
proof fn head_of_queue(open: vstd::multiset::Multiset<u64>, head: u64)
    requires
        open.count(head) > 0,
        forall|y: u64| #[trigger] open.count(y) > 0 ==> head <= y,
    ensures
        least_of(open) == head,
        open.len() > 0,
{
    if open.len() == 0 {
        assert(open =~= vstd::multiset::Multiset::empty());
    }
}

/// Walks the chain of parents back from a closed cell.
#[verifier::spinoff_prover]
#[verifier::rlimit(60)]
fn trace(
    nav: &NavGrid,
    sc: &PathScratch,
    start: usize,
    end: usize,
    Ghost(order): Ghost<Seq<int>>,
) -> (path: Vec<Cell>)
    requires
        tree(nav, sc, start as int, order),
        closing(sc, start as int, order),
        start < CELLS,
        end < CELLS,
        sc.is_closed(end as int),
    ensures
        is_walk(
            nav,
            seq![cell_of(start as int)] + path@,
            cell_of(start as int),
            cell_of(end as int),
        ),
        walk_cost(seq![cell_of(start as int)] + path@) == sc.g@[end as int],
        (seq![cell_of(start as int)] + path@).no_duplicates(),
        forall|open: vstd::multiset::Multiset<u64>|
            path@ == trail(
                #[trigger] stands_for(sc, open).cells,
                start as int,
                end as int,
                CELLS as nat,
            ),
{
    let ghost cells = stands_for(sc, vstd::multiset::Multiset::empty()).cells;
    let mut rev: Vec<Cell> = Vec::new();
    let mut cur: usize = end;
    let ghost mut at: int = choose|k: int| 0 <= k < order.len() && order[k] == end as int;
    let ghost mut tail: Seq<Cell> = Seq::empty();
    proof {
        order_fits(order);
        assert(order.contains(end as int));
        trails_settle(
            nav,
            sc,
            vstd::multiset::Multiset::empty(),
            start as int,
            order,
            at,
            CELLS as nat,
        );
        let t = trail(cells, start as int, end as int, at as nat);
        assert(t + tail =~= t);
    }
    assert(order.contains(end as int));
    assert(rev@.reverse() =~= tail);
    assert(seq![cell_of(end as int)] + tail =~= seq![cell_of(end as int)]);
    while cur != start
        invariant
            tree(nav, sc, start as int, order),
            closing(sc, start as int, order),
            start < CELLS,
            end < CELLS,
            cur < CELLS,
            0 <= at < order.len(),
            order[at] == cur as int,
            rev@.reverse() == tail,
            is_walk(
                nav,
                seq![cell_of(cur as int)] + tail,
                cell_of(cur as int),
                cell_of(end as int),
            ),
            walk_cost(seq![cell_of(cur as int)] + tail) + sc.g@[cur as int] == sc.g@[end as int],
            cells == stands_for(sc, vstd::multiset::Multiset::empty()).cells,
            trail(cells, start as int, end as int, CELLS as nat) == trail(
                cells,
                start as int,
                cur as int,
                at as nat,
            ) + tail,
        decreases at,
    {
        let here = Cell { x: cur % 100, z: cur / 100 };
        let p: usize = sc.came[cur] as usize;
        proof {
            assert(sc.is_closed(order[at]));
            assert(sc.is_seen(cur as int));
            let next = choose|j: int|
                0 <= j < at && #[trigger] order[j] == sc.came@[order[at]] as int;
            let w = seq![here] + tail;
            let longer = seq![cell_of(p as int)] + w;
            walk_cost_front(cell_of(p as int), w);
            assert forall|i: int| 0 <= i < longer.len() - 1 implies step(
                nav,
                #[trigger] longer[i],
                longer[i + 1],
            ) by {
                if i > 0 {
                    assert(step(nav, w[i - 1], w[i - 1 + 1]));
                }
            }
            trails_settle(
                nav,
                sc,
                vstd::multiset::Multiset::empty(),
                start as int,
                order,
                next,
                (at - 1) as nat,
            );
            let short = trail(cells, start as int, p as int, next as nat);
            assert(cells[cur as int]->0.from == p as int);
            assert(trail(cells, start as int, cur as int, at as nat) == short.push(here));
            assert(short.push(here) + tail =~= short + w);
            tail = w;
            at = next;
        }
        rev.push(here);
        assert(rev@.reverse() =~= tail);
        cur = p;
    }
    proof {
        assert(trail(cells, start as int, start as int, at as nat) + tail =~= tail);
        let k = choose|k: int| 0 <= k < order.len() && order[k] == end as int;
        assert(order.contains(end as int));
        trails_settle(
            nav,
            sc,
            vstd::multiset::Multiset::empty(),
            start as int,
            order,
            k,
            CELLS as nat,
        );
        trails_never_cross(nav, sc, vstd::multiset::Multiset::empty(), start as int, order, k);
        assert forall|open: vstd::multiset::Multiset<u64>| tail == trail(
            #[trigger] stands_for(sc, open).cells,
            start as int,
            end as int,
            CELLS as nat,
        ) by {
            assert(stands_for(sc, open).cells =~= cells);
        }
    }
    let n: usize = rev.len();
    let mut path: Vec<Cell> = Vec::new();
    let mut i: usize = 0;
    while i < n
        invariant
            i <= n,
            n == rev@.len(),
            path@ == rev@.reverse().take(i as int),
        decreases n - i,
    {
        path.push(rev[n - 1 - i]);
        i = i + 1;
        assert(path@ =~= rev@.reverse().take(i as int));
    }
    assert(path@ =~= tail);
    path
}

/// Whether a path, with the start put in front, is a walk that comes to no cell
/// twice, that no other walk beats by more than a grain a step, and that no
/// other walk beats at all where nothing is blocked.
pub open spec fn is_good_path(nav: &NavGrid, path: Seq<Cell>, start: Cell, goal: Cell) -> bool {
    let whole = seq![start] + path;
    &&& path.len() > 0
    &&& is_walk(nav, whole, start, goal)
    &&& whole.no_duplicates()
    &&& open_grid(nav) ==> walk_cost(whole) == octile_cost(start, goal)
    &&& forall|w: Seq<Cell>| #[trigger]
        is_walk(nav, w, start, goal) ==> walk_cost(whole) <= walk_cost(w) + (w.len() - 1) * GRAIN
}

/// The cells of an optional path.
pub open spec fn path_view(r: Option<Vec<Cell>>) -> Option<Seq<Cell>> {
    match r {
        Some(path) => Some(path@),
        None => None,
    }
}

/// Where nothing is blocked a good path takes the fewest steps there are, with
/// as many of them diagonal as can be.
pub proof fn open_ground_is_crossed_straight(
    nav: &NavGrid,
    path: Seq<Cell>,
    start: Cell,
    goal: Cell,
)
    requires
        open_grid(nav),
        is_good_path(nav, path, start, goal),
    ensures
        path.len() == steps_apart(start, goal),
        diagonals(seq![start] + path) == slants(start, goal),
{
    cheapest_walks_are_shortest(nav, seq![start] + path, start, goal);
}

/// Finds a way from one cell to another. There is one exactly when the cells
/// differ and the goal can be reached; it leaves the start out. Which one it is
/// depends on nothing that earlier searches left in the buffers.
pub fn astar(nav: &NavGrid, sc: &mut PathScratch, start: Cell, goal: Cell) -> (r: Option<Vec<Cell>>)
    requires
        nav.wf(),
        old(sc).wf(),
        start.in_grid(),
        goal.in_grid(),
    ensures
        final(sc).wf(),
        match r {
            Some(path) => start != goal && is_good_path(nav, path@, start, goal),
            None => start == goal || !reachable(nav, start, goal),
        },
        path_view(r) == answer(nav, start, goal),
{
    let s: usize = NavGrid::idx(start);
    let t: usize = NavGrid::idx(goal);
    proof {
        numbering(s as int, start);
        numbering(t as int, goal);
    }
    sc.begin();
    sc.g.set(s, 0);
    sc.came.set(s, u32::MAX);
    sc.seen.set(s, sc.generation);
    let mut open = MinHeap::new();
    let first: u64 = rank_of(0, s, goal);
    open.push(first);
    let ghost mut order: Seq<int> = Seq::empty();
    proof {
        rank_parts(0, s as int, goal);
        assert forall|i: int| 0 <= i < CELLS implies !#[trigger] sc.is_closed(i) by {}
        assert forall|i: int| 0 <= i < CELLS && #[trigger] sc.is_seen(i) implies i == s by {}
        assert(queued(sc, open.view(), goal)) by {
            assert forall|e: u64| #[trigger] open.view().count(e) > 0 implies e == first by {}
        }
        reveal(searching);
        assert(searching(nav, sc, open.view(), s as int, goal, order, -1));
        assert(stands_for(sc, open.view()).cells =~= opened(start, goal).cells);
        assert(stands_for(sc, open.view()).closed =~= opened(start, goal).closed);
    }
    let ghost mut steps: nat = 0;
    let mut found = false;
    let mut done = false;
    while !done
        invariant
            nav.wf(),
            goal.in_grid(),
            start.in_grid(),
            s < CELLS,
            t < CELLS,
            s == start.number(),
            t == goal.number(),
            cell_of(s as int) == start,
            cell_of(t as int) == goal,
            !found ==> searching(nav, sc, open.view(), s as int, goal, order, -1)
                && !sc.is_closed(t as int),
            done && !found ==> open.view() == vstd::multiset::Multiset::<u64>::empty(),
            found ==> done && tree(nav, sc, s as int, order) && closing(sc, s as int, order)
                && all_near_best(nav, sc, s as int) && straight_ahead(nav, sc, s as int, goal)
                && sc.is_closed(t as int),
            stands_for(sc, open.view()) == stepped(nav, start, goal, steps),
        decreases
                (if done {
                    0int
                } else {
                    1int
                }),
                CELLS - order.len(),
                open.view().len(),
    {
        let ghost before = open.view();
        let ghost then = stands_for(sc, before);
        proof {
            reveal(searching);
            assert(then.closed[t as int] == sc.is_closed(t as int));
        }
        match open.pop() {
            None => {
                done = true;
            },
            Some(head) => {
                let idx: usize = (head % 10_000) as usize;
                proof {
                    head_of_queue(before, head);
                    assert(then.closed[idx as int] == sc.is_closed(idx as int));
                    steps = steps + 1;
                }
                if sc.closed[idx] == sc.generation {
                    proof {
                        stale_entry(nav, sc, before, s as int, goal, order, head);
                        let now = stands_for(sc, open.view());
                        assert(now.cells =~= then.cells && now.closed =~= then.closed);
                    }
                } else {
                    let ghost earlier = *sc;
                    sc.closed.set(idx, sc.generation);
                    proof {
                        closed_head(
                            nav,
                            &earlier,
                            sc,
                            before,
                            s as int,
                            goal,
                            order,
                            head,
                            idx as int,
                        );
                        order = order.push(idx as int);
                        let now = stands_for(sc, open.view());
                        assert(now.cells =~= then.cells);
                        assert(now.closed =~= then.closed.update(idx as int, true));
                    }
                    if idx == t {
                        found = true;
                        done = true;
                    } else {
                        assert(!sc.is_closed(t as int));
                        expand(nav, sc, &mut open, s, goal, idx, Ghost(order));
                    }
                }
            },
        }
    }
    proof {
        let st = stands_for(sc, open.view());
        assert(st.closed[t as int] == sc.is_closed(t as int));
        one_outcome(nav, start, goal, steps);
    }
    if !found {
        proof {
            reveal(searching);
            unclosed_is_unreachable(nav, sc, open.view(), s as int, goal, order);
        }
        return None;
    }
    let path = trace(nav, sc, s, t, Ghost(order));
    if path.len() == 0 {
        assert((seq![start] + path@).last() == start);
        return None;
    }
    proof {
        assert(near_best(nav, sc, s as int, t as int));
        if start == goal {
            assert(is_walk(nav, seq![start], start, goal));
            assert(sc.g@[t as int] == 0);
            let whole = seq![start] + path@;
            let n = whole.len();
            walk_cost_positive(whole.drop_last());
            assert(walk_cost(whole) > 0);
        }
        assert(path@ == trail(stands_for(sc, open.view()).cells, s as int, t as int, CELLS as nat));
    }
    Some(path)
}

} // verus!
