//! The mine field engine: the Setup -> Playing -> Over state machine around
//! the grid store, with random mine placement and the flood-fill reveal.

use vstd::prelude::*;

use crate::grid::adj_count;
use crate::grid::all_unrevealed;
use crate::grid::cells_ok;
use crate::grid::counts_ok;
use crate::grid::flood_closed;
use crate::grid::hidden_total;
use crate::grid::is_adjacent;
use crate::grid::is_mine;
use crate::grid::is_revealed;
use crate::grid::lemma_grid_count_delta;
use crate::grid::lemma_grid_count_full;
use crate::grid::lemma_grid_count_nonneg;
use crate::grid::lemma_grid_count_zero;
use crate::grid::lemma_reach_start;
use crate::grid::lemma_reach_step;
use crate::grid::mine_at;
use crate::grid::mine_pred;
use crate::grid::mine_total;
use crate::grid::reachable;
use crate::grid::unrevealed_pred;
use crate::grid::Cell;
use crate::grid::Grid;
use crate::grid::MAX_SIZE;

verus! {

/// The lifecycle of one game session: mines not yet placed, reveals
/// accepted, or a mine revealed. There is no transition out of `Over`.
#[derive(Clone, Copy, Debug, PartialEq, Eq, Structural)]
pub enum Phase {
    Setup,
    Playing,
    Over,
}

/// The engine: one grid, the target number of mines, and the phase.
pub struct MineField {
    pub grid: Grid,
    pub mine_count: usize,
    pub phase: Phase,
}

/// The configurations the engine accepts: dimensions within the grid store's
/// limits and a mine count in `[2, width * height / 10]`.
pub open spec fn valid_config(width: int, height: int, mine_count: int) -> bool {
    &&& 1 <= width <= MAX_SIZE as int
    &&& 1 <= height <= MAX_SIZE as int
    &&& 2 <= mine_count
    &&& mine_count <= width * height / 10
}

/// How one cell may change under a reveal: stay put, or go from its hidden
/// state to the matching revealed state with the same magnitude.
pub open spec fn cell_step(a: Cell, b: Cell) -> bool {
    ||| b == a
    ||| (a == Cell::Hidden(0u8) && b == Cell::RevealedEmpty)
    ||| (a is Hidden && a->Hidden_0 > 0 && b == Cell::RevealedNumber(a->Hidden_0))
    ||| (a == Cell::HiddenMine && b == Cell::RevealedMine)
}

/// `cell_step` restricted to non-mine cells, as the flood fill performs it.
spec fn zero_step(a: Cell, b: Cell) -> bool {
    ||| b == a
    ||| (a == Cell::Hidden(0u8) && b == Cell::RevealedEmpty)
    ||| (a is Hidden && a->Hidden_0 > 0 && b == Cell::RevealedNumber(a->Hidden_0))
}

/// The state of the grid part-way through revealing the neighbours of the
/// revealed-empty cell `(x, y)`: window cells before `(dx, dy)` in row-major
/// order are already revealed, everything else still reads as in `g1`.
spec fn revealed_upto(g1: Grid, g: Grid, x: int, y: int, dx: int, dy: int) -> bool {
    forall|i: int, j: int|
        g1.in_bounds(i, j) ==> #[trigger] g.at(i, j) == (if !(i == x && j == y) && x - 1 <= i <= x
            + 1 && y - 1 <= j <= y + 1 && (j < dy || (j == dy && i < dx)) {
            match g1.at(i, j) {
                Cell::Hidden(n) => if n == 0 {
                    Cell::RevealedEmpty
                } else {
                    Cell::RevealedNumber(n)
                },
                c => c,
            }
        } else {
            g1.at(i, j)
        })
}

/// Every revealed-empty cell before `(xx, yy)` in row-major scan order has
/// all of its neighbours revealed.
spec fn expanded_upto(g: Grid, xx: int, yy: int) -> bool {
    forall|i: int, j: int, a: int, b: int|
        g.in_bounds(i, j) && (j < yy || (j == yy && i < xx)) && #[trigger] g.at(i, j)
            is RevealedEmpty && is_adjacent(i, j, a, b) && g.in_bounds(a, b) ==> is_revealed(
            #[trigger] g.at(a, b),
        )
}

/// Relies on rand::random_range: a draw from the thread-local generator that
/// lies within the given range; `0..n` is nonempty because `n >= 1`, so the
/// call returns a value below `n` rather than panicking. Nothing more is
/// assumed of the draw: callers must be correct for every outcome.
#[verifier::external_body]
fn random_below(n: usize) -> (r: usize)
    requires
        n >= 1,
    ensures
        r < n,
{
    rand::random_range(0..n)
}

impl MineField {
    /// The engine's internal invariant: a well-formed grid whose stored
    /// magnitudes are all true, and, once mines are placed, exactly
    /// `mine_count` of them.
    pub open spec fn inv(&self) -> bool {
        &&& self.grid.wf()
        &&& cells_ok(self.grid)
        &&& counts_ok(self.grid)
        &&& valid_config(
            self.grid.width as int,
            self.grid.height as int,
            self.mine_count as int,
        )
        &&& (self.phase !is Setup ==> mine_total(self.grid) == self.mine_count as int)
    }

    /// The full well-formedness of a resting engine: on top of `inv`, the
    /// flood fill has nothing left to do anywhere.
    pub open spec fn wf(&self) -> bool {
        &&& self.inv()
        &&& flood_closed(self.grid)
    }

    /// Whether the engine accepts this configuration.
    pub fn config_ok(width: usize, height: usize, mine_count: usize) -> (r: bool)
        ensures
            r == valid_config(width as int, height as int, mine_count as int),
    {
        if width >= 1 && width <= MAX_SIZE && height >= 1 && height <= MAX_SIZE {
            proof {
                assert(width as int * height as int <= 9801) by (nonlinear_arith)
                    requires
                        0 <= width as int <= 99,
                        0 <= height as int <= 99,
                ;
            }
            mine_count >= 2 && mine_count <= width * height / 10
        } else {
            false
        }
    }

    /// A fresh engine in `Setup`: an all-hidden grid and the target mine
    /// count, whose validity the caller has established.
    pub fn new(width: usize, height: usize, mine_count: usize) -> (field: MineField)
        requires
            valid_config(width as int, height as int, mine_count as int),
        ensures
            field.wf(),
            field.phase is Setup,
            field.grid.width == width,
            field.grid.height == height,
            field.mine_count == mine_count,
            forall|x: int, y: int|
                field.grid.in_bounds(x, y) ==> #[trigger] field.grid.at(x, y) == Cell::Hidden(0u8),
    {
        let grid = Grid::make(width, height);
        let field = MineField { grid, mine_count, phase: Phase::Setup };
        proof {
            assert forall|x: int, y: int| field.grid.in_bounds(x, y) implies adj_count(
                field.grid,
                x,
                y,
            ) == 0 by {}
        }
        field
    }

    /// Returns the engine to `Setup` with every cell hidden-empty-zero, so
    /// that repeated placement passes start from the same blank state.
    pub fn zero(&mut self)
        requires
            old(self).wf(),
        ensures
            final(self).wf(),
            final(self).phase is Setup,
            final(self).grid.width == old(self).grid.width,
            final(self).grid.height == old(self).grid.height,
            final(self).mine_count == old(self).mine_count,
            forall|x: int, y: int|
                final(self).grid.in_bounds(x, y) ==> #[trigger] final(self).grid.at(x, y)
                    == Cell::Hidden(0u8),
            mine_total(final(self).grid) == 0,
            all_unrevealed(final(self).grid),
    {
        self.grid.reset();
        self.phase = Phase::Setup;
        proof {
            assert forall|x: int, y: int| self.grid.in_bounds(x, y) implies adj_count(
                self.grid,
                x,
                y,
            ) == 0 by {}
            lemma_grid_count_zero(mine_pred(), self.grid);
        }
    }

    /// Places exactly `mine_count` mines on a freshly reset grid, drawing
    /// uniform positions and retrying on collision, each placement
    /// incrementing the stored counts of the new mine's non-mine neighbours.
    /// Moves the engine from `Setup` to `Playing`. When the random draws
    /// starve (which the 10% cap on mines makes overwhelmingly unlikely), the
    /// remaining mines go to the first free cells in scan order, so placement
    /// always terminates with the exact count.
    pub fn place_mines(&mut self)
        requires
            old(self).wf(),
            old(self).phase is Setup,
        ensures
            final(self).wf(),
            final(self).phase is Playing,
            final(self).grid.width == old(self).grid.width,
            final(self).grid.height == old(self).grid.height,
            final(self).mine_count == old(self).mine_count,
            mine_total(final(self).grid) == final(self).mine_count as int,
            counts_ok(final(self).grid),
            all_unrevealed(final(self).grid),
    {
        self.zero();
        let mut placed: usize = 0;
        let mut fuel: usize = usize::MAX;
        while placed < self.mine_count && fuel > 0
            invariant
                self.inv(),
                self.phase is Setup,
                self.grid.width == old(self).grid.width,
                self.grid.height == old(self).grid.height,
                self.mine_count == old(self).mine_count,
                all_unrevealed(self.grid),
                placed <= self.mine_count,
                mine_total(self.grid) == placed as int,
            decreases fuel,
        {
            fuel = fuel - 1;
            let px = random_below(self.grid.width);
            let py = random_below(self.grid.height);
            let c = self.grid.cells[py][px];
            if !(matches!(c, Cell::HiddenMine)) {
                self.grid.add_mine(px, py);
                placed = placed + 1;
            }
        }
        if placed < self.mine_count {
            self.place_rest(&mut placed);
        }
        self.phase = Phase::Playing;
    }

    /// Deterministic fallback for starved draws: puts the remaining mines on
    /// the first free cells in scan order. The 10% cap guarantees enough free
    /// cells, so the quota is always reached.
    fn place_rest(&mut self, placed: &mut usize)
        requires
            old(self).inv(),
            old(self).phase is Setup,
            all_unrevealed(old(self).grid),
            *old(placed) <= old(self).mine_count,
            mine_total(old(self).grid) == *old(placed) as int,
        ensures
            final(self).inv(),
            final(self).phase is Setup,
            final(self).grid.width == old(self).grid.width,
            final(self).grid.height == old(self).grid.height,
            final(self).mine_count == old(self).mine_count,
            all_unrevealed(final(self).grid),
            *final(placed) == final(self).mine_count,
            mine_total(final(self).grid) == *final(placed) as int,
    {
        let mut yy: usize = 0;
        while yy < self.grid.height
            invariant
                self.inv(),
                self.phase is Setup,
                self.grid.width == old(self).grid.width,
                self.grid.height == old(self).grid.height,
                self.mine_count == old(self).mine_count,
                all_unrevealed(self.grid),
                *placed <= self.mine_count,
                mine_total(self.grid) == *placed as int,
                yy as int <= self.grid.height as int,
                *placed == self.mine_count || forall|i: int, j: int|
                    self.grid.in_bounds(i, j) && j < yy as int ==> is_mine(
                        #[trigger] self.grid.at(i, j),
                    ),
            decreases self.grid.height as int - yy as int,
        {
            let mut xx: usize = 0;
            while xx < self.grid.width
                invariant
                    self.inv(),
                    self.phase is Setup,
                    self.grid.width == old(self).grid.width,
                    self.grid.height == old(self).grid.height,
                    self.mine_count == old(self).mine_count,
                    all_unrevealed(self.grid),
                    *placed <= self.mine_count,
                    mine_total(self.grid) == *placed as int,
                    (yy as int) < self.grid.height as int,
                    xx as int <= self.grid.width as int,
                    *placed == self.mine_count || forall|i: int, j: int|
                        self.grid.in_bounds(i, j) && (j < yy as int || (j == yy as int && i
                            < xx as int)) ==> is_mine(#[trigger] self.grid.at(i, j)),
                decreases self.grid.width as int - xx as int,
            {
                if *placed < self.mine_count {
                    let c = self.grid.cells[yy][xx];
                    if !(matches!(c, Cell::HiddenMine)) {
                        self.grid.add_mine(xx, yy);
                        *placed = *placed + 1;
                    }
                }
                xx = xx + 1;
            }
            yy = yy + 1;
        }
        proof {
            if *placed != self.mine_count {
                lemma_grid_count_full(mine_pred(), self.grid);
                let w = self.grid.width as int;
                let h = self.grid.height as int;
                assert(w * h >= 1) by (nonlinear_arith)
                    requires
                        w >= 1,
                        h >= 1,
                ;
                assert(w * h / 10 <= w * h);
                assert(false);
            }
        }
    }

    /// Deterministic placement for a given list of distinct in-bounds
    /// positions, one per mine: the same accounting as `place_mines`, with
    /// the mine set pinned exactly. Moves the engine from `Setup` to
    /// `Playing`.
    pub fn place_mines_at(&mut self, coords: &Vec<(usize, usize)>)
        requires
            old(self).wf(),
            old(self).phase is Setup,
            coords@.len() == old(self).mine_count as int,
            forall|k: int|
                0 <= k < coords@.len() ==> old(self).grid.in_bounds(
                    (#[trigger] coords@[k]).0 as int,
                    coords@[k].1 as int,
                ),
            forall|k1: int, k2: int|
                0 <= k1 < k2 < coords@.len() ==> #[trigger] coords@[k1] != #[trigger] coords@[k2],
        ensures
            final(self).wf(),
            final(self).phase is Playing,
            final(self).grid.width == old(self).grid.width,
            final(self).grid.height == old(self).grid.height,
            final(self).mine_count == old(self).mine_count,
            mine_total(final(self).grid) == final(self).mine_count as int,
            counts_ok(final(self).grid),
            all_unrevealed(final(self).grid),
            forall|x: int, y: int|
                final(self).grid.in_bounds(x, y) ==> (is_mine(#[trigger] final(self).grid.at(x, y))
                    <==> coords@.contains((x as usize, y as usize))),
    {
        self.zero();
        let mut k: usize = 0;
        while k < coords.len()
            invariant
                self.inv(),
                self.phase is Setup,
                self.grid.width == old(self).grid.width,
                self.grid.height == old(self).grid.height,
                self.mine_count == old(self).mine_count,
                all_unrevealed(self.grid),
                coords@.len() == self.mine_count as int,
                k as int <= coords@.len(),
                mine_total(self.grid) == k as int,
                forall|m: int|
                    0 <= m < coords@.len() ==> self.grid.in_bounds(
                        (#[trigger] coords@[m]).0 as int,
                        coords@[m].1 as int,
                    ),
                forall|k1: int, k2: int|
                    0 <= k1 < k2 < coords@.len() ==> #[trigger] coords@[k1] != #[trigger] coords@[k2],
                forall|x: int, y: int|
                    self.grid.in_bounds(x, y) ==> (is_mine(#[trigger] self.grid.at(x, y))
                        <==> exists|m: int|
                        0 <= m < k as int && #[trigger] coords@[m] == (x as usize, y as usize)),
            decreases coords@.len() - k as int,
        {
            let p = coords[k];
            proof {
                if is_mine(self.grid.at(p.0 as int, p.1 as int)) {
                    let m = choose|m: int|
                        0 <= m < k as int && #[trigger] coords@[m] == (p.0, p.1);
                    assert(coords@[m] == coords@[k as int]);
                    assert(false);
                }
            }
            self.grid.add_mine(p.0, p.1);
            k = k + 1;
        }
        self.phase = Phase::Playing;
    }

    /// One expansion step of the flood fill: reveals every still-hidden
    /// neighbour of the revealed-empty cell `(x, y)` (none of which can be a
    /// mine, since the cell's true count is zero), without recursing further.
    /// Reports whether any neighbour was still hidden.
    #[verifier::rlimit(100)]
    pub fn reveal_adjacent(&mut self, x: usize, y: usize) -> (changed: bool)
        requires
            old(self).inv(),
            old(self).phase is Playing,
            old(self).grid.in_bounds(x as int, y as int),
            old(self).grid.at(x as int, y as int) is RevealedEmpty,
        ensures
            final(self).inv(),
            final(self).phase == old(self).phase,
            final(self).mine_count == old(self).mine_count,
            final(self).grid.width == old(self).grid.width,
            final(self).grid.height == old(self).grid.height,
            mine_total(final(self).grid) == mine_total(old(self).grid),
            forall|i: int, j: int|
                old(self).grid.in_bounds(i, j) ==> #[trigger] final(self).grid.at(i, j) == (
                if is_adjacent(x as int, y as int, i, j) {
                    match old(self).grid.at(i, j) {
                        Cell::Hidden(n) => if n == 0 {
                            Cell::RevealedEmpty
                        } else {
                            Cell::RevealedNumber(n)
                        },
                        c => c,
                    }
                } else {
                    old(self).grid.at(i, j)
                }),
            forall|i: int, j: int|
                old(self).grid.in_bounds(i, j) && is_adjacent(x as int, y as int, i, j)
                    ==> is_revealed(#[trigger] final(self).grid.at(i, j)),
            !changed ==> forall|i: int, j: int|
                old(self).grid.in_bounds(i, j) ==> #[trigger] final(self).grid.at(i, j) == old(
                    self,
                ).grid.at(i, j),
            changed ==> hidden_total(final(self).grid) < hidden_total(old(self).grid),
            !changed ==> hidden_total(final(self).grid) == hidden_total(old(self).grid),
    {
        let ghost g1 = self.grid;
        proof {
            // The revealed-empty centre has a true count of zero, so no
            // neighbour holds a mine.
            assert(adj_count(g1, x as int, y as int) == 0);
            assert forall|i: int, j: int|
                g1.in_bounds(i, j) && is_adjacent(x as int, y as int, i, j) implies !is_mine(
                #[trigger] g1.at(i, j),
            ) by {
                assert(mine_at(g1, i, j) == 0);
            }
        }
        let sy = if y >= 1 { y - 1 } else { 0 };
        let ey = if y + 1 < self.grid.height { y + 1 } else { self.grid.height - 1 };
        let sx = if x >= 1 { x - 1 } else { 0 };
        let ex = if x + 1 < self.grid.width { x + 1 } else { self.grid.width - 1 };
        let mut changed = false;
        let mut dy = sy;
        while dy <= ey
            invariant
                self.grid.wf(),
                cells_ok(self.grid),
                counts_ok(self.grid),
                self.phase == old(self).phase,
                self.mine_count == old(self).mine_count,
                self.grid.width == g1.width,
                self.grid.height == g1.height,
                g1 == old(self).grid,
                g1.wf(),
                sy as int <= dy as int,
                (dy as int) <= ey as int + 1,
                sy as int == if y as int >= 1 {
                    y as int - 1
                } else {
                    0int
                },
                ey as int == if y as int + 1 < g1.height as int {
                    y as int + 1
                } else {
                    g1.height as int - 1
                },
                sx as int == if x as int >= 1 {
                    x as int - 1
                } else {
                    0int
                },
                ex as int == if x as int + 1 < g1.width as int {
                    x as int + 1
                } else {
                    g1.width as int - 1
                },
                g1.in_bounds(x as int, y as int),
                forall|i: int, j: int|
                    g1.in_bounds(i, j) && is_adjacent(x as int, y as int, i, j) ==> !is_mine(
                        #[trigger] g1.at(i, j),
                    ),
                revealed_upto(g1, self.grid, x as int, y as int, sx as int, dy as int),
                mine_total(self.grid) == mine_total(g1),
                changed ==> hidden_total(self.grid) < hidden_total(g1),
                !changed ==> hidden_total(self.grid) == hidden_total(g1),
                !changed ==> forall|i: int, j: int|
                    g1.in_bounds(i, j) ==> #[trigger] self.grid.at(i, j) == g1.at(i, j),
            decreases ey as int + 1 - dy as int,
        {
            let mut dx = sx;
            while dx <= ex
                invariant
                    self.grid.wf(),
                    cells_ok(self.grid),
                    counts_ok(self.grid),
                    self.phase == old(self).phase,
                    self.mine_count == old(self).mine_count,
                    self.grid.width == g1.width,
                    self.grid.height == g1.height,
                    g1 == old(self).grid,
                    g1.wf(),
                    sx as int <= dx as int,
                    (dx as int) <= ex as int + 1,
                    sy as int <= dy as int,
                    (dy as int) <= ey as int,
                    sy as int == if y as int >= 1 {
                        y as int - 1
                    } else {
                        0int
                    },
                    ey as int == if y as int + 1 < g1.height as int {
                        y as int + 1
                    } else {
                        g1.height as int - 1
                    },
                    sx as int == if x as int >= 1 {
                        x as int - 1
                    } else {
                        0int
                    },
                    ex as int == if x as int + 1 < g1.width as int {
                        x as int + 1
                    } else {
                        g1.width as int - 1
                    },
                    g1.in_bounds(x as int, y as int),
                    forall|i: int, j: int|
                        g1.in_bounds(i, j) && is_adjacent(x as int, y as int, i, j) ==> !is_mine(
                            #[trigger] g1.at(i, j),
                        ),
                    revealed_upto(g1, self.grid, x as int, y as int, dx as int, dy as int),
                    mine_total(self.grid) == mine_total(g1),
                    changed ==> hidden_total(self.grid) < hidden_total(g1),
                    !changed ==> hidden_total(self.grid) == hidden_total(g1),
                    !changed ==> forall|i: int, j: int|
                        g1.in_bounds(i, j) ==> #[trigger] self.grid.at(i, j) == g1.at(i, j),
                decreases ex as int + 1 - dx as int,
            {
                if !(dx == x && dy == y) {
                    let did = self.grid.reveal_one(dx, dy);
                    changed = changed || did;
                }
                dx = dx + 1;
            }
            dy = dy + 1;
        }
        proof {
            let xx = x as int;
            let yy = y as int;
            let g2 = self.grid;
            assert forall|i: int, j: int| g1.in_bounds(i, j) implies #[trigger] g2.at(i, j) == (
            if is_adjacent(xx, yy, i, j) {
                match g1.at(i, j) {
                    Cell::Hidden(n) => if n == 0 {
                        Cell::RevealedEmpty
                    } else {
                        Cell::RevealedNumber(n)
                    },
                    c => c,
                }
            } else {
                g1.at(i, j)
            }) by {}
        }
        changed
    }

    /// The worklist-free flood fill: repeated scan passes that expand every
    /// revealed-empty cell one step, until a pass changes nothing.
    #[verifier::rlimit(100)]
    fn flood(&mut self, x: usize, y: usize)
        requires
            old(self).inv(),
            flood_closed(old(self).grid),
            old(self).phase is Playing,
            old(self).grid.in_bounds(x as int, y as int),
            old(self).grid.at(x as int, y as int) == Cell::Hidden(0u8),
        ensures
            final(self).inv(),
            flood_closed(final(self).grid),
            final(self).phase == old(self).phase,
            final(self).mine_count == old(self).mine_count,
            final(self).grid.width == old(self).grid.width,
            final(self).grid.height == old(self).grid.height,
            mine_total(final(self).grid) == mine_total(old(self).grid),
            final(self).grid.at(x as int, y as int) == Cell::RevealedEmpty,
            forall|i: int, j: int|
                old(self).grid.in_bounds(i, j) ==> zero_step(
                    old(self).grid.at(i, j),
                    #[trigger] final(self).grid.at(i, j),
                ),
            forall|i: int, j: int|
                old(self).grid.in_bounds(i, j) && #[trigger] final(self).grid.at(i, j) != old(
                    self,
                ).grid.at(i, j) ==> reachable(old(self).grid, x as int, y as int, i, j),
    {
        let ghost g0 = self.grid;
        let _d = self.grid.reveal_one(x, y);
        proof {
            lemma_reach_start(g0, x as int, y as int);
        }
        let mut changed = true;
        while changed
            invariant
                self.inv(),
                self.phase is Playing,
                self.phase == old(self).phase,
                self.mine_count == old(self).mine_count,
                self.grid.width == g0.width,
                self.grid.height == g0.height,
                g0 == old(self).grid,
                g0.wf(),
                flood_closed(g0),
                g0.in_bounds(x as int, y as int),
                g0.at(x as int, y as int) == Cell::Hidden(0u8),
                mine_total(self.grid) == mine_total(g0),
                self.grid.at(x as int, y as int) == Cell::RevealedEmpty,
                forall|i: int, j: int|
                    g0.in_bounds(i, j) ==> zero_step(g0.at(i, j), #[trigger] self.grid.at(i, j)),
                forall|i: int, j: int|
                    g0.in_bounds(i, j) && #[trigger] self.grid.at(i, j) != g0.at(i, j)
                        ==> reachable(g0, x as int, y as int, i, j),
                !changed ==> flood_closed(self.grid),
            decreases hidden_total(self.grid) + (if changed {
                1int
            } else {
                0int
            }),
        {
            proof {
                lemma_grid_count_nonneg(unrevealed_pred(), self.grid);
            }
            changed = false;
            let ghost h0 = hidden_total(self.grid);
            let mut yy: usize = 0;
            while yy < self.grid.height
                invariant
                    self.inv(),
                    self.phase is Playing,
                    self.phase == old(self).phase,
                    self.mine_count == old(self).mine_count,
                    self.grid.width == g0.width,
                    self.grid.height == g0.height,
                    g0 == old(self).grid,
                    g0.wf(),
                    flood_closed(g0),
                    g0.in_bounds(x as int, y as int),
                    g0.at(x as int, y as int) == Cell::Hidden(0u8),
                    mine_total(self.grid) == mine_total(g0),
                    self.grid.at(x as int, y as int) == Cell::RevealedEmpty,
                    forall|i: int, j: int|
                        g0.in_bounds(i, j) ==> zero_step(
                            g0.at(i, j),
                            #[trigger] self.grid.at(i, j),
                        ),
                    forall|i: int, j: int|
                        g0.in_bounds(i, j) && #[trigger] self.grid.at(i, j) != g0.at(i, j)
                            ==> reachable(g0, x as int, y as int, i, j),
                    yy as int <= self.grid.height as int,
                    changed ==> hidden_total(self.grid) < h0,
                    !changed ==> hidden_total(self.grid) == h0,
                    !changed ==> expanded_upto(self.grid, 0, yy as int),
                decreases self.grid.height as int - yy as int,
            {
                let mut xx: usize = 0;
                while xx < self.grid.width
                    invariant
                        self.inv(),
                        self.phase is Playing,
                        self.phase == old(self).phase,
                        self.mine_count == old(self).mine_count,
                        self.grid.width == g0.width,
                        self.grid.height == g0.height,
                        g0 == old(self).grid,
                        g0.wf(),
                        flood_closed(g0),
                        g0.in_bounds(x as int, y as int),
                        g0.at(x as int, y as int) == Cell::Hidden(0u8),
                        mine_total(self.grid) == mine_total(g0),
                        self.grid.at(x as int, y as int) == Cell::RevealedEmpty,
                        forall|i: int, j: int|
                            g0.in_bounds(i, j) ==> zero_step(
                                g0.at(i, j),
                                #[trigger] self.grid.at(i, j),
                            ),
                        forall|i: int, j: int|
                            g0.in_bounds(i, j) && #[trigger] self.grid.at(i, j) != g0.at(i, j)
                                ==> reachable(g0, x as int, y as int, i, j),
                        (yy as int) < self.grid.height as int,
                        xx as int <= self.grid.width as int,
                        changed ==> hidden_total(self.grid) < h0,
                        !changed ==> hidden_total(self.grid) == h0,
                        !changed ==> expanded_upto(self.grid, xx as int, yy as int),
                    decreases self.grid.width as int - xx as int,
                {
                    let c2 = self.grid.cells[yy][xx];
                    if matches!(c2, Cell::RevealedEmpty) {
                        let ghost gpre = self.grid;
                        let did = self.reveal_adjacent(xx, yy);
                        if did {
                            changed = true;
                        }
                        proof {
                            assert forall|i: int, j: int|
                                g0.in_bounds(i, j) && #[trigger] self.grid.at(i, j) != gpre.at(
                                    i,
                                    j,
                                ) implies reachable(g0, x as int, y as int, i, j) by {
                                // A changed neighbour was hidden before the
                                // step, so it was hidden in g0 too; and the
                                // centre is a reachable zero cell of g0.
                                assert(is_adjacent(xx as int, yy as int, i, j));
                                assert(gpre.at(i, j) is Hidden);
                                assert(g0.at(i, j) == gpre.at(i, j));
                                if gpre.at(xx as int, yy as int) == g0.at(xx as int, yy as int) {
                                    assert(g0.at(xx as int, yy as int) is RevealedEmpty);
                                    assert(is_revealed(g0.at(i, j)));
                                    assert(false);
                                } else {
                                    assert(g0.at(xx as int, yy as int) == Cell::Hidden(0u8));
                                    lemma_reach_step(
                                        g0,
                                        x as int,
                                        y as int,
                                        xx as int,
                                        yy as int,
                                        i,
                                        j,
                                    );
                                }
                            }
                        }
                    }
                    xx = xx + 1;
                }
                yy = yy + 1;
            }
            proof {
                lemma_grid_count_nonneg(unrevealed_pred(), self.grid);
            }
        }
        proof {
            assert(flood_closed(self.grid));
        }
    }

    /// Reveals the cell at the 0-based `(x, y)`.
    ///
    /// In `Playing`: a hidden mine becomes the revealed losing mine, the
    /// engine moves to `Over`, and the call reports the hit; a hidden
    /// numbered cell is revealed with its magnitude kept; a hidden
    /// zero-adjacency cell is revealed and flood-fills the connected
    /// zero region, which grows exactly to the cells reachable from `(x, y)`
    /// through hidden zero cells and is bounded by the revealed numbered
    /// cells; an already revealed cell is an idempotent no-op. In `Over` the
    /// engine never changes again. After any reveal in `Playing` the chosen
    /// cell is revealed, so revealing the same coordinate twice leaves the
    /// same state as revealing it once.
    pub fn reveal_at(&mut self, x: usize, y: usize) -> (hit: bool)
        requires
            old(self).wf(),
            !(old(self).phase is Setup),
            (x as int) < old(self).grid.width as int,
            (y as int) < old(self).grid.height as int,
        ensures
            final(self).wf(),
            !(final(self).phase is Setup),
            final(self).mine_count == old(self).mine_count,
            final(self).grid.width == old(self).grid.width,
            final(self).grid.height == old(self).grid.height,
            forall|i: int, j: int|
                old(self).grid.in_bounds(i, j) ==> cell_step(
                    old(self).grid.at(i, j),
                    #[trigger] final(self).grid.at(i, j),
                ),
            old(self).phase is Over ==> *final(self) == *old(self) && hit,
            old(self).phase is Playing ==> {
                &&& (old(self).grid.at(x as int, y as int) == Cell::HiddenMine ==> {
                    &&& hit
                    &&& final(self).phase is Over
                    &&& final(self).grid.at(x as int, y as int) == Cell::RevealedMine
                    &&& forall|i: int, j: int|
                        old(self).grid.in_bounds(i, j) && !(i == x as int && j == y as int)
                            ==> #[trigger] final(self).grid.at(i, j) == old(self).grid.at(i, j)
                })
                &&& (old(self).grid.at(x as int, y as int) is Hidden && old(self).grid.at(
                    x as int,
                    y as int,
                )->Hidden_0 > 0 ==> {
                    &&& !hit
                    &&& final(self).phase is Playing
                    &&& final(self).grid.at(x as int, y as int) == Cell::RevealedNumber(
                        old(self).grid.at(x as int, y as int)->Hidden_0,
                    )
                    &&& forall|i: int, j: int|
                        old(self).grid.in_bounds(i, j) && !(i == x as int && j == y as int)
                            ==> #[trigger] final(self).grid.at(i, j) == old(self).grid.at(i, j)
                })
                &&& (old(self).grid.at(x as int, y as int) == Cell::Hidden(0u8) ==> {
                    &&& !hit
                    &&& final(self).phase is Playing
                    &&& final(self).grid.at(x as int, y as int) == Cell::RevealedEmpty
                    &&& forall|i: int, j: int|
                        old(self).grid.in_bounds(i, j) && #[trigger] final(self).grid.at(i, j)
                            != old(self).grid.at(i, j) ==> reachable(
                            old(self).grid,
                            x as int,
                            y as int,
                            i,
                            j,
                        )
                })
                &&& (is_revealed(old(self).grid.at(x as int, y as int)) ==> !hit && *final(self)
                    == *old(self) && final(self).phase is Playing)
            },
            final(self).phase is Playing ==> is_revealed(final(self).grid.at(x as int, y as int)),
    {
        if matches!(self.phase, Phase::Over) {
            return true;
        }
        let ghost gb = self.grid;
        let c = self.grid.cells[y][x];
        match c {
            Cell::HiddenMine => {
                self.grid.put(x, y, Cell::RevealedMine);
                self.phase = Phase::Over;
                proof {
                    let g2 = self.grid;
                    let xx = x as int;
                    let yy = y as int;
                    assert forall|a: int, b: int| mine_at(g2, a, b) == mine_at(gb, a, b) by {}
                    assert forall|i: int, j: int| gb.in_bounds(i, j) implies adj_count(g2, i, j)
                        == adj_count(gb, i, j) by {}
                    lemma_grid_count_delta(mine_pred(), gb, g2, xx, yy);
                    // The cell was hidden, so it bordered no revealed-empty
                    // cell, and closure is untouched.
                    assert forall|i: int, j: int, a: int, b: int|
                        g2.in_bounds(i, j) && #[trigger] g2.at(i, j) is RevealedEmpty
                            && is_adjacent(i, j, a, b) && g2.in_bounds(a, b) implies is_revealed(
                        #[trigger] g2.at(a, b),
                    ) by {
                        assert(gb.at(i, j) is RevealedEmpty);
                        assert(is_revealed(gb.at(a, b)));
                    }
                }
                true
            },
            Cell::Hidden(n) => {
                if n > 0 {
                    self.grid.put(x, y, Cell::RevealedNumber(n));
                    proof {
                        let g2 = self.grid;
                        let xx = x as int;
                        let yy = y as int;
                        assert forall|a: int, b: int| mine_at(g2, a, b) == mine_at(gb, a, b) by {}
                        assert forall|i: int, j: int| gb.in_bounds(i, j) implies adj_count(
                            g2,
                            i,
                            j,
                        ) == adj_count(gb, i, j) by {}
                        lemma_grid_count_delta(mine_pred(), gb, g2, xx, yy);
                        assert forall|i: int, j: int, a: int, b: int|
                            g2.in_bounds(i, j) && #[trigger] g2.at(i, j) is RevealedEmpty
                                && is_adjacent(i, j, a, b) && g2.in_bounds(a, b) implies
                        is_revealed(#[trigger] g2.at(a, b)) by {
                            assert(gb.at(i, j) is RevealedEmpty);
                            assert(is_revealed(gb.at(a, b)));
                        }
                    }
                    false
                } else {
                    self.flood(x, y);
                    false
                }
            },
            _ => false,
        }
    }
}

} // verus!
