//! The grid store: the two-dimensional array of cells with bounds-checked
//! access, together with the spec-level vocabulary (adjacency, mine counting)
//! that the engine's contracts are stated in.

use vstd::prelude::*;

verus! {

/// Upper bound on each grid dimension, so that the text rendering stays
/// within terminal-friendly bounds.
pub const MAX_SIZE: usize = 99;

/// One cell of the mine field. A cell that is not a mine remembers how many
/// of its up-to-eight grid-adjacent neighbours are mines; revealing such a
/// cell keeps that magnitude.
#[derive(Clone, Copy, Debug, PartialEq, Eq, Structural)]
pub enum Cell {
    /// Not yet revealed, not a mine; the payload is the count of adjacent
    /// mines (0 through 8).
    Hidden(u8),
    /// Not yet revealed, holds a mine.
    HiddenMine,
    /// A revealed mine: the losing cell.
    RevealedMine,
    /// Revealed, no mine, and no adjacent mines.
    RevealedEmpty,
    /// Revealed, no mine; the payload (1 through 8) is the count of adjacent
    /// mines.
    RevealedNumber(u8),
}

/// Failures of the grid store.
#[derive(Clone, Copy, Debug, PartialEq, Eq, Structural)]
pub enum FieldError {
    /// A requested dimension is zero or exceeds `MAX_SIZE`.
    InvalidDimension,
    /// A coordinate lies outside the grid.
    OutOfBounds,
}

pub open spec fn is_mine(c: Cell) -> bool {
    c is HiddenMine || c is RevealedMine
}

pub open spec fn is_revealed(c: Cell) -> bool {
    c is RevealedMine || c is RevealedEmpty || c is RevealedNumber
}

/// A cell's payload stays inside the range that eight neighbours allow.
pub open spec fn cell_ok(c: Cell) -> bool {
    match c {
        Cell::Hidden(n) => n <= 8,
        Cell::RevealedNumber(n) => 1 <= n && n <= 8,
        _ => true,
    }
}

/// The rectangular store of cells: `height` rows of `width` cells each,
/// row-major, both dimensions fixed at construction.
#[derive(Debug)]
pub struct Grid {
    pub cells: Vec<Vec<Cell>>,
    pub width: usize,
    pub height: usize,
}

impl Grid {
    /// The store is rectangular and its dimensions lie in `1..=MAX_SIZE`.
    pub open spec fn wf(&self) -> bool {
        &&& self.cells@.len() == self.height as int
        &&& forall|y: int|
            0 <= y < self.height as int ==> (#[trigger] self.cells@[y])@.len() == self.width as int
        &&& 1 <= self.width as int <= MAX_SIZE as int
        &&& 1 <= self.height as int <= MAX_SIZE as int
    }

    pub open spec fn in_bounds(&self, x: int, y: int) -> bool {
        0 <= x < self.width as int && 0 <= y < self.height as int
    }

    pub open spec fn at(&self, x: int, y: int) -> Cell {
        self.cells@[y]@[x]
    }

    /// Builds a grid of the given dimensions with every cell hidden, empty
    /// and zero-adjacent, or reports `InvalidDimension` exactly when a
    /// dimension is zero or exceeds `MAX_SIZE`.
    pub fn create(width: usize, height: usize) -> (r: Result<Grid, FieldError>)
        ensures
            match r {
                Ok(g) => {
                    &&& 1 <= width && width <= MAX_SIZE && 1 <= height && height <= MAX_SIZE
                    &&& g.wf()
                    &&& g.width == width
                    &&& g.height == height
                    &&& forall|x: int, y: int|
                        g.in_bounds(x, y) ==> #[trigger] g.at(x, y) == Cell::Hidden(0u8)
                },
                Err(e) => {
                    &&& e == FieldError::InvalidDimension
                    &&& !(1 <= width && width <= MAX_SIZE && 1 <= height && height <= MAX_SIZE)
                },
            },
    {
        if width < 1 || width > MAX_SIZE || height < 1 || height > MAX_SIZE {
            return Err(FieldError::InvalidDimension);
        }
        Ok(Grid::make(width, height))
    }

    /// Builds the all-hidden grid once the dimensions are known to be valid.
    pub(crate) fn make(width: usize, height: usize) -> (g: Grid)
        requires
            1 <= width <= MAX_SIZE,
            1 <= height <= MAX_SIZE,
        ensures
            g.wf(),
            g.width == width,
            g.height == height,
            forall|x: int, y: int| g.in_bounds(x, y) ==> #[trigger] g.at(x, y) == Cell::Hidden(0u8),
    {
        let mut rows: Vec<Vec<Cell>> = Vec::new();
        while rows.len() < height
            invariant
                rows@.len() <= height as int,
                forall|y: int| 0 <= y < rows@.len() ==> (#[trigger] rows@[y])@.len() == width as int,
                forall|y: int, x: int|
                    0 <= y < rows@.len() && 0 <= x < width as int
                        ==> #[trigger] rows@[y]@[x] == Cell::Hidden(0u8),
            decreases height as int - rows@.len(),
        {
            let mut row: Vec<Cell> = Vec::new();
            while row.len() < width
                invariant
                    row@.len() <= width as int,
                    forall|x: int| 0 <= x < row@.len() ==> #[trigger] row@[x] == Cell::Hidden(0u8),
                decreases width as int - row@.len(),
            {
                row.push(Cell::Hidden(0));
            }
            rows.push(row);
        }
        Grid { cells: rows, width, height }
    }

    /// Sets every cell back to hidden-empty-zero in place.
    pub fn reset(&mut self)
        requires
            old(self).wf(),
        ensures
            final(self).wf(),
            final(self).width == old(self).width,
            final(self).height == old(self).height,
            forall|x: int, y: int|
                final(self).in_bounds(x, y) ==> #[trigger] final(self).at(x, y) == Cell::Hidden(0u8),
    {
        let mut y: usize = 0;
        while y < self.height
            invariant
                self.wf(),
                self.width == old(self).width,
                self.height == old(self).height,
                (y as int) <= self.height as int,
                forall|i: int, j: int|
                    self.in_bounds(i, j) && j < y as int
                        ==> #[trigger] self.at(i, j) == Cell::Hidden(0u8),
            decreases self.height as int - y as int,
        {
            let mut x: usize = 0;
            while x < self.width
                invariant
                    self.wf(),
                    self.width == old(self).width,
                    self.height == old(self).height,
                    (y as int) < self.height as int,
                    (x as int) <= self.width as int,
                    forall|i: int, j: int|
                        self.in_bounds(i, j) && j < y as int
                            ==> #[trigger] self.at(i, j) == Cell::Hidden(0u8),
                    forall|i: int|
                        0 <= i < x as int ==> #[trigger] self.at(i, y as int) == Cell::Hidden(0u8),
                decreases self.width as int - x as int,
            {
                self.put(x, y, Cell::Hidden(0));
                x = x + 1;
            }
            y = y + 1;
        }
    }

    /// Bounds-checked read.
    pub fn get(&self, x: usize, y: usize) -> (r: Result<Cell, FieldError>)
        requires
            self.wf(),
        ensures
            match r {
                Ok(c) => self.in_bounds(x as int, y as int) && c == self.at(x as int, y as int),
                Err(e) => e == FieldError::OutOfBounds && !self.in_bounds(x as int, y as int),
            },
    {
        if x < self.width && y < self.height {
            Ok(self.cells[y][x])
        } else {
            Err(FieldError::OutOfBounds)
        }
    }

    /// Bounds-checked write: out-of-range coordinates fail rather than wrap
    /// or clamp, and leave the grid unchanged.
    pub fn set(&mut self, x: usize, y: usize, c: Cell) -> (r: Result<(), FieldError>)
        requires
            old(self).wf(),
        ensures
            final(self).wf(),
            final(self).width == old(self).width,
            final(self).height == old(self).height,
            match r {
                Ok(u) => {
                    &&& old(self).in_bounds(x as int, y as int)
                    &&& final(self).at(x as int, y as int) == c
                    &&& forall|i: int, j: int|
                        old(self).in_bounds(i, j) && !(i == x as int && j == y as int)
                            ==> #[trigger] final(self).at(i, j) == old(self).at(i, j)
                },
                Err(e) => {
                    &&& e == FieldError::OutOfBounds
                    &&& !old(self).in_bounds(x as int, y as int)
                    &&& *final(self) == *old(self)
                },
            },
    {
        if x < self.width && y < self.height {
            self.put(x, y, c);
            Ok(())
        } else {
            Err(FieldError::OutOfBounds)
        }
    }

    /// The fixed `(width, height)` of the store.
    pub fn dimensions(&self) -> (d: (usize, usize))
        ensures
            d.0 == self.width,
            d.1 == self.height,
    {
        (self.width, self.height)
    }

    /// Unchecked write for internal use; callers establish the bounds.
    pub(crate) fn put(&mut self, x: usize, y: usize, c: Cell)
        requires
            old(self).wf(),
            old(self).in_bounds(x as int, y as int),
        ensures
            final(self).wf(),
            final(self).width == old(self).width,
            final(self).height == old(self).height,
            final(self).at(x as int, y as int) == c,
            forall|i: int, j: int|
                old(self).in_bounds(i, j) && !(i == x as int && j == y as int)
                    ==> #[trigger] final(self).at(i, j) == old(self).at(i, j),
    {
        self.cells[y][x] = c;
    }
}

/// Whether `(i, j)` is one of the up-to-eight grid neighbours of `(x, y)`.
pub open spec fn is_adjacent(x: int, y: int, i: int, j: int) -> bool {
    &&& !(i == x && j == y)
    &&& x - 1 <= i <= x + 1
    &&& y - 1 <= j <= y + 1
}

/// 1 when `(x, y)` lies on the grid and holds a mine, else 0.
pub open spec fn mine_at(g: Grid, x: int, y: int) -> int {
    if g.in_bounds(x, y) && is_mine(g.at(x, y)) {
        1
    } else {
        0
    }
}

/// The true number of mines among the grid-adjacent neighbours of `(x, y)`,
/// recomputed by brute force over the eight neighbour positions.
pub open spec fn adj_count(g: Grid, x: int, y: int) -> int {
    mine_at(g, x - 1, y - 1) + mine_at(g, x, y - 1) + mine_at(g, x + 1, y - 1) + mine_at(
        g,
        x - 1,
        y,
    ) + mine_at(g, x + 1, y) + mine_at(g, x - 1, y + 1) + mine_at(g, x, y + 1) + mine_at(
        g,
        x + 1,
        y + 1,
    )
}

/// Every payload lies in the range that eight neighbours allow.
pub open spec fn cells_ok(g: Grid) -> bool {
    forall|x: int, y: int| g.in_bounds(x, y) ==> cell_ok(#[trigger] g.at(x, y))
}

/// Every stored magnitude agrees with the true count of adjacent mines.
pub open spec fn counts_ok(g: Grid) -> bool {
    forall|x: int, y: int|
        g.in_bounds(x, y) ==> match #[trigger] g.at(x, y) {
            Cell::Hidden(n) => n as int == adj_count(g, x, y),
            Cell::RevealedNumber(n) => n as int == adj_count(g, x, y),
            Cell::RevealedEmpty => adj_count(g, x, y) == 0,
            _ => true,
        }
}

/// No cell has been revealed yet.
pub open spec fn all_unrevealed(g: Grid) -> bool {
    forall|x: int, y: int| g.in_bounds(x, y) ==> !is_revealed(#[trigger] g.at(x, y))
}

/// A revealed-empty cell never borders a hidden cell: the flood fill has
/// nothing left to do anywhere.
pub open spec fn flood_closed(g: Grid) -> bool {
    forall|x: int, y: int, i: int, j: int|
        g.in_bounds(x, y) && #[trigger] g.at(x, y) is RevealedEmpty && is_adjacent(x, y, i, j)
            && g.in_bounds(i, j) ==> is_revealed(#[trigger] g.at(i, j))
}

/// `s` is closed under stepping from a hidden zero-adjacency cell to any of
/// its grid neighbours.
pub open spec fn zero_closed(g: Grid, s: Set<(int, int)>) -> bool {
    forall|x: int, y: int, i: int, j: int|
        #![trigger s.contains((x, y)), s.contains((i, j))]
        s.contains((x, y)) && g.in_bounds(x, y) && g.at(x, y) == Cell::Hidden(0u8) && is_adjacent(
            x,
            y,
            i,
            j,
        ) && g.in_bounds(i, j) ==> s.contains((i, j))
}

/// `(x, y)` is connected to `(sx, sy)` through hidden zero-adjacency cells of
/// `g`: it belongs to every zero-closed set that holds the start.
pub open spec fn reachable(g: Grid, sx: int, sy: int, x: int, y: int) -> bool {
    forall|s: Set<(int, int)>|
        #[trigger] zero_closed(g, s) && s.contains((sx, sy)) ==> s.contains((x, y))
}

pub proof fn lemma_reach_start(g: Grid, sx: int, sy: int)
    ensures
        reachable(g, sx, sy, sx, sy),
{
}

pub proof fn lemma_reach_step(g: Grid, sx: int, sy: int, x: int, y: int, i: int, j: int)
    requires
        reachable(g, sx, sy, x, y),
        g.in_bounds(x, y),
        g.at(x, y) == Cell::Hidden(0u8),
        is_adjacent(x, y, i, j),
        g.in_bounds(i, j),
    ensures
        reachable(g, sx, sy, i, j),
{
    assert forall|s: Set<(int, int)>|
        #[trigger] zero_closed(g, s) && s.contains((sx, sy)) implies s.contains((i, j)) by {
        assert(s.contains((x, y)));
    }
}

/// 1 when the cell satisfies `f`, else 0.
pub open spec fn cell_score(f: spec_fn(Cell) -> bool, c: Cell) -> int {
    if f(c) {
        1
    } else {
        0
    }
}

/// How many of the first `n` cells of a row satisfy `f`.
pub open spec fn row_count(f: spec_fn(Cell) -> bool, r: Seq<Cell>, n: int) -> int
    decreases n,
{
    if n <= 0 {
        0
    } else {
        row_count(f, r, n - 1) + cell_score(f, r[n - 1])
    }
}

/// How many cells of the first `n` rows satisfy `f`.
pub open spec fn rows_count(f: spec_fn(Cell) -> bool, rows: Seq<Vec<Cell>>, n: int) -> int
    decreases n,
{
    if n <= 0 {
        0
    } else {
        rows_count(f, rows, n - 1) + row_count(f, rows[n - 1]@, rows[n - 1]@.len() as int)
    }
}

/// How many cells of the whole grid satisfy `f`.
pub open spec fn grid_count(f: spec_fn(Cell) -> bool, g: Grid) -> int {
    rows_count(f, g.cells@, g.cells@.len() as int)
}

pub open spec fn mine_pred() -> spec_fn(Cell) -> bool {
    |c: Cell| is_mine(c)
}

pub open spec fn unrevealed_pred() -> spec_fn(Cell) -> bool {
    |c: Cell| !is_revealed(c)
}

/// The number of mine cells, hidden or revealed, on the grid.
pub open spec fn mine_total(g: Grid) -> int {
    grid_count(mine_pred(), g)
}

/// The number of cells not yet revealed.
pub open spec fn hidden_total(g: Grid) -> int {
    grid_count(unrevealed_pred(), g)
}

proof fn lemma_row_count_same(f: spec_fn(Cell) -> bool, r1: Seq<Cell>, r2: Seq<Cell>, n: int)
    requires
        forall|i: int| 0 <= i < n ==> f(#[trigger] r1[i]) == f(#[trigger] r2[i]),
    ensures
        row_count(f, r1, n) == row_count(f, r2, n),
    decreases n,
{
    if n > 0 {
        lemma_row_count_same(f, r1, r2, n - 1);
    }
}

proof fn lemma_row_count_delta(
    f: spec_fn(Cell) -> bool,
    r1: Seq<Cell>,
    r2: Seq<Cell>,
    n: int,
    k: int,
)
    requires
        0 <= k < n,
        forall|i: int| 0 <= i < n && i != k ==> f(#[trigger] r1[i]) == f(#[trigger] r2[i]),
    ensures
        row_count(f, r2, n) == row_count(f, r1, n) + cell_score(f, r2[k]) - cell_score(f, r1[k]),
    decreases n,
{
    if k == n - 1 {
        lemma_row_count_same(f, r1, r2, n - 1);
    } else {
        lemma_row_count_delta(f, r1, r2, n - 1, k);
    }
}

proof fn lemma_rows_count_same(
    f: spec_fn(Cell) -> bool,
    rows1: Seq<Vec<Cell>>,
    rows2: Seq<Vec<Cell>>,
    n: int,
)
    requires
        forall|j: int| 0 <= j < n ==> (#[trigger] rows1[j])@.len() == (#[trigger] rows2[j])@.len(),
        forall|j: int, i: int|
            0 <= j < n && 0 <= i < rows1[j]@.len() ==> f(#[trigger] rows1[j]@[i]) == f(
                #[trigger] rows2[j]@[i],
            ),
    ensures
        rows_count(f, rows1, n) == rows_count(f, rows2, n),
    decreases n,
{
    if n > 0 {
        lemma_rows_count_same(f, rows1, rows2, n - 1);
        lemma_row_count_same(f, rows1[n - 1]@, rows2[n - 1]@, rows1[n - 1]@.len() as int);
    }
}

proof fn lemma_rows_count_delta(
    f: spec_fn(Cell) -> bool,
    rows1: Seq<Vec<Cell>>,
    rows2: Seq<Vec<Cell>>,
    n: int,
    x: int,
    y: int,
)
    requires
        0 <= y < n,
        0 <= x < rows1[y]@.len(),
        forall|j: int| 0 <= j < n ==> (#[trigger] rows1[j])@.len() == (#[trigger] rows2[j])@.len(),
        forall|j: int, i: int|
            0 <= j < n && 0 <= i < rows1[j]@.len() && !(i == x && j == y) ==> f(
                #[trigger] rows1[j]@[i],
            ) == f(#[trigger] rows2[j]@[i]),
    ensures
        rows_count(f, rows2, n) == rows_count(f, rows1, n) + cell_score(f, rows2[y]@[x])
            - cell_score(f, rows1[y]@[x]),
    decreases n,
{
    if y == n - 1 {
        lemma_rows_count_same(f, rows1, rows2, n - 1);
        lemma_row_count_delta(f, rows1[n - 1]@, rows2[n - 1]@, rows1[n - 1]@.len() as int, x);
    } else {
        lemma_rows_count_delta(f, rows1, rows2, n - 1, x, y);
        lemma_row_count_same(f, rows1[n - 1]@, rows2[n - 1]@, rows1[n - 1]@.len() as int);
    }
}

/// Changing the one cell `(x, y)` moves `grid_count` by the difference of the
/// two scores there.
pub proof fn lemma_grid_count_delta(f: spec_fn(Cell) -> bool, g1: Grid, g2: Grid, x: int, y: int)
    requires
        g1.wf(),
        g2.wf(),
        g1.width == g2.width,
        g1.height == g2.height,
        g1.in_bounds(x, y),
        forall|i: int, j: int|
            g1.in_bounds(i, j) && !(i == x && j == y) ==> f(#[trigger] g1.at(i, j)) == f(
                #[trigger] g2.at(i, j),
            ),
    ensures
        grid_count(f, g2) == grid_count(f, g1) + cell_score(f, g2.at(x, y)) - cell_score(
            f,
            g1.at(x, y),
        ),
{
    assert forall|j: int, i: int|
        0 <= j < g1.cells@.len() && 0 <= i < g1.cells@[j]@.len() && !(i == x && j == y) implies f(
        #[trigger] g1.cells@[j]@[i],
    ) == f(#[trigger] g2.cells@[j]@[i]) by {
        assert(f(g1.at(i, j)) == f(g2.at(i, j)));
    }
    lemma_rows_count_delta(f, g1.cells@, g2.cells@, g1.cells@.len() as int, x, y);
}

proof fn lemma_row_count_zero(f: spec_fn(Cell) -> bool, r: Seq<Cell>, n: int)
    requires
        forall|i: int| 0 <= i < n ==> !f(#[trigger] r[i]),
    ensures
        row_count(f, r, n) == 0,
    decreases n,
{
    if n > 0 {
        lemma_row_count_zero(f, r, n - 1);
    }
}

/// A grid on which no cell satisfies `f` counts zero.
pub proof fn lemma_grid_count_zero(f: spec_fn(Cell) -> bool, g: Grid)
    requires
        g.wf(),
        forall|x: int, y: int| g.in_bounds(x, y) ==> !f(#[trigger] g.at(x, y)),
    ensures
        grid_count(f, g) == 0,
{
    lemma_rows_count_zero(f, g, g.cells@.len() as int);
}

proof fn lemma_rows_count_zero(f: spec_fn(Cell) -> bool, g: Grid, n: int)
    requires
        g.wf(),
        n <= g.height as int,
        forall|x: int, y: int| g.in_bounds(x, y) ==> !f(#[trigger] g.at(x, y)),
    ensures
        rows_count(f, g.cells@, n) == 0,
    decreases n,
{
    if n > 0 {
        lemma_rows_count_zero(f, g, n - 1);
        assert forall|i: int| 0 <= i < g.cells@[n - 1]@.len() implies !f(
            #[trigger] g.cells@[n - 1]@[i],
        ) by {
            assert(!f(g.at(i, n - 1)));
        }
        lemma_row_count_zero(f, g.cells@[n - 1]@, g.cells@[n - 1]@.len() as int);
    }
}

proof fn lemma_row_count_full(f: spec_fn(Cell) -> bool, r: Seq<Cell>, n: int)
    requires
        0 <= n,
        forall|i: int| 0 <= i < n ==> f(#[trigger] r[i]),
    ensures
        row_count(f, r, n) == n,
    decreases n,
{
    if n > 0 {
        lemma_row_count_full(f, r, n - 1);
    }
}

/// A grid on which every cell satisfies `f` counts `width * height`.
pub proof fn lemma_grid_count_full(f: spec_fn(Cell) -> bool, g: Grid)
    requires
        g.wf(),
        forall|x: int, y: int| g.in_bounds(x, y) ==> f(#[trigger] g.at(x, y)),
    ensures
        grid_count(f, g) == g.width as int * g.height as int,
{
    lemma_rows_count_full(f, g, g.cells@.len() as int);
}

proof fn lemma_rows_count_full(f: spec_fn(Cell) -> bool, g: Grid, n: int)
    requires
        g.wf(),
        0 <= n <= g.height as int,
        forall|x: int, y: int| g.in_bounds(x, y) ==> f(#[trigger] g.at(x, y)),
    ensures
        rows_count(f, g.cells@, n) == g.width as int * n,
    decreases n,
{
    if n > 0 {
        lemma_rows_count_full(f, g, n - 1);
        assert forall|i: int| 0 <= i < g.cells@[n - 1]@.len() implies f(
            #[trigger] g.cells@[n - 1]@[i],
        ) by {
            assert(f(g.at(i, n - 1)));
        }
        lemma_row_count_full(f, g.cells@[n - 1]@, g.cells@[n - 1]@.len() as int);
        assert(g.width as int * n == g.width as int * (n - 1) + g.width as int)
            by (nonlinear_arith);
    } else {
        assert(g.width as int * 0 == 0) by (nonlinear_arith);
    }
}

proof fn lemma_row_count_nonneg(f: spec_fn(Cell) -> bool, r: Seq<Cell>, n: int)
    ensures
        0 <= row_count(f, r, n),
    decreases n,
{
    if n > 0 {
        lemma_row_count_nonneg(f, r, n - 1);
    }
}

proof fn lemma_rows_count_nonneg(f: spec_fn(Cell) -> bool, rows: Seq<Vec<Cell>>, n: int)
    ensures
        0 <= rows_count(f, rows, n),
    decreases n,
{
    if n > 0 {
        lemma_rows_count_nonneg(f, rows, n - 1);
        lemma_row_count_nonneg(f, rows[n - 1]@, rows[n - 1]@.len() as int);
    }
}

/// No grid counts negatively.
pub proof fn lemma_grid_count_nonneg(f: spec_fn(Cell) -> bool, g: Grid)
    ensures
        0 <= grid_count(f, g),
{
    lemma_rows_count_nonneg(f, g.cells@, g.cells@.len() as int);
}

/// The state of the grid part-way through bumping the neighbours of a fresh
/// mine at `(x, y)`: window cells before `(dx, dy)` in row-major order are
/// already incremented, everything else still reads as in `g1`.
spec fn bumped_upto(g1: Grid, g: Grid, x: int, y: int, dx: int, dy: int) -> bool {
    forall|i: int, j: int|
        g1.in_bounds(i, j) ==> #[trigger] g.at(i, j) == (if !(i == x && j == y) && x - 1 <= i <= x
            + 1 && y - 1 <= j <= y + 1 && (j < dy || (j == dy && i < dx)) {
            match g1.at(i, j) {
                Cell::Hidden(n) => Cell::Hidden((n + 1) as u8),
                c => c,
            }
        } else {
            g1.at(i, j)
        })
}

impl Grid {
    /// Increments the stored adjacency count at `(i, j)` when that cell is
    /// hidden and not a mine; leaves every other kind of cell alone.
    pub(crate) fn bump(&mut self, i: usize, j: usize)
        requires
            old(self).wf(),
            old(self).in_bounds(i as int, j as int),
            old(self).at(i as int, j as int) is Hidden ==> old(self).at(i as int, j as int)->Hidden_0
                < 8,
        ensures
            final(self).wf(),
            final(self).width == old(self).width,
            final(self).height == old(self).height,
            forall|a: int, b: int|
                old(self).in_bounds(a, b) && !(a == i as int && b == j as int)
                    ==> #[trigger] final(self).at(a, b) == old(self).at(a, b),
            final(self).at(i as int, j as int) == (match old(self).at(i as int, j as int) {
                Cell::Hidden(n) => Cell::Hidden((n + 1) as u8),
                c => c,
            }),
    {
        let c = self.cells[j][i];
        match c {
            Cell::Hidden(n) => {
                self.put(i, j, Cell::Hidden(n + 1));
            },
            _ => {},
        }
    }

    /// Marks `(x, y)` as a mine and increments the stored count of each of
    /// its non-mine neighbours, so that every stored count stays equal to the
    /// true count of adjacent mines.
    #[verifier::rlimit(100)]
    pub(crate) fn add_mine(&mut self, x: usize, y: usize)
        requires
            old(self).wf(),
            cells_ok(*old(self)),
            counts_ok(*old(self)),
            all_unrevealed(*old(self)),
            old(self).in_bounds(x as int, y as int),
            old(self).at(x as int, y as int) is Hidden,
        ensures
            final(self).wf(),
            cells_ok(*final(self)),
            counts_ok(*final(self)),
            all_unrevealed(*final(self)),
            final(self).width == old(self).width,
            final(self).height == old(self).height,
            final(self).at(x as int, y as int) == Cell::HiddenMine,
            forall|i: int, j: int|
                old(self).in_bounds(i, j) && !(i == x as int && j == y as int)
                    ==> #[trigger] final(self).at(i, j) == (match old(self).at(i, j) {
                    Cell::Hidden(n) => if is_adjacent(x as int, y as int, i, j) {
                        Cell::Hidden((n + 1) as u8)
                    } else {
                        Cell::Hidden(n)
                    },
                    c => c,
                }),
            mine_total(*final(self)) == mine_total(*old(self)) + 1,
    {
        let ghost g0 = *self;
        proof {
            // Every hidden neighbour stores a count strictly below 8: one of
            // the eight terms of its true count is the not-yet-mine `(x, y)`.
            assert forall|i: int, j: int|
                g0.in_bounds(i, j) && is_adjacent(x as int, y as int, i, j) && #[trigger] g0.at(
                    i,
                    j,
                ) is Hidden implies g0.at(i, j)->Hidden_0 < 8 by {
                assert(mine_at(g0, x as int, y as int) == 0);
                assert(g0.at(i, j)->Hidden_0 as int == adj_count(g0, i, j));
            }
        }
        self.put(x, y, Cell::HiddenMine);
        let ghost g1 = *self;
        let sy = if y >= 1 { y - 1 } else { 0 };
        let ey = if y + 1 < self.height { y + 1 } else { self.height - 1 };
        let sx = if x >= 1 { x - 1 } else { 0 };
        let ex = if x + 1 < self.width { x + 1 } else { self.width - 1 };
        let mut dy = sy;
        while dy <= ey
            invariant
                self.wf(),
                g1.wf(),
                self.width == g1.width,
                self.height == g1.height,
                sy as int <= dy as int,
                (dy as int) <= ey as int + 1,
                sy as int == if y as int >= 1 { y as int - 1 } else { 0int },
                ey as int == if y as int + 1 < self.height as int { y as int + 1 } else { self.height as int - 1 },
                sx as int == if x as int >= 1 { x as int - 1 } else { 0int },
                ex as int == if x as int + 1 < self.width as int { x as int + 1 } else { self.width as int - 1 },
                g1.in_bounds(x as int, y as int),
                bumped_upto(g1, *self, x as int, y as int, sx as int, dy as int),
                forall|i: int, j: int|
                    g1.in_bounds(i, j) && is_adjacent(x as int, y as int, i, j)
                        && #[trigger] g1.at(i, j) is Hidden ==> g1.at(i, j)->Hidden_0 < 8,
            decreases ey as int + 1 - dy as int,
        {
            let mut dx = sx;
            while dx <= ex
                invariant
                    self.wf(),
                    g1.wf(),
                    self.width == g1.width,
                    self.height == g1.height,
                    sx as int <= dx as int,
                    (dx as int) <= ex as int + 1,
                    sy as int <= dy as int,
                    (dy as int) <= ey as int,
                    sy as int == if y as int >= 1 { y as int - 1 } else { 0int },
                    ey as int == if y as int + 1 < self.height as int { y as int + 1 } else { self.height as int - 1 },
                    sx as int == if x as int >= 1 { x as int - 1 } else { 0int },
                    ex as int == if x as int + 1 < self.width as int { x as int + 1 } else { self.width as int - 1 },
                    g1.in_bounds(x as int, y as int),
                    bumped_upto(g1, *self, x as int, y as int, dx as int, dy as int),
                    forall|i: int, j: int|
                        g1.in_bounds(i, j) && is_adjacent(x as int, y as int, i, j)
                            && #[trigger] g1.at(i, j) is Hidden ==> g1.at(i, j)->Hidden_0 < 8,
                decreases ex as int + 1 - dx as int,
            {
                if !(dx == x && dy == y) {
                    self.bump(dx, dy);
                }
                dx = dx + 1;
            }
            dy = dy + 1;
        }
        proof {
            let g2 = *self;
            let xx = x as int;
            let yy = y as int;
            assert forall|i: int, j: int|
                g0.in_bounds(i, j) && !(i == xx && j == yy) implies #[trigger] g2.at(i, j)
                == (match g0.at(i, j) {
                Cell::Hidden(n) => if is_adjacent(xx, yy, i, j) {
                    Cell::Hidden((n + 1) as u8)
                } else {
                    Cell::Hidden(n)
                },
                c => c,
            }) by {
                assert(g1.at(i, j) == g0.at(i, j));
            }
            assert(g2.at(xx, yy) == Cell::HiddenMine);
            assert forall|a: int, b: int| !(a == xx && b == yy) implies mine_at(g2, a, b)
                == mine_at(g0, a, b) by {}
            assert forall|i: int, j: int| g0.in_bounds(i, j) implies adj_count(g2, i, j)
                == adj_count(g0, i, j) + (if is_adjacent(xx, yy, i, j) {
                1int
            } else {
                0
            }) by {
                assert(mine_at(g2, xx, yy) == 1);
            }
            assert forall|i: int, j: int|
                g2.in_bounds(i, j) && !(i == xx && j == yy) implies mine_at(g2, i, j) == mine_at(
                g0,
                i,
                j,
            ) by {}
            lemma_grid_count_delta(mine_pred(), g0, g2, xx, yy);
        }
    }

    /// Reveals the non-mine cell at `(i, j)`: a hidden zero becomes
    /// revealed-empty, a hidden number keeps its magnitude, an already
    /// revealed cell is left untouched. Reports whether anything changed.
    pub(crate) fn reveal_one(&mut self, i: usize, j: usize) -> (did: bool)
        requires
            old(self).wf(),
            cells_ok(*old(self)),
            counts_ok(*old(self)),
            old(self).in_bounds(i as int, j as int),
            !is_mine(old(self).at(i as int, j as int)),
        ensures
            final(self).wf(),
            cells_ok(*final(self)),
            counts_ok(*final(self)),
            final(self).width == old(self).width,
            final(self).height == old(self).height,
            did == old(self).at(i as int, j as int) is Hidden,
            forall|a: int, b: int|
                old(self).in_bounds(a, b) && !(a == i as int && b == j as int)
                    ==> #[trigger] final(self).at(a, b) == old(self).at(a, b),
            final(self).at(i as int, j as int) == (match old(self).at(i as int, j as int) {
                Cell::Hidden(n) => if n == 0 {
                    Cell::RevealedEmpty
                } else {
                    Cell::RevealedNumber(n)
                },
                c => c,
            }),
            mine_total(*final(self)) == mine_total(*old(self)),
            hidden_total(*final(self)) == hidden_total(*old(self)) - (if old(self).at(
                i as int,
                j as int,
            ) is Hidden {
                1int
            } else {
                0
            }),
    {
        let ghost g0 = *self;
        let c = self.cells[j][i];
        let did: bool;
        match c {
            Cell::Hidden(n) => {
                if n == 0 {
                    self.put(i, j, Cell::RevealedEmpty);
                } else {
                    self.put(i, j, Cell::RevealedNumber(n));
                }
                did = true;
            },
            _ => {
                did = false;
            },
        }
        proof {
            let g2 = *self;
            let ii = i as int;
            let jj = j as int;
            assert forall|a: int, b: int| mine_at(g2, a, b) == mine_at(g0, a, b) by {}
            assert forall|a: int, b: int| g0.in_bounds(a, b) implies adj_count(g2, a, b)
                == adj_count(g0, a, b) by {}
            lemma_grid_count_delta(mine_pred(), g0, g2, ii, jj);
            lemma_grid_count_delta(unrevealed_pred(), g0, g2, ii, jj);
        }
        did
    }
}

} // verus!
