//! The game board: a fixed-size rectangular array of binary cells with
//! bounds-checked access, neighbor counting, and the coordinate mapping from
//! pointer positions to cells.
//!
//! Coordinates outside `[0, width) x [0, height)` are a defined miss, never an
//! error: reads of such cells answer "absent" and writes to them are no-ops.
//! There is no wraparound, so edge and corner cells have fewer than eight
//! neighbors.

use rand::RngExt;
use vstd::prelude::*;

verus! {

/// A single cell of the board: alive or dead. A cell's position is implicit
/// in its index within the board; it is never stored per cell.
#[derive(Clone, Copy, Debug, PartialEq, Eq)]
pub struct Cell {
    pub alive: bool,
}

impl Cell {
    /// A fresh cell, dead by default.
    pub fn new() -> (c: Cell)
        ensures
            !c.alive,
    {
        Cell { alive: false }
    }
}

/// The one way constructing a board can fail: a zero width or height.
#[derive(Clone, Copy, Debug, PartialEq, Eq)]
pub enum GridError {
    ZeroDimension,
}

/// The game board: `width * height` cells in row-major order
/// (index `y * width + x`). The dimensions are fixed for the board's
/// lifetime.
#[derive(Debug)]
pub struct Board {
    pub cells: Vec<Cell>,
    pub width: u32,
    pub height: u32,
}

impl Board {
    /// The board's structural invariant: positive dimensions and exactly one
    /// stored cell per coordinate.
    pub open spec fn well_formed(self) -> bool {
        &&& self.width > 0
        &&& self.height > 0
        &&& self.cells@.len() == self.width as int * self.height as int
    }

    /// Whether `(x, y)` lies on the board.
    pub open spec fn in_bounds(self, x: int, y: int) -> bool {
        0 <= x < self.width as int && 0 <= y < self.height as int
    }

    /// The row-major index of coordinate `(x, y)`.
    pub open spec fn index_of(self, x: int, y: int) -> int {
        y * self.width as int + x
    }

    /// Whether the cell at `(x, y)` is present and alive. Off-board
    /// coordinates are absent, hence never alive: this is what rules out any
    /// wraparound topology.
    pub open spec fn alive_at(self, x: int, y: int) -> bool {
        self.in_bounds(x, y) && self.cells@[self.index_of(x, y)].alive
    }

    /// The contribution of the cell at `(x, y)` to a neighbor count: one if
    /// present and alive, zero otherwise.
    pub open spec fn alive_weight(self, x: int, y: int) -> int {
        if self.alive_at(x, y) { 1int } else { 0int }
    }

    /// The number of alive cells among the eight neighbors of `(x, y)`: the
    /// cells at Chebyshev distance exactly one. The cell at `(x, y)` itself is
    /// not one of them, and absent (off-board) neighbors count zero.
    pub open spec fn neighbor_count(self, x: int, y: int) -> int {
        self.alive_weight(x - 1, y - 1) + self.alive_weight(x, y - 1) + self.alive_weight(
            x + 1,
            y - 1,
        ) + self.alive_weight(x - 1, y) + self.alive_weight(x + 1, y) + self.alive_weight(
            x - 1,
            y + 1,
        ) + self.alive_weight(x, y + 1) + self.alive_weight(x + 1, y + 1)
    }

    /// Whether the cell at `(x, y)` is alive in the next generation: the
    /// B3/S23 rule applied to its current state and neighbor count.
    pub open spec fn step_alive(self, x: int, y: int) -> bool {
        next_state(self.alive_at(x, y), self.neighbor_count(x, y))
    }

    /// Create a board of the given dimensions with every cell dead.
    /// Zero width or height is rejected as a construction error.
    pub fn new(width: u32, height: u32) -> (r: Result<Board, GridError>)
        ensures
            r is Ok <==> (width > 0 && height > 0),
            r is Ok ==> {
                &&& r.unwrap().well_formed()
                &&& r.unwrap().width == width
                &&& r.unwrap().height == height
                &&& forall|x: int, y: int| !r.unwrap().alive_at(x, y)
            },
            r is Err ==> r->Err_0 == GridError::ZeroDimension,
    {
        if width == 0 || height == 0 {
            return Err(GridError::ZeroDimension);
        }
        let mut cells: Vec<Cell> = Vec::new();
        let mut y: u32 = 0;
        while y < height
            invariant
                y <= height,
                cells@.len() == width as int * y as int,
                forall|k: int| 0 <= k < cells@.len() ==> !cells@[k].alive,
            decreases height - y,
        {
            let mut x: u32 = 0;
            while x < width
                invariant
                    x <= width,
                    cells@.len() == width as int * y as int + x as int,
                    forall|k: int| 0 <= k < cells@.len() ==> !cells@[k].alive,
                decreases width - x,
            {
                cells.push(Cell::new());
                x += 1;
            }
            proof {
                assert(width as int * (y as int + 1) == width as int * y as int + width as int)
                    by (nonlinear_arith);
            }
            y += 1;
        }
        let b = Board { cells, width, height };
        proof {
            assert(b.cells@.len() == width as int * height as int);
            assert forall|x: int, y: int| !b.alive_at(x, y) by {
                if b.in_bounds(x, y) {
                    lemma_index_bound(width as int, height as int, x, y);
                }
            }
        }
        Ok(b)
    }

    /// Read the cell at `(x, y)`: `Some` of the cell when the coordinate is
    /// on the board, `None` (absence, not an error) otherwise.
    pub fn get_cell(&self, x: u32, y: u32) -> (r: Option<&Cell>)
        requires
            self.well_formed(),
        ensures
            self.in_bounds(x as int, y as int) ==> r is Some
                && r.unwrap().alive == self.alive_at(x as int, y as int),
            !self.in_bounds(x as int, y as int) ==> r is None,
    {
        if x < self.width && y < self.height {
            // The call to len() teaches the verifier that the cell count, and
            // with it the row-major index below, fits in a machine word.
            let _len = self.cells.len();
            proof {
                lemma_index_bound(self.width as int, self.height as int, x as int, y as int);
            }
            let idx: usize = (y as usize) * (self.width as usize) + (x as usize);
            Some(&self.cells[idx])
        } else {
            None
        }
    }

    /// Borrow the cell at `(x, y)` mutably: `Some` of the cell when the
    /// coordinate is on the board, `None` otherwise. The caller may rewrite
    /// the borrowed cell; every other cell and the dimensions are untouched.
    pub fn get_cell_mut(&mut self, x: u32, y: u32) -> (r: Option<&mut Cell>)
        requires
            old(self).well_formed(),
        ensures
            old(self).in_bounds(x as int, y as int) ==> {
                &&& r is Some
                &&& *r.unwrap() == old(self).cells@[old(self).index_of(x as int, y as int)]
                &&& final(self).cells@ == old(self).cells@.update(
                    old(self).index_of(x as int, y as int),
                    *final(r.unwrap()),
                )
                &&& final(self).width == old(self).width
                &&& final(self).height == old(self).height
            },
            !old(self).in_bounds(x as int, y as int) ==> r is None && *final(self) == *old(self),
            final(self).well_formed(),
    {
        if x < self.width && y < self.height {
            // The call to len() teaches the verifier that the cell count, and
            // with it the row-major index below, fits in a machine word.
            let _len = self.cells.len();
            proof {
                lemma_index_bound(self.width as int, self.height as int, x as int, y as int);
            }
            let idx: usize = (y as usize) * (self.width as usize) + (x as usize);
            Some(&mut self.cells[idx])
        } else {
            None
        }
    }

    /// Set the cell at `(x, y)` to alive when the coordinate is on the board;
    /// a silent no-op (never an error) otherwise, since pointer coordinates
    /// mapped from screen space may legitimately fall just outside the board.
    pub fn set_alive(&mut self, x: u32, y: u32)
        requires
            old(self).well_formed(),
        ensures
            final(self).well_formed(),
            final(self).width == old(self).width,
            final(self).height == old(self).height,
            old(self).in_bounds(x as int, y as int) ==> final(self).alive_at(x as int, y as int),
            forall|i: int, j: int| !(i == x as int && j == y as int) ==>
                final(self).alive_at(i, j) == old(self).alive_at(i, j),
            !old(self).in_bounds(x as int, y as int) ==> *final(self) == *old(self),
    {
        let ghost prev = *self;
        match self.get_cell_mut(x, y) {
            Some(cell) => {
                cell.alive = true;
            },
            None => {},
        }
        proof {
            if prev.in_bounds(x as int, y as int) {
                lemma_index_bound(prev.width as int, prev.height as int, x as int, y as int);
            }
            assert forall|i: int, j: int| !(i == x as int && j == y as int) implies
                self.alive_at(i, j) == prev.alive_at(i, j) by {
                if prev.in_bounds(x as int, y as int) && prev.in_bounds(i, j) {
                    lemma_index_bound(prev.width as int, prev.height as int, i, j);
                    lemma_index_bound(prev.width as int, prev.height as int, x as int, y as int);
                    if prev.index_of(i, j) == prev.index_of(x as int, y as int) {
                        lemma_index_injective(prev.width as int, i, j, x as int, y as int);
                    }
                }
            }
        }
    }

    /// Re-deal every cell of the board: each cell independently becomes alive
    /// with probability `percent` in a hundred (values of one hundred or more
    /// mean certainty), dead otherwise. The dimensions are untouched.
    pub fn randomize(&mut self, percent: u8)
        requires
            old(self).well_formed(),
        ensures
            final(self).well_formed(),
            final(self).width == old(self).width,
            final(self).height == old(self).height,
            percent == 0 ==> forall|x: int, y: int| !final(self).alive_at(x, y),
            percent >= 100 ==> forall|x: int, y: int|
                final(self).in_bounds(x, y) ==> final(self).alive_at(x, y),
    {
        let n = self.cells.len();
        let mut i: usize = 0;
        while i < n
            invariant
                i <= n,
                self.well_formed(),
                self.cells@.len() == n as int,
                self.width == old(self).width,
                self.height == old(self).height,
                percent == 0 ==> forall|k: int| 0 <= k < i as int ==> !self.cells@[k].alive,
                percent >= 100 ==> forall|k: int| 0 <= k < i as int ==> self.cells@[k].alive,
            decreases n - i,
        {
            let roll = random_percent();
            self.cells.set(i, Cell { alive: roll < percent });
            i = i + 1;
        }
        proof {
            assert forall|x: int, y: int| self.in_bounds(x, y) implies 0 <= self.index_of(x, y)
                < n as int by {
                lemma_index_bound(self.width as int, self.height as int, x, y);
            }
        }
    }

    /// Whether the neighbor of `(x, y)` at offset `(dx, dy)` is present and
    /// alive. Off-board neighbors are absent, so they answer `false`.
    fn neighbor_alive(&self, x: u32, y: u32, dx: i64, dy: i64) -> (r: bool)
        requires
            self.well_formed(),
            -1 <= dx <= 1,
            -1 <= dy <= 1,
        ensures
            r == self.alive_at(x as int + dx as int, y as int + dy as int),
    {
        let nx: i64 = x as i64 + dx;
        let ny: i64 = y as i64 + dy;
        if 0 <= nx && nx < self.width as i64 && 0 <= ny && ny < self.height as i64 {
            match self.get_cell(nx as u32, ny as u32) {
                Some(cell) => cell.alive,
                None => false,
            }
        } else {
            false
        }
    }

    /// Count the alive cells among the eight neighbors of `(x, y)`: the cells
    /// at Chebyshev distance exactly one. The cell at `(x, y)` itself is never
    /// examined, absent (off-board) neighbors count zero, and the result is
    /// always at most eight.
    pub fn count_alive_neighbors(&self, x: u32, y: u32) -> (count: usize)
        requires
            self.well_formed(),
        ensures
            count as int == self.neighbor_count(x as int, y as int),
            count <= 8,
    {
        let mut count: usize = 0;
        if self.neighbor_alive(x, y, -1, -1) {
            count += 1;
        }
        if self.neighbor_alive(x, y, 0, -1) {
            count += 1;
        }
        if self.neighbor_alive(x, y, 1, -1) {
            count += 1;
        }
        if self.neighbor_alive(x, y, -1, 0) {
            count += 1;
        }
        if self.neighbor_alive(x, y, 1, 0) {
            count += 1;
        }
        if self.neighbor_alive(x, y, -1, 1) {
            count += 1;
        }
        if self.neighbor_alive(x, y, 0, 1) {
            count += 1;
        }
        if self.neighbor_alive(x, y, 1, 1) {
            count += 1;
        }
        count
    }

    /// Compute the next generation of this board into `future_board`, a
    /// buffer of the same dimensions. Every cell's next state is the B3/S23
    /// rule applied to its state and neighbor count in `self`; nothing written
    /// to `future_board` is ever read back during the pass, so the result is
    /// independent of the order in which cells are visited. `self` is only
    /// read.
    pub fn update(&self, future_board: &mut Board)
        requires
            self.well_formed(),
            old(future_board).well_formed(),
            old(future_board).width == self.width,
            old(future_board).height == self.height,
        ensures
            final(future_board).well_formed(),
            final(future_board).width == self.width,
            final(future_board).height == self.height,
            forall|x: int, y: int|
                self.in_bounds(x, y) ==> final(future_board).alive_at(x, y) == self.step_alive(
                    x,
                    y,
                ),
    {
        let w = self.width;
        let h = self.height;
        let mut y: u32 = 0;
        while y < h
            invariant
                self.well_formed(),
                future_board.well_formed(),
                future_board.width == w,
                future_board.height == h,
                w == self.width,
                h == self.height,
                y <= h,
                forall|i: int, j: int|
                    0 <= j < y as int && 0 <= i < w as int ==> future_board.alive_at(i, j)
                        == self.step_alive(i, j),
            decreases h - y,
        {
            let mut x: u32 = 0;
            while x < w
                invariant
                    self.well_formed(),
                    future_board.well_formed(),
                    future_board.width == w,
                    future_board.height == h,
                    w == self.width,
                    h == self.height,
                    y < h,
                    x <= w,
                    forall|i: int, j: int|
                        0 <= j < y as int && 0 <= i < w as int ==> future_board.alive_at(i, j)
                            == self.step_alive(i, j),
                    forall|i: int|
                        0 <= i < x as int ==> future_board.alive_at(i, y as int)
                            == self.step_alive(i, y as int),
                decreases w - x,
            {
                let alive = match self.get_cell(x, y) {
                    Some(cell) => cell.alive,
                    None => false,
                };
                let n = self.count_alive_neighbors(x, y);
                let next_alive = (alive && (n == 2 || n == 3)) || (!alive && n == 3);
                // The call to len() teaches the verifier that the cell count,
                // and with it the row-major index below, fits in a machine
                // word.
                let _len = future_board.cells.len();
                proof {
                    lemma_index_bound(w as int, h as int, x as int, y as int);
                }
                let idx: usize = (y as usize) * (w as usize) + (x as usize);
                let ghost prev = *future_board;
                future_board.cells.set(idx, Cell { alive: next_alive });
                proof {
                    assert forall|i: int, j: int|
                        future_board.in_bounds(i, j) && !(i == x as int && j == y as int) implies
                        future_board.alive_at(i, j) == prev.alive_at(i, j) by {
                        lemma_index_bound(w as int, h as int, i, j);
                        if future_board.index_of(i, j) == future_board.index_of(
                            x as int,
                            y as int,
                        ) {
                            lemma_index_injective(w as int, i, j, x as int, y as int);
                        }
                    }
                    assert(future_board.alive_at(x as int, y as int) == self.step_alive(
                        x as int,
                        y as int,
                    ));
                }
                x += 1;
            }
            y += 1;
        }
    }
}

/// Relies on rand::rng and rand::RngExt::random_range: sampling `0..100u8`
/// never panics (the range is not empty) and every sample lies below one
/// hundred. Nothing more is assumed of a random draw.
#[verifier::external_body]
fn random_percent() -> (r: u8)
    ensures
        r < 100,
{
    rand::rng().random_range(0..100u8)
}

/// The B3/S23 transition rule: an alive cell survives with exactly two or
/// three alive neighbors, a dead cell is born with exactly three; every other
/// cell is dead in the next generation.
pub open spec fn next_state(alive: bool, neighbors: int) -> bool {
    (alive && (neighbors == 2 || neighbors == 3)) || (!alive && neighbors == 3)
}

/// The coordinate of the cell stored at flat index `i` of a board whose rows
/// are `width` cells wide: the inverse of row-major indexing.
pub fn get_coordinates(i: usize, width: u32) -> (r: (u32, u32))
    requires
        width > 0,
        (i as int) < (width as int) * (u32::MAX as int),
    ensures
        r.0 as int == i as int % width as int,
        r.1 as int == i as int / width as int,
        r.0 < width,
        r.1 as int * width as int + r.0 as int == i as int,
{
    let w = width as usize;
    let x = i % w;
    let y = i / w;
    proof {
        assert((i as int) / (width as int) < (u32::MAX as int)) by (nonlinear_arith)
            requires
                width > 0,
                0 <= (i as int) < (width as int) * (u32::MAX as int),
        ;
        vstd::arithmetic::div_mod::lemma_fundamental_div_mod(i as int, width as int);
    }
    (x as u32, y as u32)
}

/// Map a pointer position in rendering-surface units to the coordinate of the
/// cell whose rendered footprint contains it: truncating division by the
/// rendered cell size, so that every point inside one cell's square, its lower
/// boundary included, maps to that cell.
pub fn to_cell(px: u32, py: u32, cell_size: u32) -> (r: (u32, u32))
    requires
        cell_size > 0,
    ensures
        r.0 as int == px as int / cell_size as int,
        r.1 as int == py as int / cell_size as int,
{
    (px / cell_size, py / cell_size)
}

/// A neighbor count is bounded: there are only eight neighbors, so it always
/// lies between zero and eight.
pub proof fn lemma_neighbor_count_range(g: Board, x: int, y: int)
    ensures
        0 <= g.neighbor_count(x, y) <= 8,
{
}

/// A neighbor count depends only on the eight neighbors themselves: two
/// boards that agree on the cells at Chebyshev distance exactly one from
/// `(x, y)` have the same neighbor count there. In particular a cell near an
/// edge is never counted against cells of the opposite edge: its off-board
/// neighbors are simply absent for both boards.
pub proof fn lemma_neighbor_count_local(a: Board, b: Board, x: int, y: int)
    requires
        forall|i: int, j: int|
            x - 1 <= i <= x + 1 && y - 1 <= j <= y + 1 && !(i == x && j == y)
                ==> a.alive_at(i, j) == b.alive_at(i, j),
    ensures
        a.neighbor_count(x, y) == b.neighbor_count(x, y),
{
}

/// A neighbor count never examines the cell itself: two boards that agree
/// everywhere except possibly at `(x, y)` have the same neighbor count there.
pub proof fn lemma_neighbor_count_ignores_self(a: Board, b: Board, x: int, y: int)
    requires
        forall|i: int, j: int| !(i == x && j == y) ==> a.alive_at(i, j) == b.alive_at(i, j),
    ensures
        a.neighbor_count(x, y) == b.neighbor_count(x, y),
{
    lemma_neighbor_count_local(a, b, x, y);
}

/// Off-board coordinates are absent, never alive: there is no wraparound.
pub proof fn lemma_out_of_bounds_absent(g: Board, x: int, y: int)
    requires
        !g.in_bounds(x, y),
    ensures
        !g.alive_at(x, y),
{
}

/// An isolated cell, one with no alive cell among its eight neighbors, is
/// dead in the next generation: alive it dies of underpopulation, dead it
/// stays dead.
pub proof fn lemma_isolated_cell_dies(g: Board, x: int, y: int)
    requires
        forall|i: int, j: int|
            x - 1 <= i <= x + 1 && y - 1 <= j <= y + 1 && !(i == x && j == y)
                ==> !g.alive_at(i, j),
    ensures
        !g.step_alive(x, y),
{
}

/// Whether the board's alive cells are exactly a two-by-two block whose
/// upper-left cell is `(x0, y0)`: the four block cells are alive and every
/// other cell is dead.
pub open spec fn is_block_at(g: Board, x0: int, y0: int) -> bool {
    forall|i: int, j: int|
        g.alive_at(i, j) <==> (x0 <= i <= x0 + 1 && y0 <= j <= y0 + 1)
}

/// A two-by-two block is a still life: each block cell has exactly three
/// alive neighbors and survives, and no dead cell has more than two, so one
/// generation leaves every cell of the board as it was.
pub proof fn lemma_block_is_still_life(g: Board, x0: int, y0: int)
    requires
        is_block_at(g, x0, y0),
    ensures
        forall|i: int, j: int| g.in_bounds(i, j) ==> g.step_alive(i, j) == g.alive_at(i, j),
{
    assert forall|i: int, j: int| g.in_bounds(i, j) implies g.step_alive(i, j) == g.alive_at(
        i,
        j,
    ) by {
        assert(g.alive_at(i - 1, j - 1) <==> (x0 <= i - 1 <= x0 + 1 && y0 <= j - 1 <= y0 + 1));
        assert(g.alive_at(i, j - 1) <==> (x0 <= i <= x0 + 1 && y0 <= j - 1 <= y0 + 1));
        assert(g.alive_at(i + 1, j - 1) <==> (x0 <= i + 1 <= x0 + 1 && y0 <= j - 1 <= y0 + 1));
        assert(g.alive_at(i - 1, j) <==> (x0 <= i - 1 <= x0 + 1 && y0 <= j <= y0 + 1));
        assert(g.alive_at(i + 1, j) <==> (x0 <= i + 1 <= x0 + 1 && y0 <= j <= y0 + 1));
        assert(g.alive_at(i - 1, j + 1) <==> (x0 <= i - 1 <= x0 + 1 && y0 <= j + 1 <= y0 + 1));
        assert(g.alive_at(i, j + 1) <==> (x0 <= i <= x0 + 1 && y0 <= j + 1 <= y0 + 1));
        assert(g.alive_at(i + 1, j + 1) <==> (x0 <= i + 1 <= x0 + 1 && y0 <= j + 1 <= y0 + 1));
    }
}

/// One generation of a board whose alive cells are exactly a two-by-two
/// block leaves exactly that block: composed with the simulator's `advance`
/// contract, the block is unchanged by any number of generations.
pub proof fn lemma_block_still_life_preserved(g0: Board, g1: Board, x0: int, y0: int)
    requires
        is_block_at(g0, x0, y0),
        g1.width == g0.width,
        g1.height == g0.height,
        forall|i: int, j: int| g0.in_bounds(i, j) ==> g1.alive_at(i, j) == g0.step_alive(i, j),
    ensures
        is_block_at(g1, x0, y0),
{
    lemma_block_is_still_life(g0, x0, y0);
    assert forall|i: int, j: int|
        g1.alive_at(i, j) <==> (x0 <= i <= x0 + 1 && y0 <= j <= y0 + 1) by {
        if g0.in_bounds(i, j) {
            assert(g1.alive_at(i, j) == g0.step_alive(i, j));
            assert(g0.alive_at(i, j) <==> (x0 <= i <= x0 + 1 && y0 <= j <= y0 + 1));
        } else {
            lemma_out_of_bounds_absent(g1, i, j);
            assert(!(x0 <= i <= x0 + 1 && y0 <= j <= y0 + 1)) by {
                if x0 <= i <= x0 + 1 && y0 <= j <= y0 + 1 {
                    assert(g0.alive_at(i, j));
                }
            }
        }
    }
}

/// Whether the board's alive cells are exactly a horizontal bar of three
/// cells centered at `(x0, y0)`: columns `x0 - 1` through `x0 + 1` of row
/// `y0` are alive and every other cell is dead.
pub open spec fn is_horizontal_bar_at(g: Board, x0: int, y0: int) -> bool {
    forall|i: int, j: int| g.alive_at(i, j) <==> (x0 - 1 <= i <= x0 + 1 && j == y0)
}

/// Whether the board's alive cells are exactly a vertical bar of three cells
/// centered at `(x0, y0)`: rows `y0 - 1` through `y0 + 1` of column `x0` are
/// alive and every other cell is dead.
pub open spec fn is_vertical_bar_at(g: Board, x0: int, y0: int) -> bool {
    forall|i: int, j: int| g.alive_at(i, j) <==> (i == x0 && y0 - 1 <= j <= y0 + 1)
}

/// Half a blinker period: one generation turns a horizontal bar whose
/// vertical neighbors are on the board into exactly the vertical bar with the
/// same center. The bar's center survives with two neighbors, its ends die of
/// underpopulation, and the two cells above and below the center are born
/// with exactly three neighbors.
pub proof fn lemma_blinker_horizontal_to_vertical(g0: Board, g1: Board, x0: int, y0: int)
    requires
        is_horizontal_bar_at(g0, x0, y0),
        g0.in_bounds(x0, y0 - 1),
        g0.in_bounds(x0, y0 + 1),
        g1.width == g0.width,
        g1.height == g0.height,
        forall|i: int, j: int| g0.in_bounds(i, j) ==> g1.alive_at(i, j) == g0.step_alive(i, j),
    ensures
        is_vertical_bar_at(g1, x0, y0),
{
    assert forall|i: int, j: int|
        g1.alive_at(i, j) <==> (i == x0 && y0 - 1 <= j <= y0 + 1) by {
        if g0.in_bounds(i, j) {
            assert(g1.alive_at(i, j) == g0.step_alive(i, j));
            assert(g0.alive_at(i - 1, j - 1) <==> (x0 - 1 <= i - 1 <= x0 + 1 && j - 1 == y0));
            assert(g0.alive_at(i, j - 1) <==> (x0 - 1 <= i <= x0 + 1 && j - 1 == y0));
            assert(g0.alive_at(i + 1, j - 1) <==> (x0 - 1 <= i + 1 <= x0 + 1 && j - 1 == y0));
            assert(g0.alive_at(i - 1, j) <==> (x0 - 1 <= i - 1 <= x0 + 1 && j == y0));
            assert(g0.alive_at(i + 1, j) <==> (x0 - 1 <= i + 1 <= x0 + 1 && j == y0));
            assert(g0.alive_at(i - 1, j + 1) <==> (x0 - 1 <= i - 1 <= x0 + 1 && j + 1 == y0));
            assert(g0.alive_at(i, j + 1) <==> (x0 - 1 <= i <= x0 + 1 && j + 1 == y0));
            assert(g0.alive_at(i + 1, j + 1) <==> (x0 - 1 <= i + 1 <= x0 + 1 && j + 1 == y0));
            assert(g0.alive_at(i, j) <==> (x0 - 1 <= i <= x0 + 1 && j == y0));
        } else {
            lemma_out_of_bounds_absent(g1, i, j);
            assert(!(i == x0 && y0 - 1 <= j <= y0 + 1)) by {
                if i == x0 && j == y0 - 1 || i == x0 && j == y0 + 1 {
                    assert(g0.in_bounds(i, j));
                } else if i == x0 && j == y0 {
                    assert(g0.alive_at(i, j));
                }
            }
        }
    }
}

/// The other half of a blinker period: one generation turns a vertical bar
/// whose horizontal neighbors are on the board into exactly the horizontal
/// bar with the same center.
pub proof fn lemma_blinker_vertical_to_horizontal(g0: Board, g1: Board, x0: int, y0: int)
    requires
        is_vertical_bar_at(g0, x0, y0),
        g0.in_bounds(x0 - 1, y0),
        g0.in_bounds(x0 + 1, y0),
        g1.width == g0.width,
        g1.height == g0.height,
        forall|i: int, j: int| g0.in_bounds(i, j) ==> g1.alive_at(i, j) == g0.step_alive(i, j),
    ensures
        is_horizontal_bar_at(g1, x0, y0),
{
    assert forall|i: int, j: int|
        g1.alive_at(i, j) <==> (x0 - 1 <= i <= x0 + 1 && j == y0) by {
        if g0.in_bounds(i, j) {
            assert(g1.alive_at(i, j) == g0.step_alive(i, j));
            assert(g0.alive_at(i - 1, j - 1) <==> (i - 1 == x0 && y0 - 1 <= j - 1 <= y0 + 1));
            assert(g0.alive_at(i, j - 1) <==> (i == x0 && y0 - 1 <= j - 1 <= y0 + 1));
            assert(g0.alive_at(i + 1, j - 1) <==> (i + 1 == x0 && y0 - 1 <= j - 1 <= y0 + 1));
            assert(g0.alive_at(i - 1, j) <==> (i - 1 == x0 && y0 - 1 <= j <= y0 + 1));
            assert(g0.alive_at(i + 1, j) <==> (i + 1 == x0 && y0 - 1 <= j <= y0 + 1));
            assert(g0.alive_at(i - 1, j + 1) <==> (i - 1 == x0 && y0 - 1 <= j + 1 <= y0 + 1));
            assert(g0.alive_at(i, j + 1) <==> (i == x0 && y0 - 1 <= j + 1 <= y0 + 1));
            assert(g0.alive_at(i + 1, j + 1) <==> (i + 1 == x0 && y0 - 1 <= j + 1 <= y0 + 1));
            assert(g0.alive_at(i, j) <==> (i == x0 && y0 - 1 <= j <= y0 + 1));
        } else {
            lemma_out_of_bounds_absent(g1, i, j);
            assert(!(x0 - 1 <= i <= x0 + 1 && j == y0)) by {
                if j == y0 && (i == x0 - 1 || i == x0 + 1) {
                    assert(g0.in_bounds(i, j));
                } else if i == x0 && j == y0 {
                    assert(g0.alive_at(i, j));
                }
            }
        }
    }
}

/// A blinker has period two: starting from a horizontal bar whose vertical
/// neighbors are on the board, one generation yields exactly the vertical bar
/// with the same center and a second generation restores exactly the starting
/// horizontal bar.
pub proof fn lemma_blinker_period_two(g0: Board, g1: Board, g2: Board, x0: int, y0: int)
    requires
        is_horizontal_bar_at(g0, x0, y0),
        g0.in_bounds(x0, y0 - 1),
        g0.in_bounds(x0, y0 + 1),
        g1.width == g0.width,
        g1.height == g0.height,
        forall|i: int, j: int| g0.in_bounds(i, j) ==> g1.alive_at(i, j) == g0.step_alive(i, j),
        g2.width == g1.width,
        g2.height == g1.height,
        forall|i: int, j: int| g1.in_bounds(i, j) ==> g2.alive_at(i, j) == g1.step_alive(i, j),
    ensures
        is_vertical_bar_at(g1, x0, y0),
        is_horizontal_bar_at(g2, x0, y0),
{
    lemma_blinker_horizontal_to_vertical(g0, g1, x0, y0);
    assert(g0.alive_at(x0 - 1, y0) && g0.alive_at(x0 + 1, y0));
    lemma_blinker_vertical_to_horizontal(g1, g2, x0, y0);
}

/// Row-major indexing stays inside the board: for an in-bounds coordinate the
/// index lies below `width * height`.
pub proof fn lemma_index_bound(w: int, h: int, x: int, y: int)
    requires
        0 <= x < w,
        0 <= y < h,
    ensures
        0 <= y * w + x < w * h,
{
    assert(0 <= y * w + x < w * h) by (nonlinear_arith)
        requires
            0 <= x < w,
            0 <= y < h,
    ;
}

/// Row-major indexing is injective: two in-bounds coordinates with the same
/// index are the same coordinate.
pub proof fn lemma_index_injective(w: int, x1: int, y1: int, x2: int, y2: int)
    requires
        0 <= x1 < w,
        0 <= x2 < w,
        0 <= y1,
        0 <= y2,
        y1 * w + x1 == y2 * w + x2,
    ensures
        x1 == x2 && y1 == y2,
{
    assert(x1 == x2 && y1 == y2) by (nonlinear_arith)
        requires
            0 <= x1 < w,
            0 <= x2 < w,
            0 <= y1,
            0 <= y2,
            y1 * w + x1 == y2 * w + x2,
    ;
}

} // verus!
