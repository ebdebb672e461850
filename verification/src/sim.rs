//! The simulator: owns two boards of identical dimensions and a generation
//! counter, and advances the game one generation at a time.
//!
//! The two boards are the double buffer that makes a generation atomic: every
//! neighbor count for generation `N` is read from the buffer holding
//! generation `N`, every next state is written to the other buffer, and only
//! after the whole pass do the buffers swap roles. The parity of the
//! generation counter selects the current buffer, so the swap is a counter
//! increment, never a copy.

use crate::grid::Board;
use crate::grid::GridError;
use vstd::prelude::*;

verus! {

/// The simulation state: a double-buffered board and the number of
/// generations computed so far.
#[derive(Debug)]
pub struct GameState {
    pub board_1: Board,
    pub board_2: Board,
    pub generation: u64,
}

impl GameState {
    /// The simulator's structural invariant: both buffers are well-formed
    /// boards of the same dimensions.
    pub open spec fn well_formed(self) -> bool {
        &&& self.board_1.well_formed()
        &&& self.board_2.well_formed()
        &&& self.board_1.width == self.board_2.width
        &&& self.board_1.height == self.board_2.height
    }

    /// The buffer holding the current generation: `board_1` on even
    /// generations, `board_2` on odd ones.
    pub open spec fn current(self) -> Board {
        if self.generation % 2 == 0 {
            self.board_1
        } else {
            self.board_2
        }
    }

    /// Create a simulator over an all-dead board of the given dimensions, at
    /// generation zero. Zero width or height is rejected as a construction
    /// error.
    pub fn new(width: u32, height: u32) -> (r: Result<GameState, GridError>)
        ensures
            r is Ok <==> (width > 0 && height > 0),
            r is Ok ==> {
                &&& r.unwrap().well_formed()
                &&& r.unwrap().generation == 0
                &&& r.unwrap().current().width == width
                &&& r.unwrap().current().height == height
                &&& forall|x: int, y: int| !r.unwrap().current().alive_at(x, y)
            },
            r is Err ==> r->Err_0 == GridError::ZeroDimension,
    {
        let board_1 = match Board::new(width, height) {
            Ok(b) => b,
            Err(e) => {
                return Err(e);
            },
        };
        let board_2 = match Board::new(width, height) {
            Ok(b) => b,
            Err(e) => {
                return Err(e);
            },
        };
        Ok(GameState { board_1, board_2, generation: 0 })
    }

    /// Re-deal every cell of the current board: each cell independently
    /// becomes alive with probability `percent` in a hundred (values of one
    /// hundred or more mean certainty), dead otherwise.
    pub fn randomize(&mut self, percent: u8)
        requires
            old(self).well_formed(),
        ensures
            final(self).well_formed(),
            final(self).generation == old(self).generation,
            final(self).current().width == old(self).current().width,
            final(self).current().height == old(self).current().height,
            percent == 0 ==> forall|x: int, y: int| !final(self).current().alive_at(x, y),
            percent >= 100 ==> forall|x: int, y: int|
                final(self).current().in_bounds(x, y) ==> final(self).current().alive_at(x, y),
    {
        if self.generation % 2 == 0 {
            self.board_1.randomize(percent);
        } else {
            self.board_2.randomize(percent);
        }
    }

    /// Advance the simulation by exactly one generation. Every cell of the
    /// new current board is the B3/S23 rule applied to that cell's state and
    /// neighbor count in the old current board, and the generation counter
    /// grows by exactly one; it never resets. The pass writes only to the
    /// off buffer, so no partially computed generation is ever readable.
    pub fn advance(&mut self)
        requires
            old(self).well_formed(),
            old(self).generation < u64::MAX,
        ensures
            final(self).well_formed(),
            final(self).generation == old(self).generation + 1,
            final(self).current().width == old(self).current().width,
            final(self).current().height == old(self).current().height,
            forall|x: int, y: int|
                old(self).current().in_bounds(x, y) ==> final(self).current().alive_at(x, y)
                    == old(self).current().step_alive(x, y),
    {
        if self.generation % 2 == 0 {
            self.board_1.update(&mut self.board_2);
        } else {
            self.board_2.update(&mut self.board_1);
        }
        self.generation = self.generation + 1;
        proof {
            assert(old(self).generation % 2 == 0 ==> self.generation % 2 == 1);
            assert(old(self).generation % 2 == 1 ==> self.generation % 2 == 0);
        }
    }

    /// The board holding the current generation, for the renderer to read.
    pub fn current_grid(&self) -> (r: &Board)
        ensures
            *r == self.current(),
    {
        if self.generation % 2 == 0 {
            &self.board_1
        } else {
            &self.board_2
        }
    }

    /// Set the cell at `(x, y)` of the current board to alive when the
    /// coordinate is on the board; a silent no-op otherwise. This is how
    /// pointer input spawns cells between generations.
    pub fn set_alive(&mut self, x: u32, y: u32)
        requires
            old(self).well_formed(),
        ensures
            final(self).well_formed(),
            final(self).generation == old(self).generation,
            final(self).current().width == old(self).current().width,
            final(self).current().height == old(self).current().height,
            old(self).current().in_bounds(x as int, y as int) ==> final(self).current().alive_at(
                x as int,
                y as int,
            ),
            forall|i: int, j: int| !(i == x as int && j == y as int) ==>
                final(self).current().alive_at(i, j) == old(self).current().alive_at(i, j),
            !old(self).current().in_bounds(x as int, y as int) ==> *final(self) == *old(self),
    {
        if self.generation % 2 == 0 {
            self.board_1.set_alive(x, y);
        } else {
            self.board_2.set_alive(x, y);
        }
    }
}

} // verus!
