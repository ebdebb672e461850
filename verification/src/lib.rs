//! Conway's Game of Life on a fixed-size, non-wrapping grid.
//!
//! The crate has two parts: [`grid`] holds the board itself (cell storage,
//! bounds-checked access, neighbor counting, and the pointer-to-cell
//! coordinate mapping), and [`sim`] holds the double-buffered simulator that
//! advances the board one generation at a time under the standard B3/S23
//! rule.

pub mod grid;
pub mod sim;
