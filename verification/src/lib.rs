//! Conway's Game of Life on an unbounded two-dimensional integer lattice.
//!
//! The live population is a set of `(row, col)` coordinates; everything
//! absent from the set is dead. Stepping produces a brand-new population,
//! leaving the old one intact. Coordinate arithmetic wraps at the ends of
//! the `i32` range, so every operation is total.

pub mod conway;
pub mod neighborhood;
pub mod viewport;
