//! Simulation core of a discrete-time, grid-based pushing-puzzle game.
//!
//! A player pushes movable blocks across a bounded, layered grid; walls and
//! the grid edge block motion; every mutation of the grid is recorded as a
//! reversible delta, grouped into per-tick frames on a bounded undo stack.

pub mod object;
pub mod model;
pub mod delta;
pub mod cell;
pub mod map;
pub mod moves;
pub mod laws;
