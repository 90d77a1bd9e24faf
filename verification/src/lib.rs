//! A sliding-block puzzle: an astronaut must reach a goal cell on a small
//! rectangular board, sliding in straight lines until blocked by a robot or
//! the board edge.  Robots obstruct the astronaut and can themselves be slid.
//!
//! The crate holds the puzzle state model, the movement resolver, an
//! exhaustive shortest-path solver, a randomized generator of solvable
//! puzzles, and a navigator over a precomputed solution path.

pub mod board;
pub mod changes;
pub mod game;
pub mod generate;
pub mod movement;
pub mod solver;
pub mod state;
