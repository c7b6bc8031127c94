//! Solver for the cross-shaped peg-solitaire puzzle.
//!
//! The board is a 7x7 grid of cells. A move jumps a peg two cells along a
//! row or a column over a neighbouring peg, which is removed. The solver
//! searches depth first for a sequence of jumps that leaves a single peg.

pub mod board;
pub mod board_serde;
pub mod error;
pub mod find_moves;
pub mod move_struct;
pub mod position;
pub mod replay;
pub mod solver;
pub mod start_solution;
pub mod stdout_render;
