//! Crate specific errors
//!
//! The error type that the fallible functions of the crate return.

use crate::board::Board;
use crate::move_struct::Move;
use vstd::prelude::*;

verus! {

/// Why a move was refused, with the board and the move in question, or why a
/// textual grid could not be read.
#[derive(Debug, PartialEq)]
pub enum Error<'a> {
    /// The two ends of the move share neither a row nor a column.
    UnalinedMove(&'a str, Board, Move),
    /// The two ends of the move are not exactly two cells apart.
    DistanceNot2Move(&'a str, Board, Move),
    /// The peg to move or the peg to jump over is missing, or the landing
    /// cell is not empty.
    SpacesInvolvedNotCorrect(&'a str, Board, Move),
    /// A textual grid holds this character, which stands for no cell state
    /// and is no row separator.
    GridFormatError(char),
}

pub const INVALID_MOVE_MESSAGE: &'static str = "Invalid Move. Valid Moves requre the following conditions:

- Piece must start and end either in the same column or the same row.
- Piece must move 2 positions, skipping over an occupied piece.
- End position must be empty and initial position needs a piece.
";

} // verus!
