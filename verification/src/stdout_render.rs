//! Text of a board for display
//!
//! A board is shown as the grid of characters that it is serialized to.
//! Keeping this apart from the board leaves room for other ways to show one.

use crate::board::Board;
use crate::board_serde::grid_text;
use vstd::prelude::*;

verus! {

impl Board {
    /// The text to show for the board.
    pub fn to_str(&self) -> (text: String)
        ensures
            text@ == grid_text(self@),
    {
        self.serialize()
    }
}

} // verus!
