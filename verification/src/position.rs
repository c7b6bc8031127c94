//! Position on the board
//!
//! A position names one cell of the grid by its column `x` and its row `y`.
//! Two positions can be subtracted to get a signed delta, and a delta can be
//! added to a position.

use std::cmp::Ordering;
use std::ops::{Add, Sub};
use vstd::prelude::*;
use vstd::std_specs::cmp::PartialOrdSpecImpl;
use vstd::std_specs::ops::{AddSpecImpl, SubSpecImpl};

verus! {

/// Number of rows and of columns of the grid.
pub const SIDE: usize = 7;

/// Describes a position on the board: `x` is the column, `y` the row.
///
/// Positions are ordered by `x`, then by `y`.
#[derive(Copy, Clone, Debug, PartialEq, Eq, Ord, Structural)]
pub struct Position {
    pub x: usize,
    pub y: usize,
}

impl Position {
    /// Both coordinates name a row and a column of the grid.
    pub open spec fn on_board(self) -> bool {
        self.x < SIDE && self.y < SIDE
    }

    /// `self` comes before `other` in the order of positions: it has the
    /// smaller `x` or, with the same `x`, the smaller `y`.
    pub open spec fn before(self, other: Position) -> bool {
        self.x < other.x || (self.x == other.x && self.y < other.y)
    }

    /// Both coordinates can be held in an `i32`, the type of a delta.
    pub open spec fn fits_delta(self) -> bool {
        self.x <= i32::MAX && self.y <= i32::MAX
    }
}

impl PartialOrd for Position {
    fn partial_cmp(&self, other: &Position) -> (r: Option<Ordering>) {
        if self.x < other.x {
            Some(Ordering::Less)
        } else if self.x > other.x {
            Some(Ordering::Greater)
        } else if self.y < other.y {
            Some(Ordering::Less)
        } else if self.y > other.y {
            Some(Ordering::Greater)
        } else {
            Some(Ordering::Equal)
        }
    }
}

impl PartialOrdSpecImpl for Position {
    open spec fn obeys_partial_cmp_spec() -> bool {
        true
    }

    open spec fn partial_cmp_spec(&self, other: &Position) -> Option<Ordering> {
        if self.before(*other) {
            Some(Ordering::Less)
        } else if *self == *other {
            Some(Ordering::Equal)
        } else {
            Some(Ordering::Greater)
        }
    }
}

impl Sub for Position {
    type Output = (i32, i32);

    /// The signed delta that leads from `other` to `self`.
    fn sub(self, other: Position) -> (delta: (i32, i32)) {
        (self.x as i32 - other.x as i32, self.y as i32 - other.y as i32)
    }
}

impl SubSpecImpl for Position {
    open spec fn obeys_sub_spec() -> bool {
        true
    }

    open spec fn sub_req(self, other: Position) -> bool {
        self.fits_delta() && other.fits_delta()
    }

    open spec fn sub_spec(self, other: Position) -> (i32, i32) {
        ((self.x - other.x) as i32, (self.y - other.y) as i32)
    }
}

impl Add<(i32, i32)> for Position {
    type Output = Position;

    /// The position that `delta` leads to from `self`.
    fn add(self, delta: (i32, i32)) -> (sum: Position) {
        Position { x: (self.x as i32 + delta.0) as usize, y: (self.y as i32 + delta.1) as usize }
    }
}

impl AddSpecImpl<(i32, i32)> for Position {
    open spec fn obeys_add_spec() -> bool {
        true
    }

    open spec fn add_req(self, delta: (i32, i32)) -> bool {
        &&& self.fits_delta()
        &&& 0 <= self.x + delta.0 <= i32::MAX
        &&& 0 <= self.y + delta.1 <= i32::MAX
    }

    open spec fn add_spec(self, delta: (i32, i32)) -> Position {
        Position { x: (self.x + delta.0) as usize, y: (self.y + delta.1) as usize }
    }
}

} // verus!
