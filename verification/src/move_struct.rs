//! Move
//!
//! A move names the cell a peg leaves and the cell it lands on. The geometry
//! of a move (whether it runs along a row or a column, how far it goes, which
//! cell it passes over) is stated here; whether the cells allow it is for the
//! board to say.

use crate::position::Position;
use std::cmp::Ordering;
use vstd::prelude::*;
use vstd::std_specs::cmp::PartialOrdSpecImpl;

verus! {

/// A peg's way from one cell to another.
///
/// Moves are ordered by `from`, then by `to`; positions by `x`, then by `y`.
#[derive(Copy, Clone, Debug, PartialEq, Eq, Ord, Structural)]
pub struct Move {
    pub from: Position,
    pub to: Position,
}

impl PartialOrd for Move {
    fn partial_cmp(&self, other: &Move) -> (r: Option<Ordering>) {
        if self.from == other.from {
            self.to.partial_cmp(&other.to)
        } else {
            self.from.partial_cmp(&other.from)
        }
    }
}

impl PartialOrdSpecImpl for Move {
    open spec fn obeys_partial_cmp_spec() -> bool {
        true
    }

    open spec fn partial_cmp_spec(&self, other: &Move) -> Option<Ordering> {
        if self.before(*other) {
            Some(Ordering::Less)
        } else if *self == *other {
            Some(Ordering::Equal)
        } else {
            Some(Ordering::Greater)
        }
    }
}

impl Move {
    /// `self` comes before `other` in the order of moves: it starts from the
    /// earlier position or, with the same start, lands on the earlier one.
    pub open spec fn before(self, other: Move) -> bool {
        self.from.before(other.from) || (self.from == other.from && self.to.before(other.to))
    }

    /// Both ends lie on the grid.
    pub open spec fn on_board(self) -> bool {
        self.from.on_board() && self.to.on_board()
    }

    /// Columns travelled, negative towards column 0.
    pub open spec fn dx(self) -> int {
        self.to.x - self.from.x
    }

    /// Rows travelled, negative towards row 0.
    pub open spec fn dy(self) -> int {
        self.to.y - self.from.y
    }

    /// The move stays in one row or in one column.
    pub open spec fn aligned(self) -> bool {
        self.dx() == 0 || self.dy() == 0
    }

    /// Manhattan distance between the two ends.
    pub open spec fn distance(self) -> nat {
        vstd::math::abs(self.dx()) + vstd::math::abs(self.dy())
    }

    /// The move has the geometry of a jump: straight, over exactly one cell.
    pub open spec fn is_jump(self) -> bool {
        self.aligned() && self.distance() == 2
    }

    /// The cell halfway between the two ends, which a jump passes over.
    pub open spec fn middle(self) -> Position {
        Position {
            x: ((self.from.x + self.to.x) / 2) as usize,
            y: ((self.from.y + self.to.y) / 2) as usize,
        }
    }
}

/// A jump passes over a cell of the grid that is neither of its ends, and
/// the three cells lie in one row or one column, next to each other.
pub proof fn lemma_jump_geometry(m: Move)
    requires
        m.on_board(),
        m.is_jump(),
    ensures
        m.middle().on_board(),
        m.middle() != m.from,
        m.middle() != m.to,
        m.from != m.to,
        m.middle().x - m.from.x == m.to.x - m.middle().x,
        m.middle().y - m.from.y == m.to.y - m.middle().y,
        vstd::math::abs(m.middle().x - m.from.x) + vstd::math::abs(m.middle().y - m.from.y) == 1,
{
}

} // verus!
