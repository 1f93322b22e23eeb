//! Moves from one cell to another.

use vstd::prelude::*;
use crate::game::Direction;
use crate::game::Position;

verus! {

/// A move of one piece from one cell to another.
#[derive(Clone, Copy, Debug, PartialEq, Eq, Structural)]
pub struct Action {
    pub from: Position,
    pub to: Position,
}

impl Action {
    /// Both ends of the move share a row or a column.
    pub open spec fn is_straight(self) -> bool {
        self.from.x == self.to.x || self.from.y == self.to.y
    }

    /// The direction in which a straight move goes. A move along a row goes
    /// left or right; any other goes down where `y` grows and up where it
    /// does not.
    pub open spec fn spec_direction(self) -> Direction {
        if self.from.x > self.to.x {
            Direction::Left
        } else if self.from.x < self.to.x {
            Direction::Right
        } else if self.from.y < self.to.y {
            Direction::Down
        } else {
            Direction::Up
        }
    }

    /// The number of single steps between the two ends.
    pub open spec fn spec_distance(self) -> int {
        self.from.spec_manhattan_distance(self.to)
    }

    pub open spec fn spec_reversed(self) -> Action {
        Action { from: self.from.spec_reversed(), to: self.to.spec_reversed() }
    }

    /// The direction of the move.
    pub fn direction(&self) -> (d: Direction)
        ensures
            d == self.spec_direction(),
    {
        if self.from.x > self.to.x {
            Direction::Left
        } else if self.from.x < self.to.x {
            Direction::Right
        } else if self.from.y < self.to.y {
            Direction::Down
        } else {
            Direction::Up
        }
    }

    /// The length of the move in single steps.
    pub fn distance(&self) -> (r: usize)
        ensures
            r == self.spec_distance(),
    {
        let dx: u8 = if self.from.x >= self.to.x {
            self.from.x - self.to.x
        } else {
            self.to.x - self.from.x
        };
        let dy: u8 = if self.from.y >= self.to.y {
            self.from.y - self.to.y
        } else {
            self.to.y - self.from.y
        };
        dx as usize + dy as usize
    }

    /// The same move seen from the opposite side of the board.
    pub fn reversed(&self) -> (r: Action)
        requires
            self.from.in_bounds(),
            self.to.in_bounds(),
        ensures
            r == self.spec_reversed(),
            r.spec_reversed() == *self,
    {
        Action { from: self.from.reversed(), to: self.to.reversed() }
    }
}

} // verus!
