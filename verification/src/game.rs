//! The game: its board, its pieces, its rules and its state.

use vstd::prelude::*;

pub mod action;
pub mod legality;
pub mod logic;
pub mod pieces;
pub mod position;
pub mod rank;
pub mod side;
pub mod state;
pub mod symmetry;

pub use action::Action;
pub use position::Position;
pub use rank::Rank;
pub use rank::STARTING_RANKS;
pub use state::ActionError;
pub use state::Battle;
pub use state::Piece;
pub use state::State;
pub use state::StateView;
pub use state::Turn;
pub use state::validate_action;

verus! {

/// The four directions in which a piece moves, in the order in which moves
/// are generated.
#[derive(Clone, Copy, Debug, PartialEq, Eq, Structural)]
pub enum Direction {
    Up,
    Right,
    Down,
    Left,
}

/// All directions, in the order in which moves are generated.
pub const ALL_DIRECTIONS: [Direction; 4] = [
    Direction::Up,
    Direction::Right,
    Direction::Down,
    Direction::Left,
];

impl Direction {
    /// The neighbour of `pos` in this direction.
    pub open spec fn spec_step(self, pos: Position) -> Position {
        match self {
            Direction::Up => pos.spec_up(),
            Direction::Right => pos.spec_right(),
            Direction::Down => pos.spec_down(),
            Direction::Left => pos.spec_left(),
        }
    }

    /// The position reached from `pos` after `n` steps in this direction.
    pub open spec fn spec_steps(self, pos: Position, n: nat) -> Position
        decreases n,
    {
        if n == 0 {
            pos
        } else {
            self.spec_step(self.spec_steps(pos, (n - 1) as nat))
        }
    }

    /// The direction that undoes this one.
    pub open spec fn spec_opposite(self) -> Direction {
        match self {
            Direction::Up => Direction::Down,
            Direction::Right => Direction::Left,
            Direction::Down => Direction::Up,
            Direction::Left => Direction::Right,
        }
    }

    /// The neighbour of `pos` in this direction.
    pub fn step(&self, pos: &Position) -> (r: Position)
        ensures
            r == self.spec_step(*pos),
    {
        match self {
            Direction::Up => pos.up(),
            Direction::Right => pos.right(),
            Direction::Down => pos.down(),
            Direction::Left => pos.left(),
        }
    }

    /// The step in this direction as a function value.
    pub fn to_stepper(&self) -> (stepper: impl Fn(&Position) -> Position)
        ensures
            steps_like(stepper, *self),
    {
        let d = *self;
        move |pos: &Position| -> (r: Position)
            ensures
                r == d.spec_step(*pos),
            { d.step(pos) }
    }
}

/// `stepper` can be called on every position and computes the step in
/// direction `d`.
pub open spec fn steps_like<F: Fn(&Position) -> Position>(stepper: F, d: Direction) -> bool {
    &&& forall|pos: Position| call_requires(stepper, (&pos,))
    &&& forall|pos: Position, r: Position|
        call_ensures(stepper, (&pos,), r) ==> r == d.spec_step(pos)
}

} // verus!
