//! Positions on the board.

use vstd::prelude::*;

verus! {

/// A coordinate pair. The board is the 10×10 square with both coordinates
/// in `0..=9`; the `y` axis grows downwards.
#[derive(Debug, PartialEq, Eq, Clone, Copy, PartialOrd, Ord, Structural)]
pub struct Position {
    pub x: u8,
    pub y: u8,
}

impl Position {
    /// Both coordinates lie on the 10×10 board (lakes included).
    pub open spec fn in_bounds(self) -> bool {
        self.x <= 9 && self.y <= 9
    }

    /// The coordinate lies inside one of the two 2×2 lakes.
    pub open spec fn in_lake(self) -> bool {
        (2 <= self.x < 4 || 6 <= self.x < 8) && 4 <= self.y < 6
    }

    /// On the board and outside both lakes.
    pub open spec fn spec_is_valid_map_position(&self) -> bool {
        self.in_bounds() && !self.in_lake()
    }

    pub open spec fn spec_down(self) -> Position {
        Position { x: self.x, y: if self.y == u8::MAX { 0u8 } else { (self.y + 1) as u8 } }
    }

    pub open spec fn spec_up(self) -> Position {
        Position { x: self.x, y: if self.y == 0 { u8::MAX } else { (self.y - 1) as u8 } }
    }

    pub open spec fn spec_left(self) -> Position {
        Position { x: if self.x == 0 { u8::MAX } else { (self.x - 1) as u8 }, y: self.y }
    }

    pub open spec fn spec_right(self) -> Position {
        Position { x: if self.x == u8::MAX { 0u8 } else { (self.x + 1) as u8 }, y: self.y }
    }

    /// The four neighbours in the fixed order up, right, down, left.
    pub open spec fn spec_neighbours(self) -> Seq<Position> {
        seq![self.spec_up(), self.spec_right(), self.spec_down(), self.spec_left()]
    }

    /// The coordinate after a half turn of the board: `(9 - x, 9 - y)`.
    pub open spec fn spec_reversed(self) -> Position {
        Position { x: (9 - self.x) as u8, y: (9 - self.y) as u8 }
    }

    /// The cell index `x + 10 * y`.
    pub open spec fn spec_to_bit_index(self) -> int {
        self.x + 10 * self.y
    }

    /// The sum of the coordinate differences.
    pub open spec fn spec_manhattan_distance(self, other: Position) -> int {
        (if self.x >= other.x { self.x - other.x } else { other.x - self.x })
            + (if self.y >= other.y { self.y - other.y } else { other.y - self.y })
    }

    /// One step towards larger `y`. The coordinate wraps around at the end
    /// of its range, so a step off the board never panics.
    pub fn down(&self) -> (r: Position)
        ensures
            r == self.spec_down(),
    {
        Position { x: self.x, y: self.y.wrapping_add(1) }
    }

    /// One step towards smaller `y`, wrapping around below zero.
    pub fn up(&self) -> (r: Position)
        ensures
            r == self.spec_up(),
    {
        Position { x: self.x, y: self.y.wrapping_sub(1) }
    }

    /// One step towards smaller `x`, wrapping around below zero.
    pub fn left(&self) -> (r: Position)
        ensures
            r == self.spec_left(),
    {
        Position { x: self.x.wrapping_sub(1), y: self.y }
    }

    /// One step towards larger `x`, wrapping around at the end of the range.
    pub fn right(&self) -> (r: Position)
        ensures
            r == self.spec_right(),
    {
        Position { x: self.x.wrapping_add(1), y: self.y }
    }

    /// The four neighbours, in the order up, right, down, left.
    pub fn neighbours(&self) -> (r: [Position; 4])
        ensures
            r@ == self.spec_neighbours(),
    {
        let r = [self.up(), self.right(), self.down(), self.left()];
        assert(r@ =~= self.spec_neighbours());
        r
    }

    /// Whether a piece can stand here: on the board and outside the lakes.
    #[verifier::when_used_as_spec(spec_is_valid_map_position)]
    pub fn is_valid_map_position(&self) -> (r: bool)
        ensures
            r == self.spec_is_valid_map_position(),
    {
        // Must be inside the board boundaries.
        if self.x > 9 || self.y > 9 {
            return false;
        }
        // Position cannot be inside a lake.
        if ((2 <= self.x && self.x < 4) || (6 <= self.x && self.x < 8)) && (4 <= self.y
            && self.y < 6) {
            return false;
        }
        true
    }

    /// The same cell seen from the opposite side of the board.
    pub fn reversed(&self) -> (r: Position)
        requires
            self.in_bounds(),
        ensures
            r == self.spec_reversed(),
            r.in_bounds(),
            r.spec_reversed() == *self,
            r.spec_is_valid_map_position() == self.spec_is_valid_map_position(),
            r.spec_to_bit_index() == 99 - self.spec_to_bit_index(),
    {
        Position { x: 9 - self.x, y: 9 - self.y }
    }

    /// The index of the cell in a bitmap: `x + 10 * y`.
    pub fn to_bit_index(self) -> (r: usize)
        ensures
            r == self.spec_to_bit_index(),
            self.in_bounds() ==> r < 100,
    {
        self.x as usize + 10 * self.y as usize
    }

    /// The number of single steps between two positions. The distance
    /// between two positions of the board is at most 18; it must fit a `u8`.
    pub fn manhattan_distance(&self, other: &Position) -> (r: u8)
        requires
            self.spec_manhattan_distance(*other) <= u8::MAX,
        ensures
            r == self.spec_manhattan_distance(*other),
    {
        let dx: u8 = if self.x >= other.x { self.x - other.x } else { other.x - self.x };
        let dy: u8 = if self.y >= other.y { self.y - other.y } else { other.y - self.y };
        dx + dy
    }
}

/// Turning the board twice brings every cell back.
pub proof fn lemma_reversed_is_involutive(p: Position)
    requires
        p.in_bounds(),
    ensures
        p.spec_reversed().in_bounds(),
        p.spec_reversed().spec_reversed() == p,
{
}

/// A cell is playable exactly when the cell it turns into is playable: the
/// lakes lie symmetrically about the centre of the board.
pub proof fn lemma_reversed_preserves_validity(p: Position)
    requires
        p.in_bounds(),
    ensures
        p.spec_reversed().spec_is_valid_map_position() == p.spec_is_valid_map_position(),
{
}

/// Turning the board sends cell `i` to cell `99 - i`.
pub proof fn lemma_reversed_bit_index(p: Position)
    requires
        p.in_bounds(),
    ensures
        p.spec_reversed().spec_to_bit_index() == 99 - p.spec_to_bit_index(),
        0 <= p.spec_to_bit_index() < 100,
{
}

/// Two cells of the board with the same index are the same cell.
pub proof fn lemma_bit_index_is_injective(p: Position, q: Position)
    requires
        p.in_bounds(),
        q.in_bounds(),
        p.spec_to_bit_index() == q.spec_to_bit_index(),
    ensures
        p == q,
{
}

} // verus!
