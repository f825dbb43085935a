//! Integer grid positions and the nine discrete movement directions
//! (eight compass directions plus the resting "none" direction).

use vstd::prelude::*;

verus! {

/// A cell coordinate on the board.  Coordinates may lie outside the board;
/// `Board::within_bounds` decides whether they name a cell.
#[derive(Clone, Copy, PartialEq, Eq, Structural, Debug)]
pub struct Position {
    pub x: i16,
    pub y: i16,
}

/// A movement direction: each component is -1, 0 or 1.  The zero direction
/// stands for "not moving".
#[derive(Clone, Copy, PartialEq, Eq, Structural, Debug)]
pub struct Direction {
    pub dx: i16,
    pub dy: i16,
}

impl Direction {
    /// Each component lies in {-1, 0, 1}: the nine legal directions.
    pub open spec fn valid(self) -> bool {
        -1 <= self.dx <= 1 && -1 <= self.dy <= 1
    }

    /// Both components are non-zero: one of the four diagonals.
    pub open spec fn is_diagonal(self) -> bool {
        (self.dx == 1 || self.dx == -1) && (self.dy == 1 || self.dy == -1)
    }

    pub open spec fn spec_horizontal(self) -> Direction {
        Direction { dx: self.dx, dy: 0 }
    }

    pub open spec fn spec_vertical(self) -> Direction {
        Direction { dx: 0, dy: self.dy }
    }

    pub open spec fn spec_flipped_x(self) -> Direction {
        Direction { dx: (-(self.dx as int)) as i16, dy: self.dy }
    }

    pub open spec fn spec_flipped_y(self) -> Direction {
        Direction { dx: self.dx, dy: (-(self.dy as int)) as i16 }
    }

    /// The direction that does not move: both components zero.
    pub fn none() -> (d: Direction)
        ensures
            d == (Direction { dx: 0 as i16, dy: 0 as i16 }),
    {
        Direction { dx: 0, dy: 0 }
    }

    /// The horizontal component alone: the vertical part is dropped.
    pub fn horizontal(&self) -> (d: Direction)
        ensures
            d == self.spec_horizontal(),
            d.dy == 0,
    {
        Direction { dx: self.dx, dy: 0 }
    }

    /// The vertical component alone: the horizontal part is dropped.
    pub fn vertical(&self) -> (d: Direction)
        ensures
            d == self.spec_vertical(),
            d.dx == 0,
    {
        Direction { dx: 0, dy: self.dy }
    }

    /// The direction with its horizontal component reversed.
    pub fn flipped_x(&self) -> (d: Direction)
        requires
            self.valid(),
        ensures
            d == self.spec_flipped_x(),
            d.valid(),
    {
        Direction { dx: -self.dx, dy: self.dy }
    }

    /// The direction with its vertical component reversed.
    pub fn flipped_y(&self) -> (d: Direction)
        requires
            self.valid(),
        ensures
            d == self.spec_flipped_y(),
            d.valid(),
    {
        Direction { dx: self.dx, dy: -self.dy }
    }
}

/// Reversing the horizontal component twice restores the direction, for
/// every one of the nine legal directions.
pub proof fn lemma_flipped_x_involution(d: Direction)
    requires
        d.valid(),
    ensures
        d.spec_flipped_x().spec_flipped_x() == d,
{
}

/// Reversing the vertical component twice restores the direction, for
/// every one of the nine legal directions.
pub proof fn lemma_flipped_y_involution(d: Direction)
    requires
        d.valid(),
    ensures
        d.spec_flipped_y().spec_flipped_y() == d,
{
}

impl Position {
    /// The coordinates of this position translated by `direction`, as
    /// unbounded integers.
    pub open spec fn spec_moved_to(self, direction: Direction) -> (int, int) {
        (self.x + direction.dx, self.y + direction.dy)
    }

    /// Translate this position one step along `direction`.
    pub fn moved_to(&self, direction: &Direction) -> (p: Position)
        requires
            direction.valid(),
            i16::MIN < self.x < i16::MAX,
            i16::MIN < self.y < i16::MAX,
        ensures
            p.x == self.x + direction.dx,
            p.y == self.y + direction.dy,
    {
        Position { x: self.x + direction.dx, y: self.y + direction.dy }
    }
}

} // verus!
