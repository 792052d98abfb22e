use vstd::prelude::*;
use super::direction::Direction;

verus! {

#[derive(Debug, Clone, Copy, PartialEq, Eq, Structural)]
pub enum Color {
    White,
    Black,
}

impl Color {
    /// Width of a color in a packed word.
    pub const BITS: u64 = 1;

    /// 0 for white, 1 for black.
    pub open spec fn spec_index(self) -> usize {
        match self {
            Color::White => 0,
            Color::Black => 1,
        }
    }

    #[verifier::when_used_as_spec(spec_index)]
    pub fn index(self) -> (i: usize)
        ensures
            i == self.spec_index(),
    {
        match self {
            Color::White => 0,
            Color::Black => 1,
        }
    }

    pub fn from_index(i: usize) -> (color: Color)
        requires
            i < 2,
        ensures
            color.index() == i,
    {
        if i == 0 {
            Color::White
        } else {
            Color::Black
        }
    }

    pub open spec fn spec_inv(self) -> Color {
        match self {
            Color::White => Color::Black,
            Color::Black => Color::White,
        }
    }

    /// The other color.
    #[verifier::when_used_as_spec(spec_inv)]
    pub fn inv(self) -> (other: Color)
        ensures
            other == self.spec_inv(),
    {
        match self {
            Color::White => Color::Black,
            Color::Black => Color::White,
        }
    }

    /// Index of this color's first piece bitboard.
    pub fn bb_offset(self) -> (offset: usize)
        ensures
            offset == 6 * self.index(),
    {
        6 * self.index()
    }

    /// Index of this color's occupancy bitboard.
    pub fn occ_offset(self) -> (offset: usize)
        ensures
            offset == 12 + self.index(),
    {
        12 + self.index()
    }

    pub open spec fn spec_pawn_direction(self) -> Direction {
        match self {
            Color::White => Direction::North,
            Color::Black => Direction::South,
        }
    }

    /// The direction in which this color's pawns advance.
    #[verifier::when_used_as_spec(spec_pawn_direction)]
    pub fn pawn_direction(self) -> (direction: Direction)
        ensures
            direction == self.spec_pawn_direction(),
    {
        match self {
            Color::White => Direction::North,
            Color::Black => Direction::South,
        }
    }

    /// Row change of one pawn step: +1 for white, -1 for black.
    pub open spec fn forward(self) -> int {
        match self {
            Color::White => 1,
            Color::Black => -1,
        }
    }
}

} // verus!
