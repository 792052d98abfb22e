use vstd::prelude::*;
use super::color::Color;
use super::line::{AntiDiagonal, Diagonal, File, Rank};
use crate::hashing::bitmask;
use crate::bits::bit;

verus! {

/// A square of the board. A1 has index 0, H1 index 7, A8 index 56 and H8
/// index 63: the index is `8 * row + col`.
#[derive(Debug, Clone, Copy, PartialEq, Eq, Structural)]
pub enum Square {
    A1, B1, C1, D1, E1, F1, G1, H1,
    A2, B2, C2, D2, E2, F2, G2, H2,
    A3, B3, C3, D3, E3, F3, G3, H3,
    A4, B4, C4, D4, E4, F4, G4, H4,
    A5, B5, C5, D5, E5, F5, G5, H5,
    A6, B6, C6, D6, E6, F6, G6, H6,
    A7, B7, C7, D7, E7, F7, G7, H7,
    A8, B8, C8, D8, E8, F8, G8, H8,
}

impl Square {
    pub const BITS: u64 = 6;

    pub const BIT_MAX: u64 = 0b111111;

    pub open spec fn spec_index(self) -> usize {
        match self {
            Square::A1 => 0, Square::B1 => 1, Square::C1 => 2, Square::D1 => 3, Square::E1 => 4, Square::F1 => 5, Square::G1 => 6, Square::H1 => 7,
            Square::A2 => 8, Square::B2 => 9, Square::C2 => 10, Square::D2 => 11, Square::E2 => 12, Square::F2 => 13, Square::G2 => 14, Square::H2 => 15,
            Square::A3 => 16, Square::B3 => 17, Square::C3 => 18, Square::D3 => 19, Square::E3 => 20, Square::F3 => 21, Square::G3 => 22, Square::H3 => 23,
            Square::A4 => 24, Square::B4 => 25, Square::C4 => 26, Square::D4 => 27, Square::E4 => 28, Square::F4 => 29, Square::G4 => 30, Square::H4 => 31,
            Square::A5 => 32, Square::B5 => 33, Square::C5 => 34, Square::D5 => 35, Square::E5 => 36, Square::F5 => 37, Square::G5 => 38, Square::H5 => 39,
            Square::A6 => 40, Square::B6 => 41, Square::C6 => 42, Square::D6 => 43, Square::E6 => 44, Square::F6 => 45, Square::G6 => 46, Square::H6 => 47,
            Square::A7 => 48, Square::B7 => 49, Square::C7 => 50, Square::D7 => 51, Square::E7 => 52, Square::F7 => 53, Square::G7 => 54, Square::H7 => 55,
            Square::A8 => 56, Square::B8 => 57, Square::C8 => 58, Square::D8 => 59, Square::E8 => 60, Square::F8 => 61, Square::G8 => 62, Square::H8 => 63,
        }
    }

    #[verifier::when_used_as_spec(spec_index)]
    pub fn index(self) -> (i: usize)
        ensures
            i == self.spec_index(),
            i < 64,
    {
        match self {
            Square::A1 => 0, Square::B1 => 1, Square::C1 => 2, Square::D1 => 3, Square::E1 => 4, Square::F1 => 5, Square::G1 => 6, Square::H1 => 7,
            Square::A2 => 8, Square::B2 => 9, Square::C2 => 10, Square::D2 => 11, Square::E2 => 12, Square::F2 => 13, Square::G2 => 14, Square::H2 => 15,
            Square::A3 => 16, Square::B3 => 17, Square::C3 => 18, Square::D3 => 19, Square::E3 => 20, Square::F3 => 21, Square::G3 => 22, Square::H3 => 23,
            Square::A4 => 24, Square::B4 => 25, Square::C4 => 26, Square::D4 => 27, Square::E4 => 28, Square::F4 => 29, Square::G4 => 30, Square::H4 => 31,
            Square::A5 => 32, Square::B5 => 33, Square::C5 => 34, Square::D5 => 35, Square::E5 => 36, Square::F5 => 37, Square::G5 => 38, Square::H5 => 39,
            Square::A6 => 40, Square::B6 => 41, Square::C6 => 42, Square::D6 => 43, Square::E6 => 44, Square::F6 => 45, Square::G6 => 46, Square::H6 => 47,
            Square::A7 => 48, Square::B7 => 49, Square::C7 => 50, Square::D7 => 51, Square::E7 => 52, Square::F7 => 53, Square::G7 => 54, Square::H7 => 55,
            Square::A8 => 56, Square::B8 => 57, Square::C8 => 58, Square::D8 => 59, Square::E8 => 60, Square::F8 => 61, Square::G8 => 62, Square::H8 => 63,
        }
    }

    pub open spec fn spec_from_index(i: usize) -> Square {
        match i {
            0 => Square::A1, 1 => Square::B1, 2 => Square::C1, 3 => Square::D1, 4 => Square::E1, 5 => Square::F1, 6 => Square::G1, 7 => Square::H1,
            8 => Square::A2, 9 => Square::B2, 10 => Square::C2, 11 => Square::D2, 12 => Square::E2, 13 => Square::F2, 14 => Square::G2, 15 => Square::H2,
            16 => Square::A3, 17 => Square::B3, 18 => Square::C3, 19 => Square::D3, 20 => Square::E3, 21 => Square::F3, 22 => Square::G3, 23 => Square::H3,
            24 => Square::A4, 25 => Square::B4, 26 => Square::C4, 27 => Square::D4, 28 => Square::E4, 29 => Square::F4, 30 => Square::G4, 31 => Square::H4,
            32 => Square::A5, 33 => Square::B5, 34 => Square::C5, 35 => Square::D5, 36 => Square::E5, 37 => Square::F5, 38 => Square::G5, 39 => Square::H5,
            40 => Square::A6, 41 => Square::B6, 42 => Square::C6, 43 => Square::D6, 44 => Square::E6, 45 => Square::F6, 46 => Square::G6, 47 => Square::H6,
            48 => Square::A7, 49 => Square::B7, 50 => Square::C7, 51 => Square::D7, 52 => Square::E7, 53 => Square::F7, 54 => Square::G7, 55 => Square::H7,
            56 => Square::A8, 57 => Square::B8, 58 => Square::C8, 59 => Square::D8, 60 => Square::E8, 61 => Square::F8, 62 => Square::G8, _ => Square::H8,
        }
    }

    /// The square with the given index.
    #[verifier::when_used_as_spec(spec_from_index)]
    pub fn from_index(i: usize) -> (square: Square)
        requires
            i < 64,
        ensures
            square == Square::spec_from_index(i),
            square.index() == i,
    {
        match i {
            0 => Square::A1, 1 => Square::B1, 2 => Square::C1, 3 => Square::D1, 4 => Square::E1, 5 => Square::F1, 6 => Square::G1, 7 => Square::H1,
            8 => Square::A2, 9 => Square::B2, 10 => Square::C2, 11 => Square::D2, 12 => Square::E2, 13 => Square::F2, 14 => Square::G2, 15 => Square::H2,
            16 => Square::A3, 17 => Square::B3, 18 => Square::C3, 19 => Square::D3, 20 => Square::E3, 21 => Square::F3, 22 => Square::G3, 23 => Square::H3,
            24 => Square::A4, 25 => Square::B4, 26 => Square::C4, 27 => Square::D4, 28 => Square::E4, 29 => Square::F4, 30 => Square::G4, 31 => Square::H4,
            32 => Square::A5, 33 => Square::B5, 34 => Square::C5, 35 => Square::D5, 36 => Square::E5, 37 => Square::F5, 38 => Square::G5, 39 => Square::H5,
            40 => Square::A6, 41 => Square::B6, 42 => Square::C6, 43 => Square::D6, 44 => Square::E6, 45 => Square::F6, 46 => Square::G6, 47 => Square::H6,
            48 => Square::A7, 49 => Square::B7, 50 => Square::C7, 51 => Square::D7, 52 => Square::E7, 53 => Square::F7, 54 => Square::G7, 55 => Square::H7,
            56 => Square::A8, 57 => Square::B8, 58 => Square::C8, 59 => Square::D8, 60 => Square::E8, 61 => Square::F8, 62 => Square::G8, _ => Square::H8,
        }
    }

    /// Every square is the square of its index.
    pub proof fn lemma_index_round_trip(self)
        ensures
            self.index() < 64,
            Square::from_index(self.index()) == self,
    {
    }

    /// Every index below 64 is the index of its square.
    pub proof fn lemma_from_index(i: usize)
        requires
            i < 64,
        ensures
            Square::spec_from_index(i).spec_index() == i,
    {
    }

    pub open spec fn spec_row(self) -> usize {
        self.spec_index() / 8
    }

    /// The rank index, 0 for rank 1.
    #[verifier::when_used_as_spec(spec_row)]
    pub fn row(self) -> (row: usize)
        ensures
            row == self.spec_row(),
            row < 8,
    {
        self.index() / 8
    }

    pub open spec fn spec_col(self) -> usize {
        self.spec_index() % 8
    }

    /// The file index, 0 for the a-file.
    #[verifier::when_used_as_spec(spec_col)]
    pub fn col(self) -> (col: usize)
        ensures
            col == self.spec_col(),
            col < 8,
    {
        self.index() % 8
    }

    pub fn rank(self) -> (rank: Rank)
        ensures
            rank.index() == self.row(),
    {
        Rank::from_index(self.index() / 8)
    }

    pub fn file(self) -> (file: File)
        ensures
            file.index() == self.col(),
    {
        File::from_index(self.index() % 8)
    }

    /// The diagonal (parallel to a1-h8) through this square.
    pub fn diag(self) -> (diagonal: Diagonal)
        ensures
            diagonal.index() == 7 - self.row() + self.col(),
    {
        Diagonal::from_index(7 - self.row() + self.col())
    }

    /// The anti-diagonal (parallel to a8-h1) through this square.
    pub fn antidiag(self) -> (diagonal: AntiDiagonal)
        ensures
            diagonal.index() == self.row() + self.col(),
    {
        AntiDiagonal::from_index(self.row() + self.col())
    }

    pub open spec fn spec_mask(self) -> u64 {
        bitmask::spec_square_mask(self.spec_index())
    }

    /// The mask of a square holds that square alone.
    pub proof fn lemma_mask(self)
        ensures
            forall|t: int| #[trigger] bit(self.spec_mask(), t) == (t == self.spec_index()),
    {
        crate::bits::lemma_bit_shifts();
    }

    /// The mask that holds this square alone.
    #[verifier::when_used_as_spec(spec_mask)]
    pub fn mask(self) -> (mask: u64)
        ensures
            mask == bitmask::spec_square_mask(self.index()),
            forall|t: int| bit(mask, t) == (t == self.index()),
    {
        bitmask::square_mask(self.index())
    }

    /// The color of the square itself: A1 is black (dark).
    pub fn color(self) -> (color: Color)
        ensures
            color == if (self.row() + self.col()) % 2 == 0 {
                Color::Black
            } else {
                Color::White
            },
    {
        if (self.row() + self.col()) % 2 == 0 {
            Color::Black
        } else {
            Color::White
        }
    }

    pub fn from_file_rank(file: File, rank: Rank) -> (square: Square)
        ensures
            square.index() == 8 * rank.index() + file.index(),
    {
        Square::from_rc(rank.index(), file.index())
    }

    pub fn from_rc(row: usize, col: usize) -> (square: Square)
        requires
            row < 8,
            col < 8,
        ensures
            square.index() == 8 * row + col,
            square.row() == row,
            square.col() == col,
    {
        Square::from_index(8 * row + col)
    }

    /// True for the squares of ranks 1 and 8, where pawns promote.
    pub fn is_promotion_square(self) -> (last: bool)
        ensures
            last == (self.row() == 0 || self.row() == 7),
    {
        let row = self.row();
        row == 0 || row == 7
    }
}

} // verus!
