use vstd::prelude::*;
use super::color::Color;
use super::square::Square;
use crate::hashing::bitmask;
use crate::bits::bit;

verus! {

/// A line parallel to a8-h1, named by its two ends. The index is `row + col`
/// of any of its squares.
#[derive(Debug, Clone, Copy, PartialEq, Eq, Structural)]
pub enum AntiDiagonal {
    A1A1, A2B1, A3C1, A4D1, A5E1, A6F1, A7G1, A8H1,
    B8H2, C8H3, D8H4, E8H5, F8H6, G8H7, H8H8,
}

impl AntiDiagonal {
    pub open spec fn spec_index(self) -> usize {
        match self {
            AntiDiagonal::A1A1 => 0, AntiDiagonal::A2B1 => 1, AntiDiagonal::A3C1 => 2, AntiDiagonal::A4D1 => 3,
            AntiDiagonal::A5E1 => 4, AntiDiagonal::A6F1 => 5, AntiDiagonal::A7G1 => 6, AntiDiagonal::A8H1 => 7,
            AntiDiagonal::B8H2 => 8, AntiDiagonal::C8H3 => 9, AntiDiagonal::D8H4 => 10, AntiDiagonal::E8H5 => 11,
            AntiDiagonal::F8H6 => 12, AntiDiagonal::G8H7 => 13, AntiDiagonal::H8H8 => 14,
        }
    }

    #[verifier::when_used_as_spec(spec_index)]
    pub fn index(self) -> (i: usize)
        ensures
            i == self.spec_index(),
            i < 15,
    {
        match self {
            AntiDiagonal::A1A1 => 0, AntiDiagonal::A2B1 => 1, AntiDiagonal::A3C1 => 2, AntiDiagonal::A4D1 => 3,
            AntiDiagonal::A5E1 => 4, AntiDiagonal::A6F1 => 5, AntiDiagonal::A7G1 => 6, AntiDiagonal::A8H1 => 7,
            AntiDiagonal::B8H2 => 8, AntiDiagonal::C8H3 => 9, AntiDiagonal::D8H4 => 10, AntiDiagonal::E8H5 => 11,
            AntiDiagonal::F8H6 => 12, AntiDiagonal::G8H7 => 13, AntiDiagonal::H8H8 => 14,
        }
    }

    pub open spec fn spec_from_index(i: usize) -> AntiDiagonal {
        match i {
            0 => AntiDiagonal::A1A1, 1 => AntiDiagonal::A2B1, 2 => AntiDiagonal::A3C1, 3 => AntiDiagonal::A4D1,
            4 => AntiDiagonal::A5E1, 5 => AntiDiagonal::A6F1, 6 => AntiDiagonal::A7G1, 7 => AntiDiagonal::A8H1,
            8 => AntiDiagonal::B8H2, 9 => AntiDiagonal::C8H3, 10 => AntiDiagonal::D8H4, 11 => AntiDiagonal::E8H5,
            12 => AntiDiagonal::F8H6, 13 => AntiDiagonal::G8H7, _ => AntiDiagonal::H8H8,
        }
    }

    #[verifier::when_used_as_spec(spec_from_index)]
    pub fn from_index(i: usize) -> (line: AntiDiagonal)
        requires
            i < 15,
        ensures
            line == AntiDiagonal::spec_from_index(i),
            line.index() == i,
    {
        match i {
            0 => AntiDiagonal::A1A1, 1 => AntiDiagonal::A2B1, 2 => AntiDiagonal::A3C1, 3 => AntiDiagonal::A4D1,
            4 => AntiDiagonal::A5E1, 5 => AntiDiagonal::A6F1, 6 => AntiDiagonal::A7G1, 7 => AntiDiagonal::A8H1,
            8 => AntiDiagonal::B8H2, 9 => AntiDiagonal::C8H3, 10 => AntiDiagonal::D8H4, 11 => AntiDiagonal::E8H5,
            12 => AntiDiagonal::F8H6, 13 => AntiDiagonal::G8H7, _ => AntiDiagonal::H8H8,
        }
    }

    /// The squares of this line.
    pub fn mask(self) -> (mask: u64)
        ensures
            forall|t: int| 0 <= t < 64 ==> #[trigger] bit(mask, t) == (t / 8 + t % 8 == self.index()),
    {
        bitmask::anti_diagonal_mask(self.index())
    }

    /// The two ends of the line: first the one on the a-file or on rank 8,
    /// then the one on rank 1 or on the h-file.
    pub fn ends(self) -> (ends: [Square; 2])
        ensures
            ends[0].row() + ends[0].col() == self.index(),
            ends[1].row() + ends[1].col() == self.index(),
            ends[0].col() == 0 || ends[0].row() == 7,
            ends[1].row() == 0 || ends[1].col() == 7,
    {
        let i = self.index();
        if i < 8 {
            [Square::from_rc(i, 0), Square::from_rc(0, i)]
        } else {
            [Square::from_rc(7, i - 7), Square::from_rc(i - 7, 7)]
        }
    }
}

/// A line parallel to a1-h8, named by its two ends. The index is
/// `7 - row + col` of any of its squares.
#[derive(Debug, Clone, Copy, PartialEq, Eq, Structural)]
pub enum Diagonal {
    A8A8, A7B8, A6C8, A5D8, A4E8, A3F8, A2G8, A1H8,
    B1H7, C1H6, D1H5, E1H4, F1H3, G1H2, H1H1,
}

impl Diagonal {
    pub open spec fn spec_index(self) -> usize {
        match self {
            Diagonal::A8A8 => 0, Diagonal::A7B8 => 1, Diagonal::A6C8 => 2, Diagonal::A5D8 => 3,
            Diagonal::A4E8 => 4, Diagonal::A3F8 => 5, Diagonal::A2G8 => 6, Diagonal::A1H8 => 7,
            Diagonal::B1H7 => 8, Diagonal::C1H6 => 9, Diagonal::D1H5 => 10, Diagonal::E1H4 => 11,
            Diagonal::F1H3 => 12, Diagonal::G1H2 => 13, Diagonal::H1H1 => 14,
        }
    }

    #[verifier::when_used_as_spec(spec_index)]
    pub fn index(self) -> (i: usize)
        ensures
            i == self.spec_index(),
            i < 15,
    {
        match self {
            Diagonal::A8A8 => 0, Diagonal::A7B8 => 1, Diagonal::A6C8 => 2, Diagonal::A5D8 => 3,
            Diagonal::A4E8 => 4, Diagonal::A3F8 => 5, Diagonal::A2G8 => 6, Diagonal::A1H8 => 7,
            Diagonal::B1H7 => 8, Diagonal::C1H6 => 9, Diagonal::D1H5 => 10, Diagonal::E1H4 => 11,
            Diagonal::F1H3 => 12, Diagonal::G1H2 => 13, Diagonal::H1H1 => 14,
        }
    }

    pub open spec fn spec_from_index(i: usize) -> Diagonal {
        match i {
            0 => Diagonal::A8A8, 1 => Diagonal::A7B8, 2 => Diagonal::A6C8, 3 => Diagonal::A5D8,
            4 => Diagonal::A4E8, 5 => Diagonal::A3F8, 6 => Diagonal::A2G8, 7 => Diagonal::A1H8,
            8 => Diagonal::B1H7, 9 => Diagonal::C1H6, 10 => Diagonal::D1H5, 11 => Diagonal::E1H4,
            12 => Diagonal::F1H3, 13 => Diagonal::G1H2, _ => Diagonal::H1H1,
        }
    }

    #[verifier::when_used_as_spec(spec_from_index)]
    pub fn from_index(i: usize) -> (line: Diagonal)
        requires
            i < 15,
        ensures
            line == Diagonal::spec_from_index(i),
            line.index() == i,
    {
        match i {
            0 => Diagonal::A8A8, 1 => Diagonal::A7B8, 2 => Diagonal::A6C8, 3 => Diagonal::A5D8,
            4 => Diagonal::A4E8, 5 => Diagonal::A3F8, 6 => Diagonal::A2G8, 7 => Diagonal::A1H8,
            8 => Diagonal::B1H7, 9 => Diagonal::C1H6, 10 => Diagonal::D1H5, 11 => Diagonal::E1H4,
            12 => Diagonal::F1H3, 13 => Diagonal::G1H2, _ => Diagonal::H1H1,
        }
    }

    /// The squares of this line.
    pub fn mask(self) -> (mask: u64)
        ensures
            forall|t: int|
                0 <= t < 64 ==> #[trigger] bit(mask, t) == (7 - t / 8 + t % 8 == self.index()),
    {
        bitmask::diagonal_mask(self.index())
    }

    /// The two ends of the line: first the one on the a-file or on rank 1,
    /// then the one on rank 8 or on the h-file.
    pub fn ends(self) -> (ends: [Square; 2])
        ensures
            7 - ends[0].row() + ends[0].col() == self.index(),
            7 - ends[1].row() + ends[1].col() == self.index(),
            ends[0].col() == 0 || ends[0].row() == 0,
            ends[1].row() == 7 || ends[1].col() == 7,
    {
        let i = self.index();
        if i < 8 {
            [Square::from_rc(7 - i, 0), Square::from_rc(7, i)]
        } else {
            [Square::from_rc(0, i - 7), Square::from_rc(14 - i, 7)]
        }
    }
}

/// A column of the board, a to h.
#[derive(Debug, Clone, Copy, PartialEq, Eq, Structural)]
pub enum File {
    AFile, BFile, CFile, DFile, EFile, FFile, GFile, HFile,
}

impl File {
    pub const BITS: u64 = 3;

    pub const BIT_MAX: u64 = 0b111;

    pub open spec fn spec_index(self) -> usize {
        match self {
            File::AFile => 0, File::BFile => 1, File::CFile => 2, File::DFile => 3,
            File::EFile => 4, File::FFile => 5, File::GFile => 6, File::HFile => 7,
        }
    }

    #[verifier::when_used_as_spec(spec_index)]
    pub fn index(self) -> (i: usize)
        ensures
            i == self.spec_index(),
            i < 8,
    {
        match self {
            File::AFile => 0, File::BFile => 1, File::CFile => 2, File::DFile => 3,
            File::EFile => 4, File::FFile => 5, File::GFile => 6, File::HFile => 7,
        }
    }

    pub open spec fn spec_from_index(i: usize) -> File {
        match i {
            0 => File::AFile, 1 => File::BFile, 2 => File::CFile, 3 => File::DFile,
            4 => File::EFile, 5 => File::FFile, 6 => File::GFile, _ => File::HFile,
        }
    }

    #[verifier::when_used_as_spec(spec_from_index)]
    pub fn from_index(i: usize) -> (line: File)
        requires
            i < 8,
        ensures
            line == File::spec_from_index(i),
            line.index() == i,
    {
        match i {
            0 => File::AFile, 1 => File::BFile, 2 => File::CFile, 3 => File::DFile,
            4 => File::EFile, 5 => File::FFile, 6 => File::GFile, _ => File::HFile,
        }
    }

    /// The squares of this file.
    pub fn mask(self) -> (mask: u64)
        ensures
            mask == bitmask::spec_file_mask(self.index()),
            forall|t: int| 0 <= t < 64 ==> #[trigger] bit(mask, t) == (t % 8 == self.index()),
    {
        bitmask::file_mask(self.index())
    }

    /// What the file adds to a square's index.
    pub fn offset(self) -> (offset: usize)
        ensures
            offset == self.index(),
    {
        self.index()
    }

    /// The square that a pawn of `color` skips when it advances two ranks on
    /// this file: on rank 3 for white, on rank 6 for black.
    pub fn ep_square(self, color: Color) -> (square: Square)
        ensures
            square.col() == self.index(),
            square.row() == match color {
                Color::White => 2usize,
                Color::Black => 5usize,
            },
    {
        Square::from_file_rank(
            self,
            match color {
                Color::White => Rank::Rank3,
                Color::Black => Rank::Rank6,
            },
        )
    }
}

/// A row of the board, 1 to 8.
#[derive(Debug, Clone, Copy, PartialEq, Eq, Structural)]
pub enum Rank {
    Rank1, Rank2, Rank3, Rank4, Rank5, Rank6, Rank7, Rank8,
}

impl Rank {
    pub const BITS: u64 = 3;

    pub const BIT_MAX: u64 = 0b111;

    pub open spec fn spec_index(self) -> usize {
        match self {
            Rank::Rank1 => 0, Rank::Rank2 => 1, Rank::Rank3 => 2, Rank::Rank4 => 3,
            Rank::Rank5 => 4, Rank::Rank6 => 5, Rank::Rank7 => 6, Rank::Rank8 => 7,
        }
    }

    #[verifier::when_used_as_spec(spec_index)]
    pub fn index(self) -> (i: usize)
        ensures
            i == self.spec_index(),
            i < 8,
    {
        match self {
            Rank::Rank1 => 0, Rank::Rank2 => 1, Rank::Rank3 => 2, Rank::Rank4 => 3,
            Rank::Rank5 => 4, Rank::Rank6 => 5, Rank::Rank7 => 6, Rank::Rank8 => 7,
        }
    }

    pub open spec fn spec_from_index(i: usize) -> Rank {
        match i {
            0 => Rank::Rank1, 1 => Rank::Rank2, 2 => Rank::Rank3, 3 => Rank::Rank4,
            4 => Rank::Rank5, 5 => Rank::Rank6, 6 => Rank::Rank7, _ => Rank::Rank8,
        }
    }

    #[verifier::when_used_as_spec(spec_from_index)]
    pub fn from_index(i: usize) -> (line: Rank)
        requires
            i < 8,
        ensures
            line == Rank::spec_from_index(i),
            line.index() == i,
    {
        match i {
            0 => Rank::Rank1, 1 => Rank::Rank2, 2 => Rank::Rank3, 3 => Rank::Rank4,
            4 => Rank::Rank5, 5 => Rank::Rank6, 6 => Rank::Rank7, _ => Rank::Rank8,
        }
    }

    /// The squares of this rank.
    pub fn mask(self) -> (mask: u64)
        ensures
            mask == bitmask::spec_rank_mask(self.index()),
            forall|t: int| 0 <= t < 64 ==> #[trigger] bit(mask, t) == (t / 8 == self.index()),
    {
        bitmask::rank_mask(self.index())
    }

    /// What the rank adds to a square's index.
    pub fn offset(self) -> (offset: usize)
        ensures
            offset == 8 * self.index(),
    {
        8 * self.index()
    }
}

} // verus!
