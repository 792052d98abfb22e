use vstd::prelude::*;
use super::color::Color;

verus! {

/// The movement rule a piece follows. Pawns differ by color.
#[derive(Debug, Clone, Copy, PartialEq, Eq, Structural)]
pub enum Moveset {
    RookMove,
    KnightMove,
    BishopMove,
    QueenMove,
    KingMove,
    BlackPawnMove,
    WhitePawnMove,
}

/// A piece kind without its color.
#[derive(Debug, Clone, Copy, PartialEq, Eq, Structural)]
pub enum GenericPiece {
    Rook,
    Knight,
    Bishop,
    Queen,
    King,
    Pawn,
}

impl GenericPiece {
    pub const BITS: u64 = 3;

    pub const BIT_MAX: u64 = 0b111;

    pub const EMPTY_CODE: u64 = 0b111;

    pub open spec fn spec_index(self) -> usize {
        match self {
            GenericPiece::Rook => 0,
            GenericPiece::Knight => 1,
            GenericPiece::Bishop => 2,
            GenericPiece::Queen => 3,
            GenericPiece::King => 4,
            GenericPiece::Pawn => 5,
        }
    }

    #[verifier::when_used_as_spec(spec_index)]
    pub fn index(self) -> (i: usize)
        ensures
            i == self.spec_index(),
    {
        match self {
            GenericPiece::Rook => 0,
            GenericPiece::Knight => 1,
            GenericPiece::Bishop => 2,
            GenericPiece::Queen => 3,
            GenericPiece::King => 4,
            GenericPiece::Pawn => 5,
        }
    }

    pub fn from_index(i: usize) -> (kind: GenericPiece)
        requires
            i < 6,
        ensures
            kind.index() == i,
    {
        match i {
            0 => GenericPiece::Rook,
            1 => GenericPiece::Knight,
            2 => GenericPiece::Bishop,
            3 => GenericPiece::Queen,
            4 => GenericPiece::King,
            _ => GenericPiece::Pawn,
        }
    }

    pub open spec fn spec_as_color(self, color: Color) -> Piece {
        match (color, self) {
            (Color::White, GenericPiece::Rook) => Piece::WhiteRook,
            (Color::White, GenericPiece::Knight) => Piece::WhiteKnight,
            (Color::White, GenericPiece::Bishop) => Piece::WhiteBishop,
            (Color::White, GenericPiece::Queen) => Piece::WhiteQueen,
            (Color::White, GenericPiece::King) => Piece::WhiteKing,
            (Color::White, GenericPiece::Pawn) => Piece::WhitePawn,
            (Color::Black, GenericPiece::Rook) => Piece::BlackRook,
            (Color::Black, GenericPiece::Knight) => Piece::BlackKnight,
            (Color::Black, GenericPiece::Bishop) => Piece::BlackBishop,
            (Color::Black, GenericPiece::Queen) => Piece::BlackQueen,
            (Color::Black, GenericPiece::King) => Piece::BlackKing,
            (Color::Black, GenericPiece::Pawn) => Piece::BlackPawn,
        }
    }

    /// The piece of this kind and the given color.
    #[verifier::when_used_as_spec(spec_as_color)]
    pub fn as_color(self, color: Color) -> (piece: Piece)
        ensures
            piece == self.spec_as_color(color),
            piece.index() == 6 * color.index() + self.index(),
            piece.color() == color,
            piece.as_generic() == self,
    {
        Piece::from_index(color.bb_offset() + self.index())
    }
}

/// What a pawn may promote to.
#[derive(Debug, Clone, Copy, PartialEq, Eq, Structural)]
pub enum Promotion {
    Rook,
    Knight,
    Bishop,
    Queen,
}

impl Promotion {
    /// One bit more than the four kinds need, so that "no promotion" has a code.
    pub const BITS: u64 = 3;

    pub const BIT_MAX: u64 = 0b111;

    pub const EMPTY_CODE: u64 = 0b111;

    pub open spec fn spec_index(self) -> usize {
        match self {
            Promotion::Rook => 0,
            Promotion::Knight => 1,
            Promotion::Bishop => 2,
            Promotion::Queen => 3,
        }
    }

    #[verifier::when_used_as_spec(spec_index)]
    pub fn index(self) -> (i: usize)
        ensures
            i == self.spec_index(),
    {
        match self {
            Promotion::Rook => 0,
            Promotion::Knight => 1,
            Promotion::Bishop => 2,
            Promotion::Queen => 3,
        }
    }

    pub open spec fn spec_from_index(i: usize) -> Promotion {
        match i {
            0 => Promotion::Rook,
            1 => Promotion::Knight,
            2 => Promotion::Bishop,
            _ => Promotion::Queen,
        }
    }

    #[verifier::when_used_as_spec(spec_from_index)]
    pub fn from_index(i: usize) -> (promotion: Promotion)
        requires
            i < 4,
        ensures
            promotion == Promotion::spec_from_index(i),
            promotion.index() == i,
    {
        match i {
            0 => Promotion::Rook,
            1 => Promotion::Knight,
            2 => Promotion::Bishop,
            _ => Promotion::Queen,
        }
    }

    pub open spec fn spec_as_generic_piece(self) -> GenericPiece {
        match self {
            Promotion::Rook => GenericPiece::Rook,
            Promotion::Knight => GenericPiece::Knight,
            Promotion::Bishop => GenericPiece::Bishop,
            Promotion::Queen => GenericPiece::Queen,
        }
    }

    #[verifier::when_used_as_spec(spec_as_generic_piece)]
    pub fn as_generic_piece(self) -> (kind: GenericPiece)
        ensures
            kind == self.spec_as_generic_piece(),
            kind.index() == self.index(),
    {
        match self {
            Promotion::Rook => GenericPiece::Rook,
            Promotion::Knight => GenericPiece::Knight,
            Promotion::Bishop => GenericPiece::Bishop,
            Promotion::Queen => GenericPiece::Queen,
        }
    }

    pub open spec fn spec_as_piece(self, color: Color) -> Piece {
        self.spec_as_generic_piece().spec_as_color(color)
    }

    /// The piece a pawn of the given color becomes.
    #[verifier::when_used_as_spec(spec_as_piece)]
    pub fn as_piece(self, color: Color) -> (piece: Piece)
        ensures
            piece == self.spec_as_piece(color),
            piece.index() == 6 * color.index() + self.index(),
    {
        self.as_generic_piece().as_color(color)
    }
}

/// A colored piece. The index is `6 * color + kind`.
#[derive(Debug, Clone, Copy, PartialEq, Eq, Structural)]
pub enum Piece {
    WhiteRook,
    WhiteKnight,
    WhiteBishop,
    WhiteQueen,
    WhiteKing,
    WhitePawn,
    BlackRook,
    BlackKnight,
    BlackBishop,
    BlackQueen,
    BlackKing,
    BlackPawn,
}

impl Piece {
    pub const BITS: u64 = 4;

    pub const BIT_MAX: u64 = 0b1111;

    /// The code that stands for "no piece" in a four-bit field.
    pub const EMPTY_CODE: u64 = 0b1111;

    pub open spec fn spec_index(self) -> usize {
        match self {
            Piece::WhiteRook => 0,
            Piece::WhiteKnight => 1,
            Piece::WhiteBishop => 2,
            Piece::WhiteQueen => 3,
            Piece::WhiteKing => 4,
            Piece::WhitePawn => 5,
            Piece::BlackRook => 6,
            Piece::BlackKnight => 7,
            Piece::BlackBishop => 8,
            Piece::BlackQueen => 9,
            Piece::BlackKing => 10,
            Piece::BlackPawn => 11,
        }
    }

    #[verifier::when_used_as_spec(spec_index)]
    pub fn index(self) -> (i: usize)
        ensures
            i == self.spec_index(),
            i < 12,
    {
        match self {
            Piece::WhiteRook => 0,
            Piece::WhiteKnight => 1,
            Piece::WhiteBishop => 2,
            Piece::WhiteQueen => 3,
            Piece::WhiteKing => 4,
            Piece::WhitePawn => 5,
            Piece::BlackRook => 6,
            Piece::BlackKnight => 7,
            Piece::BlackBishop => 8,
            Piece::BlackQueen => 9,
            Piece::BlackKing => 10,
            Piece::BlackPawn => 11,
        }
    }

    pub open spec fn spec_from_index(i: usize) -> Piece {
        match i {
            0 => Piece::WhiteRook,
            1 => Piece::WhiteKnight,
            2 => Piece::WhiteBishop,
            3 => Piece::WhiteQueen,
            4 => Piece::WhiteKing,
            5 => Piece::WhitePawn,
            6 => Piece::BlackRook,
            7 => Piece::BlackKnight,
            8 => Piece::BlackBishop,
            9 => Piece::BlackQueen,
            10 => Piece::BlackKing,
            _ => Piece::BlackPawn,
        }
    }

    #[verifier::when_used_as_spec(spec_from_index)]
    pub fn from_index(i: usize) -> (piece: Piece)
        requires
            i < 12,
        ensures
            piece == Piece::spec_from_index(i),
            piece.index() == i,
    {
        match i {
            0 => Piece::WhiteRook,
            1 => Piece::WhiteKnight,
            2 => Piece::WhiteBishop,
            3 => Piece::WhiteQueen,
            4 => Piece::WhiteKing,
            5 => Piece::WhitePawn,
            6 => Piece::BlackRook,
            7 => Piece::BlackKnight,
            8 => Piece::BlackBishop,
            9 => Piece::BlackQueen,
            10 => Piece::BlackKing,
            _ => Piece::BlackPawn,
        }
    }

    /// The six pieces of a color, in kind order.
    pub fn pieces_of_color(color: Color) -> (pieces: [Piece; 6])
        ensures
            forall|k: int| 0 <= k < 6 ==> (#[trigger] pieces[k]).index() == 6 * color.index() + k,
    {
        match color {
            Color::White => [
                Piece::WhiteRook,
                Piece::WhiteKnight,
                Piece::WhiteBishop,
                Piece::WhiteQueen,
                Piece::WhiteKing,
                Piece::WhitePawn,
            ],
            Color::Black => [
                Piece::BlackRook,
                Piece::BlackKnight,
                Piece::BlackBishop,
                Piece::BlackQueen,
                Piece::BlackKing,
                Piece::BlackPawn,
            ],
        }
    }

    pub open spec fn spec_color(self) -> Color {
        if self.spec_index() < 6 {
            Color::White
        } else {
            Color::Black
        }
    }

    #[verifier::when_used_as_spec(spec_color)]
    pub fn color(self) -> (color: Color)
        ensures
            color == self.spec_color(),
    {
        if self.index() < 6 {
            Color::White
        } else {
            Color::Black
        }
    }

    pub open spec fn spec_inv(self) -> Piece {
        Piece::spec_from_index(((self.spec_index() + 6) % 12) as usize)
    }

    /// The same kind in the other color.
    #[verifier::when_used_as_spec(spec_inv)]
    pub fn inv(self) -> (other: Piece)
        ensures
            other == self.spec_inv(),
            other.as_generic() == self.as_generic(),
            other.color() == self.color().inv(),
    {
        Piece::from_index((self.index() + 6) % 12)
    }

    /// Index of the occupancy bitboard of this piece's color.
    pub fn occ_index(self) -> (i: usize)
        ensures
            i == 12 + self.color().index(),
    {
        12 + self.color().index()
    }

    pub open spec fn spec_as_generic(self) -> GenericPiece {
        match self {
            Piece::WhiteRook | Piece::BlackRook => GenericPiece::Rook,
            Piece::WhiteKnight | Piece::BlackKnight => GenericPiece::Knight,
            Piece::WhiteBishop | Piece::BlackBishop => GenericPiece::Bishop,
            Piece::WhiteQueen | Piece::BlackQueen => GenericPiece::Queen,
            Piece::WhiteKing | Piece::BlackKing => GenericPiece::King,
            Piece::WhitePawn | Piece::BlackPawn => GenericPiece::Pawn,
        }
    }

    #[verifier::when_used_as_spec(spec_as_generic)]
    pub fn as_generic(self) -> (kind: GenericPiece)
        ensures
            kind == self.spec_as_generic(),
            kind.index() == self.index() % 6,
    {
        match self {
            Piece::WhiteRook | Piece::BlackRook => GenericPiece::Rook,
            Piece::WhiteKnight | Piece::BlackKnight => GenericPiece::Knight,
            Piece::WhiteBishop | Piece::BlackBishop => GenericPiece::Bishop,
            Piece::WhiteQueen | Piece::BlackQueen => GenericPiece::Queen,
            Piece::WhiteKing | Piece::BlackKing => GenericPiece::King,
            Piece::WhitePawn | Piece::BlackPawn => GenericPiece::Pawn,
        }
    }

    pub open spec fn spec_moveset(self) -> Moveset {
        match self {
            Piece::WhiteRook | Piece::BlackRook => Moveset::RookMove,
            Piece::WhiteKnight | Piece::BlackKnight => Moveset::KnightMove,
            Piece::WhiteBishop | Piece::BlackBishop => Moveset::BishopMove,
            Piece::WhiteQueen | Piece::BlackQueen => Moveset::QueenMove,
            Piece::WhiteKing | Piece::BlackKing => Moveset::KingMove,
            Piece::WhitePawn => Moveset::WhitePawnMove,
            Piece::BlackPawn => Moveset::BlackPawnMove,
        }
    }

    #[verifier::when_used_as_spec(spec_moveset)]
    pub fn moveset(self) -> (moveset: Moveset)
        ensures
            moveset == self.spec_moveset(),
    {
        match self {
            Piece::WhiteRook | Piece::BlackRook => Moveset::RookMove,
            Piece::WhiteKnight | Piece::BlackKnight => Moveset::KnightMove,
            Piece::WhiteBishop | Piece::BlackBishop => Moveset::BishopMove,
            Piece::WhiteQueen | Piece::BlackQueen => Moveset::QueenMove,
            Piece::WhiteKing | Piece::BlackKing => Moveset::KingMove,
            Piece::WhitePawn => Moveset::WhitePawnMove,
            Piece::BlackPawn => Moveset::BlackPawnMove,
        }
    }
}

} // verus!
