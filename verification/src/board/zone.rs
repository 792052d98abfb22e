use vstd::prelude::*;
use super::color::Color;
use super::piece::{GenericPiece, Piece};
use super::square::Square;
use crate::bits::{bit, lemma_bit_ops};
use crate::hashing::bitmask;

verus! {

/// One of the four castling rights: a color and a side of the board.
#[derive(Debug, Clone, Copy, PartialEq, Eq, Structural)]
pub enum Quadrant {
    WhiteKingside,
    WhiteQueenside,
    BlackKingside,
    BlackQueenside,
}

impl Quadrant {
    pub const BITS: u64 = 2;

    pub open spec fn spec_index(self) -> usize {
        match self {
            Quadrant::WhiteKingside => 0,
            Quadrant::WhiteQueenside => 1,
            Quadrant::BlackKingside => 2,
            Quadrant::BlackQueenside => 3,
        }
    }

    #[verifier::when_used_as_spec(spec_index)]
    pub fn index(self) -> (i: usize)
        ensures
            i == self.spec_index(),
            i < 4,
    {
        match self {
            Quadrant::WhiteKingside => 0,
            Quadrant::WhiteQueenside => 1,
            Quadrant::BlackKingside => 2,
            Quadrant::BlackQueenside => 3,
        }
    }

    pub open spec fn spec_from_index(i: usize) -> Quadrant {
        match i {
            0 => Quadrant::WhiteKingside,
            1 => Quadrant::WhiteQueenside,
            2 => Quadrant::BlackKingside,
            _ => Quadrant::BlackQueenside,
        }
    }

    #[verifier::when_used_as_spec(spec_from_index)]
    pub fn from_index(i: usize) -> (quadrant: Quadrant)
        requires
            i < 4,
        ensures
            quadrant == Quadrant::spec_from_index(i),
            quadrant.index() == i,
    {
        match i {
            0 => Quadrant::WhiteKingside,
            1 => Quadrant::WhiteQueenside,
            2 => Quadrant::BlackKingside,
            _ => Quadrant::BlackQueenside,
        }
    }

    /// The quarter of the board on this quadrant's side: the e- to h-files
    /// for a kingside, ranks 1 to 4 for white.
    pub fn mask(self) -> (mask: u64)
        ensures
            forall|t: int|
                0 <= t < 64 ==> #[trigger] bit(mask, t) == ((t % 8 >= 4) == (self.file_side()
                    == FileSide::Kingside) && (t / 8 < 4) == (self.color() == Color::White)),
    {
        bitmask::quadrant_mask(
            self.file_side() == FileSide::Kingside,
            self.color() == Color::White,
        )
    }

    pub fn from_file_rank(file_side: FileSide, rank_side: RankSide) -> (quadrant: Quadrant)
        ensures
            quadrant.index() == 2 * rank_side.index() + file_side.index(),
            quadrant.file_side() == file_side,
            quadrant.rank_side() == rank_side,
    {
        Quadrant::from_index(2 * rank_side.index() + file_side.index())
    }

    pub open spec fn spec_color(self) -> Color {
        match self {
            Quadrant::WhiteKingside | Quadrant::WhiteQueenside => Color::White,
            Quadrant::BlackKingside | Quadrant::BlackQueenside => Color::Black,
        }
    }

    #[verifier::when_used_as_spec(spec_color)]
    pub fn color(self) -> (color: Color)
        ensures
            color == self.spec_color(),
    {
        match self {
            Quadrant::WhiteKingside | Quadrant::WhiteQueenside => Color::White,
            Quadrant::BlackKingside | Quadrant::BlackQueenside => Color::Black,
        }
    }

    pub open spec fn spec_file_side(self) -> FileSide {
        match self {
            Quadrant::WhiteKingside | Quadrant::BlackKingside => FileSide::Kingside,
            Quadrant::WhiteQueenside | Quadrant::BlackQueenside => FileSide::Queenside,
        }
    }

    #[verifier::when_used_as_spec(spec_file_side)]
    pub fn file_side(self) -> (side: FileSide)
        ensures
            side == self.spec_file_side(),
    {
        match self {
            Quadrant::WhiteKingside | Quadrant::BlackKingside => FileSide::Kingside,
            Quadrant::WhiteQueenside | Quadrant::BlackQueenside => FileSide::Queenside,
        }
    }

    pub open spec fn spec_rank_side(self) -> RankSide {
        match self {
            Quadrant::WhiteKingside | Quadrant::WhiteQueenside => RankSide::WhiteSide,
            Quadrant::BlackKingside | Quadrant::BlackQueenside => RankSide::BlackSide,
        }
    }

    #[verifier::when_used_as_spec(spec_rank_side)]
    pub fn rank_side(self) -> (side: RankSide)
        ensures
            side == self.spec_rank_side(),
    {
        match self {
            Quadrant::WhiteKingside | Quadrant::WhiteQueenside => RankSide::WhiteSide,
            Quadrant::BlackKingside | Quadrant::BlackQueenside => RankSide::BlackSide,
        }
    }

    /// The same color, the other side of the board.
    pub fn inv_file(self) -> (quadrant: Quadrant)
        ensures
            quadrant.color() == self.color(),
            quadrant.file_side() == self.file_side().inv(),
    {
        Quadrant::from_file_rank(self.file_side().inv(), self.rank_side())
    }

    /// The same side of the board, the other color.
    pub fn inv_rank(self) -> (quadrant: Quadrant)
        ensures
            quadrant.color() == self.color().inv(),
            quadrant.file_side() == self.file_side(),
    {
        Quadrant::from_file_rank(self.file_side(), self.rank_side().inv())
    }

    /// The opposite quadrant.
    pub fn inv_both(self) -> (quadrant: Quadrant)
        ensures
            quadrant.color() == self.color().inv(),
            quadrant.file_side() == self.file_side().inv(),
    {
        Quadrant::from_file_rank(self.file_side().inv(), self.rank_side().inv())
    }

    pub open spec fn spec_king_start(self) -> Square {
        match self.spec_color() {
            Color::White => Square::E1,
            Color::Black => Square::E8,
        }
    }

    /// Where the king stands before castling.
    #[verifier::when_used_as_spec(spec_king_start)]
    pub fn king_start(self) -> (square: Square)
        ensures
            square == self.spec_king_start(),
    {
        match self.color() {
            Color::White => Square::E1,
            Color::Black => Square::E8,
        }
    }

    pub open spec fn spec_king_cross(self) -> Square {
        match self {
            Quadrant::WhiteKingside => Square::F1,
            Quadrant::WhiteQueenside => Square::D1,
            Quadrant::BlackKingside => Square::F8,
            Quadrant::BlackQueenside => Square::D8,
        }
    }

    /// The square the king crosses when castling.
    #[verifier::when_used_as_spec(spec_king_cross)]
    pub fn king_cross(self) -> (square: Square)
        ensures
            square == self.spec_king_cross(),
    {
        match self {
            Quadrant::WhiteKingside => Square::F1,
            Quadrant::WhiteQueenside => Square::D1,
            Quadrant::BlackKingside => Square::F8,
            Quadrant::BlackQueenside => Square::D8,
        }
    }

    pub open spec fn spec_king_end(self) -> Square {
        match self {
            Quadrant::WhiteKingside => Square::G1,
            Quadrant::WhiteQueenside => Square::C1,
            Quadrant::BlackKingside => Square::G8,
            Quadrant::BlackQueenside => Square::C8,
        }
    }

    /// Where the king stands after castling.
    #[verifier::when_used_as_spec(spec_king_end)]
    pub fn king_end(self) -> (square: Square)
        ensures
            square == self.spec_king_end(),
    {
        match self {
            Quadrant::WhiteKingside => Square::G1,
            Quadrant::WhiteQueenside => Square::C1,
            Quadrant::BlackKingside => Square::G8,
            Quadrant::BlackQueenside => Square::C8,
        }
    }

    pub open spec fn spec_rook_start(self) -> Square {
        match self {
            Quadrant::WhiteKingside => Square::H1,
            Quadrant::WhiteQueenside => Square::A1,
            Quadrant::BlackKingside => Square::H8,
            Quadrant::BlackQueenside => Square::A8,
        }
    }

    /// Where the rook stands before castling.
    #[verifier::when_used_as_spec(spec_rook_start)]
    pub fn rook_start(self) -> (square: Square)
        ensures
            square == self.spec_rook_start(),
    {
        match self {
            Quadrant::WhiteKingside => Square::H1,
            Quadrant::WhiteQueenside => Square::A1,
            Quadrant::BlackKingside => Square::H8,
            Quadrant::BlackQueenside => Square::A8,
        }
    }

    pub open spec fn spec_rook_end(self) -> Square {
        self.spec_king_cross()
    }

    /// Where the rook stands after castling: on the square the king crossed.
    #[verifier::when_used_as_spec(spec_rook_end)]
    pub fn rook_end(self) -> (square: Square)
        ensures
            square == self.spec_rook_end(),
    {
        self.king_cross()
    }

    pub open spec fn spec_king(self) -> Piece {
        GenericPiece::King.spec_as_color(self.spec_color())
    }

    /// The king that castles in this quadrant.
    #[verifier::when_used_as_spec(spec_king)]
    pub fn king(self) -> (piece: Piece)
        ensures
            piece == self.spec_king(),
    {
        GenericPiece::King.as_color(self.color())
    }

    pub open spec fn spec_rook(self) -> Piece {
        GenericPiece::Rook.spec_as_color(self.spec_color())
    }

    /// The rook that castles in this quadrant.
    #[verifier::when_used_as_spec(spec_rook)]
    pub fn rook(self) -> (piece: Piece)
        ensures
            piece == self.spec_rook(),
    {
        GenericPiece::Rook.as_color(self.color())
    }

    /// Square `t` lies strictly between the king's and the rook's start.
    pub open spec fn to_clear(self, t: int) -> bool {
        t / 8 == self.spec_king_start().spec_index() / 8 && match self.spec_file_side() {
            FileSide::Kingside => 5 <= t % 8 <= 6,
            FileSide::Queenside => 1 <= t % 8 <= 3,
        }
    }

    /// The squares between king and rook, which must be empty to castle.
    pub fn to_clear_mask(self) -> (mask: u64)
        ensures
            forall|t: int| 0 <= t < 64 ==> #[trigger] bit(mask, t) == self.to_clear(t),
    {
        proof {
            lemma_bit_ops();
        }
        let between = match self.file_side() {
            FileSide::Kingside => bitmask::file_mask(5) | bitmask::file_mask(6),
            FileSide::Queenside => bitmask::file_mask(1) | bitmask::file_mask(2)
                | bitmask::file_mask(3),
        };
        between & bitmask::rank_mask(self.king_start().row())
    }

    /// Square `t` is one the king stands on while castling: its start, the
    /// square it crosses, or its end.
    pub open spec fn no_attack(self, t: int) -> bool {
        t == self.spec_king_start().spec_index() || t == self.spec_king_cross().spec_index() || t
            == self.spec_king_end().spec_index()
    }

    /// The king's path, start and end included, which must not be attacked to castle.
    pub fn no_attack_mask(self) -> (mask: u64)
        ensures
            forall|t: int| 0 <= t < 64 ==> #[trigger] bit(mask, t) == self.no_attack(t),
    {
        proof {
            lemma_bit_ops();
        }
        self.king_start().mask() | self.king_cross().mask() | self.king_end().mask()
    }
}

/// The side of the board on which a castling takes place.
#[derive(Debug, Clone, Copy, PartialEq, Eq, Structural)]
pub enum FileSide {
    Kingside,
    Queenside,
}

impl FileSide {
    pub open spec fn spec_index(self) -> usize {
        match self {
            FileSide::Kingside => 0,
            FileSide::Queenside => 1,
        }
    }

    #[verifier::when_used_as_spec(spec_index)]
    pub fn index(self) -> (i: usize)
        ensures
            i == self.spec_index(),
    {
        match self {
            FileSide::Kingside => 0,
            FileSide::Queenside => 1,
        }
    }

    pub open spec fn spec_to_quadrant(self, color: Color) -> Quadrant {
        match (color, self) {
            (Color::White, FileSide::Kingside) => Quadrant::WhiteKingside,
            (Color::White, FileSide::Queenside) => Quadrant::WhiteQueenside,
            (Color::Black, FileSide::Kingside) => Quadrant::BlackKingside,
            (Color::Black, FileSide::Queenside) => Quadrant::BlackQueenside,
        }
    }

    /// The quadrant of `color` on this side.
    #[verifier::when_used_as_spec(spec_to_quadrant)]
    pub fn to_quadrant(self, color: Color) -> (quadrant: Quadrant)
        ensures
            quadrant == self.spec_to_quadrant(color),
            quadrant.index() == 2 * color.index() + self.index(),
            quadrant.color() == color,
            quadrant.file_side() == self,
    {
        Quadrant::from_index(2 * color.index() + self.index())
    }

    pub open spec fn spec_inv(self) -> FileSide {
        match self {
            FileSide::Kingside => FileSide::Queenside,
            FileSide::Queenside => FileSide::Kingside,
        }
    }

    #[verifier::when_used_as_spec(spec_inv)]
    pub fn inv(self) -> (other: FileSide)
        ensures
            other == self.spec_inv(),
    {
        match self {
            FileSide::Kingside => FileSide::Queenside,
            FileSide::Queenside => FileSide::Kingside,
        }
    }
}

/// The half of the board on which a color starts.
#[derive(Debug, Clone, Copy, PartialEq, Eq, Structural)]
pub enum RankSide {
    WhiteSide,
    BlackSide,
}

impl RankSide {
    pub open spec fn spec_index(self) -> usize {
        match self {
            RankSide::WhiteSide => 0,
            RankSide::BlackSide => 1,
        }
    }

    #[verifier::when_used_as_spec(spec_index)]
    pub fn index(self) -> (i: usize)
        ensures
            i == self.spec_index(),
    {
        match self {
            RankSide::WhiteSide => 0,
            RankSide::BlackSide => 1,
        }
    }

    pub fn from_color(color: Color) -> (side: RankSide)
        ensures
            side.color() == color,
    {
        match color {
            Color::White => RankSide::WhiteSide,
            Color::Black => RankSide::BlackSide,
        }
    }

    pub open spec fn spec_color(self) -> Color {
        match self {
            RankSide::WhiteSide => Color::White,
            RankSide::BlackSide => Color::Black,
        }
    }

    #[verifier::when_used_as_spec(spec_color)]
    pub fn color(self) -> (color: Color)
        ensures
            color == self.spec_color(),
    {
        match self {
            RankSide::WhiteSide => Color::White,
            RankSide::BlackSide => Color::Black,
        }
    }

    pub open spec fn spec_inv(self) -> RankSide {
        match self {
            RankSide::WhiteSide => RankSide::BlackSide,
            RankSide::BlackSide => RankSide::WhiteSide,
        }
    }

    #[verifier::when_used_as_spec(spec_inv)]
    pub fn inv(self) -> (other: RankSide)
        ensures
            other == self.spec_inv(),
    {
        match self {
            RankSide::WhiteSide => RankSide::BlackSide,
            RankSide::BlackSide => RankSide::WhiteSide,
        }
    }
}

} // verus!
