use vstd::prelude::*;
use crate::board::color::Color;
use crate::board::line::{File, Rank};
use crate::board::piece::{Piece, Promotion};
use crate::board::square::Square;
use crate::board::zone::Quadrant;
use super::err::{CoordinateError, FenError, PacnError};

verus! {

impl Color {
    pub open spec fn spec_chr(self) -> char {
        match self {
            Color::White => 'w',
            Color::Black => 'b',
        }
    }

    /// The letter of the color as side to move: `w` or `b`.
    #[verifier::when_used_as_spec(spec_chr)]
    pub fn chr(self) -> (chr: char)
        ensures
            chr == self.spec_chr(),
    {
        match self {
            Color::White => 'w',
            Color::Black => 'b',
        }
    }

    pub open spec fn spec_from_chr(chr: char) -> Result<Color, FenError> {
        if chr == 'w' {
            Ok(Color::White)
        } else if chr == 'b' {
            Ok(Color::Black)
        } else {
            Err(FenError::InvalidColor(chr))
        }
    }

    #[verifier::when_used_as_spec(spec_from_chr)]
    pub fn from_chr(chr: char) -> (color: Result<Color, FenError>)
        ensures
            color == Color::spec_from_chr(chr),
    {
        if chr == 'w' {
            Ok(Color::White)
        } else if chr == 'b' {
            Ok(Color::Black)
        } else {
            Err(FenError::InvalidColor(chr))
        }
    }
}

/// The index of a letter from `a` to `h`.
pub open spec fn file_letter_index(chr: char) -> Option<usize> {
    if chr == 'a' {
        Some(0)
    } else if chr == 'b' {
        Some(1)
    } else if chr == 'c' {
        Some(2)
    } else if chr == 'd' {
        Some(3)
    } else if chr == 'e' {
        Some(4)
    } else if chr == 'f' {
        Some(5)
    } else if chr == 'g' {
        Some(6)
    } else if chr == 'h' {
        Some(7)
    } else {
        None
    }
}

/// The value of a digit from `1` to `8`, less one.
pub open spec fn rank_digit_index(chr: char) -> Option<usize> {
    if chr == '1' {
        Some(0)
    } else if chr == '2' {
        Some(1)
    } else if chr == '3' {
        Some(2)
    } else if chr == '4' {
        Some(3)
    } else if chr == '5' {
        Some(4)
    } else if chr == '6' {
        Some(5)
    } else if chr == '7' {
        Some(6)
    } else if chr == '8' {
        Some(7)
    } else {
        None
    }
}

impl File {
    pub open spec fn spec_chr(self) -> char {
        match self {
            File::AFile => 'a',
            File::BFile => 'b',
            File::CFile => 'c',
            File::DFile => 'd',
            File::EFile => 'e',
            File::FFile => 'f',
            File::GFile => 'g',
            File::HFile => 'h',
        }
    }

    /// The letter of the file, `a` to `h`.
    #[verifier::when_used_as_spec(spec_chr)]
    pub fn chr(self) -> (chr: char)
        ensures
            chr == self.spec_chr(),
            file_letter_index(chr) == Some(self.spec_index()),
    {
        match self {
            File::AFile => 'a',
            File::BFile => 'b',
            File::CFile => 'c',
            File::DFile => 'd',
            File::EFile => 'e',
            File::FFile => 'f',
            File::GFile => 'g',
            File::HFile => 'h',
        }
    }

    pub open spec fn spec_from_chr(chr: char) -> Result<File, CoordinateError> {
        match file_letter_index(chr) {
            Some(i) => Ok(File::spec_from_index(i)),
            None => Err(CoordinateError::InvalidFile(chr)),
        }
    }

    #[verifier::when_used_as_spec(spec_from_chr)]
    pub fn from_chr(chr: char) -> (file: Result<File, CoordinateError>)
        ensures
            file == File::spec_from_chr(chr),
    {
        if chr == 'a' {
            Ok(File::AFile)
        } else if chr == 'b' {
            Ok(File::BFile)
        } else if chr == 'c' {
            Ok(File::CFile)
        } else if chr == 'd' {
            Ok(File::DFile)
        } else if chr == 'e' {
            Ok(File::EFile)
        } else if chr == 'f' {
            Ok(File::FFile)
        } else if chr == 'g' {
            Ok(File::GFile)
        } else if chr == 'h' {
            Ok(File::HFile)
        } else {
            Err(CoordinateError::InvalidFile(chr))
        }
    }
}

impl Rank {
    pub open spec fn spec_chr(self) -> char {
        match self {
            Rank::Rank1 => '1',
            Rank::Rank2 => '2',
            Rank::Rank3 => '3',
            Rank::Rank4 => '4',
            Rank::Rank5 => '5',
            Rank::Rank6 => '6',
            Rank::Rank7 => '7',
            Rank::Rank8 => '8',
        }
    }

    /// The digit of the rank, `1` to `8`.
    #[verifier::when_used_as_spec(spec_chr)]
    pub fn chr(self) -> (chr: char)
        ensures
            chr == self.spec_chr(),
            rank_digit_index(chr) == Some(self.spec_index()),
    {
        match self {
            Rank::Rank1 => '1',
            Rank::Rank2 => '2',
            Rank::Rank3 => '3',
            Rank::Rank4 => '4',
            Rank::Rank5 => '5',
            Rank::Rank6 => '6',
            Rank::Rank7 => '7',
            Rank::Rank8 => '8',
        }
    }

    pub open spec fn spec_from_chr(chr: char) -> Result<Rank, CoordinateError> {
        match rank_digit_index(chr) {
            Some(i) => Ok(Rank::spec_from_index(i)),
            None => Err(CoordinateError::InvalidRank(chr)),
        }
    }

    #[verifier::when_used_as_spec(spec_from_chr)]
    pub fn from_chr(chr: char) -> (rank: Result<Rank, CoordinateError>)
        ensures
            rank == Rank::spec_from_chr(chr),
    {
        if chr == '1' {
            Ok(Rank::Rank1)
        } else if chr == '2' {
            Ok(Rank::Rank2)
        } else if chr == '3' {
            Ok(Rank::Rank3)
        } else if chr == '4' {
            Ok(Rank::Rank4)
        } else if chr == '5' {
            Ok(Rank::Rank5)
        } else if chr == '6' {
            Ok(Rank::Rank6)
        } else if chr == '7' {
            Ok(Rank::Rank7)
        } else if chr == '8' {
            Ok(Rank::Rank8)
        } else {
            Err(CoordinateError::InvalidRank(chr))
        }
    }
}

impl Square {
    /// The two characters of the square: file letter, then rank digit.
    pub fn chrs(self) -> (chrs: [char; 2])
        ensures
            file_letter_index(chrs[0]) == Some(self.spec_col()),
            rank_digit_index(chrs[1]) == Some(self.spec_row()),
    {
        [self.file().chr(), self.rank().chr()]
    }

    pub open spec fn spec_from_chrs(file: char, rank: char) -> Result<Square, CoordinateError> {
        match (Rank::spec_from_chr(rank), File::spec_from_chr(file)) {
            (Ok(r), Ok(f)) => Ok(Square::spec_from_index((8 * r.spec_index() + f.spec_index()) as usize)),
            (Err(e), _) => Err(e),
            (_, Err(e)) => Err(e),
        }
    }

    /// The square named by a file letter and a rank digit. Where both are
    /// wrong, the error names the rank.
    #[verifier::when_used_as_spec(spec_from_chrs)]
    pub fn from_chrs(file: char, rank: char) -> (square: Result<Square, CoordinateError>)
        ensures
            square == Square::spec_from_chrs(file, rank),
    {
        match (Rank::from_chr(rank), File::from_chr(file)) {
            (Ok(r), Ok(f)) => Ok(Square::from_file_rank(f, r)),
            (Err(e), _) => Err(e),
            (_, Err(e)) => Err(e),
        }
    }
}

impl Piece {
    pub open spec fn spec_chr(self) -> char {
        match self {
            Piece::WhiteRook => 'R',
            Piece::WhiteKnight => 'N',
            Piece::WhiteBishop => 'B',
            Piece::WhiteQueen => 'Q',
            Piece::WhiteKing => 'K',
            Piece::WhitePawn => 'P',
            Piece::BlackRook => 'r',
            Piece::BlackKnight => 'n',
            Piece::BlackBishop => 'b',
            Piece::BlackQueen => 'q',
            Piece::BlackKing => 'k',
            Piece::BlackPawn => 'p',
        }
    }

    /// The letter of the piece: upper case for white, lower case for black.
    #[verifier::when_used_as_spec(spec_chr)]
    pub fn chr(self) -> (chr: char)
        ensures
            chr == self.spec_chr(),
            Piece::spec_from_char(chr) == Ok::<Piece, FenError>(self),
    {
        match self {
            Piece::WhiteRook => 'R',
            Piece::WhiteKnight => 'N',
            Piece::WhiteBishop => 'B',
            Piece::WhiteQueen => 'Q',
            Piece::WhiteKing => 'K',
            Piece::WhitePawn => 'P',
            Piece::BlackRook => 'r',
            Piece::BlackKnight => 'n',
            Piece::BlackBishop => 'b',
            Piece::BlackQueen => 'q',
            Piece::BlackKing => 'k',
            Piece::BlackPawn => 'p',
        }
    }

    pub open spec fn spec_from_char(chr: char) -> Result<Piece, FenError> {
        if chr == 'R' {
            Ok(Piece::WhiteRook)
        } else if chr == 'N' {
            Ok(Piece::WhiteKnight)
        } else if chr == 'B' {
            Ok(Piece::WhiteBishop)
        } else if chr == 'Q' {
            Ok(Piece::WhiteQueen)
        } else if chr == 'K' {
            Ok(Piece::WhiteKing)
        } else if chr == 'P' {
            Ok(Piece::WhitePawn)
        } else if chr == 'r' {
            Ok(Piece::BlackRook)
        } else if chr == 'n' {
            Ok(Piece::BlackKnight)
        } else if chr == 'b' {
            Ok(Piece::BlackBishop)
        } else if chr == 'q' {
            Ok(Piece::BlackQueen)
        } else if chr == 'k' {
            Ok(Piece::BlackKing)
        } else if chr == 'p' {
            Ok(Piece::BlackPawn)
        } else {
            Err(FenError::InvalidPiece(chr))
        }
    }

    #[verifier::when_used_as_spec(spec_from_char)]
    pub fn from_char(chr: char) -> (piece: Result<Piece, FenError>)
        ensures
            piece == Piece::spec_from_char(chr),
    {
        if chr == 'R' {
            Ok(Piece::WhiteRook)
        } else if chr == 'N' {
            Ok(Piece::WhiteKnight)
        } else if chr == 'B' {
            Ok(Piece::WhiteBishop)
        } else if chr == 'Q' {
            Ok(Piece::WhiteQueen)
        } else if chr == 'K' {
            Ok(Piece::WhiteKing)
        } else if chr == 'P' {
            Ok(Piece::WhitePawn)
        } else if chr == 'r' {
            Ok(Piece::BlackRook)
        } else if chr == 'n' {
            Ok(Piece::BlackKnight)
        } else if chr == 'b' {
            Ok(Piece::BlackBishop)
        } else if chr == 'q' {
            Ok(Piece::BlackQueen)
        } else if chr == 'k' {
            Ok(Piece::BlackKing)
        } else if chr == 'p' {
            Ok(Piece::BlackPawn)
        } else {
            Err(FenError::InvalidPiece(chr))
        }
    }
}

impl Promotion {
    pub open spec fn spec_chr(self) -> char {
        match self {
            Promotion::Rook => 'r',
            Promotion::Knight => 'n',
            Promotion::Bishop => 'b',
            Promotion::Queen => 'q',
        }
    }

    /// The lower-case letter of the promotion.
    #[verifier::when_used_as_spec(spec_chr)]
    pub fn chr(self) -> (chr: char)
        ensures
            chr == self.spec_chr(),
    {
        match self {
            Promotion::Rook => 'r',
            Promotion::Knight => 'n',
            Promotion::Bishop => 'b',
            Promotion::Queen => 'q',
        }
    }

    pub open spec fn spec_from_chr(chr: char) -> Result<Promotion, PacnError> {
        if chr == 'r' {
            Ok(Promotion::Rook)
        } else if chr == 'n' {
            Ok(Promotion::Knight)
        } else if chr == 'b' {
            Ok(Promotion::Bishop)
        } else if chr == 'q' {
            Ok(Promotion::Queen)
        } else {
            Err(PacnError::MalformedPacn)
        }
    }

    #[verifier::when_used_as_spec(spec_from_chr)]
    pub fn from_chr(chr: char) -> (promotion: Result<Promotion, PacnError>)
        ensures
            promotion == Promotion::spec_from_chr(chr),
    {
        if chr == 'r' {
            Ok(Promotion::Rook)
        } else if chr == 'n' {
            Ok(Promotion::Knight)
        } else if chr == 'b' {
            Ok(Promotion::Bishop)
        } else if chr == 'q' {
            Ok(Promotion::Queen)
        } else {
            Err(PacnError::MalformedPacn)
        }
    }
}

impl Quadrant {
    pub open spec fn spec_chr(self) -> char {
        match self {
            Quadrant::WhiteKingside => 'K',
            Quadrant::WhiteQueenside => 'Q',
            Quadrant::BlackKingside => 'k',
            Quadrant::BlackQueenside => 'q',
        }
    }

    /// The letter of the castling right.
    #[verifier::when_used_as_spec(spec_chr)]
    pub fn chr(self) -> (chr: char)
        ensures
            chr == self.spec_chr(),
    {
        match self {
            Quadrant::WhiteKingside => 'K',
            Quadrant::WhiteQueenside => 'Q',
            Quadrant::BlackKingside => 'k',
            Quadrant::BlackQueenside => 'q',
        }
    }

    pub open spec fn spec_from_char(chr: char) -> Result<Quadrant, FenError> {
        if chr == 'K' {
            Ok(Quadrant::WhiteKingside)
        } else if chr == 'Q' {
            Ok(Quadrant::WhiteQueenside)
        } else if chr == 'k' {
            Ok(Quadrant::BlackKingside)
        } else if chr == 'q' {
            Ok(Quadrant::BlackQueenside)
        } else {
            Err(FenError::InvalidCastlingChar(chr))
        }
    }

    #[verifier::when_used_as_spec(spec_from_char)]
    pub fn from_char(chr: char) -> (quadrant: Result<Quadrant, FenError>)
        ensures
            quadrant == Quadrant::spec_from_char(chr),
    {
        if chr == 'K' {
            Ok(Quadrant::WhiteKingside)
        } else if chr == 'Q' {
            Ok(Quadrant::WhiteQueenside)
        } else if chr == 'k' {
            Ok(Quadrant::BlackKingside)
        } else if chr == 'q' {
            Ok(Quadrant::BlackQueenside)
        } else {
            Err(FenError::InvalidCastlingChar(chr))
        }
    }
}

} // verus!
