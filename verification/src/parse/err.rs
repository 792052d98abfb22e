use vstd::prelude::*;
use crate::board::color::Color;
use crate::board::piece::Piece;
use crate::board::zone::Quadrant;

verus! {

/// A character that names no file or no rank, or a square cut short.
#[derive(Debug, Clone, Copy, PartialEq, Eq)]
pub enum CoordinateError {
    InvalidRank(char),
    InvalidFile(char),
    IncompleteSquare,
}

/// The six fields of a position in Forsyth-Edwards notation.
#[derive(Debug, Clone, Copy, PartialEq, Eq)]
pub enum FenSection {
    Board,
    SideToMove,
    Castling,
    EnPassant,
    HalfmoveCounter,
    FullmoveCounter,
}

/// Why a text is no position in Forsyth-Edwards notation. Rows are counted
/// from 0 for rank 1; a place in the text is counted from 1.
#[derive(Debug, Clone, Copy, PartialEq, Eq)]
pub enum FenError {
    TooManyRows,
    TooManyColumns(i32),
    IncompleteRow(i32),
    CoordinateError(CoordinateError),
    InvalidPiece(char),
    InvalidColor(char),
    InvalidCastlingChar(char),
    InvalidCastling,
    InvalidEnPassant,
    InvalidEnPassantRank,
    InvalidHalfmove,
    InvalidFullMove,
    IllegalPosition(IllegalPosition),
    MissingSection(FenSection),
    TooManySections,
    ExpectedSpace(i32),
    CastlingOutOfOrder,
}

/// Why a move may not be made.
#[derive(Debug, Clone, Copy, PartialEq, Eq)]
pub enum IllegalMove {
    InCheck,
    InvalidMove,
    OpponentPieceMove,
    EmptySquareMove,
    AlliedCapture,
    CastleOutOfCheck,
    CastleThroughCheck,
    InvalidPromotion,
}

/// Why a text is no move in pure algebraic coordinate notation.
#[derive(Debug, Clone, Copy, PartialEq, Eq)]
pub enum PacnError {
    MalformedPacn,
    CoordinateError(CoordinateError),
    IllegalMove(IllegalMove),
}

/// An inconsistency within a position that no input can cause: bitboards
/// that disagree (with the squares in question), a hash that is not the
/// hash of the position (expected, then actual), an en-passant file
/// without an en-passant target.
#[derive(Debug, Clone, Copy, PartialEq, Eq)]
pub enum CorruptedBitboard {
    OccupancyMismatch(u64),
    ZobristMismatch(u64, u64),
    InvalidEnPassantCode(u32),
}

/// Why a position cannot arise in a game.
#[derive(Debug, Clone, Copy, PartialEq, Eq)]
pub enum IllegalPosition {
    OpponentInCheck,
    TooManyPieces(Piece, u32),
    MissingKing(Color),
    SameColorBishops(Piece, Color),
    InvalidEPTarget,
    InvalidPawnRank,
    InvalidCastling(Quadrant),
    EnPassantSquareOccupied,
    NoEnPassantAttacker,
    NoEnPassantDefender,
    CorruptedBitboard(CorruptedBitboard),
}

} // verus!
