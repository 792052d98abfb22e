//! The validator: whether a position is consistent and can arise in a
//! game, checked on the position alone, whatever built it.

use vstd::prelude::*;
use crate::bits::{
    bit,
    count_bits,
    lemma_bit_ops,
    lemma_bits_equal,
    lemma_count_bounds,
    lemma_zero_iff_no_bits,
    popcount,
};
use crate::board::color::Color;
use crate::board::piece::{GenericPiece, Piece};
use crate::board::square::Square;
use crate::board::zone::Quadrant;
use crate::game::position::{ep_file_of, lemma_field_ranges, GameState};
use crate::hashing::bitmask;
use crate::hashing::bitmask::{pawn_attack, DARK_SQUARES, LIGHT_SQUARES};
use super::err::{CorruptedBitboard, IllegalPosition};

verus! {

/// The error for bitboards that disagree on the squares of `mask`.
pub open spec fn mismatch(mask: u64) -> IllegalPosition {
    IllegalPosition::CorruptedBitboard(CorruptedBitboard::OccupancyMismatch(mask))
}

/// `Ok` for an empty mask, else the error that names its squares.
pub fn occ_mismatch(mask: u64) -> (checked: Result<(), IllegalPosition>)
    ensures
        checked == if mask == 0 {
            Ok::<(), IllegalPosition>(())
        } else {
            Err(mismatch(mask))
        },
{
    if mask == 0 {
        Ok(())
    } else {
        Err(IllegalPosition::CorruptedBitboard(CorruptedBitboard::OccupancyMismatch(mask)))
    }
}

/// The union of the piece bitboards with index from `low` up to `high`.
pub open spec fn piece_union(bitboard: [u64; 15], low: int, high: int) -> u64
    decreases high - low,
{
    if high <= low {
        0
    } else {
        piece_union(bitboard, low, high - 1) | bitboard[high - 1]
    }
}

/// The index of the first piece of the color of the piece with index `p`.
pub open spec fn first_of_color(p: int) -> int {
    if p < 6 {
        0
    } else {
        6
    }
}

/// The squares that the bitboard of the first piece from index `p` on
/// shares with an earlier bitboard of its color, if there is such a piece.
pub open spec fn overlap_fault(bitboard: [u64; 15], p: int) -> Option<u64>
    decreases 12 - p,
{
    if p >= 12 || p < 0 {
        None
    } else {
        let shared = piece_union(bitboard, first_of_color(p), p) & bitboard[p];
        if shared != 0 {
            Some(shared)
        } else {
            overlap_fault(bitboard, p + 1)
        }
    }
}

/// The first piece from index `p` on whose bitboard holds square `s`.
pub open spec fn first_piece_on(bitboard: [u64; 15], s: int, p: int) -> Option<Piece>
    decreases 12 - p,
{
    if p >= 12 || p < 0 {
        None
    } else if bit(bitboard[p], s) {
        Some(Piece::spec_from_index(p as usize))
    } else {
        first_piece_on(bitboard, s, p + 1)
    }
}

/// The number of pieces of a kind with which a side starts: two rooks,
/// knights and bishops, one queen.
pub open spec fn starting_count(kind: int) -> int {
    if kind == 3 {
        1
    } else {
        2
    }
}

impl GameState {
    /// The first disagreement among the bitboards: piece bitboards of one
    /// color that share squares, occupancies of the two colors that share
    /// squares, an occupancy that is not the union of its piece bitboards,
    /// a full occupancy that is not the union of the two occupancies.
    pub open spec fn bitboards_fault(&self) -> Option<IllegalPosition> {
        let white = piece_union(self.bitboard, 0, 6);
        let black = piece_union(self.bitboard, 6, 12);
        if overlap_fault(self.bitboard, 0) is Some {
            Some(mismatch(overlap_fault(self.bitboard, 0)->0))
        } else if white & black != 0 {
            Some(mismatch(white & black))
        } else if white ^ self.bitboard[12] != 0 {
            Some(mismatch(white ^ self.bitboard[12]))
        } else if black ^ self.bitboard[13] != 0 {
            Some(mismatch(black ^ self.bitboard[13]))
        } else if (self.bitboard[12] | self.bitboard[13]) ^ self.bitboard[14] != 0 {
            Some(mismatch((self.bitboard[12] | self.bitboard[13]) ^ self.bitboard[14]))
        } else {
            None
        }
    }

    /// The first square from `s` on whose piece is not the piece that the
    /// bitboards give it.
    pub open spec fn squares_fault(&self, s: int) -> Option<IllegalPosition>
        decreases 64 - s,
    {
        if s >= 64 || s < 0 {
            None
        } else if self.piece_on_square[s] != first_piece_on(self.bitboard, s, 0) {
            Some(mismatch(bitmask::spec_square_mask(s as usize)))
        } else {
            self.squares_fault(s + 1)
        }
    }

    /// What is wrong with the en-passant target: a file without a target;
    /// a target square that is not empty; no pawn of the other side right
    /// behind the target; no pawn of the side to move that attacks it.
    pub open spec fn ep_fault(&self) -> Option<IllegalPosition> {
        let target = self.spec_ep_square_num();
        let turn = self.spec_turn();
        let behind = target - 8 * turn.forward();
        if !self.spec_ep_legal() {
            if ep_file_of(self.fen_info) != 0 {
                Some(
                    IllegalPosition::CorruptedBitboard(
                        CorruptedBitboard::InvalidEnPassantCode(ep_file_of(self.fen_info)),
                    ),
                )
            } else {
                None
            }
        } else if bit(self.bitboard[14], target) {
            Some(IllegalPosition::EnPassantSquareOccupied)
        } else if !bit(
            self.bitboard[GenericPiece::Pawn.spec_as_color(turn.spec_inv()).spec_index() as int],
            behind,
        ) {
            Some(IllegalPosition::NoEnPassantDefender)
        } else if forall|a: int|
            0 <= a < 64 && pawn_attack(turn, a, target) ==> !#[trigger] bit(
                self.bitboard[GenericPiece::Pawn.spec_as_color(turn).spec_index() as int],
                a,
            ) {
            Some(IllegalPosition::NoEnPassantAttacker)
        } else {
            None
        }
    }

    /// The first kind from `kind` on (rook, knight, bishop, queen) of which
    /// `color` has more pieces than it started with and `left` promotions
    /// can have added. Each piece beyond the starting count uses up a
    /// promotion.
    pub open spec fn officers_fault(&self, color: Color, kind: int, left: int) -> Option<IllegalPosition>
        decreases 4 - kind,
    {
        if kind >= 4 || kind < 0 {
            None
        } else {
            let piece = Piece::spec_from_index((6 * color.spec_index() + kind) as usize);
            let count = popcount(self.bitboard[piece.spec_index() as int]);
            if count > left + starting_count(kind) {
                Some(IllegalPosition::TooManyPieces(piece, count as u32))
            } else if count > starting_count(kind) {
                self.officers_fault(color, kind + 1, left - (count - starting_count(kind)))
            } else {
                self.officers_fault(color, kind + 1, left)
            }
        }
    }

    /// With all eight pawns on the board, two bishops of `color` on
    /// squares of one color: no promotion can have made the second.
    pub open spec fn bishops_fault(&self, color: Color) -> Option<IllegalPosition> {
        let bishop = GenericPiece::Bishop.spec_as_color(color);
        let pawns = popcount(
            self.bitboard[GenericPiece::Pawn.spec_as_color(color).spec_index() as int],
        );
        let mask = self.bitboard[bishop.spec_index() as int];
        if pawns == 8 && popcount(mask) >= 2 {
            if popcount(mask & LIGHT_SQUARES) > 1 {
                Some(IllegalPosition::SameColorBishops(bishop, Color::White))
            } else if popcount(mask & DARK_SQUARES) > 1 {
                Some(IllegalPosition::SameColorBishops(bishop, Color::Black))
            } else {
                None
            }
        } else {
            None
        }
    }

    /// What is wrong with the number of pieces of `color`: more than one
    /// king or none; more than eight pawns; more rooks, knights, bishops or
    /// queens than the missing pawns can have promoted to; bishops that no
    /// promotion explains.
    pub open spec fn count_fault(&self, color: Color) -> Option<IllegalPosition> {
        let king = GenericPiece::King.spec_as_color(color);
        let pawn = GenericPiece::Pawn.spec_as_color(color);
        let kings = popcount(self.bitboard[king.spec_index() as int]);
        let pawns = popcount(self.bitboard[pawn.spec_index() as int]);
        if kings > 1 {
            Some(IllegalPosition::TooManyPieces(king, kings as u32))
        } else if kings == 0 {
            Some(IllegalPosition::MissingKing(color))
        } else if pawns > 8 {
            Some(IllegalPosition::TooManyPieces(pawn, pawns as u32))
        } else if self.officers_fault(color, 0, 8 - pawns) is Some {
            self.officers_fault(color, 0, 8 - pawns)
        } else {
            self.bishops_fault(color)
        }
    }

    /// The castling right of the quadrant is granted although its king or
    /// its rook does not stand on its start.
    pub open spec fn castling_fault_at(&self, q: Quadrant) -> bool {
        self.spec_can_castle(q) && !(self.piece_on_square[q.spec_king_start().spec_index() as int]
            == Some(q.spec_king()) && self.piece_on_square[q.spec_rook_start().spec_index() as int]
            == Some(q.spec_rook()))
    }

    /// The first quadrant with a castling right that its king and rook do
    /// not support.
    pub open spec fn castling_fault(&self) -> Option<IllegalPosition> {
        if self.castling_fault_at(Quadrant::WhiteKingside) {
            Some(IllegalPosition::InvalidCastling(Quadrant::WhiteKingside))
        } else if self.castling_fault_at(Quadrant::WhiteQueenside) {
            Some(IllegalPosition::InvalidCastling(Quadrant::WhiteQueenside))
        } else if self.castling_fault_at(Quadrant::BlackKingside) {
            Some(IllegalPosition::InvalidCastling(Quadrant::BlackKingside))
        } else if self.castling_fault_at(Quadrant::BlackQueenside) {
            Some(IllegalPosition::InvalidCastling(Quadrant::BlackQueenside))
        } else {
            None
        }
    }

    /// The stored hash is not the hash of the position: the error names
    /// the hash of the position, then the stored one.
    pub open spec fn zobrist_fault(&self) -> Option<IllegalPosition> {
        if self.zobrist_hash != self.spec_zobrist() {
            Some(
                IllegalPosition::CorruptedBitboard(
                    CorruptedBitboard::ZobristMismatch(self.spec_zobrist(), self.zobrist_hash),
                ),
            )
        } else {
            None
        }
    }

    /// The first thing that is wrong with the position, in the order:
    /// bitboards, piece on each square, en-passant target, piece counts of
    /// black and of white, castling rights, hash.
    pub open spec fn spec_fault(&self) -> Option<IllegalPosition> {
        if self.bitboards_fault() is Some {
            self.bitboards_fault()
        } else if self.squares_fault(0) is Some {
            self.squares_fault(0)
        } else if self.ep_fault() is Some {
            self.ep_fault()
        } else if self.count_fault(Color::Black) is Some {
            self.count_fault(Color::Black)
        } else if self.count_fault(Color::White) is Some {
            self.count_fault(Color::White)
        } else if self.castling_fault() is Some {
            self.castling_fault()
        } else {
            self.zobrist_fault()
        }
    }

    /// The number of pieces of a kind and color, if it is within a limit.
    pub fn count_piece_validate(&self, piece: Piece, limit: u32) -> (count: Result<u32, IllegalPosition>)
        ensures
            count == if popcount(self.bitboard[piece.index() as int]) > limit {
                Err::<u32, IllegalPosition>(
                    IllegalPosition::TooManyPieces(
                        piece,
                        popcount(self.bitboard[piece.index() as int]) as u32,
                    ),
                )
            } else {
                Ok(popcount(self.bitboard[piece.index() as int]) as u32)
            },
    {
        let n = self.count_piece(piece);
        if n > limit {
            return Err(IllegalPosition::TooManyPieces(piece, n));
        }
        Ok(n)
    }

    /// Checks the bitboards against each other.
    pub fn validate_bitboards(&self) -> (checked: Result<(), IllegalPosition>)
        ensures
            checked == match self.bitboards_fault() {
                Some(e) => Err::<(), IllegalPosition>(e),
                None => Ok(()),
            },
    {
        let mut white: u64 = 0;
        let mut black: u64 = 0;
        let mut p: usize = 0;
        while p < 12
            invariant
                p <= 12,
                white == piece_union(self.bitboard, 0, if p < 6 {
                    p as int
                } else {
                    6
                }),
                black == piece_union(self.bitboard, 6, if p < 6 {
                    6
                } else {
                    p as int
                }),
                overlap_fault(self.bitboard, p as int) == overlap_fault(self.bitboard, 0),
            decreases 12 - p,
        {
            let board = self.bitboard[p];
            if p < 6 {
                if white & board != 0 {
                    return Err(
                        IllegalPosition::CorruptedBitboard(
                            CorruptedBitboard::OccupancyMismatch(white & board),
                        ),
                    );
                }
                white = white | board;
            } else {
                if black & board != 0 {
                    return Err(
                        IllegalPosition::CorruptedBitboard(
                            CorruptedBitboard::OccupancyMismatch(black & board),
                        ),
                    );
                }
                black = black | board;
            }
            p += 1;
        }
        match occ_mismatch(white & black) {
            Err(e) => {
                return Err(e);
            },
            Ok(_) => {},
        }
        match occ_mismatch(white ^ self.occ(Color::White)) {
            Err(e) => {
                return Err(e);
            },
            Ok(_) => {},
        }
        match occ_mismatch(black ^ self.occ(Color::Black)) {
            Err(e) => {
                return Err(e);
            },
            Ok(_) => {},
        }
        occ_mismatch((self.occ(Color::White) | self.occ(Color::Black)) ^ self.full_occ())
    }

    /// Checks the piece on each square against the bitboards.
    pub fn validate_squares(&self) -> (checked: Result<(), IllegalPosition>)
        ensures
            checked == match self.squares_fault(0) {
                Some(e) => Err::<(), IllegalPosition>(e),
                None => Ok(()),
            },
    {
        let mut s: usize = 0;
        while s < 64
            invariant
                s <= 64,
                self.squares_fault(s as int) == self.squares_fault(0),
            decreases 64 - s,
        {
            let square = Square::from_index(s);
            let by_board = self.piece_at_bitboard(square);
            let by_square = self.piece_at(square);
            proof {
                lemma_first_piece(self.bitboard, s as int, 0, by_board);
            }
            let same = match (by_square, by_board) {
                (None, None) => true,
                (Some(a), Some(b)) => a == b,
                _ => false,
            };
            if !same {
                return Err(
                    IllegalPosition::CorruptedBitboard(
                        CorruptedBitboard::OccupancyMismatch(square.mask()),
                    ),
                );
            }
            s += 1;
        }
        Ok(())
    }

    /// Checks the en-passant target.
    pub fn validate_en_passant(&self) -> (checked: Result<(), IllegalPosition>)
        ensures
            checked == match self.ep_fault() {
                Some(e) => Err::<(), IllegalPosition>(e),
                None => Ok(()),
            },
    {
        proof {
            lemma_bit_ops();
            lemma_field_ranges(self.fen_info);
        }
        if !self.ep_legal() {
            if self.ep_code() != 0 {
                return Err(
                    IllegalPosition::CorruptedBitboard(
                        CorruptedBitboard::InvalidEnPassantCode(self.ep_code()),
                    ),
                );
            }
            return Ok(());
        }
        let target = self.ep_square();
        let turn = self.turn();
        let behind = match turn {
            Color::White => Square::from_index(target.index() - 8),
            Color::Black => Square::from_index(target.index() + 8),
        };
        let enemy_pawns = self.bitboard[GenericPiece::Pawn.as_color(turn.inv()).index()];
        let own_pawns = self.bitboard[GenericPiece::Pawn.as_color(turn).index()];
        let attackers = bitmask::pawn_attacks(turn.inv(), target.index()) & own_pawns;
        proof {
            let t = target.index() as int;
            let b = behind.index() as int;
            let on_target = target.mask() & self.bitboard[14];
            let on_behind = behind.mask() & enemy_pawns;
            target.lemma_mask();
            behind.lemma_mask();
            lemma_zero_iff_no_bits(on_target);
            lemma_zero_iff_no_bits(on_behind);
            lemma_zero_iff_no_bits(attackers);
            assert(bit(on_target, t) == bit(self.bitboard[14], t));
            assert(bit(on_behind, b) == bit(enemy_pawns, b));
            assert((on_target != 0) == bit(self.bitboard[14], t)) by {
                if on_target != 0 {
                    let i = choose|i: int| 0 <= i < 64 && #[trigger] bit(on_target, i);
                    assert(i == t);
                }
            }
            assert((on_behind == 0) == !bit(enemy_pawns, b)) by {
                if on_behind != 0 {
                    let i = choose|i: int| 0 <= i < 64 && #[trigger] bit(on_behind, i);
                    assert(i == b);
                }
            }
            assert((attackers == 0) == (forall|a: int|
                0 <= a < 64 && pawn_attack(turn, a, t) ==> !#[trigger] bit(own_pawns, a))) by {
                if attackers == 0 {
                    assert forall|a: int| 0 <= a < 64 && pawn_attack(turn, a, t) implies !#[trigger] bit(
                        own_pawns,
                        a,
                    ) by {
                        assert(!bit(attackers, a));
                        assert(pawn_attack(turn.spec_inv(), t, a));
                    }
                } else {
                    let a = choose|a: int| 0 <= a < 64 && #[trigger] bit(attackers, a);
                    assert(pawn_attack(turn.spec_inv(), t, a));
                    assert(pawn_attack(turn, a, t) && bit(own_pawns, a));
                }
            }
        }
        if target.mask() & self.full_occ() != 0 {
            Err(IllegalPosition::EnPassantSquareOccupied)
        } else if behind.mask() & enemy_pawns == 0 {
            Err(IllegalPosition::NoEnPassantDefender)
        } else if attackers == 0 {
            Err(IllegalPosition::NoEnPassantAttacker)
        } else {
            Ok(())
        }
    }

    /// Checks the number of pieces of a color.
    pub fn validate_counts(&self, color: Color) -> (checked: Result<(), IllegalPosition>)
        ensures
            checked == match self.count_fault(color) {
                Some(e) => Err::<(), IllegalPosition>(e),
                None => Ok(()),
            },
    {
        let king = GenericPiece::King.as_color(color);
        let pawn = GenericPiece::Pawn.as_color(color);
        proof {
            lemma_count_bounds(self.bitboard[king.spec_index() as int], 64);
            lemma_count_bounds(self.bitboard[pawn.spec_index() as int], 64);
        }
        let kings = match self.count_piece_validate(king, 1) {
            Err(e) => {
                return Err(e);
            },
            Ok(n) => n,
        };
        if kings == 0 {
            return Err(IllegalPosition::MissingKing(color));
        }
        let pawns = match self.count_piece_validate(pawn, 8) {
            Err(e) => {
                return Err(e);
            },
            Ok(n) => n,
        };
        let mut left: u32 = 8 - pawns;
        let mut kind: usize = 0;
        while kind < 4
            invariant
                kind <= 4,
                left <= 8,
                pawns <= 8,
                pawns == popcount(self.bitboard[pawn.spec_index() as int]),
                pawn == GenericPiece::Pawn.spec_as_color(color),
                king == GenericPiece::King.spec_as_color(color),
                popcount(self.bitboard[king.spec_index() as int]) == 1,
                self.officers_fault(color, kind as int, left as int) == self.officers_fault(
                    color,
                    0,
                    8 - pawns,
                ),
            decreases 4 - kind,
        {
            let piece = Piece::from_index(6 * color.index() + kind);
            proof {
                lemma_count_bounds(self.bitboard[piece.spec_index() as int], 64);
            }
            let start: u32 = if kind == 3 {
                1
            } else {
                2
            };
            let count = match self.count_piece_validate(piece, left + start) {
                Err(e) => {
                    return Err(e);
                },
                Ok(n) => n,
            };
            if count > start {
                left = left - (count - start);
            }
            kind += 1;
        }
        let bishop = GenericPiece::Bishop.as_color(color);
        let mask = self.bitboard[bishop.index()];
        proof {
            lemma_count_bounds(mask, 64);
            lemma_count_bounds(mask & LIGHT_SQUARES, 64);
            lemma_count_bounds(mask & DARK_SQUARES, 64);
        }
        if pawns == 8 && self.count_piece(bishop) >= 2 {
            if count_bits(mask & LIGHT_SQUARES) > 1 {
                return Err(IllegalPosition::SameColorBishops(bishop, Color::White));
            } else if count_bits(mask & DARK_SQUARES) > 1 {
                return Err(IllegalPosition::SameColorBishops(bishop, Color::Black));
            }
        }
        Ok(())
    }

    /// The castling right of the quadrant is granted although its king or
    /// its rook does not stand on its start.
    pub fn castling_unsupported(&self, q: Quadrant) -> (fault: bool)
        ensures
            fault == self.castling_fault_at(q),
    {
        if !self.can_castle(q) {
            return false;
        }
        let king_home = match self.piece_at(q.king_start()) {
            Some(p) => p == q.king(),
            None => false,
        };
        let rook_home = match self.piece_at(q.rook_start()) {
            Some(p) => p == q.rook(),
            None => false,
        };
        !(king_home && rook_home)
    }

    /// Checks the castling rights against the places of kings and rooks.
    pub fn validate_castling(&self) -> (checked: Result<(), IllegalPosition>)
        ensures
            checked == match self.castling_fault() {
                Some(e) => Err::<(), IllegalPosition>(e),
                None => Ok(()),
            },
    {
        if self.castling_unsupported(Quadrant::WhiteKingside) {
            Err(IllegalPosition::InvalidCastling(Quadrant::WhiteKingside))
        } else if self.castling_unsupported(Quadrant::WhiteQueenside) {
            Err(IllegalPosition::InvalidCastling(Quadrant::WhiteQueenside))
        } else if self.castling_unsupported(Quadrant::BlackKingside) {
            Err(IllegalPosition::InvalidCastling(Quadrant::BlackKingside))
        } else if self.castling_unsupported(Quadrant::BlackQueenside) {
            Err(IllegalPosition::InvalidCastling(Quadrant::BlackQueenside))
        } else {
            Ok(())
        }
    }

    /// Checks that the position is consistent and can arise in a game, and
    /// names the first thing that is wrong with it.
    pub fn validate(&self) -> (checked: Result<(), IllegalPosition>)
        ensures
            checked == match self.spec_fault() {
                Some(e) => Err::<(), IllegalPosition>(e),
                None => Ok(()),
            },
            checked is Ok ==> self.wf(),
    {
        proof {
            if self.spec_fault() is None {
                lemma_valid_is_consistent(*self);
            }
        }
        match self.validate_bitboards() {
            Err(e) => {
                return Err(e);
            },
            Ok(_) => {},
        }
        match self.validate_squares() {
            Err(e) => {
                return Err(e);
            },
            Ok(_) => {},
        }
        match self.validate_en_passant() {
            Err(e) => {
                return Err(e);
            },
            Ok(_) => {},
        }
        match self.validate_counts(Color::Black) {
            Err(e) => {
                return Err(e);
            },
            Ok(_) => {},
        }
        match self.validate_counts(Color::White) {
            Err(e) => {
                return Err(e);
            },
            Ok(_) => {},
        }
        match self.validate_castling() {
            Err(e) => {
                return Err(e);
            },
            Ok(_) => {},
        }
        let hash = self.compute_zobrist();
        if self.zobrist_hash != hash {
            return Err(
                IllegalPosition::CorruptedBitboard(
                    CorruptedBitboard::ZobristMismatch(hash, self.zobrist_hash),
                ),
            );
        }
        Ok(())
    }
}

/// The first piece whose bitboard holds a square, as the search from
/// index `p` on finds it.
pub proof fn lemma_first_piece(bitboard: [u64; 15], s: int, p: int, found: Option<Piece>)
    requires
        0 <= p <= 12,
        forall|j: int| 0 <= j < p ==> !bit(bitboard[j], s),
        match found {
            Some(piece) => p <= piece.spec_index() && bit(bitboard[piece.spec_index() as int], s)
                && forall|j: int| 0 <= j < piece.spec_index() ==> !bit(bitboard[j], s),
            None => forall|j: int| 0 <= j < 12 ==> !bit(bitboard[j], s),
        },
    ensures
        first_piece_on(bitboard, s, p) == found,
    decreases 12 - p,
{
    if p < 12 {
        if bit(bitboard[p], s) {
            assert(found is Some);
            assert(found->0.spec_index() == p);
        } else {
            lemma_first_piece(bitboard, s, p + 1, found);
        }
    }
}

/// A square is in a union of piece bitboards exactly when it is in one of them.
pub proof fn lemma_union_bits(bitboard: [u64; 15], low: int, high: int, s: int)
    requires
        0 <= low <= high <= 12,
    ensures
        bit(piece_union(bitboard, low, high), s) == (exists|j: int|
            low <= j < high && #[trigger] bit(bitboard[j], s)),
    decreases high - low,
{
    lemma_bit_ops();
    if high > low {
        lemma_union_bits(bitboard, low, high - 1, s);
        if bit(piece_union(bitboard, low, high), s) {
            if bit(bitboard[high - 1], s) {
            } else {
                let j = choose|j: int| low <= j < high - 1 && #[trigger] bit(bitboard[j], s);
                assert(low <= j < high && bit(bitboard[j], s));
            }
        }
        if exists|j: int| low <= j < high && #[trigger] bit(bitboard[j], s) {
            let j = choose|j: int| low <= j < high && #[trigger] bit(bitboard[j], s);
            if j < high - 1 {
                assert(low <= j < high - 1 && bit(bitboard[j], s));
            }
        }
    }
}

/// Where no piece bitboard shares squares with an earlier one of its
/// color, from index `p` on, each of them is disjoint from the union of
/// the earlier ones.
pub proof fn lemma_no_overlap(bitboard: [u64; 15], p: int, q: int)
    requires
        0 <= p <= q < 12,
        overlap_fault(bitboard, p) is None,
    ensures
        piece_union(bitboard, first_of_color(q), q) & bitboard[q] == 0,
    decreases q - p,
{
    if p < q {
        lemma_no_overlap(bitboard, p + 1, q);
    }
}

/// Where every square from `s` on holds the piece that the bitboards give
/// it, so does square `t`.
pub proof fn lemma_squares_agree(state: GameState, s: int, t: int)
    requires
        0 <= s <= t < 64,
        state.squares_fault(s) is None,
    ensures
        state.piece_on_square[t] == first_piece_on(state.bitboard, t, 0),
    decreases t - s,
{
    if s < t {
        lemma_squares_agree(state, s + 1, t);
    }
}

/// The search for the first piece on a square finds a piece whose
/// bitboard holds the square, and none before it does; it finds none only
/// where no bitboard from `p` on holds the square.
pub proof fn lemma_first_piece_found(bitboard: [u64; 15], s: int, p: int)
    requires
        0 <= p <= 12,
    ensures
        match first_piece_on(bitboard, s, p) {
            Some(piece) => p <= piece.spec_index() < 12 && bit(
                bitboard[piece.spec_index() as int],
                s,
            ) && forall|j: int| p <= j < piece.spec_index() ==> !bit(bitboard[j], s),
            None => forall|j: int| p <= j < 12 ==> !bit(bitboard[j], s),
        },
    decreases 12 - p,
{
    if p < 12 {
        if !bit(bitboard[p], s) {
            lemma_first_piece_found(bitboard, s, p + 1);
        }
    }
}

/// In a position that shows no disagreement among its bitboards, no two
/// piece bitboards share a square.
pub proof fn lemma_pieces_disjoint(state: GameState, a: int, b: int, s: int)
    requires
        state.bitboards_fault() is None,
        0 <= a < b < 12,
        0 <= s < 64,
    ensures
        !(bit(state.bitboard[a], s) && bit(state.bitboard[b], s)),
{
    lemma_bit_ops();
    let bb = state.bitboard;
    if bit(bb[a], s) && bit(bb[b], s) {
        if first_of_color(a) == first_of_color(b) {
            lemma_no_overlap(bb, 0, b);
            lemma_union_bits(bb, first_of_color(b), b, s);
            assert(bit(piece_union(bb, first_of_color(b), b) & bb[b], s));
        } else {
            lemma_union_bits(bb, 0, 6, s);
            lemma_union_bits(bb, 6, 12, s);
            assert(bit(piece_union(bb, 0, 6) & piece_union(bb, 6, 12), s));
        }
    }
}

/// A position in which the validator finds nothing wrong is consistent.
pub proof fn lemma_valid_is_consistent(state: GameState)
    requires
        state.spec_fault() is None,
    ensures
        state.wf(),
{
    lemma_bit_ops();
    let bb = state.bitboard;
    let white = piece_union(bb, 0, 6);
    let black = piece_union(bb, 6, 12);
    assert forall|s: int| 0 <= s < 64 implies bit(white, s) == bit(bb[12], s) by {
        assert(bit(white ^ bb[12], s) == bit(0, s));
    }
    lemma_bits_equal(white, bb[12]);
    assert forall|s: int| 0 <= s < 64 implies bit(black, s) == bit(bb[13], s) by {
        assert(bit(black ^ bb[13], s) == bit(0, s));
    }
    lemma_bits_equal(black, bb[13]);
    assert forall|s: int| 0 <= s < 64 implies bit(bb[12] | bb[13], s) == bit(bb[14], s) by {
        assert(bit((bb[12] | bb[13]) ^ bb[14], s) == bit(0, s));
    }
    lemma_bits_equal(bb[12] | bb[13], bb[14]);
    assert forall|p: int, s: int| 0 <= p < 12 && 0 <= s < 64 implies #[trigger] bit(bb[p], s) == (
    state.piece_on_square[s] == Some(Piece::spec_from_index(p as usize))) by {
        lemma_squares_agree(state, 0, s);
        lemma_first_piece_found(bb, s, 0);
        match first_piece_on(bb, s, 0) {
            Some(piece) => {
                let f = piece.spec_index() as int;
                if f < p {
                    lemma_pieces_disjoint(state, f, p, s);
                } else if p < f {
                }
            },
            None => {},
        }
    }
    assert forall|c: int, s: int| 0 <= c < 2 && 0 <= s < 64 implies #[trigger] bit(bb[12 + c], s)
        == (state.piece_on_square[s] is Some && state.piece_on_square[s]->0.spec_color().spec_index()
        == c) by {
        lemma_union_bits(bb, 0, 6, s);
        lemma_union_bits(bb, 6, 12, s);
        if state.piece_on_square[s] is Some {
            let piece = state.piece_on_square[s]->0;
            assert(bit(bb[piece.spec_index() as int], s));
        }
        if bit(bb[12 + c], s) {
            if c == 0 {
                let j = choose|j: int| 0 <= j < 6 && #[trigger] bit(bb[j], s);
                assert(state.piece_on_square[s] == Some(Piece::spec_from_index(j as usize)));
            } else {
                let j = choose|j: int| 6 <= j < 12 && #[trigger] bit(bb[j], s);
                assert(state.piece_on_square[s] == Some(Piece::spec_from_index(j as usize)));
            }
        }
    }
    assert forall|s: int| 0 <= s < 64 implies #[trigger] bit(bb[14], s) == (
    state.piece_on_square[s] is Some) by {
        assert(bit(bb[12 + 0int], s) == (state.piece_on_square[s] is Some
            && state.piece_on_square[s]->0.spec_color().spec_index() == 0));
        assert(bit(bb[12 + 1int], s) == (state.piece_on_square[s] is Some
            && state.piece_on_square[s]->0.spec_color().spec_index() == 1));
        assert(bit(bb[12] | bb[13], s) == (bit(bb[12], s) || bit(bb[13], s)));
    }
}

/// In a consistent position no piece bitboard shares squares with the
/// union of earlier ones of its color.
pub proof fn lemma_consistent_no_overlap(state: GameState, p: int)
    requires
        state.placement_wf(),
        0 <= p <= 12,
    ensures
        overlap_fault(state.bitboard, p) is None,
    decreases 12 - p,
{
    if p < 12 {
        lemma_bit_ops();
        let bb = state.bitboard;
        let shared = piece_union(bb, first_of_color(p), p) & bb[p];
        assert forall|s: int| 0 <= s < 64 implies !#[trigger] bit(shared, s) by {
            lemma_union_bits(bb, first_of_color(p), p, s);
            if bit(shared, s) {
                let j = choose|j: int| first_of_color(p) <= j < p && #[trigger] bit(bb[j], s);
                assert(bit(bb[p], s));
            }
        }
        lemma_zero_iff_no_bits(shared);
        lemma_consistent_no_overlap(state, p + 1);
    }
}

/// In a consistent position every square from `s` on holds the piece that
/// the bitboards give it.
pub proof fn lemma_consistent_squares(state: GameState, s: int)
    requires
        state.placement_wf(),
        0 <= s <= 64,
    ensures
        state.squares_fault(s) is None,
    decreases 64 - s,
{
    if s < 64 {
        let bb = state.bitboard;
        lemma_first_piece_found(bb, s, 0);
        match first_piece_on(bb, s, 0) {
            Some(piece) => {
                assert(bit(bb[piece.spec_index() as int], s));
            },
            None => {
                if state.piece_on_square[s] is Some {
                    let piece = state.piece_on_square[s]->0;
                    assert(bit(bb[piece.spec_index() as int], s));
                }
            },
        }
        lemma_consistent_squares(state, s + 1);
    }
}

/// The validator finds no disagreement among the bitboards, the squares
/// and the hash of a consistent position. With
/// [`lemma_valid_is_consistent`]: a position is consistent exactly when
/// these three checks pass.
pub proof fn lemma_consistent_passes(state: GameState)
    requires
        state.wf(),
    ensures
        state.bitboards_fault() is None,
        state.squares_fault(0) is None,
        state.zobrist_fault() is None,
{
    lemma_bit_ops();
    let bb = state.bitboard;
    let white = piece_union(bb, 0, 6);
    let black = piece_union(bb, 6, 12);
    lemma_consistent_no_overlap(state, 0);
    lemma_consistent_squares(state, 0);
    assert forall|s: int| 0 <= s < 64 implies bit(white, s) == bit(bb[12], s) && bit(black, s)
        == bit(bb[13], s) by {
        lemma_union_bits(bb, 0, 6, s);
        lemma_union_bits(bb, 6, 12, s);
        assert(bit(bb[12 + 0int], s) == (state.piece_on_square[s] is Some
            && state.piece_on_square[s]->0.spec_color().spec_index() == 0));
        assert(bit(bb[12 + 1int], s) == (state.piece_on_square[s] is Some
            && state.piece_on_square[s]->0.spec_color().spec_index() == 1));
        if state.piece_on_square[s] is Some {
            let piece = state.piece_on_square[s]->0;
            assert(bit(bb[piece.spec_index() as int], s));
        }
        if bit(white, s) {
            let j = choose|j: int| 0 <= j < 6 && #[trigger] bit(bb[j], s);
            assert(state.piece_on_square[s] == Some(Piece::spec_from_index(j as usize)));
        }
        if bit(black, s) {
            let j = choose|j: int| 6 <= j < 12 && #[trigger] bit(bb[j], s);
            assert(state.piece_on_square[s] == Some(Piece::spec_from_index(j as usize)));
        }
    }
    lemma_bits_equal(white, bb[12]);
    lemma_bits_equal(black, bb[13]);
    crate::game::position::lemma_occupancy_derivation(state);
    assert forall|s: int| 0 <= s < 64 implies !#[trigger] bit(white ^ bb[12], s) by {}
    lemma_zero_iff_no_bits(white ^ bb[12]);
    assert forall|s: int| 0 <= s < 64 implies !#[trigger] bit(black ^ bb[13], s) by {}
    lemma_zero_iff_no_bits(black ^ bb[13]);
    assert forall|s: int| 0 <= s < 64 implies !#[trigger] bit((bb[12] | bb[13]) ^ bb[14], s) by {}
    lemma_zero_iff_no_bits((bb[12] | bb[13]) ^ bb[14]);
}

} // verus!
