//! Moves in pure algebraic coordinate notation: the origin square, the
//! destination square, and the lower-case letter of the promotion where a
//! pawn promotes, as in `e2e4` and `e7e8q`. A text names a move only in a
//! position, and only a legal one.

use vstd::prelude::*;
use crate::bits::{bit, lemma_bit_ops};
use crate::board::line::{File, Rank};
use crate::board::piece::{GenericPiece, Piece, Promotion};
use crate::board::square::Square;
use crate::board::zone::{FileSide, Quadrant};
use crate::game::board_move::{board_after, Move};
use crate::game::move_gen::{attacked_by, king_attacked, promotes};
use crate::game::position::GameState;
use crate::hashing::magic::MagicTables;
use super::err::{IllegalMove, PacnError};
use super::fen::to_chars;

verus! {

/// What a text says as a move: origin, destination and promotion; or why
/// it says none. The first character that names no file or no rank where
/// one is due is reported before a text that is too short or too long.
pub open spec fn spec_parse_pacn(s: Seq<char>) -> Result<
    (Square, Square, Option<Promotion>),
    PacnError,
> {
    if s.len() < 1 {
        Err(PacnError::MalformedPacn)
    } else {
        match File::spec_from_chr(s[0]) {
            Err(e) => Err(PacnError::CoordinateError(e)),
            Ok(f1) => if s.len() < 2 {
                Err(PacnError::MalformedPacn)
            } else {
                match Rank::spec_from_chr(s[1]) {
                    Err(e) => Err(PacnError::CoordinateError(e)),
                    Ok(r1) => if s.len() < 3 {
                        Err(PacnError::MalformedPacn)
                    } else {
                        match File::spec_from_chr(s[2]) {
                            Err(e) => Err(PacnError::CoordinateError(e)),
                            Ok(f2) => if s.len() < 4 {
                                Err(PacnError::MalformedPacn)
                            } else {
                                match Rank::spec_from_chr(s[3]) {
                                    Err(e) => Err(PacnError::CoordinateError(e)),
                                    Ok(r2) => {
                                        let origin = Square::spec_from_index(
                                            (8 * r1.spec_index() + f1.spec_index()) as usize,
                                        );
                                        let destination = Square::spec_from_index(
                                            (8 * r2.spec_index() + f2.spec_index()) as usize,
                                        );
                                        if s.len() == 4 {
                                            Ok((origin, destination, None))
                                        } else if s.len() > 5 {
                                            Err(PacnError::MalformedPacn)
                                        } else {
                                            match Promotion::spec_from_chr(s[4]) {
                                                Err(e) => Err(e),
                                                Ok(p) => Ok((origin, destination, Some(p))),
                                            }
                                        }
                                    },
                                }
                            },
                        }
                    },
                }
            },
        }
    }
}

/// Reads origin, destination and promotion from a text.
pub fn parse_pacn(s: &str) -> (parsed: Result<(Square, Square, Option<Promotion>), PacnError>)
    ensures
        parsed == spec_parse_pacn(s@),
{
    let chars = to_chars(s);
    let n = chars.len();
    if n < 1 {
        return Err(PacnError::MalformedPacn);
    }
    let f1 = match File::from_chr(chars[0]) {
        Err(e) => {
            return Err(PacnError::CoordinateError(e));
        },
        Ok(f) => f,
    };
    if n < 2 {
        return Err(PacnError::MalformedPacn);
    }
    let r1 = match Rank::from_chr(chars[1]) {
        Err(e) => {
            return Err(PacnError::CoordinateError(e));
        },
        Ok(r) => r,
    };
    if n < 3 {
        return Err(PacnError::MalformedPacn);
    }
    let f2 = match File::from_chr(chars[2]) {
        Err(e) => {
            return Err(PacnError::CoordinateError(e));
        },
        Ok(f) => f,
    };
    if n < 4 {
        return Err(PacnError::MalformedPacn);
    }
    let r2 = match Rank::from_chr(chars[3]) {
        Err(e) => {
            return Err(PacnError::CoordinateError(e));
        },
        Ok(r) => r,
    };
    let origin = Square::from_file_rank(f1, r1);
    let destination = Square::from_file_rank(f2, r2);
    proof {
        origin.lemma_index_round_trip();
        destination.lemma_index_round_trip();
    }
    if n == 4 {
        Ok((origin, destination, None))
    } else if n > 5 {
        Err(PacnError::MalformedPacn)
    } else {
        match Promotion::from_chr(chars[4]) {
            Err(e) => Err(e),
            Ok(p) => Ok((origin, destination, Some(p))),
        }
    }
}

impl GameState {
    /// The quadrant of the side to move in which the king would castle by
    /// going from `o` to `d`, if there is one.
    pub open spec fn castling_attempt(&self, o: Square, d: Square) -> Option<Quadrant> {
        let kingside = FileSide::Kingside.spec_to_quadrant(self.spec_turn());
        let queenside = FileSide::Queenside.spec_to_quadrant(self.spec_turn());
        if o == kingside.spec_king_start() && d == kingside.spec_king_end() {
            Some(kingside)
        } else if o == queenside.spec_king_start() && d == queenside.spec_king_end() {
            Some(queenside)
        } else {
            None
        }
    }

    /// Why the piece on `origin` may not go to `destination` although no
    /// piece of its side stands there: a king that would castle out of
    /// check or through check, else a move that is none of the piece.
    pub open spec fn pattern_fault(&self, origin: Square, destination: Square) -> IllegalMove {
        let piece = self.board()[origin.spec_index() as int]->0;
        let enemy = self.spec_turn().spec_inv();
        match self.castling_attempt(origin, destination) {
            Some(q) => if piece.spec_as_generic() != GenericPiece::King {
                IllegalMove::InvalidMove
            } else if attacked_by(self.board(), enemy, q.spec_king_start().spec_index() as int) {
                IllegalMove::CastleOutOfCheck
            } else if attacked_by(self.board(), enemy, q.spec_king_cross().spec_index() as int)
                || attacked_by(self.board(), enemy, q.spec_king_end().spec_index() as int) {
                IllegalMove::CastleThroughCheck
            } else {
                IllegalMove::InvalidMove
            },
            None => IllegalMove::InvalidMove,
        }
    }

    /// Why moving what stands on `origin` to `destination` is no legal
    /// move, if it is none: no piece stands on the origin; the piece is not
    /// of the side to move; a piece of the side to move stands on the
    /// destination; a promotion is named where no pawn promotes, or none
    /// where one does; the piece does not move so; the move leaves the king
    /// attacked.
    pub open spec fn spec_illegal(
        &self,
        origin: Square,
        destination: Square,
        promotion: Option<Promotion>,
    ) -> Option<IllegalMove> {
        let o = origin.spec_index() as int;
        let d = destination.spec_index() as int;
        let mv = Move::spec_new(self.board(), self.spec_turn(), origin, destination, promotion);
        match self.board()[o] {
            None => Some(IllegalMove::EmptySquareMove),
            Some(piece) => if piece.spec_color() != self.spec_turn() {
                Some(IllegalMove::OpponentPieceMove)
            } else if self.board()[d] is Some && self.board()[d]->0.spec_color()
                == self.spec_turn() {
                Some(IllegalMove::AlliedCapture)
            } else if (promotion is Some) != promotes(piece, d) {
                Some(IllegalMove::InvalidPromotion)
            } else if !self.spec_destination(piece.spec_moveset(), o, d) {
                Some(self.pattern_fault(origin, destination))
            } else if king_attacked(board_after(self.board(), mv), self.spec_turn()) {
                Some(IllegalMove::InCheck)
            } else {
                None
            },
        }
    }

    /// The legal move from `origin` to `destination`, or why there is none.
    pub fn resolve(
        &self,
        tables: &MagicTables,
        origin: Square,
        destination: Square,
        promotion: Option<Promotion>,
    ) -> (resolved: Result<Move, IllegalMove>)
        requires
            tables.wf(),
            self.wf(),
        ensures
            resolved == match self.spec_illegal(origin, destination, promotion) {
                Some(e) => Err::<Move, IllegalMove>(e),
                None => Ok(
                    Move::spec_new(self.board(), self.spec_turn(), origin, destination, promotion),
                ),
            },
            resolved matches Ok(mv) ==> self.is_legal_move(mv),
    {
        let piece = match self.piece_at(origin) {
            None => {
                return Err(IllegalMove::EmptySquareMove);
            },
            Some(p) => p,
        };
        if piece.color() != self.turn() {
            return Err(IllegalMove::OpponentPieceMove);
        }
        match self.piece_at(destination) {
            Some(other) => {
                if other.color() == self.turn() {
                    return Err(IllegalMove::AlliedCapture);
                }
            },
            None => {},
        }
        let promoting = piece.as_generic() == GenericPiece::Pawn
            && destination.is_promotion_square();
        if promotion.is_some() != promoting {
            return Err(IllegalMove::InvalidPromotion);
        }
        let reach = piece.moveset().pseudo_legal_moves(tables, self, origin);
        if reach & destination.mask() == 0 {
            proof {
                lemma_bit_ops();
                crate::bits::lemma_zero_iff_no_bits(reach & destination.mask());
                assert(!bit(reach & destination.mask(), destination.index() as int));
            }
            return Err(self.classify_pattern(tables, origin, destination, piece));
        }
        proof {
            lemma_bit_ops();
            crate::bits::lemma_zero_iff_no_bits(reach & destination.mask());
            let i = choose|i: int| 0 <= i < 64 && #[trigger] bit(reach & destination.mask(), i);
            assert(i == destination.index());
            self.lemma_new_is_pseudo_legal(origin, destination, promotion);
        }
        let mv = Move::new(self, origin, destination, promotion);
        let mut scratch = *self;
        if scratch.is_legal(tables, mv) {
            Ok(mv)
        } else {
            Err(IllegalMove::InCheck)
        }
    }

    /// Why the piece on `origin` may not go to `destination`.
    pub fn classify_pattern(
        &self,
        tables: &MagicTables,
        origin: Square,
        destination: Square,
        piece: Piece,
    ) -> (fault: IllegalMove)
        requires
            tables.wf(),
            self.placement_wf(),
            self.board()[origin.index() as int] == Some(piece),
        ensures
            fault == self.pattern_fault(origin, destination),
    {
        let kingside = FileSide::Kingside.to_quadrant(self.turn());
        let queenside = FileSide::Queenside.to_quadrant(self.turn());
        let q = if origin == kingside.king_start() && destination == kingside.king_end() {
            kingside
        } else if origin == queenside.king_start() && destination == queenside.king_end() {
            queenside
        } else {
            return IllegalMove::InvalidMove;
        };
        if piece.as_generic() != GenericPiece::King {
            return IllegalMove::InvalidMove;
        }
        let threats = self.pseudo_legal_threats(tables, self.turn().inv());
        proof {
            lemma_bit_ops();
            q.spec_king_start().lemma_mask();
            q.spec_king_cross().lemma_mask();
            q.spec_king_end().lemma_mask();
            crate::bits::lemma_zero_iff_no_bits(threats & q.king_start().mask());
            crate::bits::lemma_zero_iff_no_bits(
                threats & (q.king_cross().mask() | q.king_end().mask()),
            );
            let start = q.spec_king_start().spec_index() as int;
            let cross = q.spec_king_cross().spec_index() as int;
            let end = q.spec_king_end().spec_index() as int;
            let on_start = threats & q.king_start().mask();
            let on_path = threats & (q.king_cross().mask() | q.king_end().mask());
            assert(bit(on_start, start) == bit(threats, start));
            assert(bit(on_path, cross) == bit(threats, cross));
            assert(bit(on_path, end) == bit(threats, end));
            if on_start != 0 {
                let i = choose|i: int| 0 <= i < 64 && #[trigger] bit(on_start, i);
                assert(i == start);
            }
            if on_path != 0 {
                let i = choose|i: int| 0 <= i < 64 && #[trigger] bit(on_path, i);
                assert(i == cross || i == end);
            }
        }
        if threats & q.king_start().mask() != 0 {
            IllegalMove::CastleOutOfCheck
        } else if threats & (q.king_cross().mask() | q.king_end().mask()) != 0 {
            IllegalMove::CastleThroughCheck
        } else {
            IllegalMove::InvalidMove
        }
    }
}

impl Move {
    /// What a text names as a move in a position: the legal move with the
    /// origin, destination and promotion that the text gives.
    pub open spec fn spec_from_str(game: &GameState, s: Seq<char>) -> Result<Move, PacnError> {
        match spec_parse_pacn(s) {
            Err(e) => Err(e),
            Ok((origin, destination, promotion)) => match game.spec_illegal(
                origin,
                destination,
                promotion,
            ) {
                Some(e) => Err(PacnError::IllegalMove(e)),
                None => Ok(
                    Move::spec_new(game.board(), game.spec_turn(), origin, destination, promotion),
                ),
            },
        }
    }

    /// Reads a move in pure algebraic coordinate notation and resolves it
    /// in the position.
    pub fn from_str(game: &GameState, tables: &MagicTables, s: &str) -> (mv: Result<Move, PacnError>)
        requires
            tables.wf(),
            game.wf(),
        ensures
            mv == Move::spec_from_str(game, s@),
            mv matches Ok(found) ==> game.is_legal_move(found),
    {
        let (origin, destination, promotion) = match parse_pacn(s) {
            Err(e) => {
                return Err(e);
            },
            Ok(parsed) => parsed,
        };
        match game.resolve(tables, origin, destination, promotion) {
            Err(e) => Err(PacnError::IllegalMove(e)),
            Ok(found) => Ok(found),
        }
    }
}

} // verus!
