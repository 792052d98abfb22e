use vstd::prelude::*;
use crate::board::color::Color;
use crate::board::line::File;
use crate::board::piece::{GenericPiece, Piece, Promotion};
use crate::board::square::Square;
use crate::board::zone::{FileSide, Quadrant};
use super::position::{
    castling_of,
    ep_file_of,
    ep_flag_of,
    fullmove_of,
    halfmove_of,
    same_but_castling,
    turn_of,
    GameState,
    FULLMOVE_CTR_MAX,
    HALFMOVE_CTR_MAX,
};

verus! {

pub const ORIGIN_SQUARE_OFFSET: u64 = 0;

pub const ORIGIN_PIECE_OFFSET: u64 = 6;

pub const DESTINATION_SQUARE_OFFSET: u64 = 10;

pub const DESTINATION_PIECE_OFFSET: u64 = 16;

pub const CAPTURED_SQUARE_OFFSET: u64 = 20;

pub const CAPTURED_PIECE_OFFSET: u64 = 26;

pub const DOUBLE_PAWN_PUSH_OFFSET: u64 = 30;

pub const EP_FILE_OFFSET: u64 = 31;

pub const EP_CAPTURE_OFFSET: u64 = 34;

pub const IS_CASTLING_OFFSET: u64 = 35;

pub const CASTLING_OPTION_OFFSET: u64 = 36;

pub const BITS_TO_SPARE: u64 = 26;

/// A move in one 64-bit word. From the lowest bit on: origin square (6
/// bits), origin piece (4), destination square (6), destination piece (4:
/// the promoted piece where a pawn promotes, else the origin piece),
/// captured square (6: not the destination when capturing en passant),
/// captured piece (4), double-pawn-push flag (1), en-passant target file
/// (3), en-passant-capture flag (1), castling flag (1), castling quadrant
/// (2). A piece field that holds 15 holds no piece.
#[derive(Debug, Clone, Copy, PartialEq, Eq, Structural)]
pub struct Move(pub u64);

/// The word that holds the eleven fields, each at its place.
pub open spec fn pack(
    origin: u64,
    origin_piece: u64,
    destination: u64,
    destination_piece: u64,
    captured: u64,
    captured_piece: u64,
    double_push: u64,
    ep_file: u64,
    ep_capture: u64,
    castling: u64,
    quadrant: u64,
) -> u64 {
    origin | (origin_piece << 6) | (destination << 10) | (destination_piece << 16) | (captured
        << 20) | (captured_piece << 26) | (double_push << 30) | (ep_file << 31) | (ep_capture << 34)
        | (castling << 35) | (quadrant << 36)
}

proof fn bv_unpack(
    o: u64,
    op: u64,
    d: u64,
    dp: u64,
    cs: u64,
    cp: u64,
    dpp: u64,
    ef: u64,
    ec: u64,
    ic: u64,
    q: u64,
)
    by (bit_vector)
    requires
        o < 64,
        op < 16,
        d < 64,
        dp < 16,
        cs < 64,
        cp < 16,
        dpp < 2,
        ef < 8,
        ec < 2,
        ic < 2,
        q < 4,
    ensures
        (o | (op << 6) | (d << 10) | (dp << 16) | (cs << 20) | (cp << 26) | (dpp << 30) | (ef << 31)
            | (ec << 34) | (ic << 35) | (q << 36)) & 63 == o,
        ((o | (op << 6) | (d << 10) | (dp << 16) | (cs << 20) | (cp << 26) | (dpp << 30) | (ef
            << 31) | (ec << 34) | (ic << 35) | (q << 36)) >> 6) & 15 == op,
        ((o | (op << 6) | (d << 10) | (dp << 16) | (cs << 20) | (cp << 26) | (dpp << 30) | (ef
            << 31) | (ec << 34) | (ic << 35) | (q << 36)) >> 10) & 63 == d,
        ((o | (op << 6) | (d << 10) | (dp << 16) | (cs << 20) | (cp << 26) | (dpp << 30) | (ef
            << 31) | (ec << 34) | (ic << 35) | (q << 36)) >> 16) & 15 == dp,
        ((o | (op << 6) | (d << 10) | (dp << 16) | (cs << 20) | (cp << 26) | (dpp << 30) | (ef
            << 31) | (ec << 34) | (ic << 35) | (q << 36)) >> 20) & 63 == cs,
        ((o | (op << 6) | (d << 10) | (dp << 16) | (cs << 20) | (cp << 26) | (dpp << 30) | (ef
            << 31) | (ec << 34) | (ic << 35) | (q << 36)) >> 26) & 15 == cp,
        ((o | (op << 6) | (d << 10) | (dp << 16) | (cs << 20) | (cp << 26) | (dpp << 30) | (ef
            << 31) | (ec << 34) | (ic << 35) | (q << 36)) >> 30) & 1 == dpp,
        ((o | (op << 6) | (d << 10) | (dp << 16) | (cs << 20) | (cp << 26) | (dpp << 30) | (ef
            << 31) | (ec << 34) | (ic << 35) | (q << 36)) >> 31) & 7 == ef,
        ((o | (op << 6) | (d << 10) | (dp << 16) | (cs << 20) | (cp << 26) | (dpp << 30) | (ef
            << 31) | (ec << 34) | (ic << 35) | (q << 36)) >> 34) & 1 == ec,
        ((o | (op << 6) | (d << 10) | (dp << 16) | (cs << 20) | (cp << 26) | (dpp << 30) | (ef
            << 31) | (ec << 34) | (ic << 35) | (q << 36)) >> 35) & 1 == ic,
        ((o | (op << 6) | (d << 10) | (dp << 16) | (cs << 20) | (cp << 26) | (dpp << 30) | (ef
            << 31) | (ec << 34) | (ic << 35) | (q << 36)) >> 36) & 3 == q,
{
}

proof fn bv_field_ranges(m: u64)
    by (bit_vector)
    ensures
        m & 63 < 64,
        (m >> 6) & 15 < 16,
        (m >> 10) & 63 < 64,
        (m >> 16) & 15 < 16,
        (m >> 20) & 63 < 64,
        (m >> 26) & 15 < 16,
        (m >> 30) & 1 < 2,
        (m >> 31) & 7 < 8,
        (m >> 34) & 1 < 2,
        (m >> 35) & 1 < 2,
        (m >> 36) & 3 < 4,
{
}

/// Every field read from a packed word is the field that was packed.
pub proof fn lemma_unpack(
    origin: u64,
    origin_piece: u64,
    destination: u64,
    destination_piece: u64,
    captured: u64,
    captured_piece: u64,
    double_push: u64,
    ep_file: u64,
    ep_capture: u64,
    castling: u64,
    quadrant: u64,
)
    requires
        origin < 64,
        origin_piece < 16,
        destination < 64,
        destination_piece < 16,
        captured < 64,
        captured_piece < 16,
        double_push < 2,
        ep_file < 8,
        ep_capture < 2,
        castling < 2,
        quadrant < 4,
    ensures
        ({
            let mv = Move(
                pack(
                    origin,
                    origin_piece,
                    destination,
                    destination_piece,
                    captured,
                    captured_piece,
                    double_push,
                    ep_file,
                    ep_capture,
                    castling,
                    quadrant,
                ),
            );
            &&& mv.origin_code() == origin
            &&& mv.origin_piece_code() == origin_piece
            &&& mv.destination_code() == destination
            &&& mv.destination_piece_code() == destination_piece
            &&& mv.captured_code() == captured
            &&& mv.captured_piece_code() == captured_piece
            &&& mv.double_push_flag() == double_push
            &&& mv.ep_file_code() == ep_file
            &&& mv.ep_capture_flag() == ep_capture
            &&& mv.castling_flag() == castling
            &&& mv.quadrant_code() == quadrant
        }),
{
    bv_unpack(
        origin,
        origin_piece,
        destination,
        destination_piece,
        captured,
        captured_piece,
        double_push,
        ep_file,
        ep_capture,
        castling,
        quadrant,
    );
}

impl Move {
    pub open spec fn origin_code(self) -> u64 {
        self.0 & 63
    }

    pub open spec fn origin_piece_code(self) -> u64 {
        (self.0 >> 6) & 15
    }

    pub open spec fn destination_code(self) -> u64 {
        (self.0 >> 10) & 63
    }

    pub open spec fn destination_piece_code(self) -> u64 {
        (self.0 >> 16) & 15
    }

    pub open spec fn captured_code(self) -> u64 {
        (self.0 >> 20) & 63
    }

    pub open spec fn captured_piece_code(self) -> u64 {
        (self.0 >> 26) & 15
    }

    pub open spec fn double_push_flag(self) -> u64 {
        (self.0 >> 30) & 1
    }

    pub open spec fn ep_file_code(self) -> u64 {
        (self.0 >> 31) & 7
    }

    pub open spec fn ep_capture_flag(self) -> u64 {
        (self.0 >> 34) & 1
    }

    pub open spec fn castling_flag(self) -> u64 {
        (self.0 >> 35) & 1
    }

    pub open spec fn quadrant_code(self) -> u64 {
        (self.0 >> 36) & 3
    }

    /// Every field stays within its width.
    pub proof fn lemma_field_ranges(self)
        ensures
            self.origin_code() < 64,
            self.origin_piece_code() < 16,
            self.destination_code() < 64,
            self.destination_piece_code() < 16,
            self.captured_code() < 64,
            self.captured_piece_code() < 16,
            self.double_push_flag() < 2,
            self.ep_file_code() < 8,
            self.ep_capture_flag() < 2,
            self.castling_flag() < 2,
            self.quadrant_code() < 4,
    {
        bv_field_ranges(self.0);
    }

    /// The piece fields hold pieces: the origin and the destination a
    /// piece, the captured field a piece or none.
    pub open spec fn wf(self) -> bool {
        &&& self.origin_piece_code() < 12
        &&& self.destination_piece_code() < 12
        &&& (self.captured_piece_code() < 12 || self.captured_piece_code() == 15)
    }

    pub open spec fn spec_origin_square(self) -> Square {
        Square::spec_from_index(self.origin_code() as usize)
    }

    pub open spec fn spec_origin_piece(self) -> Piece {
        Piece::spec_from_index(self.origin_piece_code() as usize)
    }

    pub open spec fn spec_destination_square(self) -> Square {
        Square::spec_from_index(self.destination_code() as usize)
    }

    pub open spec fn spec_destination_piece(self) -> Piece {
        Piece::spec_from_index(self.destination_piece_code() as usize)
    }

    pub open spec fn spec_captured_square(self) -> Square {
        Square::spec_from_index(self.captured_code() as usize)
    }

    pub open spec fn spec_captured_piece(self) -> Option<Piece> {
        if self.captured_piece_code() == 15 {
            None
        } else {
            Some(Piece::spec_from_index(self.captured_piece_code() as usize))
        }
    }

    pub open spec fn spec_is_castling(self) -> bool {
        self.castling_flag() == 1
    }

    pub open spec fn spec_get_castling(self) -> Quadrant {
        Quadrant::spec_from_index(self.quadrant_code() as usize)
    }

    /// The move that the encoding rules give for moving what stands on
    /// `origin` to `destination` on `board`, with `turn` to move.
    ///
    /// The destination piece is the promoted piece where `promotion` names
    /// one, else the origin piece. A piece on the destination is captured
    /// there. A pawn that changes file onto an empty square captures en
    /// passant: the enemy pawn on its own rank and the destination's file.
    /// A pawn that advances two ranks is a double push and leaves its file
    /// as en-passant target. A king that goes from its start to the end
    /// square of a quadrant of its color castles there.
    pub open spec fn spec_new(
        board: Seq<Option<Piece>>,
        turn: Color,
        origin: Square,
        destination: Square,
        promotion: Option<Promotion>,
    ) -> Move {
        let o = origin.spec_index() as u64;
        let d = destination.spec_index() as u64;
        match board[o as int] {
            None => Move(
                pack(
                    o,
                    15,
                    d,
                    match promotion {
                        Some(pr) => pr.spec_as_piece(turn).spec_index() as u64,
                        None => 15,
                    },
                    0,
                    15,
                    0,
                    0,
                    0,
                    0,
                    0,
                ),
            ),
            Some(p) => {
                let op = p.spec_index() as u64;
                let dp = match promotion {
                    Some(pr) => pr.spec_as_piece(turn).spec_index() as u64,
                    None => op,
                };
                let kingside = FileSide::Kingside.spec_to_quadrant(p.spec_color());
                let queenside = FileSide::Queenside.spec_to_quadrant(p.spec_color());
                match board[d as int] {
                    Some(c) => Move(pack(o, op, d, dp, d, c.spec_index() as u64, 0, 0, 0, 0, 0)),
                    None => if p.spec_as_generic() == GenericPiece::Pawn && origin.spec_col()
                        != destination.spec_col() {
                        Move(
                            pack(
                                o,
                                op,
                                d,
                                dp,
                                (8 * origin.spec_row() + destination.spec_col()) as u64,
                                p.spec_inv().spec_index() as u64,
                                0,
                                0,
                                1,
                                0,
                                0,
                            ),
                        )
                    } else if p.spec_as_generic() == GenericPiece::Pawn && (origin.spec_row() + 2
                        == destination.spec_row() || destination.spec_row() + 2
                        == origin.spec_row()) {
                        Move(pack(o, op, d, dp, 0, 15, 1, origin.spec_col() as u64, 0, 0, 0))
                    } else if p.spec_as_generic() == GenericPiece::King && origin
                        == kingside.spec_king_start() && destination == kingside.spec_king_end() {
                        Move(pack(o, op, d, dp, 0, 15, 0, 0, 0, 1, kingside.spec_index() as u64))
                    } else if p.spec_as_generic() == GenericPiece::King && origin
                        == queenside.spec_king_start() && destination == queenside.spec_king_end() {
                        Move(pack(o, op, d, dp, 0, 15, 0, 0, 0, 1, queenside.spec_index() as u64))
                    } else {
                        Move(pack(o, op, d, dp, 0, 15, 0, 0, 0, 0, 0))
                    },
                }
            },
        }
    }

    fn packed(
        origin: u64,
        origin_piece: u64,
        destination: u64,
        destination_piece: u64,
        captured: u64,
        captured_piece: u64,
        double_push: u64,
        ep_file: u64,
        ep_capture: u64,
        castling: u64,
        quadrant: u64,
    ) -> (mv: Move)
        ensures
            mv == Move(
                pack(
                    origin,
                    origin_piece,
                    destination,
                    destination_piece,
                    captured,
                    captured_piece,
                    double_push,
                    ep_file,
                    ep_capture,
                    castling,
                    quadrant,
                ),
            ),
    {
        Move(
            origin | (origin_piece << ORIGIN_PIECE_OFFSET) | (destination
                << DESTINATION_SQUARE_OFFSET) | (destination_piece << DESTINATION_PIECE_OFFSET) | (
            captured << CAPTURED_SQUARE_OFFSET) | (captured_piece << CAPTURED_PIECE_OFFSET) | (
            double_push << DOUBLE_PAWN_PUSH_OFFSET) | (ep_file << EP_FILE_OFFSET) | (ep_capture
                << EP_CAPTURE_OFFSET) | (castling << IS_CASTLING_OFFSET) | (quadrant
                << CASTLING_OPTION_OFFSET),
        )
    }

    /// Encodes the move of what stands on `origin` to `destination`.
    pub fn new(
        board: &GameState,
        origin: Square,
        destination: Square,
        promotion: Option<Promotion>,
    ) -> (mv: Move)
        ensures
            mv == Move::spec_new(board.board(), board.spec_turn(), origin, destination, promotion),
    {
        let o = origin.index() as u64;
        let d = destination.index() as u64;
        let none: u64 = 15;
        let promoted: Option<u64> = match promotion {
            Some(pr) => Some(pr.as_piece(board.turn()).index() as u64),
            None => None,
        };
        match board.piece_at(origin) {
            None => {
                let dp = match promoted {
                    Some(code) => code,
                    None => none,
                };
                Move::packed(o, none, d, dp, 0, none, 0, 0, 0, 0, 0)
            },
            Some(p) => {
                let op = p.index() as u64;
                let dp = match promoted {
                    Some(code) => code,
                    None => op,
                };
                let kind = p.as_generic();
                let kingside = FileSide::Kingside.to_quadrant(p.color());
                let queenside = FileSide::Queenside.to_quadrant(p.color());
                match board.piece_at(destination) {
                    Some(c) => Move::packed(o, op, d, dp, d, c.index() as u64, 0, 0, 0, 0, 0),
                    None => {
                        if kind == GenericPiece::Pawn && origin.col() != destination.col() {
                            let behind = (8 * origin.row() + destination.col()) as u64;
                            Move::packed(o, op, d, dp, behind, p.inv().index() as u64, 0, 0, 1, 0, 0)
                        } else if kind == GenericPiece::Pawn && (origin.row() + 2
                            == destination.row() || destination.row() + 2 == origin.row()) {
                            Move::packed(o, op, d, dp, 0, none, 1, origin.col() as u64, 0, 0, 0)
                        } else if kind == GenericPiece::King && origin == kingside.king_start()
                            && destination == kingside.king_end() {
                            Move::packed(o, op, d, dp, 0, none, 0, 0, 0, 1, kingside.index() as u64)
                        } else if kind == GenericPiece::King && origin == queenside.king_start()
                            && destination == queenside.king_end() {
                            Move::packed(o, op, d, dp, 0, none, 0, 0, 0, 1, queenside.index() as u64)
                        } else {
                            Move::packed(o, op, d, dp, 0, none, 0, 0, 0, 0, 0)
                        }
                    },
                }
            },
        }
    }

    /// The color of the piece that moves.
    pub fn color(self) -> (color: Color)
        requires
            self.origin_piece_code() < 12,
        ensures
            color == self.spec_origin_piece().spec_color(),
    {
        self.origin_piece().color()
    }

    #[verifier::when_used_as_spec(spec_origin_square)]
    pub fn origin_square(self) -> (square: Square)
        ensures
            square == self.spec_origin_square(),
            square.index() == self.origin_code(),
    {
        proof {
            self.lemma_field_ranges();
        }
        Square::from_index((self.0 & 63) as usize)
    }

    #[verifier::when_used_as_spec(spec_origin_piece)]
    pub fn origin_piece(self) -> (piece: Piece)
        requires
            self.origin_piece_code() < 12,
        ensures
            piece == self.spec_origin_piece(),
            piece.index() == self.origin_piece_code(),
    {
        Piece::from_index(((self.0 >> ORIGIN_PIECE_OFFSET) & 15) as usize)
    }

    #[verifier::when_used_as_spec(spec_destination_square)]
    pub fn destination_square(self) -> (square: Square)
        ensures
            square == self.spec_destination_square(),
            square.index() == self.destination_code(),
    {
        proof {
            self.lemma_field_ranges();
        }
        Square::from_index(((self.0 >> DESTINATION_SQUARE_OFFSET) & 63) as usize)
    }

    /// The piece that stands on the destination after the move.
    #[verifier::when_used_as_spec(spec_destination_piece)]
    pub fn destination_piece(self) -> (piece: Piece)
        requires
            self.destination_piece_code() < 12,
        ensures
            piece == self.spec_destination_piece(),
            piece.index() == self.destination_piece_code(),
    {
        Piece::from_index(((self.0 >> DESTINATION_PIECE_OFFSET) & 15) as usize)
    }

    pub fn is_capture(self) -> (capture: bool)
        ensures
            capture == (self.captured_piece_code() != 15),
    {
        (self.0 >> CAPTURED_PIECE_OFFSET) & 15 != 15
    }

    /// The square of the captured piece. Meaningful for a capture.
    #[verifier::when_used_as_spec(spec_captured_square)]
    pub fn captured_square(self) -> (square: Square)
        ensures
            square == self.spec_captured_square(),
            square.index() == self.captured_code(),
    {
        proof {
            self.lemma_field_ranges();
        }
        Square::from_index(((self.0 >> CAPTURED_SQUARE_OFFSET) & 63) as usize)
    }

    #[verifier::when_used_as_spec(spec_captured_piece)]
    pub fn captured_piece(self) -> (piece: Option<Piece>)
        requires
            self.captured_piece_code() < 12 || self.captured_piece_code() == 15,
        ensures
            piece == self.spec_captured_piece(),
    {
        let code = (self.0 >> CAPTURED_PIECE_OFFSET) & 15;
        if code == 15 {
            None
        } else {
            Some(Piece::from_index(code as usize))
        }
    }

    pub fn is_double_pawn_push(self) -> (double: bool)
        ensures
            double == (self.double_push_flag() == 1),
    {
        (self.0 >> DOUBLE_PAWN_PUSH_OFFSET) & 1 == 1
    }

    pub fn is_ep_capture(self) -> (en_passant: bool)
        ensures
            en_passant == (self.ep_capture_flag() == 1),
    {
        (self.0 >> EP_CAPTURE_OFFSET) & 1 == 1
    }

    #[verifier::when_used_as_spec(spec_is_castling)]
    pub fn is_castling(self) -> (castling: bool)
        ensures
            castling == self.spec_is_castling(),
    {
        (self.0 >> IS_CASTLING_OFFSET) & 1 == 1
    }

    /// The quadrant in which the move castles. Meaningful for a castling.
    #[verifier::when_used_as_spec(spec_get_castling)]
    pub fn get_castling(self) -> (quadrant: Quadrant)
        ensures
            quadrant == self.spec_get_castling(),
    {
        proof {
            self.lemma_field_ranges();
        }
        Quadrant::from_index(((self.0 >> CASTLING_OPTION_OFFSET) & 3) as usize)
    }
}

/// The board once the moving piece has left its origin.
pub open spec fn lifted(board: Seq<Option<Piece>>, mv: Move) -> Seq<Option<Piece>> {
    board.update(mv.origin_code() as int, None)
}

/// The board once the captured piece, if any, has left as well.
pub open spec fn cleared(board: Seq<Option<Piece>>, mv: Move) -> Seq<Option<Piece>> {
    if mv.spec_captured_piece() is Some {
        lifted(board, mv).update(mv.captured_code() as int, None)
    } else {
        lifted(board, mv)
    }
}

/// The board once the destination piece stands on the destination.
pub open spec fn landed(board: Seq<Option<Piece>>, mv: Move) -> Seq<Option<Piece>> {
    cleared(board, mv).update(mv.destination_code() as int, Some(mv.spec_destination_piece()))
}

/// The board after the move: as [`landed`], and with the rook moved where
/// the move castles.
pub open spec fn board_after(board: Seq<Option<Piece>>, mv: Move) -> Seq<Option<Piece>> {
    if mv.spec_is_castling() {
        let q = mv.spec_get_castling();
        landed(board, mv).update(q.spec_rook_start().spec_index() as int, None).update(
            q.spec_rook_end().spec_index() as int,
            Some(q.spec_rook()),
        )
    } else {
        landed(board, mv)
    }
}

/// The move can be made on the board: its origin piece stands on the
/// origin, its captured piece on the captured square, the destination is
/// empty once both have left, and where it castles the rook stands on its
/// start and the rook's end is empty.
pub open spec fn fits(board: Seq<Option<Piece>>, mv: Move) -> bool {
    &&& board.len() == 64
    &&& mv.wf()
    &&& board[mv.origin_code() as int] == Some(mv.spec_origin_piece())
    &&& (mv.spec_captured_piece() is Some ==> lifted(board, mv)[mv.captured_code() as int]
        == mv.spec_captured_piece())
    &&& cleared(board, mv)[mv.destination_code() as int] is None
    &&& (mv.spec_is_castling() ==> {
        let q = mv.spec_get_castling();
        &&& landed(board, mv)[q.spec_rook_start().spec_index() as int] == Some(q.spec_rook())
        &&& landed(board, mv).update(q.spec_rook_start().spec_index() as int, None)[
            q.spec_rook_end().spec_index() as int] is None
    })
}

/// The board with the rook of a castling back on its start.
pub open spec fn unrooked(board: Seq<Option<Piece>>, mv: Move) -> Seq<Option<Piece>> {
    if mv.spec_is_castling() {
        let q = mv.spec_get_castling();
        board.update(q.spec_rook_end().spec_index() as int, None).update(
            q.spec_rook_start().spec_index() as int,
            Some(q.spec_rook()),
        )
    } else {
        board
    }
}

/// The board once the destination piece has left the destination again.
pub open spec fn unlanded(board: Seq<Option<Piece>>, mv: Move) -> Seq<Option<Piece>> {
    unrooked(board, mv).update(mv.destination_code() as int, None)
}

/// The board once the captured piece, if any, is back.
pub open spec fn uncleared(board: Seq<Option<Piece>>, mv: Move) -> Seq<Option<Piece>> {
    if mv.spec_captured_piece() is Some {
        unlanded(board, mv).update(mv.captured_code() as int, mv.spec_captured_piece())
    } else {
        unlanded(board, mv)
    }
}

/// The board before the move: every step of [`board_after`] taken back.
pub open spec fn board_before(board: Seq<Option<Piece>>, mv: Move) -> Seq<Option<Piece>> {
    uncleared(board, mv).update(mv.origin_code() as int, Some(mv.spec_origin_piece()))
}

/// The move can be taken back on the board: each piece it placed stands
/// where it placed it, and each square it emptied is empty.
pub open spec fn fits_back(board: Seq<Option<Piece>>, mv: Move) -> bool {
    &&& board.len() == 64
    &&& mv.wf()
    &&& (mv.spec_is_castling() ==> {
        let q = mv.spec_get_castling();
        &&& board[q.spec_rook_end().spec_index() as int] == Some(q.spec_rook())
        &&& board.update(q.spec_rook_end().spec_index() as int, None)[
            q.spec_rook_start().spec_index() as int] is None
    })
    &&& unrooked(board, mv)[mv.destination_code() as int] == Some(mv.spec_destination_piece())
    &&& (mv.spec_captured_piece() is Some ==> unlanded(board, mv)[mv.captured_code() as int] is None)
    &&& uncleared(board, mv)[mv.origin_code() as int] is None
}

/// A move that fits a board can be taken back on the board it gives, and
/// taking it back gives the first board again.
pub proof fn lemma_after_then_before(board: Seq<Option<Piece>>, mv: Move)
    requires
        fits(board, mv),
    ensures
        fits_back(board_after(board, mv), mv),
        board_before(board_after(board, mv), mv) == board,
{
    mv.lemma_field_ranges();
    let after = board_after(board, mv);
    assert(unrooked(after, mv) =~= landed(board, mv));
    assert(unlanded(after, mv) =~= cleared(board, mv));
    assert(uncleared(after, mv) =~= lifted(board, mv));
    assert(board_before(after, mv) =~= board);
}

/// The move takes the castling right of the quadrant away: the king of the
/// quadrant's color moves, or the move starts or ends on the rook's start.
pub open spec fn revokes(mv: Move, q: Quadrant) -> bool {
    ||| (mv.spec_origin_piece().spec_as_generic() == GenericPiece::King
        && mv.spec_origin_piece().spec_color() == q.spec_color())
    ||| mv.spec_origin_square() == q.spec_rook_start()
    ||| mv.spec_destination_square() == q.spec_rook_start()
}

/// The side info after the move, field by field: the other side is to
/// move; the fullmove counter has grown after black's move; the halfmove
/// counter is zero after a pawn move and has grown after any other; the
/// en-passant target is the origin file after a double pawn push and absent
/// after any other move. Counters stop at their limits.
pub open spec fn info_follows(after: u32, before: u32, mv: Move) -> bool {
    &&& turn_of(after) == 1 - turn_of(before)
    &&& fullmove_of(after) == if turn_of(before) == 1 && fullmove_of(before) < FULLMOVE_CTR_MAX {
        (fullmove_of(before) + 1) as u32
    } else {
        fullmove_of(before)
    }
    &&& halfmove_of(after) == if mv.spec_origin_piece().spec_as_generic() == GenericPiece::Pawn {
        0u32
    } else if halfmove_of(before) < HALFMOVE_CTR_MAX {
        (halfmove_of(before) + 1) as u32
    } else {
        HALFMOVE_CTR_MAX
    }
    &&& ep_flag_of(after) == if mv.spec_origin_piece().spec_as_generic() == GenericPiece::Pawn
        && mv.double_push_flag() == 1 {
        1u32
    } else {
        0u32
    }
    &&& ep_file_of(after) == if mv.spec_origin_piece().spec_as_generic() == GenericPiece::Pawn
        && mv.double_push_flag() == 1 {
        (mv.origin_code() % 8) as u32
    } else {
        0u32
    }
}

impl GameState {
    /// The move can be made in this position.
    pub open spec fn spec_fits(&self, mv: Move) -> bool {
        fits(self.board(), mv)
    }

    /// This position is what making `mv` in `before` gives: the board after
    /// the move, the side info that follows, the castling rights that were
    /// granted and that the move does not revoke, and a hash in step.
    pub open spec fn is_push_of(&self, before: GameState, mv: Move) -> bool {
        &&& self.placement_wf()
        &&& self.board() == board_after(before.board(), mv)
        &&& info_follows(self.fen_info, before.fen_info, mv)
        &&& forall|q: Quadrant|
            #[trigger] self.spec_can_castle(q) == (before.spec_can_castle(q) && !revokes(mv, q))
        &&& self.hash_offset() == before.hash_offset()
    }

    /// This position is what taking `mv` back in `made` gives, with the
    /// side info and the hash that were saved before the move.
    pub open spec fn is_pop_of(&self, made: GameState, mv: Move, fen_info: u32, zobrist_hash: u64) -> bool {
        &&& self.placement_wf()
        &&& self.board() == board_before(made.board(), mv)
        &&& self.fen_info == fen_info
        &&& self.zobrist_hash == zobrist_hash
    }

    /// Makes the move on the board alone: the side info stays as it is.
    /// Enough to see whether the move leaves a king attacked.
    pub fn push_partial(&mut self, mv: Move)
        requires
            old(self).placement_wf(),
            old(self).spec_fits(mv),
        ensures
            final(self).placement_wf(),
            final(self).board() == board_after(old(self).board(), mv),
            final(self).fen_info == old(self).fen_info,
            final(self).hash_offset() == old(self).hash_offset(),
    {
        proof {
            mv.lemma_field_ranges();
        }
        self.remove_piece(mv.origin_piece(), mv.origin_square());
        match mv.captured_piece() {
            Some(p) => self.remove_piece(p, mv.captured_square()),
            None => (),
        }
        self.put_piece(mv.destination_piece(), mv.destination_square());
        if mv.is_castling() {
            let q = mv.get_castling();
            self.remove_piece(q.rook(), q.rook_start());
            self.put_piece(q.rook(), q.rook_end());
        }
    }

    /// Takes away the castling rights that the move revokes, and keeps the
    /// hash in step.
    pub fn revoke_castling(&mut self, mv: Move)
        requires
            mv.origin_piece_code() < 12,
        ensures
            forall|q: Quadrant|
                #[trigger] final(self).spec_can_castle(q) == (old(self).spec_can_castle(q)
                    && !revokes(mv, q)),
            same_but_castling(final(self).fen_info, old(self).fen_info),
            final(self).bitboard == old(self).bitboard,
            final(self).piece_on_square == old(self).piece_on_square,
            final(self).hash_offset() == old(self).hash_offset(),
    {
        proof {
            mv.lemma_field_ranges();
        }
        let piece = mv.origin_piece();
        let origin = mv.origin_square();
        let destination = mv.destination_square();
        let king = piece.as_generic() == GenericPiece::King;
        if (king && piece.color() == Color::White) || origin == Square::H1 || destination
            == Square::H1 {
            self.deny_castling(Quadrant::WhiteKingside);
        }
        if (king && piece.color() == Color::White) || origin == Square::A1 || destination
            == Square::A1 {
            self.deny_castling(Quadrant::WhiteQueenside);
        }
        if (king && piece.color() == Color::Black) || origin == Square::H8 || destination
            == Square::H8 {
            self.deny_castling(Quadrant::BlackKingside);
        }
        if (king && piece.color() == Color::Black) || origin == Square::A8 || destination
            == Square::A8 {
            self.deny_castling(Quadrant::BlackQueenside);
        }
    }

    /// Sets the en-passant target and the halfmove counter as the move
    /// leaves them, and keeps the hash in step.
    pub fn advance_clock(&mut self, mv: Move)
        requires
            mv.origin_piece_code() < 12,
        ensures
            halfmove_of(final(self).fen_info) == if mv.spec_origin_piece().spec_as_generic()
                == GenericPiece::Pawn {
                0u32
            } else if halfmove_of(old(self).fen_info) < HALFMOVE_CTR_MAX {
                (halfmove_of(old(self).fen_info) + 1) as u32
            } else {
                HALFMOVE_CTR_MAX
            },
            ep_flag_of(final(self).fen_info) == if mv.spec_origin_piece().spec_as_generic()
                == GenericPiece::Pawn && mv.double_push_flag() == 1 {
                1u32
            } else {
                0u32
            },
            ep_file_of(final(self).fen_info) == if mv.spec_origin_piece().spec_as_generic()
                == GenericPiece::Pawn && mv.double_push_flag() == 1 {
                (mv.origin_code() % 8) as u32
            } else {
                0u32
            },
            castling_of(final(self).fen_info) == castling_of(old(self).fen_info),
            forall|q: Quadrant| #[trigger] final(self).spec_can_castle(q) == old(self).spec_can_castle(q),
            turn_of(final(self).fen_info) == turn_of(old(self).fen_info),
            fullmove_of(final(self).fen_info) == fullmove_of(old(self).fen_info),
            final(self).bitboard == old(self).bitboard,
            final(self).piece_on_square == old(self).piece_on_square,
            final(self).hash_offset() == old(self).hash_offset(),
    {
        proof {
            mv.lemma_field_ranges();
        }
        let pawn = mv.origin_piece().as_generic() == GenericPiece::Pawn;
        let file = File::from_index(((mv.0 & 63) % 8) as usize);
        self.deny_ep();
        let ghost cleared = *self;
        proof {
            lemma_rights_in_code(cleared, *old(self));
        }
        if pawn {
            self.reset_halfmove_ctr();
        } else {
            self.inc_halfmove_ctr();
        }
        let ghost counted = *self;
        proof {
            lemma_rights_in_code(counted, cleared);
            lemma_hash_ignores_counters(cleared, counted);
        }
        if pawn && mv.is_double_pawn_push() {
            self.set_ep_target(file);
            proof {
                lemma_rights_in_code(*self, counted);
            }
        }
    }

    /// Makes the move: the board as [`GameState::push_partial`] does, then
    /// the side info, with the hash kept in step.
    pub fn push(&mut self, mv: Move)
        requires
            old(self).placement_wf(),
            old(self).spec_fits(mv),
        ensures
            final(self).is_push_of(*old(self), mv),
    {
        proof {
            mv.lemma_field_ranges();
            super::position::lemma_field_ranges(old(self).fen_info);
        }
        self.push_partial(mv);
        self.advance_clock(mv);
        self.revoke_castling(mv);
        let ghost revoked = *self;
        self.flip_turn();
        proof {
            lemma_rights_in_code(*self, revoked);
            super::position::lemma_field_ranges(self.fen_info);
            super::position::lemma_field_ranges(revoked.fen_info);
        }
    }

    /// Takes the move back on the board alone. The caller restores the
    /// side info and the hash, or uses [`GameState::pop`].
    pub fn pop_partial(&mut self, mv: Move)
        requires
            old(self).placement_wf(),
            fits_back(old(self).board(), mv),
        ensures
            final(self).placement_wf(),
            final(self).board() == board_before(old(self).board(), mv),
            final(self).fen_info == old(self).fen_info,
            final(self).hash_offset() == old(self).hash_offset(),
    {
        proof {
            mv.lemma_field_ranges();
        }
        if mv.is_castling() {
            let q = mv.get_castling();
            self.remove_piece(q.rook(), q.rook_end());
            self.put_piece(q.rook(), q.rook_start());
        }
        self.remove_piece(mv.destination_piece(), mv.destination_square());
        match mv.captured_piece() {
            Some(p) => self.put_piece(p, mv.captured_square()),
            None => (),
        }
        self.put_piece(mv.origin_piece(), mv.origin_square());
    }

    /// Takes the move back and restores the side info and the hash that
    /// the caller saved before making it.
    pub fn pop(&mut self, mv: Move, fen_info: u32, zobrist_hash: u64)
        requires
            old(self).placement_wf(),
            fits_back(old(self).board(), mv),
        ensures
            final(self).is_pop_of(*old(self), mv, fen_info, zobrist_hash),
    {
        self.pop_partial(mv);
        self.fen_info = fen_info;
        self.zobrist_hash = zobrist_hash;
    }
}

/// Positions with the same castling code grant the same rights.
pub proof fn lemma_rights_in_code(a: GameState, b: GameState)
    requires
        castling_of(a.fen_info) == castling_of(b.fen_info),
    ensures
        forall|q: Quadrant| #[trigger] a.spec_can_castle(q) == b.spec_can_castle(q),
{
    assert forall|q: Quadrant| #[trigger] a.spec_can_castle(q) == b.spec_can_castle(q) by {
        bv_rights_in_code(a.fen_info, b.fen_info, q.spec_index() as u32);
    }
}

proof fn bv_rights_in_code(a: u32, b: u32, q: u32)
    by (bit_vector)
    requires
        q < 4,
        a & 0xF == b & 0xF,
    ensures
        ((a >> q) & 1 == 1) == ((b >> q) & 1 == 1),
{
}

/// The hash does not depend on the move counters.
pub proof fn lemma_hash_ignores_counters(a: GameState, b: GameState)
    requires
        a.piece_on_square == b.piece_on_square,
        a.zobrist_hash == b.zobrist_hash,
        castling_of(a.fen_info) == castling_of(b.fen_info),
        turn_of(a.fen_info) == turn_of(b.fen_info),
        ep_flag_of(a.fen_info) == ep_flag_of(b.fen_info),
        ep_file_of(a.fen_info) == ep_file_of(b.fen_info),
    ensures
        a.zobrist_wf() == b.zobrist_wf(),
        a.hash_offset() == b.hash_offset(),
{
}


/// Making a move and taking it back restores the position: the piece
/// bitboards and occupancies, the piece on every square, the side info and
/// the hash.
pub proof fn lemma_make_unmake_restores(
    before: GameState,
    made: GameState,
    unmade: GameState,
    mv: Move,
)
    requires
        before.placement_wf(),
        before.spec_fits(mv),
        made.is_push_of(before, mv),
        unmade.is_pop_of(made, mv, before.fen_info, before.zobrist_hash),
    ensures
        fits_back(made.board(), mv),
        unmade == before,
{
    lemma_after_then_before(before.board(), mv);
    super::position::lemma_same_position(unmade, before);
}

/// After a move the stored hash is the hash computed from scratch.
pub proof fn lemma_push_keeps_hash(before: GameState, made: GameState, mv: Move)
    requires
        before.wf(),
        before.spec_fits(mv),
        made.is_push_of(before, mv),
    ensures
        made.zobrist_hash == made.spec_zobrist(),
{
    before.lemma_offset_zero();
    made.lemma_offset_zero();
}

/// After a move each color's occupancy is the union of its six piece
/// bitboards, the full occupancy is the union of the two, and the two are
/// disjoint.
pub proof fn lemma_push_keeps_occupancy(before: GameState, made: GameState, mv: Move)
    requires
        before.placement_wf(),
        before.spec_fits(mv),
        made.is_push_of(before, mv),
    ensures
        made.bitboard[12] == made.bitboard[0] | made.bitboard[1] | made.bitboard[2]
            | made.bitboard[3] | made.bitboard[4] | made.bitboard[5],
        made.bitboard[13] == made.bitboard[6] | made.bitboard[7] | made.bitboard[8]
            | made.bitboard[9] | made.bitboard[10] | made.bitboard[11],
        made.bitboard[14] == made.bitboard[12] | made.bitboard[13],
        made.bitboard[12] & made.bitboard[13] == 0,
{
    super::position::lemma_occupancy_derivation(made);
}

/// Each position of the line after the first is what making the move
/// before it gives: `positions[i + 1]` comes from `positions[i]` by
/// `moves[i]`, which fits it.
pub open spec fn is_line(positions: Seq<GameState>, moves: Seq<Move>) -> bool {
    &&& positions.len() == moves.len() + 1
    &&& forall|i: int|
        0 <= i < moves.len() ==> (#[trigger] positions[i]).spec_fits(moves[i]) && positions[i
            + 1].is_push_of(positions[i], moves[i])
}

/// Every position reached from a consistent position by making moves is
/// consistent: its stored hash is the hash computed from scratch, and its
/// bitboards say what its squares say.
pub proof fn lemma_line_stays_consistent(positions: Seq<GameState>, moves: Seq<Move>, n: int)
    requires
        is_line(positions, moves),
        positions[0].wf(),
        0 <= n <= moves.len(),
    ensures
        positions[n].wf(),
        positions[n].zobrist_hash == positions[n].spec_zobrist(),
    decreases n,
{
    if n > 0 {
        lemma_line_stays_consistent(positions, moves, n - 1);
        assert(positions[n - 1].spec_fits(moves[n - 1]));
        assert(positions[n - 1 + 1].is_push_of(positions[n - 1], moves[n - 1]));
        positions[n - 1].lemma_offset_zero();
        positions[n].lemma_offset_zero();
    }
}

} // verus!
