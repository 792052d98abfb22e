use vstd::prelude::*;
use crate::bits::{bit, count_bits, lemma_bit_ops, lemma_bits_equal, popcount};
use crate::board::color::Color;
use crate::board::line::{File, Rank};
use crate::board::piece::Piece;
use crate::board::square::Square;
use crate::board::zone::Quadrant;
use crate::hashing::bitmask;
use crate::hashing::zobrist;

verus! {

pub const CASTLING_OFFSET: u32 = 0;

pub const TURN_OFFSET: u32 = 4;

pub const EP_LEGAL_OFFSET: u32 = 5;

pub const EP_TARGET_OFFSET: u32 = 6;

pub const HALFMOVE_CTR_OFFSET: u32 = 9;

pub const FULLMOVE_CTR_OFFSET: u32 = 17;

pub const HALFMOVE_CTR_BITS: u32 = 8;

pub const FULLMOVE_CTR_BITS: u32 = 15;

/// The largest halfmove count the side-info word holds.
pub const HALFMOVE_CTR_MAX: u32 = 0xFF;

/// The largest fullmove count the side-info word holds.
pub const FULLMOVE_CTR_MAX: u32 = 0x7FFF;

pub const START_FEN: &'static str = "rnbqkbnr/pppppppp/8/8/8/8/PPPPPPPP/RNBQKBNR w KQkq - 0 1";

/// Index of white's occupancy among the bitboards.
pub const WHITE_OCCUPANCY: usize = 12;

/// Index of black's occupancy among the bitboards.
pub const BLACK_OCCUPANCY: usize = 13;

/// Index of the occupancy of both colors among the bitboards.
pub const FULL_OCCUPANCY: usize = 14;

/// The castling rights of a side-info word, one bit per quadrant.
pub open spec fn castling_of(info: u32) -> u32 {
    info & 0xF
}

/// The side to move of a side-info word: 0 for white, 1 for black.
pub open spec fn turn_of(info: u32) -> u32 {
    (info >> 4) & 1
}

/// Whether a side-info word holds an en-passant target: 1 if so.
pub open spec fn ep_flag_of(info: u32) -> u32 {
    (info >> 5) & 1
}

/// The file of the en-passant target of a side-info word.
pub open spec fn ep_file_of(info: u32) -> u32 {
    (info >> 6) & 7
}

/// The halfmove counter of a side-info word.
pub open spec fn halfmove_of(info: u32) -> u32 {
    (info >> 9) & 0xFF
}

/// The fullmove counter of a side-info word.
pub open spec fn fullmove_of(info: u32) -> u32 {
    info >> 17
}

/// The castling right with index `q` is granted in a side-info word.
pub open spec fn right_of(info: u32, q: u32) -> bool {
    (info >> q) & 1 == 1
}

/// `info` with the `width` bits from bit `offset` on replaced by `bits`.
pub open spec fn with_bits(info: u32, offset: u32, width: u32, bits: u32) -> u32 {
    info & !((!(0xFFFF_FFFFu32 << width)) << offset) | (bits << offset)
}

proof fn bv_field_ranges(info: u32)
    by (bit_vector)
    ensures
        info & 0xF < 16,
        (info >> 4) & 1 < 2,
        (info >> 5) & 1 < 2,
        (info >> 6) & 7 < 8,
        (info >> 9) & 0xFF < 256,
        info >> 17 < 32768,
        0u32 & 0xF == 0,
        (0u32 >> 4) & 1 == 0,
        (0u32 >> 5) & 1 == 0,
        (0u32 >> 6) & 7 == 0,
        (0u32 >> 9) & 0xFF == 0,
        0u32 >> 17 == 0,
{
}

proof fn bv_set_right(info: u32, q: u32, v: u32, j: u32)
    by (bit_vector)
    requires
        q < 4,
        v < 2,
        j < 4,
    ensures
        ((info & !((!(0xFFFF_FFFFu32 << 1)) << q) | (v << q)) >> 4) == info >> 4,
        (((info & !((!(0xFFFF_FFFFu32 << 1)) << q) | (v << q)) >> j) & 1 == 1) == (if j == q {
            v == 1
        } else {
            (info >> j) & 1 == 1
        }),
        ((info & !(1u32 << q)) >> 4) == info >> 4,
        (((info & !(1u32 << q)) >> j) & 1 == 1) == (j != q && (info >> j) & 1 == 1),
        (info & !(1u32 << q)) & 0xF == (info & 0xF) & !(1u32 << q),
{
}

proof fn bv_set_turn(info: u32, v: u32)
    by (bit_vector)
    requires
        v < 2,
    ensures
        ((info & !((!(0xFFFF_FFFFu32 << 1)) << 4) | (v << 4)) >> 4) & 1 == v,
        (info & !((!(0xFFFF_FFFFu32 << 1)) << 4) | (v << 4)) & 0xF == info & 0xF,
        ((info & !((!(0xFFFF_FFFFu32 << 1)) << 4) | (v << 4)) >> 5) == info >> 5,
        ((info ^ (1u32 << 4)) >> 4) & 1 == 1 - ((info >> 4) & 1),
        (info ^ (1u32 << 4)) & 0xF == info & 0xF,
        ((info ^ (1u32 << 4)) >> 5) == info >> 5,
{
}

proof fn bv_set_ep(info: u32, f: u32, code: u32)
    by (bit_vector)
    requires
        f < 8,
        code == 2 * f + 1,
    ensures
        (info & !(0xFu32 << 5)) & 0x1F == info & 0x1F,
        ((info & !(0xFu32 << 5)) >> 5) & 0xF == 0,
        ((info & !(0xFu32 << 5)) >> 9) == info >> 9,
        ((info & !(0xFu32 << 5)) | (code << 5)) & 0x1F == info & 0x1F,
        (((info & !(0xFu32 << 5)) | (code << 5)) >> 5) & 1 == 1,
        (((info & !(0xFu32 << 5)) | (code << 5)) >> 6) & 7 == f,
        (((info & !(0xFu32 << 5)) | (code << 5)) >> 9) == info >> 9,
{
}

proof fn bv_set_counters(info: u32, v: u32)
    by (bit_vector)
    ensures
        v < 256 ==> ((info & !((!(0xFFFF_FFFFu32 << 8)) << 9) | (v << 9)) >> 9) & 0xFF == v,
        v < 256 ==> (info & !((!(0xFFFF_FFFFu32 << 8)) << 9) | (v << 9)) & 0x1FF == info & 0x1FF,
        v < 256 ==> ((info & !((!(0xFFFF_FFFFu32 << 8)) << 9) | (v << 9)) >> 17) == info >> 17,
        v < 32768 ==> ((info & !((!(0xFFFF_FFFFu32 << 15)) << 17) | (v << 17)) >> 17) == v,
        v < 32768 ==> (info & !((!(0xFFFF_FFFFu32 << 15)) << 17) | (v << 17)) & 0x1FFFF == info
            & 0x1FFFF,
{
}

proof fn bv_low_fields(a: u32, b: u32)
    by (bit_vector)
    ensures
        a >> 4 == b >> 4 ==> (a >> 4) & 1 == (b >> 4) & 1 && a >> 5 == b >> 5,
        a >> 5 == b >> 5 ==> (a >> 5) & 1 == (b >> 5) & 1 && (a >> 6) & 7 == (b >> 6) & 7 && a >> 9
            == b >> 9,
        a >> 9 == b >> 9 ==> (a >> 9) & 0xFF == (b >> 9) & 0xFF && a >> 17 == b >> 17,
        a & 0x1FFFF == b & 0x1FFFF ==> a & 0x1FF == b & 0x1FF && (a >> 9) & 0xFF == (b >> 9) & 0xFF,
        a & 0x1FF == b & 0x1FF ==> a & 0x1F == b & 0x1F && (a >> 5) & 1 == (b >> 5) & 1 && (a >> 6)
            & 7 == (b >> 6) & 7,
        a & 0x1F == b & 0x1F ==> a & 0xF == b & 0xF && (a >> 4) & 1 == (b >> 4) & 1,
        (a >> 5) & 0xF == 0 ==> (a >> 5) & 1 == 0 && (a >> 6) & 7 == 0,
{
}

/// The six fields of two side-info words agree, but perhaps the castling rights.
pub open spec fn same_but_castling(a: u32, b: u32) -> bool {
    &&& turn_of(a) == turn_of(b)
    &&& ep_flag_of(a) == ep_flag_of(b)
    &&& ep_file_of(a) == ep_file_of(b)
    &&& halfmove_of(a) == halfmove_of(b)
    &&& fullmove_of(a) == fullmove_of(b)
}

/// The six fields of two side-info words agree, but perhaps the en-passant target.
pub open spec fn same_but_ep(a: u32, b: u32) -> bool {
    &&& castling_of(a) == castling_of(b)
    &&& turn_of(a) == turn_of(b)
    &&& halfmove_of(a) == halfmove_of(b)
    &&& fullmove_of(a) == fullmove_of(b)
}

/// The six fields of two side-info words agree, but perhaps the counters.
pub open spec fn same_but_counters(a: u32, b: u32) -> bool {
    &&& castling_of(a) == castling_of(b)
    &&& turn_of(a) == turn_of(b)
    &&& ep_flag_of(a) == ep_flag_of(b)
    &&& ep_file_of(a) == ep_file_of(b)
}

/// The bitboards say what the piece-on-square array says: a piece's
/// bitboard holds the squares on which that piece stands, a color's
/// occupancy the squares of its pieces, the full occupancy the squares that
/// are not empty. So the piece bitboards are pairwise disjoint, each
/// occupancy is the union of its six piece bitboards, and the full
/// occupancy is the union of the two, which are disjoint.
pub open spec fn placement_agrees(bitboard: [u64; 15], pieces: [Option<Piece>; 64]) -> bool {
    &&& forall|p: int, s: int|
        0 <= p < 12 && 0 <= s < 64 ==> #[trigger] bit(bitboard[p], s) == (pieces[s] == Some(
            Piece::spec_from_index(p as usize),
        ))
    &&& forall|c: int, s: int|
        0 <= c < 2 && 0 <= s < 64 ==> #[trigger] bit(bitboard[12 + c], s) == (pieces[s] is Some
            && pieces[s]->0.spec_color().spec_index() == c)
    &&& forall|s: int| 0 <= s < 64 ==> #[trigger] bit(bitboard[14], s) == (pieces[s] is Some)
}

/// Every field of a side-info word stays within its width.
pub proof fn lemma_field_ranges(info: u32)
    ensures
        castling_of(info) < 16,
        turn_of(info) < 2,
        ep_flag_of(info) < 2,
        ep_file_of(info) < 8,
        halfmove_of(info) < 256,
        fullmove_of(info) < 32768,
        castling_of(0) == 0 && turn_of(0) == 0 && ep_flag_of(0) == 0 && ep_file_of(0) == 0
            && halfmove_of(0) == 0 && fullmove_of(0) == 0,
{
    bv_field_ranges(info);
}

/// A chess position: where the pieces stand, whose turn it is, which
/// castling rights remain, the en-passant target, the two move counters,
/// and the hash of all but the counters.
///
/// The fields are open to callers, so a value of this type need not be
/// consistent. [`GameState::wf`] says when it is.
#[derive(Debug, Clone, Copy, PartialEq, Eq)]
pub struct GameState {
    /// Twelve piece bitboards by piece index, then white's occupancy,
    /// black's occupancy and the occupancy of both.
    pub bitboard: [u64; 15],
    /// The piece on each square, by square index.
    pub piece_on_square: [Option<Piece>; 64],
    /// Bits 0-3 castling rights, bit 4 black to move, bit 5 en-passant
    /// target present, bits 6-8 its file, bits 9-16 the halfmove counter,
    /// bits 17-31 the fullmove counter.
    pub fen_info: u32,
    pub zobrist_hash: u64,
}

impl GameState {
    /// The piece on each square, by square index.
    pub open spec fn board(&self) -> Seq<Option<Piece>> {
        self.piece_on_square@
    }

    pub open spec fn spec_turn(&self) -> Color {
        if turn_of(self.fen_info) == 0 {
            Color::White
        } else {
            Color::Black
        }
    }

    /// The file of the en-passant target, if there is one.
    pub open spec fn spec_ep_file(&self) -> Option<u32> {
        if ep_flag_of(self.fen_info) == 1 {
            Some(ep_file_of(self.fen_info))
        } else {
            None
        }
    }

    /// The hash that the position's features give.
    pub open spec fn spec_zobrist(&self) -> u64 {
        zobrist::position_hash(
            self.board(),
            turn_of(self.fen_info) == 1,
            castling_of(self.fen_info),
            self.spec_ep_file(),
        )
    }

    /// The bitboards say what the piece-on-square array says.
    pub open spec fn placement_wf(&self) -> bool {
        placement_agrees(self.bitboard, self.piece_on_square)
    }

    /// The stored hash is the hash of the position's features.
    pub open spec fn zobrist_wf(&self) -> bool {
        self.zobrist_hash == self.spec_zobrist()
    }

    /// How the stored hash differs from the hash of the position's
    /// features: zero where the two agree. The operations that keep the
    /// hash in step leave this difference as it is.
    pub open spec fn hash_offset(&self) -> u64 {
        self.zobrist_hash ^ self.spec_zobrist()
    }

    /// The stored hash is in step exactly when its offset is zero.
    pub proof fn lemma_offset_zero(&self)
        ensures
            self.zobrist_wf() == (self.hash_offset() == 0),
    {
        zobrist::lemma_xor(self.zobrist_hash, self.spec_zobrist(), 0);
    }

    /// The position is consistent: bitboards, piece-on-square array and hash agree.
    pub open spec fn wf(&self) -> bool {
        self.placement_wf() && self.zobrist_wf()
    }

    /// The position without pieces: white to move, no castling rights, no
    /// en-passant target, both counters zero.
    pub fn empty() -> (state: GameState)
        ensures
            state.wf(),
            state.fen_info == 0,
            forall|s: int| 0 <= s < 64 ==> state.piece_on_square[s] is None,
            forall|i: int| 0 <= i < 15 ==> state.bitboard[i] == 0,
    {
        let state = GameState {
            bitboard: [0; 15],
            piece_on_square: [None; 64],
            fen_info: 0,
            zobrist_hash: zobrist::castling_key(0),
        };
        proof {
            lemma_bit_ops();
            lemma_field_ranges(0);
            lemma_empty_placement_hash(state.board(), 64);
            zobrist::lemma_xor(0, zobrist::spec_castling_key(0), 0);
            zobrist::lemma_xor(zobrist::spec_castling_key(0), 0, 0);
        }
        state
    }

    /// Number of pieces of one kind and color, counted on its bitboard.
    pub fn count_piece(&self, piece: Piece) -> (count: u32)
        ensures
            count == popcount(self.bitboard[piece.index() as int]),
    {
        count_bits(self.bitboard[piece.index()])
    }

    pub fn piece_at_rc(&self, row: usize, col: usize) -> (piece: Option<Piece>)
        requires
            row < 8,
            col < 8,
        ensures
            piece == self.piece_on_square[8 * row + col],
    {
        self.piece_at(Square::from_rc(row, col))
    }

    /// The piece on a square, by the piece-on-square array.
    pub fn piece_at(&self, square: Square) -> (piece: Option<Piece>)
        ensures
            piece == self.piece_on_square[square.index() as int],
    {
        self.piece_on_square[square.index()]
    }

    /// The piece on a square, by the piece bitboards: the first whose
    /// bitboard holds the square. In a consistent position this is
    /// [`GameState::piece_at`].
    pub fn piece_at_bitboard(&self, square: Square) -> (piece: Option<Piece>)
        ensures
            match piece {
                Some(p) => bit(self.bitboard[p.index() as int], square.index() as int) && forall|
                    j: int,
                |
                    0 <= j < p.index() ==> !bit(self.bitboard[j], square.index() as int),
                None => forall|j: int| 0 <= j < 12 ==> !bit(self.bitboard[j], square.index() as int),
            },
            self.placement_wf() ==> piece == self.piece_on_square[square.index() as int],
    {
        let mask = square.mask();
        let mut i: usize = 0;
        while i < 12
            invariant
                i <= 12,
                forall|t: int| bit(mask, t) == (t == square.index()),
                forall|j: int| 0 <= j < i ==> !bit(self.bitboard[j], square.index() as int),
            decreases 12 - i,
        {
            proof {
                lemma_bit_ops();
            }
            if self.bitboard[i] & mask != 0 {
                proof {
                    if !bit(self.bitboard[i as int], square.index() as int) {
                        assert forall|t: int| 0 <= t < 64 implies bit(self.bitboard[i as int] & mask, t)
                            == bit(0, t) by {}
                        lemma_bits_equal(self.bitboard[i as int] & mask, 0);
                    }
                }
                return Some(Piece::from_index(i));
            }
            assert(!bit(self.bitboard[i as int] & mask, square.index() as int));
            i += 1;
        }
        proof {
            if self.placement_wf() {
                let s = square.index() as int;
                if self.piece_on_square[s] is Some {
                    let p = self.piece_on_square[s]->0;
                    assert(bit(self.bitboard[p.spec_index() as int], s));
                }
            }
        }
        None
    }

    pub fn full_occ(&self) -> (mask: u64)
        ensures
            mask == self.bitboard[14],
    {
        self.bitboard[FULL_OCCUPANCY]
    }

    pub fn occ(&self, color: Color) -> (mask: u64)
        ensures
            mask == self.bitboard[12 + color.index()],
    {
        self.bitboard[12 + color.index()]
    }

    /// The occupancy of the side to move.
    pub fn self_occ(&self) -> (mask: u64)
        ensures
            mask == self.bitboard[12 + self.spec_turn().index()],
    {
        self.occ(self.turn())
    }

    /// The occupancy of the side that is not to move.
    pub fn enemy_occ(&self) -> (mask: u64)
        ensures
            mask == self.bitboard[12 + self.spec_turn().inv().index()],
    {
        self.occ(self.turn().inv())
    }

    /// The hash of the position's features, computed from scratch.
    pub fn compute_zobrist(&self) -> (hash: u64)
        ensures
            hash == self.spec_zobrist(),
    {
        let mut hash: u64 = 0;
        let mut i: usize = 0;
        while i < 64
            invariant
                i <= 64,
                hash == zobrist::placement_hash(self.board(), i as int),
            decreases 64 - i,
        {
            let square = Square::from_index(i);
            let key = match self.piece_at(square) {
                None => 0,
                Some(p) => zobrist::piece_key(p, square),
            };
            hash = hash ^ key;
            i += 1;
        }
        proof {
            lemma_field_ranges(self.fen_info);
        }
        hash = hash ^ match self.turn() {
            Color::White => 0,
            Color::Black => zobrist::BLACK_TO_MOVE,
        };
        hash = hash ^ zobrist::castling_key(self.castling_code());
        hash ^ if self.ep_legal() {
            zobrist::ep_file_key(self.ep_code())
        } else {
            0
        }
    }

    /// Replaces the `num_bits` bits of the side-info word from bit `offset` on.
    pub fn set_fen_bits(&mut self, offset: u32, num_bits: u32, bits: u32)
        requires
            offset < 32,
            num_bits < 32,
        ensures
            final(self).fen_info == with_bits(old(self).fen_info, offset, num_bits, bits),
            final(self).bitboard == old(self).bitboard,
            final(self).piece_on_square == old(self).piece_on_square,
            final(self).zobrist_hash == old(self).zobrist_hash,
    {
        self.fen_info = self.fen_info & !((!(0xFFFF_FFFFu32 << num_bits)) << offset) | (bits
            << offset);
    }

    /// The castling rights, one bit per quadrant.
    pub fn castling_code(&self) -> (code: u32)
        ensures
            code == castling_of(self.fen_info),
            code < 16,
    {
        proof {
            lemma_field_ranges(self.fen_info);
        }
        self.fen_info & 0b1111
    }

    pub open spec fn spec_can_castle(&self, castling: Quadrant) -> bool {
        right_of(self.fen_info, castling.spec_index() as u32)
    }

    /// The castling right of a quadrant is granted.
    #[verifier::when_used_as_spec(spec_can_castle)]
    pub fn can_castle(&self, castling: Quadrant) -> (granted: bool)
        ensures
            granted == self.spec_can_castle(castling),
    {
        (self.fen_info >> (castling.index() as u32)) & 1 == 1
    }

    pub fn can_castle_any(&self) -> (granted: bool)
        ensures
            granted == (castling_of(self.fen_info) != 0),
    {
        self.castling_code() != 0
    }

    /// Takes a castling right away and keeps the hash in step.
    pub fn deny_castling(&mut self, castling: Quadrant)
        ensures
            forall|q: Quadrant|
                #[trigger] final(self).spec_can_castle(q) == (q != castling
                    && old(self).spec_can_castle(q)),
            castling_of(final(self).fen_info) == castling_of(old(self).fen_info) & !(1u32 << (
            castling.index() as u32)),
            same_but_castling(final(self).fen_info, old(self).fen_info),
            final(self).bitboard == old(self).bitboard,
            final(self).piece_on_square == old(self).piece_on_square,
            final(self).hash_offset() == old(self).hash_offset(),
    {
        let before = zobrist::castling_key(self.castling_code());
        let q = castling.index() as u32;
        proof {
            let info = self.fen_info;
            let next = info & !(1u32 << q);
            bv_set_right(info, q, 0, 0);
            bv_low_fields(next, info);
            assert forall|other: Quadrant|
                right_of(next, other.spec_index() as u32) == (other != castling && right_of(
                    info,
                    other.spec_index() as u32,
                )) by {
                bv_set_right(info, q, 0, other.spec_index() as u32);
            }
        }
        self.fen_info = self.fen_info & !(1u32 << q);
        let after = zobrist::castling_key(self.castling_code());
        self.zobrist_hash = self.zobrist_hash ^ before ^ after;
        proof {
            let p = zobrist::placement_hash(self.board(), 64);
            let t: u64 = if turn_of(self.fen_info) == 1 {
                zobrist::BLACK_TO_MOVE
            } else {
                0
            };
            let e: u64 = match self.spec_ep_file() {
                Some(f) => zobrist::spec_ep_file_key(f),
                None => 0,
            };
            zobrist::lemma_hash_parts(p, t, before, e, before ^ after);
            zobrist::lemma_xor(before, before, after);
            zobrist::lemma_xor(old(self).zobrist_hash, before, after);
            zobrist::lemma_xor(after, 0, 0);
            zobrist::lemma_xor(
                old(self).zobrist_hash,
                old(self).spec_zobrist(),
                before ^ after,
            );
        }
    }

    /// Grants or takes a castling right. The hash is left as it is.
    pub fn set_castling(&mut self, castling: Quadrant, can_castle: bool)
        ensures
            forall|q: Quadrant|
                #[trigger] final(self).spec_can_castle(q) == (if q == castling {
                    can_castle
                } else {
                    old(self).spec_can_castle(q)
                }),
            same_but_castling(final(self).fen_info, old(self).fen_info),
            final(self).bitboard == old(self).bitboard,
            final(self).piece_on_square == old(self).piece_on_square,
            final(self).zobrist_hash == old(self).zobrist_hash,
    {
        let q = castling.index() as u32;
        let v: u32 = if can_castle {
            1
        } else {
            0
        };
        proof {
            let info = self.fen_info;
            let next = with_bits(info, q, 1, v);
            bv_set_right(info, q, v, 0);
            bv_low_fields(next, info);
            assert forall|other: Quadrant|
                right_of(next, other.spec_index() as u32) == (if other == castling {
                    can_castle
                } else {
                    right_of(info, other.spec_index() as u32)
                }) by {
                bv_set_right(info, q, v, other.spec_index() as u32);
            }
        }
        self.set_fen_bits(CASTLING_OFFSET + q, 1, v);
    }

    /// The side to move: 0 for white, 1 for black.
    pub fn turn_code(&self) -> (code: u32)
        ensures
            code == turn_of(self.fen_info),
            code < 2,
    {
        proof {
            lemma_field_ranges(self.fen_info);
        }
        (self.fen_info >> TURN_OFFSET) & 1
    }

    /// The side to move.
    #[verifier::when_used_as_spec(spec_turn)]
    pub fn turn(&self) -> (color: Color)
        ensures
            color == self.spec_turn(),
    {
        if self.turn_code() == 0 {
            Color::White
        } else {
            Color::Black
        }
    }

    /// Hands the move to the other side and keeps the hash in step. The
    /// fullmove counter grows by one when black hands over, up to its limit.
    pub fn flip_turn(&mut self)
        ensures
            final(self).spec_turn() == old(self).spec_turn().inv(),
            fullmove_of(final(self).fen_info) == if old(self).spec_turn() == Color::Black
                && fullmove_of(old(self).fen_info) < FULLMOVE_CTR_MAX {
                (fullmove_of(old(self).fen_info) + 1) as u32
            } else {
                fullmove_of(old(self).fen_info)
            },
            castling_of(final(self).fen_info) == castling_of(old(self).fen_info),
            ep_flag_of(final(self).fen_info) == ep_flag_of(old(self).fen_info),
            ep_file_of(final(self).fen_info) == ep_file_of(old(self).fen_info),
            halfmove_of(final(self).fen_info) == halfmove_of(old(self).fen_info),
            final(self).bitboard == old(self).bitboard,
            final(self).piece_on_square == old(self).piece_on_square,
            final(self).hash_offset() == old(self).hash_offset(),
    {
        let full = self.fullmove_ctr();
        if self.turn_code() == 1 && full < FULLMOVE_CTR_MAX {
            self.set_fullmove_ctr(full + 1);
        }
        proof {
            let info = self.fen_info;
            let next = info ^ (1u32 << 4);
            bv_set_turn(info, 0);
            bv_low_fields(next, info);
            lemma_field_ranges(info);
            let p = zobrist::placement_hash(self.board(), 64);
            let t: u64 = if turn_of(info) == 1 {
                zobrist::BLACK_TO_MOVE
            } else {
                0
            };
            let c = zobrist::spec_castling_key(castling_of(info));
            let e: u64 = match self.spec_ep_file() {
                Some(f) => zobrist::spec_ep_file_key(f),
                None => 0,
            };
            zobrist::lemma_hash_parts(p, t, c, e, zobrist::BLACK_TO_MOVE);
            zobrist::lemma_xor(zobrist::BLACK_TO_MOVE, 0, 0);
            zobrist::lemma_xor(self.zobrist_hash, self.spec_zobrist(), zobrist::BLACK_TO_MOVE);
        }
        self.fen_info = self.fen_info ^ (1u32 << TURN_OFFSET);
        self.zobrist_hash = self.zobrist_hash ^ zobrist::BLACK_TO_MOVE;
    }

    /// Sets the side to move. The hash is left as it is.
    pub fn set_turn(&mut self, color: Color)
        ensures
            final(self).spec_turn() == color,
            castling_of(final(self).fen_info) == castling_of(old(self).fen_info),
            ep_flag_of(final(self).fen_info) == ep_flag_of(old(self).fen_info),
            ep_file_of(final(self).fen_info) == ep_file_of(old(self).fen_info),
            halfmove_of(final(self).fen_info) == halfmove_of(old(self).fen_info),
            fullmove_of(final(self).fen_info) == fullmove_of(old(self).fen_info),
            final(self).bitboard == old(self).bitboard,
            final(self).piece_on_square == old(self).piece_on_square,
            final(self).zobrist_hash == old(self).zobrist_hash,
    {
        let v = color.index() as u32;
        proof {
            let info = self.fen_info;
            bv_set_turn(info, v);
            bv_low_fields(with_bits(info, 4, 1, v), info);
        }
        self.set_fen_bits(TURN_OFFSET, 1, v);
    }

    /// Bit 5 of the side-info word, in place: not zero when there is an
    /// en-passant target.
    pub fn ep_legal_code(&self) -> (code: u32)
        ensures
            code == self.fen_info & (1u32 << 5),
    {
        self.fen_info & (1u32 << EP_LEGAL_OFFSET)
    }

    pub open spec fn spec_ep_legal(&self) -> bool {
        ep_flag_of(self.fen_info) == 1
    }

    /// There is an en-passant target.
    #[verifier::when_used_as_spec(spec_ep_legal)]
    pub fn ep_legal(&self) -> (legal: bool)
        ensures
            legal == self.spec_ep_legal(),
    {
        (self.fen_info >> EP_LEGAL_OFFSET) & 1 == 1
    }

    /// Removes the en-passant target and keeps the hash in step.
    pub fn deny_ep(&mut self)
        ensures
            !final(self).spec_ep_legal(),
            ep_flag_of(final(self).fen_info) == 0,
            ep_file_of(final(self).fen_info) == 0,
            same_but_ep(final(self).fen_info, old(self).fen_info),
            final(self).bitboard == old(self).bitboard,
            final(self).piece_on_square == old(self).piece_on_square,
            final(self).hash_offset() == old(self).hash_offset(),
    {
        let key = if self.ep_legal() {
            zobrist::ep_file_key(self.ep_code())
        } else {
            0
        };
        proof {
            let info = self.fen_info;
            let next = info & !(0xFu32 << 5);
            bv_set_ep(info, 0, 1);
            bv_low_fields(next, info);
            lemma_field_ranges(info);
            let p = zobrist::placement_hash(self.board(), 64);
            let t: u64 = if turn_of(info) == 1 {
                zobrist::BLACK_TO_MOVE
            } else {
                0
            };
            let c = zobrist::spec_castling_key(castling_of(info));
            zobrist::lemma_hash_parts(p, t, c, key, key);
            zobrist::lemma_xor(key, 0, 0);
            zobrist::lemma_xor(self.zobrist_hash, self.spec_zobrist(), key);
        }
        self.zobrist_hash = self.zobrist_hash ^ key;
        self.fen_info = self.fen_info & !(0b1111u32 << EP_LEGAL_OFFSET);
    }

    /// The file index of the en-passant target. Zero when there is none.
    pub fn ep_code(&self) -> (code: u32)
        ensures
            code == ep_file_of(self.fen_info),
            code < 8,
    {
        proof {
            lemma_field_ranges(self.fen_info);
        }
        (self.fen_info >> EP_TARGET_OFFSET) & 0b111
    }

    pub fn ep_file_num(&self) -> (file: usize)
        ensures
            file == ep_file_of(self.fen_info),
            file < 8,
    {
        self.ep_code() as usize
    }

    pub fn ep_file(&self) -> (file: File)
        ensures
            file.index() == ep_file_of(self.fen_info),
    {
        File::from_index(self.ep_file_num())
    }

    /// The row of an en-passant target: row 5 (rank 6) when white is to
    /// move, row 2 (rank 3) when black is.
    pub open spec fn spec_ep_row(&self) -> int {
        match self.spec_turn() {
            Color::White => 5,
            Color::Black => 2,
        }
    }

    /// The rank of an en-passant target for the side to move.
    pub fn ep_rank(&self) -> (rank: Rank)
        ensures
            rank.index() == self.spec_ep_row(),
    {
        match self.turn() {
            Color::White => Rank::Rank6,
            Color::Black => Rank::Rank3,
        }
    }

    /// The rank on which the side to move would leave an en-passant target.
    pub fn ep_rank_i(&self) -> (rank: Rank)
        ensures
            rank.index() == 7 - self.spec_ep_row(),
    {
        match self.turn() {
            Color::White => Rank::Rank3,
            Color::Black => Rank::Rank6,
        }
    }

    /// The index of the en-passant target square.
    pub open spec fn spec_ep_square_num(&self) -> int {
        8 * self.spec_ep_row() + ep_file_of(self.fen_info)
    }

    pub fn ep_square_num(&self) -> (square: usize)
        ensures
            square == self.spec_ep_square_num(),
            square < 64,
    {
        self.ep_file_num() + self.ep_rank().offset()
    }

    /// The en-passant target square. Meaningful when there is a target.
    pub fn ep_square(&self) -> (square: Square)
        ensures
            square.index() == self.spec_ep_square_num(),
    {
        Square::from_index(self.ep_square_num())
    }

    /// Sets the en-passant target to a file and keeps the hash in step.
    pub fn set_ep_target(&mut self, file: File)
        ensures
            final(self).spec_ep_legal(),
            ep_flag_of(final(self).fen_info) == 1,
            ep_file_of(final(self).fen_info) == file.index(),
            same_but_ep(final(self).fen_info, old(self).fen_info),
            final(self).bitboard == old(self).bitboard,
            final(self).piece_on_square == old(self).piece_on_square,
            final(self).hash_offset() == old(self).hash_offset(),
    {
        let f = file.index() as u32;
        let before = if self.ep_legal() {
            zobrist::ep_file_key(self.ep_code())
        } else {
            0
        };
        let after = zobrist::ep_file_key(f);
        let code: u32 = 2 * f + 1;
        let ghost info = self.fen_info;
        let ghost next = (info & !(0xFu32 << 5)) | (code << 5);
        assert(ep_flag_of(next) == 1 && ep_file_of(next) == f && same_but_ep(next, info)) by {
            bv_set_ep(info, f, code);
            bv_low_fields(next, info);
        }
        assert(zobrist::position_hash(
            self.board(),
            turn_of(info) == 1,
            castling_of(info),
            Some(f),
        ) == self.spec_zobrist() ^ (before ^ after)) by {
            let p = zobrist::placement_hash(self.board(), 64);
            let t: u64 = if turn_of(info) == 1 {
                zobrist::BLACK_TO_MOVE
            } else {
                0
            };
            let c = zobrist::spec_castling_key(castling_of(info));
            zobrist::lemma_hash_parts(p, t, c, before, before ^ after);
            zobrist::lemma_xor(before, before, after);
            zobrist::lemma_xor(after, 0, 0);
        }
        proof {
            zobrist::lemma_xor(self.zobrist_hash, self.spec_zobrist(), before ^ after);
        }
        self.zobrist_hash = self.zobrist_hash ^ (before ^ after);
        self.fen_info = (self.fen_info & !(0b1111u32 << EP_LEGAL_OFFSET)) | (code
            << EP_LEGAL_OFFSET);
    }

    /// Halfmoves since the last pawn move.
    pub fn halfmove_ctr(&self) -> (ctr: u32)
        ensures
            ctr == halfmove_of(self.fen_info),
            ctr <= HALFMOVE_CTR_MAX,
    {
        proof {
            lemma_field_ranges(self.fen_info);
        }
        (self.fen_info >> HALFMOVE_CTR_OFFSET) & 0xFF
    }

    /// A hundred halfmoves have passed without a pawn move.
    pub fn is_50_move_rule(&self) -> (claim: bool)
        ensures
            claim == (halfmove_of(self.fen_info) >= 100),
    {
        self.halfmove_ctr() >= 100
    }

    /// Sets the halfmove counter, to its limit if `ctr` is beyond it.
    pub fn set_halfmove_ctr(&mut self, ctr: u32)
        ensures
            halfmove_of(final(self).fen_info) == if ctr <= HALFMOVE_CTR_MAX {
                ctr
            } else {
                HALFMOVE_CTR_MAX
            },
            same_but_counters(final(self).fen_info, old(self).fen_info),
            fullmove_of(final(self).fen_info) == fullmove_of(old(self).fen_info),
            final(self).bitboard == old(self).bitboard,
            final(self).piece_on_square == old(self).piece_on_square,
            final(self).zobrist_hash == old(self).zobrist_hash,
    {
        let v = if ctr <= HALFMOVE_CTR_MAX {
            ctr
        } else {
            HALFMOVE_CTR_MAX
        };
        proof {
            let info = self.fen_info;
            bv_set_counters(info, v);
            bv_low_fields(with_bits(info, 9, 8, v), info);
        }
        self.set_fen_bits(HALFMOVE_CTR_OFFSET, HALFMOVE_CTR_BITS, v);
    }

    pub fn reset_halfmove_ctr(&mut self)
        ensures
            halfmove_of(final(self).fen_info) == 0,
            same_but_counters(final(self).fen_info, old(self).fen_info),
            fullmove_of(final(self).fen_info) == fullmove_of(old(self).fen_info),
            final(self).bitboard == old(self).bitboard,
            final(self).piece_on_square == old(self).piece_on_square,
            final(self).zobrist_hash == old(self).zobrist_hash,
    {
        self.set_halfmove_ctr(0);
    }

    /// Adds one to the halfmove counter, up to its limit.
    pub fn inc_halfmove_ctr(&mut self)
        ensures
            halfmove_of(final(self).fen_info) == if halfmove_of(old(self).fen_info)
                < HALFMOVE_CTR_MAX {
                (halfmove_of(old(self).fen_info) + 1) as u32
            } else {
                HALFMOVE_CTR_MAX
            },
            same_but_counters(final(self).fen_info, old(self).fen_info),
            fullmove_of(final(self).fen_info) == fullmove_of(old(self).fen_info),
            final(self).bitboard == old(self).bitboard,
            final(self).piece_on_square == old(self).piece_on_square,
            final(self).zobrist_hash == old(self).zobrist_hash,
    {
        let ctr = self.halfmove_ctr();
        self.set_halfmove_ctr(ctr + 1);
    }

    /// The number of the move to come, counted in pairs of halfmoves.
    pub fn fullmove_ctr(&self) -> (ctr: u32)
        ensures
            ctr == fullmove_of(self.fen_info),
            ctr <= FULLMOVE_CTR_MAX,
    {
        proof {
            lemma_field_ranges(self.fen_info);
        }
        self.fen_info >> FULLMOVE_CTR_OFFSET
    }

    /// Sets the fullmove counter, to its limit if `ctr` is beyond it.
    pub fn set_fullmove_ctr(&mut self, ctr: u32)
        ensures
            fullmove_of(final(self).fen_info) == if ctr <= FULLMOVE_CTR_MAX {
                ctr
            } else {
                FULLMOVE_CTR_MAX
            },
            same_but_counters(final(self).fen_info, old(self).fen_info),
            halfmove_of(final(self).fen_info) == halfmove_of(old(self).fen_info),
            final(self).bitboard == old(self).bitboard,
            final(self).piece_on_square == old(self).piece_on_square,
            final(self).zobrist_hash == old(self).zobrist_hash,
    {
        let v = if ctr <= FULLMOVE_CTR_MAX {
            ctr
        } else {
            FULLMOVE_CTR_MAX
        };
        proof {
            let info = self.fen_info;
            bv_set_counters(info, v);
            bv_low_fields(with_bits(info, 17, 15, v), info);
        }
        self.set_fen_bits(FULLMOVE_CTR_OFFSET, FULLMOVE_CTR_BITS, v);
    }

    /// Flips one square on the bitboard of `piece`, on the occupancy of its
    /// color and on the full occupancy, and the piece's key in the hash.
    /// Putting and removing are the same change on the bitboards; the
    /// piece-on-square array is left to the caller.
    pub fn change_piece_bitboard(&mut self, piece: Piece, square: Square)
        ensures
            final(self).bitboard@ == old(self).bitboard@.update(
                piece.index() as int,
                old(self).bitboard[piece.index() as int] ^ bitmask::spec_square_mask(square.index()),
            ).update(
                12 + piece.color().index(),
                old(self).bitboard[12 + piece.color().index()] ^ bitmask::spec_square_mask(square.index()),
            ).update(14, old(self).bitboard[14] ^ bitmask::spec_square_mask(square.index())),
            final(self).zobrist_hash == old(self).zobrist_hash ^ zobrist::spec_piece_key(
                piece.index() as int,
                square.index() as int,
            ),
            final(self).piece_on_square == old(self).piece_on_square,
            final(self).fen_info == old(self).fen_info,
    {
        let mask = square.mask();
        let p = piece.index();
        let c = piece.occ_index();
        self.bitboard[p] = self.bitboard[p] ^ mask;
        self.bitboard[c] = self.bitboard[c] ^ mask;
        self.bitboard[FULL_OCCUPANCY] = self.bitboard[FULL_OCCUPANCY] ^ mask;
        self.zobrist_hash = self.zobrist_hash ^ zobrist::piece_key(piece, square);
    }

    /// Takes `piece` off `square`, on which it stands.
    pub fn remove_piece(&mut self, piece: Piece, square: Square)
        requires
            old(self).placement_wf(),
            old(self).piece_on_square[square.index() as int] == Some(piece),
        ensures
            final(self).placement_wf(),
            final(self).board() == old(self).board().update(square.index() as int, None),
            final(self).fen_info == old(self).fen_info,
            final(self).hash_offset() == old(self).hash_offset(),
    {
        let ghost before = *self;
        self.change_piece_bitboard(piece, square);
        self.piece_on_square[square.index()] = None;
        proof {
            lemma_changed_placement(before, *self, piece, square, None);
        }
    }

    /// Puts `piece` on `square`, which is empty.
    pub fn put_piece(&mut self, piece: Piece, square: Square)
        requires
            old(self).placement_wf(),
            old(self).piece_on_square[square.index() as int] is None,
        ensures
            final(self).placement_wf(),
            final(self).board() == old(self).board().update(square.index() as int, Some(piece)),
            final(self).fen_info == old(self).fen_info,
            final(self).hash_offset() == old(self).hash_offset(),
    {
        let ghost before = *self;
        self.change_piece_bitboard(piece, square);
        self.piece_on_square[square.index()] = Some(piece);
        proof {
            lemma_changed_placement(before, *self, piece, square, Some(piece));
        }
    }
}

/// After flipping `piece` on `square` and writing the square's new
/// occupant, a consistent position is consistent again, provided the flip
/// matches the change: the piece was put on an empty square or taken off
/// the square on which it stood.
proof fn lemma_changed_placement(
    before: GameState,
    after: GameState,
    piece: Piece,
    square: Square,
    occupant: Option<Piece>,
)
    requires
        before.placement_wf(),
        occupant == Some(piece) && before.piece_on_square[square.spec_index() as int] is None
            || occupant is None && before.piece_on_square[square.spec_index() as int] == Some(
            piece,
        ),
        after.piece_on_square@ == before.piece_on_square@.update(
            square.spec_index() as int,
            occupant,
        ),
        after.fen_info == before.fen_info,
        after.bitboard@ == before.bitboard@.update(
            piece.spec_index() as int,
            before.bitboard[piece.spec_index() as int] ^ bitmask::spec_square_mask(
                square.spec_index(),
            ),
        ).update(
            12 + piece.spec_color().spec_index(),
            before.bitboard[12 + piece.spec_color().spec_index()] ^ bitmask::spec_square_mask(
                square.spec_index(),
            ),
        ).update(14, before.bitboard[14] ^ bitmask::spec_square_mask(square.spec_index())),
        after.zobrist_hash == before.zobrist_hash ^ zobrist::spec_piece_key(
            piece.spec_index() as int,
            square.spec_index() as int,
        ),
    ensures
        after.placement_wf(),
        after.hash_offset() == before.hash_offset(),
{
    let sq = square.spec_index() as int;
    let mask = bitmask::spec_square_mask(square.spec_index());
    let pi = piece.spec_index() as int;
    let ci = 12 + piece.spec_color().spec_index();
    lemma_bit_ops();
    crate::bits::lemma_bit_shifts();
    assert(forall|t: int| bit(mask, t) == (t == sq));
    assert forall|p: int, s: int| 0 <= p < 12 && 0 <= s < 64 implies #[trigger] bit(
        after.bitboard[p],
        s,
    ) == (after.piece_on_square[s] == Some(Piece::spec_from_index(p as usize))) by {
        assert(bit(before.bitboard[p], s) == (before.piece_on_square[s] == Some(
            Piece::spec_from_index(p as usize),
        )));
        if p == pi {
            assert(after.bitboard[p] == before.bitboard[p] ^ mask);
        } else {
            assert(after.bitboard[p] == before.bitboard[p]);
        }
    }
    assert forall|c: int, s: int| 0 <= c < 2 && 0 <= s < 64 implies #[trigger] bit(
        after.bitboard[12 + c],
        s,
    ) == (after.piece_on_square[s] is Some && after.piece_on_square[s]->0.spec_color().spec_index()
        == c) by {
        assert(bit(before.bitboard[12 + c], s) == (before.piece_on_square[s] is Some
            && before.piece_on_square[s]->0.spec_color().spec_index() == c));
        if 12 + c == ci {
            assert(after.bitboard[12 + c] == before.bitboard[12 + c] ^ mask);
        } else {
            assert(after.bitboard[12 + c] == before.bitboard[12 + c]);
        }
    }
    assert forall|s: int| 0 <= s < 64 implies #[trigger] bit(after.bitboard[14], s) == (
    after.piece_on_square[s] is Some) by {
        assert(bit(before.bitboard[14], s) == (before.piece_on_square[s] is Some));
        assert(after.bitboard[14] == before.bitboard[14] ^ mask);
    }
    let key = zobrist::spec_piece_key(pi, sq);
    let p = zobrist::placement_hash(before.board(), 64);
    let t: u64 = if turn_of(before.fen_info) == 1 {
        zobrist::BLACK_TO_MOVE
    } else {
        0
    };
    let c = zobrist::spec_castling_key(castling_of(before.fen_info));
    let e: u64 = match before.spec_ep_file() {
        Some(f) => zobrist::spec_ep_file_key(f),
        None => 0,
    };
    zobrist::lemma_placement_update(before.board(), sq, occupant, 64);
    zobrist::lemma_xor(p, key, 0);
    zobrist::lemma_xor(p, 0, key);
    zobrist::lemma_hash_parts(p, t, c, e, key);
    assert(after.spec_zobrist() == before.spec_zobrist() ^ key);
    zobrist::lemma_xor(before.zobrist_hash, before.spec_zobrist(), key);
}

/// A board without pieces hashes to zero.
pub proof fn lemma_empty_placement_hash(board: Seq<Option<Piece>>, n: int)
    requires
        0 <= n <= board.len(),
        forall|s: int| 0 <= s < n ==> board[s] is None,
    ensures
        zobrist::placement_hash(board, n) == 0,
    decreases n,
{
    if n > 0 {
        lemma_empty_placement_hash(board, n - 1);
        zobrist::lemma_xor(0, 0, 0);
    }
}

/// Consistent positions with the same pieces on the same squares, the same
/// side info and the same hash are the same position, bitboards included.
pub proof fn lemma_same_position(a: GameState, b: GameState)
    requires
        a.placement_wf(),
        b.placement_wf(),
        a.board() == b.board(),
        a.fen_info == b.fen_info,
        a.zobrist_hash == b.zobrist_hash,
    ensures
        a == b,
{
    assert forall|i: int| 0 <= i < 15 implies a.bitboard[i] == b.bitboard[i] by {
        assert forall|s: int| 0 <= s < 64 implies bit(a.bitboard[i], s) == bit(b.bitboard[i], s) by {
            assert(a.piece_on_square[s] == b.board()[s]);
            if i < 12 {
            } else if i < 14 {
                assert(bit(a.bitboard[12 + (i - 12)], s) == bit(b.bitboard[12 + (i - 12)], s));
            } else {
            }
        }
        lemma_bits_equal(a.bitboard[i], b.bitboard[i]);
    }
    assert(a.bitboard =~= b.bitboard);
    assert(a.piece_on_square =~= b.piece_on_square);
}

/// Positions with the same pieces on the same squares, the same side to
/// move, the same castling rights and the same en-passant target have the
/// same hash, whatever their move counters are.
pub proof fn lemma_hash_of_features(a: GameState, b: GameState)
    requires
        a.zobrist_wf(),
        b.zobrist_wf(),
        a.board() == b.board(),
        a.spec_turn() == b.spec_turn(),
        castling_of(a.fen_info) == castling_of(b.fen_info),
        a.spec_ep_file() == b.spec_ep_file(),
    ensures
        a.zobrist_hash == b.zobrist_hash,
{
    lemma_field_ranges(a.fen_info);
    lemma_field_ranges(b.fen_info);
}

/// In a consistent position each color's occupancy is the union of its six
/// piece bitboards, the full occupancy is the union of the two occupancies,
/// the two are disjoint, and so are any two piece bitboards.
pub proof fn lemma_occupancy_derivation(state: GameState)
    requires
        state.placement_wf(),
    ensures
        state.bitboard[12] == state.bitboard[0] | state.bitboard[1] | state.bitboard[2]
            | state.bitboard[3] | state.bitboard[4] | state.bitboard[5],
        state.bitboard[13] == state.bitboard[6] | state.bitboard[7] | state.bitboard[8]
            | state.bitboard[9] | state.bitboard[10] | state.bitboard[11],
        state.bitboard[14] == state.bitboard[12] | state.bitboard[13],
        state.bitboard[12] & state.bitboard[13] == 0,
        forall|p: int, q: int|
            0 <= p < 12 && 0 <= q < 12 && p != q ==> #[trigger] (state.bitboard[p]
                & state.bitboard[q]) == 0,
{
    lemma_bit_ops();
    let bb = state.bitboard;
    let white = bb[0] | bb[1] | bb[2] | bb[3] | bb[4] | bb[5];
    let black = bb[6] | bb[7] | bb[8] | bb[9] | bb[10] | bb[11];
    assert forall|s: int| 0 <= s < 64 implies bit(bb[12], s) == bit(white, s) by {
        assert(bit(bb[12 + 0int], s) == (state.piece_on_square[s] is Some
            && state.piece_on_square[s]->0.spec_color().spec_index() == 0));
        if state.piece_on_square[s] is Some {
            let p = state.piece_on_square[s]->0;
            assert(bit(bb[p.spec_index() as int], s));
        }
    }
    lemma_bits_equal(bb[12], white);
    assert forall|s: int| 0 <= s < 64 implies bit(bb[13], s) == bit(black, s) by {
        assert(bit(bb[12 + 1int], s) == (state.piece_on_square[s] is Some
            && state.piece_on_square[s]->0.spec_color().spec_index() == 1));
        if state.piece_on_square[s] is Some {
            let p = state.piece_on_square[s]->0;
            assert(bit(bb[p.spec_index() as int], s));
        }
    }
    lemma_bits_equal(bb[13], black);
    assert forall|s: int| 0 <= s < 64 implies bit(bb[14], s) == bit(bb[12] | bb[13], s) by {
        assert(bit(bb[12 + 0int], s) == (state.piece_on_square[s] is Some
            && state.piece_on_square[s]->0.spec_color().spec_index() == 0));
        assert(bit(bb[12 + 1int], s) == (state.piece_on_square[s] is Some
            && state.piece_on_square[s]->0.spec_color().spec_index() == 1));
    }
    lemma_bits_equal(bb[14], bb[12] | bb[13]);
    assert forall|s: int| 0 <= s < 64 implies bit(bb[12] & bb[13], s) == bit(0, s) by {
        assert(bit(bb[12 + 0int], s) == (state.piece_on_square[s] is Some
            && state.piece_on_square[s]->0.spec_color().spec_index() == 0));
        assert(bit(bb[12 + 1int], s) == (state.piece_on_square[s] is Some
            && state.piece_on_square[s]->0.spec_color().spec_index() == 1));
    }
    lemma_bits_equal(bb[12] & bb[13], 0);
    assert forall|p: int, q: int| 0 <= p < 12 && 0 <= q < 12 && p != q implies #[trigger] (bb[p]
        & bb[q]) == 0 by {
        assert forall|s: int| 0 <= s < 64 implies bit(bb[p] & bb[q], s) == bit(0, s) by {
            assert(bit(bb[p], s) == (state.piece_on_square[s] == Some(
                Piece::spec_from_index(p as usize),
            )));
            assert(bit(bb[q], s) == (state.piece_on_square[s] == Some(
                Piece::spec_from_index(q as usize),
            )));
        }
        lemma_bits_equal(bb[p] & bb[q], 0);
    }
}

} // verus!
