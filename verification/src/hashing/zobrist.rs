//! The keys of the position hash. A key is fixed by what it stands for: a
//! piece on a square, black to move, a pattern of castling rights, or the
//! file of an en-passant target. The hash of a position is the XOR of the
//! keys of its features.

use vstd::prelude::*;
use crate::board::piece::Piece;
use crate::board::square::Square;

verus! {

/// The key of black to move. White to move adds nothing to the hash.
pub const BLACK_TO_MOVE: u64 = 0xF8D6_26AA_AF27_8509;

/// A fixed 64-bit scrambling of `x`, bijective and far from linear.
pub closed spec fn spec_scramble(x: u64) -> u64 {
    let a = (x ^ (x >> 30)).wrapping_mul(0xBF58_476D_1CE4_E5B9);
    let b = (a ^ (a >> 27)).wrapping_mul(0x94D0_49BB_1331_11EB);
    b ^ (b >> 31)
}

#[verifier::when_used_as_spec(spec_scramble)]
pub fn scramble(x: u64) -> (key: u64)
    ensures
        key == spec_scramble(x),
{
    let a = (x ^ (x >> 30)).wrapping_mul(0xBF58_476D_1CE4_E5B9);
    let b = (a ^ (a >> 27)).wrapping_mul(0x94D0_49BB_1331_11EB);
    b ^ (b >> 31)
}

/// The `n`-th key of the table.
pub closed spec fn spec_nth_key(n: u64) -> u64 {
    spec_scramble(n.wrapping_mul(0x9E37_79B9_7F4A_7C15).wrapping_add(0x2545_F491_4F6C_DD1D))
}

#[verifier::when_used_as_spec(spec_nth_key)]
pub fn nth_key(n: u64) -> (key: u64)
    ensures
        key == spec_nth_key(n),
{
    scramble(n.wrapping_mul(0x9E37_79B9_7F4A_7C15).wrapping_add(0x2545_F491_4F6C_DD1D))
}

/// The key of the piece with index `piece` on the square with index `square`.
pub open spec fn spec_piece_key(piece: int, square: int) -> u64 {
    spec_nth_key((64 * piece + square) as u64)
}

/// The key of `piece` standing on `square`.
pub fn piece_key(piece: Piece, square: Square) -> (key: u64)
    ensures
        key == spec_piece_key(piece.index() as int, square.index() as int),
{
    nth_key((64 * piece.index() + square.index()) as u64)
}

/// The key of a pattern of castling rights, one bit per quadrant.
pub open spec fn spec_castling_key(code: u32) -> u64 {
    spec_nth_key((768 + code) as u64)
}

#[verifier::when_used_as_spec(spec_castling_key)]
pub fn castling_key(code: u32) -> (key: u64)
    requires
        code < 16,
    ensures
        key == spec_castling_key(code),
{
    nth_key((768 + code) as u64)
}

/// The key of an en-passant target on the file with index `file`.
pub open spec fn spec_ep_file_key(file: u32) -> u64 {
    spec_nth_key((784 + file) as u64)
}

#[verifier::when_used_as_spec(spec_ep_file_key)]
pub fn ep_file_key(file: u32) -> (key: u64)
    requires
        file < 8,
    ensures
        key == spec_ep_file_key(file),
{
    nth_key((784 + file) as u64)
}

/// What the occupant of square `s` adds to the hash.
pub open spec fn square_key(occupant: Option<Piece>, s: int) -> u64 {
    match occupant {
        None => 0,
        Some(p) => spec_piece_key(p.spec_index() as int, s),
    }
}

/// The XOR of the keys of the occupants of the first `n` squares.
pub open spec fn placement_hash(board: Seq<Option<Piece>>, n: int) -> u64
    decreases n,
{
    if n <= 0 {
        0
    } else {
        placement_hash(board, n - 1) ^ square_key(board[n - 1], n - 1)
    }
}

/// The hash of a position, from its features alone.
pub open spec fn position_hash(
    board: Seq<Option<Piece>>,
    black_to_move: bool,
    castling: u32,
    ep_file: Option<u32>,
) -> u64 {
    placement_hash(board, 64) ^ (if black_to_move {
        BLACK_TO_MOVE
    } else {
        0
    }) ^ spec_castling_key(castling) ^ (match ep_file {
        Some(f) => spec_ep_file_key(f),
        None => 0,
    })
}

proof fn bv_xor(a: u64, b: u64, c: u64)
    by (bit_vector)
    ensures
        a ^ b == b ^ a,
        (a ^ b) ^ c == a ^ (b ^ c),
        a ^ a == 0,
        a ^ 0 == a,
        0 ^ a == a,
        (a ^ b) ^ b == a,
        (a ^ b) ^ c == (a ^ c) ^ b,
        (a ^ c) ^ (b ^ c) == a ^ b,
        (a ^ b == 0) <==> (a == b),
{
}

/// XOR is commutative and associative, every value undoes itself, and
/// two values differ exactly where their XOR is not zero.
pub proof fn lemma_xor(a: u64, b: u64, c: u64)
    ensures
        a ^ b == b ^ a,
        (a ^ b) ^ c == a ^ (b ^ c),
        a ^ a == 0,
        a ^ 0 == a,
        0 ^ a == a,
        (a ^ b) ^ b == a,
        (a ^ b) ^ c == (a ^ c) ^ b,
        (a ^ c) ^ (b ^ c) == a ^ b,
        (a ^ b == 0) <==> (a == b),
{
    bv_xor(a, b, c);
}

/// Changing the occupant of one square changes the placement hash by the
/// old and the new key of that square.
pub proof fn lemma_placement_update(board: Seq<Option<Piece>>, s: int, occupant: Option<Piece>, n: int)
    requires
        0 <= s < board.len(),
        0 <= n <= board.len(),
    ensures
        placement_hash(board.update(s, occupant), n) == if s < n {
            placement_hash(board, n) ^ square_key(board[s], s) ^ square_key(occupant, s)
        } else {
            placement_hash(board, n)
        },
    decreases n,
{
    if n > 0 {
        lemma_placement_update(board, s, occupant, n - 1);
        let before = placement_hash(board, n - 1);
        let old_key = square_key(board[s], s);
        let new_key = square_key(occupant, s);
        if s == n - 1 {
            lemma_xor(before, old_key, new_key);
            lemma_xor(before ^ old_key, old_key, new_key);
        } else if s < n - 1 {
            let last = square_key(board[n - 1], n - 1);
            lemma_xor(before ^ old_key, new_key, last);
            lemma_xor(before, old_key, last);
        }
    }
}

proof fn bv_hash_parts(p: u64, t: u64, c: u64, e: u64, x: u64)
    by (bit_vector)
    ensures
        (((p ^ x) ^ t) ^ c) ^ e == (((p ^ t) ^ c) ^ e) ^ x,
        ((p ^ (t ^ x)) ^ c) ^ e == (((p ^ t) ^ c) ^ e) ^ x,
        ((p ^ t) ^ (c ^ x)) ^ e == (((p ^ t) ^ c) ^ e) ^ x,
        ((p ^ t) ^ c) ^ (e ^ x) == (((p ^ t) ^ c) ^ e) ^ x,
{
}

/// A hash of four parts follows a change `x` of any one part.
pub proof fn lemma_hash_parts(p: u64, t: u64, c: u64, e: u64, x: u64)
    ensures
        (((p ^ x) ^ t) ^ c) ^ e == (((p ^ t) ^ c) ^ e) ^ x,
        ((p ^ (t ^ x)) ^ c) ^ e == (((p ^ t) ^ c) ^ e) ^ x,
        ((p ^ t) ^ (c ^ x)) ^ e == (((p ^ t) ^ c) ^ e) ^ x,
        ((p ^ t) ^ c) ^ (e ^ x) == (((p ^ t) ^ c) ^ e) ^ x,
{
    bv_hash_parts(p, t, c, e, x);
}

} // verus!
