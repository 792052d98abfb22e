//! Masks over the 64 squares: lines, board regions, and the squares each
//! piece reaches on an empty board. Every mask is stated by the squares it
//! holds, in rows and columns.

use vstd::prelude::*;
use crate::bits::{bit, lemma_bit_ops, lemma_bit_shifts};
use crate::board::color::Color;
use crate::board::direction::Direction;

verus! {

pub const NO_SQUARES: u64 = 0;

pub const ALL_SQUARES: u64 = 0xFFFF_FFFF_FFFF_FFFF;

pub const DARK_SQUARES: u64 = 0xAA55_AA55_AA55_AA55;

pub const LIGHT_SQUARES: u64 = 0x55AA_55AA_55AA_55AA;

pub const FILE_A: u64 = 0x0101_0101_0101_0101;

pub const RANK_1: u64 = 0xFF;

pub const MAIN_DIAGONAL: u64 = 0x8040_2010_0804_0201;

pub const MAIN_ANTIDIAGONAL: u64 = 0x0102_0408_1020_4080;

pub const CENTER_FILES: u64 = 0x1818_1818_1818_1818;

pub const FLANK_FILES: u64 = 0x2424_2424_2424_2424;

pub const WING_FILES: u64 = 0x4242_4242_4242_4242;

pub const EDGE_FILES: u64 = 0x8181_8181_8181_8181;

pub const CENTER_RANKS: u64 = 0x0000_00FF_FF00_0000;

pub const FLANK_RANKS: u64 = 0x0000_FF00_00FF_0000;

pub const WING_RANKS: u64 = 0x00FF_0000_0000_FF00;

pub const EDGE_RANKS: u64 = 0xFF00_0000_0000_00FF;

pub const EDGES: u64 = 0xFF81_8181_8181_81FF;

pub const WINGS: u64 = 0x007E_4242_4242_7E00;

pub const FLANKS: u64 = 0x0000_3C24_243C_0000;

pub const CENTER: u64 = 0x0000_0018_1800_0000;

/// Row and column `(r, c)` lie on the board.
pub open spec fn on_board(r: int, c: int) -> bool {
    0 <= r < 8 && 0 <= c < 8
}

/// Square `t` of a mask moved by `dr` rows and `dc` columns: set when the
/// square it came from is on the board and set in `mask`.
pub open spec fn shifted_bit(mask: u64, dr: int, dc: int, t: int) -> bool {
    let r = t / 8 - dr;
    let c = t % 8 - dc;
    0 <= t < 64 && on_board(r, c) && bit(mask, 8 * r + c)
}

pub open spec fn abs_diff(a: int, b: int) -> int {
    if a >= b {
        a - b
    } else {
        b - a
    }
}

/// Number of king steps between two squares.
pub open spec fn distance(s: int, t: int) -> int {
    let dr = abs_diff(s / 8, t / 8);
    let dc = abs_diff(s % 8, t % 8);
    if dr >= dc {
        dr
    } else {
        dc
    }
}

/// Square `t` lies on the ray that leaves `s` in direction `d`; `s` itself does.
pub open spec fn on_ray(d: Direction, s: int, t: int) -> bool {
    let k = distance(s, t);
    t / 8 - s / 8 == d.rows(k) && t % 8 - s % 8 == d.cols(k)
}

proof fn bv_seed_a(t: u64)
    by (bit_vector)
    requires
        t < 64,
    ensures
        ((FILE_A >> t) & 1 == 1) <==> t % 8 == 0,
        ((RANK_1 >> t) & 1 == 1) <==> t / 8 == 0,
        ((MAIN_DIAGONAL >> t) & 1 == 1) <==> t / 8 == t % 8,
{
}

proof fn bv_seed_b(t: u64)
    by (bit_vector)
    requires
        t < 64,
    ensures
        ((MAIN_ANTIDIAGONAL >> t) & 1 == 1) <==> t / 8 + t % 8 == 7,
{
}

proof fn bv_seed_c(t: u64)
    by (bit_vector)
    requires
        t < 64,
    ensures
        ((DARK_SQUARES >> t) & 1 == 1) <==> (t / 8 + t % 8) % 2 == 0,
        ((LIGHT_SQUARES >> t) & 1 == 1) <==> (t / 8 + t % 8) % 2 == 1,
{
}

proof fn bv_seed_d(t: u64)
    by (bit_vector)
    requires
        t < 64,
    ensures
        ((EDGES >> t) & 1 == 1) <==> (t / 8 == 0 || t / 8 == 7 || t % 8 == 0 || t % 8 == 7),
{
}

/// The squares of the seed masks from which the tables are built.
pub proof fn lemma_seed_bits()
    ensures
        forall|t: int| 0 <= t < 64 ==> #[trigger] bit(FILE_A, t) == (t % 8 == 0),
        forall|t: int| 0 <= t < 64 ==> #[trigger] bit(RANK_1, t) == (t / 8 == 0),
        forall|t: int| 0 <= t < 64 ==> #[trigger] bit(MAIN_DIAGONAL, t) == (t / 8 == t % 8),
        forall|t: int| 0 <= t < 64 ==> #[trigger] bit(MAIN_ANTIDIAGONAL, t) == (t / 8 + t % 8 == 7),
        forall|t: int| 0 <= t < 64 ==> #[trigger] bit(DARK_SQUARES, t) == ((t / 8 + t % 8) % 2 == 0),
        forall|t: int| 0 <= t < 64 ==> #[trigger] bit(LIGHT_SQUARES, t) == ((t / 8 + t % 8) % 2 == 1),
        forall|t: int|
            0 <= t < 64 ==> #[trigger] bit(EDGES, t) == (t / 8 == 0 || t / 8 == 7 || t % 8 == 0 || t
                % 8 == 7),
{
    assert forall|t: int| 0 <= t < 64 implies #[trigger] bit(FILE_A, t) == (t % 8 == 0) by {
        bv_seed_a(t as u64);
    }
    assert forall|t: int| 0 <= t < 64 implies #[trigger] bit(RANK_1, t) == (t / 8 == 0) by {
        bv_seed_a(t as u64);
    }
    assert forall|t: int| 0 <= t < 64 implies #[trigger] bit(MAIN_DIAGONAL, t) == (t / 8 == t
        % 8) by {
        bv_seed_a(t as u64);
    }
    assert forall|t: int| 0 <= t < 64 implies #[trigger] bit(MAIN_ANTIDIAGONAL, t) == (t / 8 + t
        % 8 == 7) by {
        bv_seed_b(t as u64);
    }
    assert forall|t: int| 0 <= t < 64 implies #[trigger] bit(DARK_SQUARES, t) == ((t / 8 + t % 8)
        % 2 == 0) by {
        bv_seed_c(t as u64);
    }
    assert forall|t: int| 0 <= t < 64 implies #[trigger] bit(LIGHT_SQUARES, t) == ((t / 8 + t % 8)
        % 2 == 1) by {
        bv_seed_c(t as u64);
    }
    assert forall|t: int| 0 <= t < 64 implies #[trigger] bit(EDGES, t) == (t / 8 == 0 || t / 8 == 7
        || t % 8 == 0 || t % 8 == 7) by {
        bv_seed_d(t as u64);
    }
}

/// One square moved `k` steps along a direction lands exactly on the square
/// of the ray at distance `k`.
pub proof fn lemma_ray_step(d: Direction, start: u64, s: int, k: int, t: int)
    requires
        0 <= s < 64,
        0 <= t < 64,
        0 <= k < 8,
        forall|u: int| bit(start, u) == (u == s),
    ensures
        shifted_bit(start, d.rows(k), d.cols(k), t) == (on_ray(d, s, t) && distance(s, t) == k),
{
    let r = t / 8 - d.rows(k);
    let c = t % 8 - d.cols(k);
    if on_board(r, c) {
        assert(bit(start, 8 * r + c) == (8 * r + c == s));
        assert((8 * r + c == s) == (r == s / 8 && c == s % 8));
    }
}

pub open spec fn spec_square_mask(i: usize) -> u64 {
    1u64 << (i as u64)
}

/// The mask that holds square `i` alone.
#[verifier::when_used_as_spec(spec_square_mask)]
pub fn square_mask(i: usize) -> (mask: u64)
    requires
        i < 64,
    ensures
        mask == spec_square_mask(i),
        forall|t: int| bit(mask, t) == (t == i),
{
    proof {
        lemma_bit_shifts();
    }
    1u64 << (i as u64)
}

pub open spec fn spec_file_mask(i: usize) -> u64 {
    FILE_A << (i as u64)
}

/// The squares of file `i`.
#[verifier::when_used_as_spec(spec_file_mask)]
pub fn file_mask(i: usize) -> (mask: u64)
    requires
        i < 8,
    ensures
        mask == spec_file_mask(i),
        forall|t: int| 0 <= t < 64 ==> #[trigger] bit(mask, t) == (t % 8 == i),
{
    proof {
        lemma_bit_shifts();
        lemma_seed_bits();
    }
    FILE_A << (i as u64)
}

pub open spec fn spec_rank_mask(i: usize) -> u64 {
    RANK_1 << ((8 * i) as u64)
}

/// The squares of rank `i`.
#[verifier::when_used_as_spec(spec_rank_mask)]
pub fn rank_mask(i: usize) -> (mask: u64)
    requires
        i < 8,
    ensures
        mask == spec_rank_mask(i),
        forall|t: int| 0 <= t < 64 ==> #[trigger] bit(mask, t) == (t / 8 == i),
{
    proof {
        lemma_bit_shifts();
        lemma_seed_bits();
    }
    RANK_1 << ((8 * i) as u64)
}

/// The `n` leftmost files (a first).
pub fn left_files(n: usize) -> (mask: u64)
    requires
        n <= 8,
    ensures
        forall|t: int| 0 <= t < 64 ==> #[trigger] bit(mask, t) == (t % 8 < n),
{
    let mut mask: u64 = 0;
    let mut j: usize = 0;
    proof {
        lemma_bit_ops();
    }
    while j < n
        invariant
            j <= n <= 8,
            forall|t: int| 0 <= t < 64 ==> #[trigger] bit(mask, t) == (t % 8 < j),
        decreases n - j,
    {
        let file = file_mask(j);
        proof {
            lemma_bit_ops();
        }
        mask = mask | file;
        j += 1;
    }
    mask
}

/// The `n` rightmost files (h first).
pub fn right_files(n: usize) -> (mask: u64)
    requires
        n <= 8,
    ensures
        forall|t: int| 0 <= t < 64 ==> #[trigger] bit(mask, t) == (t % 8 >= 8 - n),
{
    let mut mask: u64 = 0;
    let mut j: usize = 0;
    proof {
        lemma_bit_ops();
    }
    while j < n
        invariant
            j <= n <= 8,
            forall|t: int| 0 <= t < 64 ==> #[trigger] bit(mask, t) == (t % 8 >= 8 - j),
        decreases n - j,
    {
        let file = file_mask(7 - j);
        proof {
            lemma_bit_ops();
        }
        mask = mask | file;
        j += 1;
    }
    mask
}

/// The `n` lowest ranks (rank 1 first).
pub fn bottom_ranks(n: usize) -> (mask: u64)
    requires
        n <= 8,
    ensures
        forall|t: int| 0 <= t < 64 ==> #[trigger] bit(mask, t) == (t / 8 < n),
{
    let mut mask: u64 = 0;
    let mut j: usize = 0;
    proof {
        lemma_bit_ops();
    }
    while j < n
        invariant
            j <= n <= 8,
            forall|t: int| 0 <= t < 64 ==> #[trigger] bit(mask, t) == (t / 8 < j),
        decreases n - j,
    {
        let rank = rank_mask(j);
        proof {
            lemma_bit_ops();
        }
        mask = mask | rank;
        j += 1;
    }
    mask
}

/// The `n` highest ranks (rank 8 first).
pub fn top_ranks(n: usize) -> (mask: u64)
    requires
        n <= 8,
    ensures
        forall|t: int| 0 <= t < 64 ==> #[trigger] bit(mask, t) == (t / 8 >= 8 - n),
{
    let mut mask: u64 = 0;
    let mut j: usize = 0;
    proof {
        lemma_bit_ops();
    }
    while j < n
        invariant
            j <= n <= 8,
            forall|t: int| 0 <= t < 64 ==> #[trigger] bit(mask, t) == (t / 8 >= 8 - j),
        decreases n - j,
    {
        let rank = rank_mask(7 - j);
        proof {
            lemma_bit_ops();
        }
        mask = mask | rank;
        j += 1;
    }
    mask
}

/// Moves `mask` by `n` files towards the a-file.
pub fn shift_left(mask: u64, n: usize) -> (shifted: u64)
    ensures
        forall|t: int| 0 <= t < 64 ==> #[trigger] bit(shifted, t) == shifted_bit(mask, 0, -n, t),
{
    proof {
        lemma_bit_ops();
        lemma_bit_shifts();
    }
    if n >= 8 {
        return 0;
    }
    let kept = mask & !left_files(n);
    kept >> (n as u64)
}

/// Moves `mask` by `n` files towards the h-file.
pub fn shift_right(mask: u64, n: usize) -> (shifted: u64)
    ensures
        forall|t: int| 0 <= t < 64 ==> #[trigger] bit(shifted, t) == shifted_bit(mask, 0, n as int, t),
{
    proof {
        lemma_bit_ops();
        lemma_bit_shifts();
    }
    if n >= 8 {
        return 0;
    }
    let kept = mask & !right_files(n);
    kept << (n as u64)
}

/// Moves `mask` by `n` ranks towards rank 1.
pub fn shift_down(mask: u64, n: usize) -> (shifted: u64)
    ensures
        forall|t: int| 0 <= t < 64 ==> #[trigger] bit(shifted, t) == shifted_bit(mask, -n, 0, t),
{
    proof {
        lemma_bit_ops();
        lemma_bit_shifts();
    }
    if n >= 8 {
        return 0;
    }
    let kept = mask & !bottom_ranks(n);
    kept >> ((8 * n) as u64)
}

/// Moves `mask` by `n` ranks towards rank 8.
pub fn shift_up(mask: u64, n: usize) -> (shifted: u64)
    ensures
        forall|t: int| 0 <= t < 64 ==> #[trigger] bit(shifted, t) == shifted_bit(mask, n as int, 0, t),
{
    proof {
        lemma_bit_ops();
        lemma_bit_shifts();
    }
    if n >= 8 {
        return 0;
    }
    let kept = mask & !top_ranks(n);
    kept << ((8 * n) as u64)
}

/// The squares of the diagonal with index `i` (`7 - row + col`).
pub fn diagonal_mask(i: usize) -> (mask: u64)
    requires
        i < 15,
    ensures
        forall|t: int| 0 <= t < 64 ==> #[trigger] bit(mask, t) == (7 - t / 8 + t % 8 == i),
{
    proof {
        lemma_seed_bits();
    }
    if i < 7 {
        shift_left(MAIN_DIAGONAL, 7 - i)
    } else {
        shift_right(MAIN_DIAGONAL, i - 7)
    }
}

/// The squares of the anti-diagonal with index `i` (`row + col`).
pub fn anti_diagonal_mask(i: usize) -> (mask: u64)
    requires
        i < 15,
    ensures
        forall|t: int| 0 <= t < 64 ==> #[trigger] bit(mask, t) == (t / 8 + t % 8 == i),
{
    proof {
        lemma_seed_bits();
    }
    if i < 7 {
        shift_left(MAIN_ANTIDIAGONAL, 7 - i)
    } else {
        shift_right(MAIN_ANTIDIAGONAL, i - 7)
    }
}

/// One king step apart.
pub open spec fn king_step(s: int, t: int) -> bool {
    distance(s, t) == 1
}

/// One knight jump apart.
pub open spec fn knight_jump(s: int, t: int) -> bool {
    let dr = abs_diff(s / 8, t / 8);
    let dc = abs_diff(s % 8, t % 8);
    (dr == 1 && dc == 2) || (dr == 2 && dc == 1)
}

/// A pawn of `color` on `s` attacks `t`: one rank ahead, one file aside.
pub open spec fn pawn_attack(color: Color, s: int, t: int) -> bool {
    t / 8 - s / 8 == color.forward() && abs_diff(s % 8, t % 8) == 1
}

/// The row on which the pawns of `color` start.
pub open spec fn home_row(color: Color) -> int {
    match color {
        Color::White => 1,
        Color::Black => 6,
    }
}

/// A pawn of `color` on `s` may advance to `t` on an empty board: one rank
/// ahead, or two from its home rank.
pub open spec fn pawn_push(color: Color, s: int, t: int) -> bool {
    t % 8 == s % 8 && (t / 8 - s / 8 == color.forward() || (s / 8 == home_row(color) && t / 8 - s
        / 8 == 2 * color.forward()))
}

/// On one rank or one file; a square is on a line with itself.
pub open spec fn rook_line(s: int, t: int) -> bool {
    s / 8 == t / 8 || s % 8 == t % 8
}

/// On one diagonal or anti-diagonal; a square is on a line with itself.
pub open spec fn bishop_line(s: int, t: int) -> bool {
    abs_diff(s / 8, t / 8) == abs_diff(s % 8, t % 8)
}

/// The squares whose occupancy can change what a rook on `s` attacks: those
/// of its rank and file, without `s` and without the last square of each ray.
pub open spec fn rook_relevant(s: int, t: int) -> bool {
    t != s && ((s % 8 == t % 8 && 1 <= t / 8 <= 6) || (s / 8 == t / 8 && 1 <= t % 8 <= 6))
}

/// The squares whose occupancy can change what a bishop on `s` attacks: those
/// of its diagonals, without `s` and without the edge of the board.
pub open spec fn bishop_relevant(s: int, t: int) -> bool {
    t != s && bishop_line(s, t) && 1 <= t / 8 <= 6 && 1 <= t % 8 <= 6
}

/// The square that lies `rows` ranks above (`up`) or below and `cols` files
/// to the right (`right`) or left of square `i`, as a mask: empty when that
/// square is off the board.
pub fn offset_square(i: usize, up: bool, rows: usize, right: bool, cols: usize) -> (mask: u64)
    requires
        i < 64,
    ensures
        forall|t: int|
            0 <= t < 64 ==> #[trigger] bit(mask, t) == (t / 8 - i / 8 == (if up {
                rows as int
            } else {
                -rows
            }) && t % 8 - i % 8 == (if right {
                cols as int
            } else {
                -cols
            })),
{
    let start = square_mask(i);
    let ghost dr: int = if up {
        rows as int
    } else {
        -rows
    };
    let ghost dc: int = if right {
        cols as int
    } else {
        -cols
    };
    let column = if up {
        shift_up(start, rows)
    } else {
        shift_down(start, rows)
    };
    assert forall|t: int| 0 <= t < 64 implies #[trigger] bit(column, t) == (t / 8 - i / 8 == dr && t
        % 8 == i % 8) by {
        let r = t / 8 - dr;
        let c = t % 8;
        assert(bit(column, t) == shifted_bit(start, dr, 0, t));
        if on_board(r, c) {
            assert(bit(start, 8 * r + c) == (8 * r + c == i));
        }
    }
    let mask = if right {
        shift_right(column, cols)
    } else {
        shift_left(column, cols)
    };
    assert forall|t: int| 0 <= t < 64 implies #[trigger] bit(mask, t) == (t / 8 - i / 8 == dr && t
        % 8 - i % 8 == dc) by {
        let r = t / 8;
        let c = t % 8 - dc;
        assert(bit(mask, t) == shifted_bit(column, 0, dc, t));
        if on_board(r, c) {
            let u = 8 * r + c;
            assert(u / 8 == r && u % 8 == c);
            assert(bit(column, u) == (u / 8 - i / 8 == dr && u % 8 == i % 8));
        }
    }
    mask
}

/// The squares a king on square `i` may step to.
pub fn king_moves(i: usize) -> (mask: u64)
    requires
        i < 64,
    ensures
        forall|t: int| 0 <= t < 64 ==> #[trigger] bit(mask, t) == king_step(i as int, t),
{
    proof {
        lemma_bit_ops();
    }
    let ahead = offset_square(i, true, 1, true, 0) | offset_square(i, true, 1, true, 1)
        | offset_square(i, true, 1, false, 1);
    let beside = offset_square(i, true, 0, true, 1) | offset_square(i, true, 0, false, 1);
    let behind = offset_square(i, false, 1, true, 0) | offset_square(i, false, 1, true, 1)
        | offset_square(i, false, 1, false, 1);
    ahead | beside | behind
}

/// The squares a knight on square `i` may jump to.
pub fn knight_moves(i: usize) -> (mask: u64)
    requires
        i < 64,
    ensures
        forall|t: int| 0 <= t < 64 ==> #[trigger] bit(mask, t) == knight_jump(i as int, t),
{
    proof {
        lemma_bit_ops();
    }
    let tall = offset_square(i, false, 2, false, 1) | offset_square(i, false, 2, true, 1)
        | offset_square(i, true, 2, false, 1) | offset_square(i, true, 2, true, 1);
    let wide = offset_square(i, true, 1, false, 2) | offset_square(i, false, 1, false, 2)
        | offset_square(i, true, 1, true, 2) | offset_square(i, false, 1, true, 2);
    tall | wide
}

/// The squares a pawn of `color` on square `i` attacks.
pub fn pawn_attacks(color: Color, i: usize) -> (mask: u64)
    requires
        i < 64,
    ensures
        forall|t: int| 0 <= t < 64 ==> #[trigger] bit(mask, t) == pawn_attack(color, i as int, t),
{
    proof {
        lemma_bit_ops();
    }
    let up = color.index() == 0;
    offset_square(i, up, 1, false, 1) | offset_square(i, up, 1, true, 1)
}

/// The squares a pawn of `color` on square `i` may advance to on an empty
/// board: one step, and two from its home rank.
pub fn pawn_moves(color: Color, i: usize) -> (mask: u64)
    requires
        i < 64,
    ensures
        forall|t: int| 0 <= t < 64 ==> #[trigger] bit(mask, t) == pawn_push(color, i as int, t),
{
    proof {
        lemma_bit_ops();
    }
    let up = color.index() == 0;
    let home: usize = if up {
        1
    } else {
        6
    };
    let one = offset_square(i, up, 1, true, 0);
    if i / 8 == home {
        one | offset_square(i, up, 2, true, 0)
    } else {
        one
    }
}

/// The squares on the rank and file of square `i`, `i` itself included.
pub fn rook_rays(i: usize) -> (mask: u64)
    requires
        i < 64,
    ensures
        forall|t: int| 0 <= t < 64 ==> #[trigger] bit(mask, t) == rook_line(i as int, t),
{
    proof {
        lemma_bit_ops();
    }
    file_mask(i % 8) | rank_mask(i / 8)
}

/// The squares on the two diagonals of square `i`, `i` itself included.
pub fn bishop_rays(i: usize) -> (mask: u64)
    requires
        i < 64,
    ensures
        forall|t: int| 0 <= t < 64 ==> #[trigger] bit(mask, t) == bishop_line(i as int, t),
{
    proof {
        lemma_bit_ops();
    }
    diagonal_mask(7 - i / 8 + i % 8) | anti_diagonal_mask(i / 8 + i % 8)
}

/// The squares whose occupancy decides what a rook on square `i` attacks.
pub fn rook_relevant_occupancy(i: usize) -> (mask: u64)
    requires
        i < 64,
    ensures
        forall|t: int| 0 <= t < 64 ==> #[trigger] bit(mask, t) == rook_relevant(i as int, t),
{
    proof {
        lemma_bit_ops();
    }
    let file = file_mask(i % 8) & !rank_mask(0) & !rank_mask(7);
    let rank = rank_mask(i / 8) & !file_mask(0) & !file_mask(7);
    (file | rank) & !square_mask(i)
}

/// The squares whose occupancy decides what a bishop on square `i` attacks.
pub fn bishop_relevant_occupancy(i: usize) -> (mask: u64)
    requires
        i < 64,
    ensures
        forall|t: int| 0 <= t < 64 ==> #[trigger] bit(mask, t) == bishop_relevant(i as int, t),
{
    proof {
        lemma_bit_ops();
        lemma_seed_bits();
    }
    bishop_rays(i) & !EDGES & !square_mask(i)
}

/// The squares of one castling quadrant's quarter of the board: the e- to
/// h-files for the kingside, ranks 1 to 4 for white.
pub fn quadrant_mask(kingside: bool, white: bool) -> (mask: u64)
    ensures
        forall|t: int|
            0 <= t < 64 ==> #[trigger] bit(mask, t) == ((t % 8 >= 4) == kingside && (t / 8 < 4)
                == white),
{
    proof {
        lemma_bit_ops();
    }
    let files = if kingside {
        right_files(4)
    } else {
        left_files(4)
    };
    let ranks = if white {
        bottom_ranks(4)
    } else {
        top_ranks(4)
    };
    files & ranks
}

/// The file masks (`is_file`) or rank masks grown from the mask of the first line.
pub fn gen_lines(seed: u64, is_file: bool) -> (lines: [u64; 8])
    ensures
        forall|i: int|
            0 <= i < 8 ==> #[trigger] lines[i] == seed << ((if is_file {
                i
            } else {
                8 * i
            }) as u64),
{
    let mut lines: [u64; 8] = [seed; 8];
    let mut i: usize = 0;
    while i < 8
        invariant
            i <= 8,
            forall|j: int|
                0 <= j < i ==> #[trigger] lines[j] == seed << ((if is_file {
                    j
                } else {
                    8 * j
                }) as u64),
        decreases 8 - i,
    {
        let by: usize = if is_file {
            i
        } else {
            8 * i
        };
        lines[i] = seed << (by as u64);
        i += 1;
    }
    lines
}

/// Running unions of eight masks, from the first on or (`rev`) from the last
/// on: entry `i` is the union of `i` of them; entry 0 is empty.
pub fn cumulative(arr: [u64; 8], rev: bool) -> (sums: [u64; 9])
    ensures
        sums[0] == 0,
        forall|i: int|
            1 <= i < 9 ==> #[trigger] sums[i] == sums[i - 1] | arr[if rev {
                8 - i
            } else {
                i - 1
            }],
{
    let mut sums: [u64; 9] = [0; 9];
    let mut i: usize = 1;
    while i < 9
        invariant
            1 <= i <= 9,
            sums[0] == 0,
            forall|j: int|
                1 <= j < i ==> #[trigger] sums[j] == sums[j - 1] | arr[if rev {
                    8 - j
                } else {
                    j - 1
                }],
        decreases 9 - i,
    {
        let j: usize = if rev {
            8 - i
        } else {
            i - 1
        };
        sums[i] = sums[i - 1] | arr[j];
        i += 1;
    }
    sums
}

/// The fifteen parallels of a main diagonal: entry `i` is `seed` moved by
/// `i - 7` files.
pub fn gen_diags(seed: u64) -> (diags: [u64; 15])
    ensures
        forall|i: int, t: int|
            0 <= i < 15 && 0 <= t < 64 ==> #[trigger] bit(diags[i], t) == shifted_bit(
                seed,
                0,
                i - 7,
                t,
            ),
{
    let mut diags: [u64; 15] = [0; 15];
    let mut i: usize = 0;
    while i < 15
        invariant
            i <= 15,
            forall|j: int, t: int|
                0 <= j < i && 0 <= t < 64 ==> #[trigger] bit(diags[j], t) == shifted_bit(
                    seed,
                    0,
                    j - 7,
                    t,
                ),
        decreases 15 - i,
    {
        diags[i] = if i < 7 {
            shift_left(seed, 7 - i)
        } else {
            shift_right(seed, i - 7)
        };
        i += 1;
    }
    diags
}

/// The pawn attack masks of one color, by square.
pub fn gen_pawn_attacks(is_white: bool) -> (attacks: [u64; 64])
    ensures
        forall|i: int, t: int|
            0 <= i < 64 && 0 <= t < 64 ==> #[trigger] bit(attacks[i], t) == pawn_attack(
                if is_white {
                    Color::White
                } else {
                    Color::Black
                },
                i,
                t,
            ),
{
    let color = if is_white {
        Color::White
    } else {
        Color::Black
    };
    let mut attacks: [u64; 64] = [0; 64];
    let mut i: usize = 0;
    while i < 64
        invariant
            i <= 64,
            forall|j: int, t: int|
                0 <= j < i && 0 <= t < 64 ==> #[trigger] bit(attacks[j], t) == pawn_attack(
                    color,
                    j,
                    t,
                ),
        decreases 64 - i,
    {
        attacks[i] = pawn_attacks(color, i);
        i += 1;
    }
    attacks
}

/// What entry `s` of a table of rook or bishop lines holds at square `t`.
pub open spec fn piece_ray_bit(relevant_occupancy_only: bool, is_rook: bool, s: int, t: int) -> bool {
    if relevant_occupancy_only {
        if is_rook {
            rook_relevant(s, t)
        } else {
            bishop_relevant(s, t)
        }
    } else {
        if is_rook {
            rook_line(s, t)
        } else {
            bishop_line(s, t)
        }
    }
}

/// The table, by square, of the lines of a rook or of a bishop: the whole
/// lines, or only the squares whose occupancy matters to a slider.
pub fn gen_piece_rays(relevant_occupancy_only: bool, is_rook: bool) -> (rays: [u64; 64])
    ensures
        forall|i: int, t: int|
            0 <= i < 64 && 0 <= t < 64 ==> #[trigger] bit(rays[i], t) == piece_ray_bit(
                relevant_occupancy_only,
                is_rook,
                i,
                t,
            ),
{
    let mut rays: [u64; 64] = [0; 64];
    let mut i: usize = 0;
    while i < 64
        invariant
            i <= 64,
            forall|j: int, t: int|
                0 <= j < i && 0 <= t < 64 ==> #[trigger] bit(rays[j], t) == piece_ray_bit(
                    relevant_occupancy_only,
                    is_rook,
                    j,
                    t,
                ),
        decreases 64 - i,
    {
        rays[i] = if relevant_occupancy_only {
            if is_rook {
                rook_relevant_occupancy(i)
            } else {
                bishop_relevant_occupancy(i)
            }
        } else {
            if is_rook {
                rook_rays(i)
            } else {
                bishop_rays(i)
            }
        };
        i += 1;
    }
    rays
}

} // verus!
