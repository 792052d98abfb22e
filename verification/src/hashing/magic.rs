//! Sliding attacks by multiplicative hashing of the blockers.
//!
//! For a rook or a bishop on a square, only the occupancy of a few squares
//! decides what it attacks. Those bits, multiplied by a constant chosen for
//! the square and shifted down, index a table that holds the attack set for
//! every pattern of blockers. The constants come from an offline search;
//! building the tables checks them.

use vstd::prelude::*;
use crate::bits::{bit, count_bits, lemma_bit_ops, lemma_bits_equal, popcount};
use crate::board::direction::Direction;
use super::bitmask;
use super::bitmask::{distance, on_ray};

verus! {

/// The multiplier of each square for rooks.
pub const ROOK_MAGICS: [u64; 64] = [
    0x0080004000976080, 0x1040400010002000, 0x4880200210000980, 0x5280080010000482,
    0x0200040200081020, 0x2100080100020400, 0x4280008001000200, 0x01000A4425820300,
    0x0029002100800040, 0x4503400040201004, 0x0209002001004018, 0x1131000A10002100,
    0x0009000800120500, 0x010E001804820010, 0x0029000402000100, 0x2002000D01C40292,
    0x0080084000200C40, 0x0010004040002002, 0x0201030020004014, 0x080012000A420020,
    0x0129010008001204, 0x6109010008040002, 0x0950010100020004, 0x00803A0000C50284,
    0x0080004100210080, 0x0000200240100140, 0x0020004040100800, 0x4018090300201000,
    0x4802010A00102004, 0x2001000900040002, 0x04A02104001002A8, 0x2188108200204401,
    0x0040400020800080, 0x0880402000401004, 0x0010040800202000, 0x0604410A02001020,
    0x200200206A001410, 0x0086000400810080, 0x428200040600080B, 0x2001000041000082,
    0x0080002000484000, 0x0210002002C24000, 0x401A200100410014, 0x0005021000A30009,
    0x0218000509010010, 0x4000400410080120, 0x0000020801040010, 0x0029040040820011,
    0x4080400024800280, 0x0500200040100440, 0x2880142001004100, 0x412020400A001200,
    0x018C028004080080, 0x0884001020080401, 0x0000210810420400, 0x0801048745040200,
    0x4401002040120082, 0x0000408200210012, 0x0000110008200441, 0x2010002004100901,
    0x0801000800040211, 0x480D000400820801, 0x0820104201280084, 0x1001040311802142,
];

/// The multiplier of each square for bishops.
pub const BISHOP_MAGICS: [u64; 64] = [
    0x0420410208004484, 0x0090100A00A22000, 0x0090028A004B0200, 0x0014304202003100,
    0x084A0A1028080001, 0x3008244420210004, 0x0104008450580000, 0x0480450400A01D14,
    0x00040C0408020408, 0x100208020C820200, 0x0000084805242000, 0x0004091401004940,
    0x2820040420400009, 0x049C008260200206, 0x02012404040A1802, 0x00204301180202A4,
    0x00C000203C850200, 0x1010200803880180, 0x0103000810410200, 0x400A440401020100,
    0x024C000210220801, 0x0008100A08021800, 0x000200A108010402, 0x4006040022220200,
    0x0B50041440080200, 0x0428600804010200, 0x0808080105020020, 0x0A81040040440080,
    0x0104040008C10040, 0x000040401A011028, 0x0006020240883100, 0x2422020640410080,
    0x0401084000A30400, 0x00080A1212280800, 0x0044010400204044, 0x0012401821060200,
    0x0406008400120020, 0x4802180602004052, 0x0202220040120800, 0x0008088062810100,
    0x1008010860600800, 0x0001621004001028, 0x040A010043080803, 0x001003C010400200,
    0x0400012012000100, 0x4010200041016090, 0x0003040C00800C08, 0x0052020401100021,
    0x1400411008204200, 0x0800240104104840, 0x011001440C040840, 0x015120022A080100,
    0x2081101132020148, 0x0014051408020400, 0x0409107040810000, 0x00A0188301182000,
    0x0820320304024020, 0x0000008844022000, 0x0400001900411054, 0x2045422010840400,
    0x1000000110021200, 0x5404044004080082, 0x0040151C0C040400, 0x2082280124040044,
];

/// The most blocker squares that matter to a rook.
pub const ROOK_MAX_BITS: u32 = 12;

/// The most blocker squares that matter to a bishop.
pub const BISHOP_MAX_BITS: u32 = 9;

/// The slot of a pattern of relevant blockers: the top `bits` bits of its
/// wrapping product with the multiplier.
pub open spec fn spec_magic_index(magic: u64, bits: u32, blockers: u64) -> u64 {
    magic.wrapping_mul(blockers) >> ((64 - bits) as u64)
}

proof fn bv_index_range(product: u64, bits: u64)
    by (bit_vector)
    requires
        1 <= bits <= 12,
    ensures
        product >> ((64 - bits) as u64) < (1u64 << bits),
        (1u64 << bits) <= 4096,
        (1u64 << bits) >= 2,
{
}

#[verifier::when_used_as_spec(spec_magic_index)]
pub fn magic_index(magic: u64, bits: u32, blockers: u64) -> (index: u64)
    requires
        1 <= bits <= 12,
    ensures
        index == spec_magic_index(magic, bits, blockers),
        index < (1u64 << (bits as u64)),
{
    let product = magic.wrapping_mul(blockers);
    proof {
        bv_index_range(product, bits as u64);
    }
    product >> ((64 - bits) as u64)
}

/// A slider on `s` reaches `t` along direction `d`: `t` is another square
/// of the ray, and no square strictly between the two is occupied.
pub open spec fn slides(occ: u64, d: Direction, s: int, t: int) -> bool {
    &&& 0 <= t < 64
    &&& t != s
    &&& on_ray(d, s, t)
    &&& forall|u: int|
        0 <= u < 64 && on_ray(d, s, u) && 0 < distance(s, u) < distance(s, t) ==> !#[trigger] bit(
            occ,
            u,
        )
}

/// A rook on `s` attacks `t` when the occupancy is `occ`.
pub open spec fn rook_attack(occ: u64, s: int, t: int) -> bool {
    slides(occ, Direction::North, s, t) || slides(occ, Direction::East, s, t) || slides(
        occ,
        Direction::South,
        s,
        t,
    ) || slides(occ, Direction::West, s, t)
}

/// A bishop on `s` attacks `t` when the occupancy is `occ`.
pub open spec fn bishop_attack(occ: u64, s: int, t: int) -> bool {
    slides(occ, Direction::Northeast, s, t) || slides(occ, Direction::Southeast, s, t) || slides(
        occ,
        Direction::Southwest,
        s,
        t,
    ) || slides(occ, Direction::Northwest, s, t)
}

/// A queen on `s` attacks `t` when the occupancy is `occ`.
pub open spec fn queen_attack(occ: u64, s: int, t: int) -> bool {
    rook_attack(occ, s, t) || bishop_attack(occ, s, t)
}

/// A rook (`is_rook`) or a bishop on `s` attacks `t` when the occupancy is `occ`.
pub open spec fn slider_attack(is_rook: bool, occ: u64, s: int, t: int) -> bool {
    if is_rook {
        rook_attack(occ, s, t)
    } else {
        bishop_attack(occ, s, t)
    }
}

/// The mask holds exactly the squares that the slider on `s` attacks.
pub open spec fn holds_attacks(entry: u64, is_rook: bool, occ: u64, s: int) -> bool {
    forall|t: int| 0 <= t < 64 ==> #[trigger] bit(entry, t) == slider_attack(is_rook, occ, s, t)
}

/// The mask holds exactly the squares whose occupancy matters to the slider on `s`.
pub open spec fn is_relevant_mask(mask: u64, is_rook: bool, s: int) -> bool {
    forall|t: int|
        0 <= t < 64 ==> #[trigger] bit(mask, t) == bitmask::piece_ray_bit(true, is_rook, s, t)
}

/// No two patterns of relevant blockers that share a slot differ in what
/// the slider attacks.
pub open spec fn collision_free(is_rook: bool, s: int, magic: u64, mask: u64, bits: u32) -> bool {
    forall|a: u64, b: u64|
        a & !mask == 0 && b & !mask == 0 && #[trigger] spec_magic_index(magic, bits, a)
            == #[trigger] spec_magic_index(magic, bits, b) ==> forall|t: int|
            0 <= t < 64 ==> slider_attack(is_rook, a, s, t) == slider_attack(is_rook, b, s, t)
}

/// The multiplier of a square.
pub open spec fn magic_of(is_rook: bool, s: int) -> u64 {
    if is_rook {
        ROOK_MAGICS[s]
    } else {
        BISHOP_MAGICS[s]
    }
}

/// The most relevant squares a slider has.
pub open spec fn max_bits(is_rook: bool) -> u32 {
    if is_rook {
        ROOK_MAX_BITS
    } else {
        BISHOP_MAX_BITS
    }
}

/// The multiplier of square `s` does its work: the relevant squares are
/// few enough for the table, and no collision is harmful.
pub open spec fn magic_fits(is_rook: bool, s: int) -> bool {
    forall|mask: u64| #[trigger]
        is_relevant_mask(mask, is_rook, s) ==> 1 <= popcount(mask) <= max_bits(is_rook)
            && collision_free(is_rook, s, magic_of(is_rook, s), mask, popcount(mask) as u32)
}

/// Every multiplier does its work.
pub open spec fn magics_fit() -> bool {
    forall|is_rook: bool, s: int| 0 <= s < 64 ==> #[trigger] magic_fits(is_rook, s)
}

/// The square `k` steps from `s` along `d`, where it is on the board, is
/// the one square of the ray at distance `k`.
pub proof fn lemma_ray_point(d: Direction, s: int, k: int, t: int)
    requires
        0 <= s < 64,
        0 <= t < 64,
        k >= 1,
    ensures
        (on_ray(d, s, t) && distance(s, t) == k) <==> (bitmask::on_board(
            s / 8 + d.rows(k),
            s % 8 + d.cols(k),
        ) && t == 8 * (s / 8 + d.rows(k)) + s % 8 + d.cols(k)),
{
    let r = s / 8 + d.rows(k);
    let c = s % 8 + d.cols(k);
    let dr = bitmask::abs_diff(s / 8, t / 8);
    let dc = bitmask::abs_diff(s % 8, t % 8);
    if bitmask::on_board(r, c) && t == 8 * r + c {
        assert(t / 8 == r && t % 8 == c);
        match d {
            Direction::North | Direction::South => {
                assert(dr == k && dc == 0);
            },
            Direction::East | Direction::West => {
                assert(dr == 0 && dc == k);
            },
            _ => {
                assert(dr == k && dc == k);
            },
        }
        assert(distance(s, t) == k);
    }
    if on_ray(d, s, t) && distance(s, t) == k {
        assert(t / 8 == r && t % 8 == c);
        assert(t == 8 * (t / 8) + t % 8);
    }
}

/// Once the walk along `d` has left the board after `k` steps, every
/// square of the ray is nearer than `k`.
pub proof fn lemma_ray_end(d: Direction, s: int, k: int, t: int)
    requires
        0 <= s < 64,
        0 <= t < 64,
        k >= 1,
        !bitmask::on_board(s / 8 + d.rows(k), s % 8 + d.cols(k)),
        on_ray(d, s, t),
    ensures
        distance(s, t) < k,
{
}

/// What the walk along a ray has gathered when it ends is what the slider
/// reaches along that ray.
proof fn lemma_walk_done(blockers: u64, moves: u64, d: Direction, s: int, k: int, blocked: bool)
    requires
        0 <= s < 64,
        1 <= k,
        forall|t: int|
            0 <= t < 64 ==> #[trigger] bit(moves, t) == (on_ray(d, s, t) && 0 < distance(s, t) < k),
        forall|u: int|
            0 <= u < 64 && on_ray(d, s, u) && 0 < distance(s, u) < k - (if blocked {
                1int
            } else {
                0int
            }) ==> !#[trigger] bit(blockers, u),
        blocked ==> k >= 2 && bitmask::on_board(s / 8 + d.rows(k - 1), s % 8 + d.cols(k - 1))
            && bit(blockers, 8 * (s / 8 + d.rows(k - 1)) + s % 8 + d.cols(k - 1)),
        !blocked ==> !bitmask::on_board(s / 8 + d.rows(k), s % 8 + d.cols(k)),
    ensures
        forall|t: int| 0 <= t < 64 ==> #[trigger] bit(moves, t) == slides(blockers, d, s, t),
{
    assert forall|t: int| 0 <= t < 64 implies #[trigger] bit(moves, t) == slides(
        blockers,
        d,
        s,
        t,
    ) by {
        if on_ray(d, s, t) && t != s {
            assert(distance(s, t) > 0);
            if blocked {
                let b = 8 * (s / 8 + d.rows(k - 1)) + s % 8 + d.cols(k - 1);
                lemma_ray_point(d, s, k - 1, b);
                if distance(s, t) < k {
                    assert(slides(blockers, d, s, t));
                } else {
                    assert(0 <= b < 64 && on_ray(d, s, b) && 0 < distance(s, b) < distance(s, t));
                    assert(bit(blockers, b));
                    assert(!slides(blockers, d, s, t));
                }
            } else {
                lemma_ray_end(d, s, k, t);
                assert(slides(blockers, d, s, t));
            }
        } else {
            assert(!slides(blockers, d, s, t));
            assert(!(on_ray(d, s, t) && 0 < distance(s, t) < k));
        }
    }
}

/// The squares a slider on `square` reaches along one direction: each
/// square of the ray up to the first occupied one, that one included.
pub fn sliding_move(blockers: u64, square: usize, direction: Direction) -> (moves: u64)
    requires
        square < 64,
    ensures
        forall|t: int|
            0 <= t < 64 ==> #[trigger] bit(moves, t) == slides(blockers, direction, square as int, t),
{
    let row: i32 = (square / 8) as i32;
    let col: i32 = (square % 8) as i32;
    let (dr, dc): (i32, i32) = match direction {
        Direction::Northwest => (1, -1),
        Direction::North => (1, 0),
        Direction::Northeast => (1, 1),
        Direction::East => (0, 1),
        Direction::Southeast => (-1, 1),
        Direction::South => (-1, 0),
        Direction::Southwest => (-1, -1),
        Direction::West => (0, -1),
    };
    let ghost s = square as int;
    let mut moves: u64 = 0;
    let mut r: i32 = row + dr;
    let mut c: i32 = col + dc;
    let mut k: i32 = 1;
    let mut blocked = false;
    proof {
        lemma_bit_ops();
    }
    while !blocked && 0 <= r && r < 8 && 0 <= c && c < 8
        invariant
            0 <= s < 64,
            s == square,
            row == s / 8,
            col == s % 8,
            dr == direction.rows(1),
            dc == direction.cols(1),
            1 <= k <= 8,
            r == row + direction.rows(k as int),
            c == col + direction.cols(k as int),
            forall|t: int|
                0 <= t < 64 ==> #[trigger] bit(moves, t) == (on_ray(direction, s, t) && 0
                    < distance(s, t) < k),
            forall|u: int|
                0 <= u < 64 && on_ray(direction, s, u) && 0 < distance(s, u) < k - (if blocked {
                    1int
                } else {
                    0int
                }) ==> !#[trigger] bit(blockers, u),
            blocked ==> k >= 2 && bitmask::on_board(
                s / 8 + direction.rows(k - 1),
                s % 8 + direction.cols(k - 1),
            ) && bit(blockers, 8 * (s / 8 + direction.rows(k - 1)) + s % 8 + direction.cols(k - 1)),
        decreases
                (if blocked {
                    0int
                } else {
                    9 - k
                }),
    {
        let target = (8 * r + c) as usize;
        let mask = bitmask::square_mask(target);
        let ghost before = moves;
        moves = moves | mask;
        proof {
            lemma_bit_ops();
            assert forall|t: int| 0 <= t < 64 implies #[trigger] bit(moves, t) == (on_ray(
                direction,
                s,
                t,
            ) && 0 < distance(s, t) < k + 1) by {
                lemma_ray_point(direction, s, k as int, t);
                assert(bit(moves, t) == (bit(before, t) || bit(mask, t)));
            }
        }
        if blockers & mask != 0 {
            blocked = true;
            proof {
                if !bit(blockers, target as int) {
                    assert forall|t: int| 0 <= t < 64 implies bit(blockers & mask, t) == bit(
                        0,
                        t,
                    ) by {}
                    lemma_bits_equal(blockers & mask, 0);
                }
            }
        } else {
            proof {
                assert(!bit(blockers & mask, target as int));
                assert forall|u: int|
                    0 <= u < 64 && on_ray(direction, s, u) && 0 < distance(s, u) < k
                        + 1 implies !#[trigger] bit(blockers, u) by {
                    lemma_ray_point(direction, s, k as int, u);
                }
            }
        }
        r = r + dr;
        c = c + dc;
        k = k + 1;
    }
    proof {
        lemma_walk_done(blockers, moves, direction, s, k as int, blocked);
    }
    moves
}

/// The squares a rook (`is_rook`) or a bishop on `square` attacks, found by
/// walking its four rays.
pub fn sliding_moves(is_rook: bool, square: usize, blockers: u64) -> (moves: u64)
    requires
        square < 64,
    ensures
        holds_attacks(moves, is_rook, blockers, square as int),
{
    proof {
        lemma_bit_ops();
    }
    if is_rook {
        sliding_move(blockers, square, Direction::North) | sliding_move(
            blockers,
            square,
            Direction::East,
        ) | sliding_move(blockers, square, Direction::South) | sliding_move(
            blockers,
            square,
            Direction::West,
        )
    } else {
        sliding_move(blockers, square, Direction::Northeast) | sliding_move(
            blockers,
            square,
            Direction::Southeast,
        ) | sliding_move(blockers, square, Direction::Southwest) | sliding_move(
            blockers,
            square,
            Direction::Northwest,
        )
    }
}

/// Only the relevant squares decide what a slider reaches along a ray.
pub proof fn lemma_relevant_ray(is_rook: bool, occ: u64, mask: u64, d: Direction, s: int, t: int)
    requires
        0 <= s < 64,
        is_relevant_mask(mask, is_rook, s),
        if is_rook {
            d == Direction::North || d == Direction::East || d == Direction::South || d
                == Direction::West
        } else {
            d == Direction::Northeast || d == Direction::Southeast || d == Direction::Southwest
                || d == Direction::Northwest
        },
    ensures
        slides(occ & mask, d, s, t) == slides(occ, d, s, t),
{
    lemma_bit_ops();
    if 0 <= t < 64 && t != s && on_ray(d, s, t) {
        assert forall|u: int|
            0 <= u < 64 && on_ray(d, s, u) && 0 < distance(s, u) < distance(s, t) implies bit(
            occ & mask,
            u,
        ) == bit(occ, u) by {
            assert(bit(mask, u) == bitmask::piece_ray_bit(true, is_rook, s, u));
        }
        if slides(occ, d, s, t) {
            assert forall|u: int|
                0 <= u < 64 && on_ray(d, s, u) && 0 < distance(s, u) < distance(
                    s,
                    t,
                ) implies !#[trigger] bit(occ & mask, u) by {
                assert(!bit(occ, u));
            }
        }
        if slides(occ & mask, d, s, t) {
            assert forall|u: int|
                0 <= u < 64 && on_ray(d, s, u) && 0 < distance(s, u) < distance(
                    s,
                    t,
                ) implies !#[trigger] bit(occ, u) by {
                assert(!bit(occ & mask, u));
            }
        }
    }
}

/// Only the relevant squares decide what a slider attacks.
pub proof fn lemma_relevant_blockers(is_rook: bool, occ: u64, mask: u64, s: int)
    requires
        0 <= s < 64,
        is_relevant_mask(mask, is_rook, s),
    ensures
        forall|t: int|
            0 <= t < 64 ==> slider_attack(is_rook, occ & mask, s, t) == slider_attack(
                is_rook,
                occ,
                s,
                t,
            ),
{
    assert forall|t: int| 0 <= t < 64 implies slider_attack(is_rook, occ & mask, s, t)
        == slider_attack(is_rook, occ, s, t) by {
        if is_rook {
            lemma_relevant_ray(is_rook, occ, mask, Direction::North, s, t);
            lemma_relevant_ray(is_rook, occ, mask, Direction::East, s, t);
            lemma_relevant_ray(is_rook, occ, mask, Direction::South, s, t);
            lemma_relevant_ray(is_rook, occ, mask, Direction::West, s, t);
        } else {
            lemma_relevant_ray(is_rook, occ, mask, Direction::Northeast, s, t);
            lemma_relevant_ray(is_rook, occ, mask, Direction::Southeast, s, t);
            lemma_relevant_ray(is_rook, occ, mask, Direction::Southwest, s, t);
            lemma_relevant_ray(is_rook, occ, mask, Direction::Northwest, s, t);
        }
    }
}

proof fn bv_next_subset(sub: u64, mask: u64, x: u64)
    by (bit_vector)
    requires
        sub & !mask == 0,
        x & !mask == 0,
    ensures
        (sub | !mask) == 0xFFFF_FFFF_FFFF_FFFFu64 <==> sub == mask,
        x <= mask,
        (sub | !mask) < 0xFFFF_FFFF_FFFF_FFFFu64 ==> ((((sub | !mask) + 1) as u64) & mask) & !mask
            == 0 && ((((sub | !mask) + 1) as u64) & mask) > sub && ((((sub | !mask) + 1) as u64)
            & mask) <= mask && (x > sub ==> x >= ((((sub | !mask) + 1) as u64) & mask)),
{
}

proof fn bv_subset_basics(mask: u64, x: u64)
    by (bit_vector)
    ensures
        (x & mask) & !mask == 0,
        0u64 & !mask == 0,
{
}

/// The subset of `mask` that follows `sub` when the subsets are counted up.
pub open spec fn next_subset(sub: u64, mask: u64) -> u64 {
    ((((sub | !mask) + 1) as u64) & mask)
}

/// Counting up the subsets of a mask skips none: the next subset is a
/// subset, it is larger, and no subset lies between the two. The mask
/// itself is the last.
pub proof fn lemma_next_subset(sub: u64, mask: u64, x: u64)
    requires
        sub & !mask == 0,
        x & !mask == 0,
    ensures
        (sub | !mask) == 0xFFFF_FFFF_FFFF_FFFFu64 <==> sub == mask,
        x <= mask,
        sub != mask ==> next_subset(sub, mask) & !mask == 0 && next_subset(sub, mask) > sub
            && next_subset(sub, mask) <= mask && (x > sub ==> x >= next_subset(sub, mask)),
{
    bv_next_subset(sub, mask, x);
}

/// What the table of one square has to hold: the relevant mask and its
/// count, a slot for every index, and in the slot of every pattern of
/// relevant blockers what the slider attacks against that pattern.
pub open spec fn square_ok(
    relevant: u64,
    bits: u32,
    slots: Seq<u64>,
    is_rook: bool,
    s: int,
) -> bool {
    &&& is_relevant_mask(relevant, is_rook, s)
    &&& bits == popcount(relevant)
    &&& 1 <= bits <= max_bits(is_rook)
    &&& slots.len() == (1u64 << (bits as u64))
    &&& slots_ok(relevant, bits, slots, is_rook, s)
}

/// The slot of every pattern of relevant blockers holds what the slider
/// attacks against that pattern.
pub open spec fn slots_ok(relevant: u64, bits: u32, slots: Seq<u64>, is_rook: bool, s: int) -> bool {
    forall|sub: u64|
        sub & !relevant == 0 ==> holds_attacks(
            slots[(#[trigger] spec_magic_index(magic_of(is_rook, s), bits, sub)) as int],
            is_rook,
            sub,
            s,
        )
}

/// The table of one square for a rook (`is_rook`) or a bishop: for every
/// subset of the relevant squares, the attack set found by walking the
/// rays, stored at the subset's slot. `None` where two subsets share a slot
/// and differ in their attack sets.
pub fn gen_magic(is_rook: bool, square: usize, mask: u64, bits: u32) -> (table: Option<Vec<u64>>)
    requires
        square < 64,
        1 <= bits <= 12,
        is_relevant_mask(mask, is_rook, square as int),
    ensures
        table is Some <==> collision_free(
            is_rook,
            square as int,
            magic_of(is_rook, square as int),
            mask,
            bits,
        ),
        table matches Some(slots) ==> slots@.len() == (1u64 << (bits as u64)) && slots_ok(
            mask,
            bits,
            slots@,
            is_rook,
            square as int,
        ),
{
    let magic = if is_rook {
        ROOK_MAGICS[square]
    } else {
        BISHOP_MAGICS[square]
    };
    let ghost s = square as int;
    proof {
        bv_index_range(0, bits as u64);
    }
    let size: usize = (1u64 << (bits as u64)) as usize;
    let mut slots: Vec<u64> = Vec::new();
    let mut filled: Vec<bool> = Vec::new();
    let mut n: usize = 0;
    while n < size
        invariant
            n <= size,
            slots@.len() == n,
            filled@.len() == n,
            forall|i: int| 0 <= i < n ==> !filled@[i],
        decreases size - n,
    {
        slots.push(0);
        filled.push(false);
        n += 1;
    }
    let ghost mut owner: Seq<u64> = Seq::new(size as nat, |i: int| 0u64);
    let mut sub: u64 = 0;
    let mut done = false;
    proof {
        bv_subset_basics(mask, 0);
    }
    while !done
        invariant
            square < 64,
            s == square,
            1 <= bits <= 12,
            size == (1u64 << (bits as u64)),
            magic == magic_of(is_rook, s),
            is_relevant_mask(mask, is_rook, s),
            slots@.len() == size,
            filled@.len() == size,
            owner.len() == size,
            sub & !mask == 0,
            sub <= mask,
            done ==> sub == mask,
            forall|x: u64|
                x & !mask == 0 && (x < sub || done) ==> filled@[(#[trigger] spec_magic_index(
                    magic,
                    bits,
                    x,
                )) as int] && holds_attacks(
                    slots@[spec_magic_index(magic, bits, x) as int],
                    is_rook,
                    x,
                    s,
                ),
            forall|i: int|
                0 <= i < size && #[trigger] filled@[i] ==> owner[i] & !mask == 0
                    && spec_magic_index(magic, bits, owner[i]) == i && holds_attacks(
                    slots@[i],
                    is_rook,
                    owner[i],
                    s,
                ),
        decreases
                (mask - sub) + (if done {
                    0int
                } else {
                    1int
                }),
    {
        let attacks = sliding_moves(is_rook, square, sub);
        let i = magic_index(magic, bits, sub) as usize;
        if filled[i] {
            if slots[i] != attacks {
                proof {
                    let o = owner[i as int];
                    if collision_free(is_rook, s, magic, mask, bits) {
                        assert(spec_magic_index(magic, bits, o) == spec_magic_index(
                            magic,
                            bits,
                            sub,
                        ));
                        assert forall|t: int| 0 <= t < 64 implies bit(slots@[i as int], t) == bit(
                            attacks,
                            t,
                        ) by {
                            assert(slider_attack(is_rook, o, s, t) == slider_attack(
                                is_rook,
                                sub,
                                s,
                                t,
                            ));
                        }
                        lemma_bits_equal(slots@[i as int], attacks);
                    }
                }
                return None;
            }
        } else {
            slots.set(i, attacks);
            filled.set(i, true);
            proof {
                owner = owner.update(i as int, sub);
            }
        }
        let rest = sub | !mask;
        let ghost current = sub;
        proof {
            bv_subset_basics(mask, 0);
            lemma_next_subset(current, mask, 0);
        }
        if rest == 0xFFFF_FFFF_FFFF_FFFF {
            done = true;
        } else {
            sub = (rest + 1) & mask;
        }
        proof {
            assert forall|x: u64| x & !mask == 0 && (x < sub || done) implies filled@[(
            #[trigger] spec_magic_index(magic, bits, x)) as int] && holds_attacks(
                slots@[spec_magic_index(magic, bits, x) as int],
                is_rook,
                x,
                s,
            ) by {
                lemma_next_subset(current, mask, x);
                bv_index_range(magic.wrapping_mul(x), bits as u64);
                if x == current {
                } else {
                    assert(x < current);
                }
            }
        }
    }
    proof {
        assert forall|a: u64, b: u64|
            a & !mask == 0 && b & !mask == 0 && #[trigger] spec_magic_index(magic, bits, a)
                == #[trigger] spec_magic_index(magic, bits, b) implies forall|t: int|
            0 <= t < 64 ==> slider_attack(is_rook, a, s, t) == slider_attack(is_rook, b, s, t) by {
            let i = spec_magic_index(magic, bits, a) as int;
            assert(holds_attacks(slots@[i], is_rook, a, s));
            assert(holds_attacks(slots@[i], is_rook, b, s));
            assert forall|t: int| 0 <= t < 64 implies slider_attack(is_rook, a, s, t)
                == slider_attack(is_rook, b, s, t) by {
                assert(bit(slots@[i], t) == slider_attack(is_rook, a, s, t));
                assert(bit(slots@[i], t) == slider_attack(is_rook, b, s, t));
            }
        }
    }
    Some(slots)
}

/// The number of set bits of each of 64 masks.
pub fn count_bits_64(arr: [u64; 64]) -> (counts: [u32; 64])
    ensures
        forall|i: int| 0 <= i < 64 ==> #[trigger] counts[i] == popcount(arr[i]),
{
    let mut counts: [u32; 64] = [0; 64];
    let mut i: usize = 0;
    while i < 64
        invariant
            i <= 64,
            forall|j: int| 0 <= j < i ==> #[trigger] counts[j] == popcount(arr[j]),
        decreases 64 - i,
    {
        counts[i] = count_bits(arr[i]);
        i += 1;
    }
    counts
}

/// The attack tables of one kind of slider, by square.
pub struct SliderTable {
    /// The squares whose occupancy matters.
    pub relevant: [u64; 64],
    /// How many there are.
    pub bits: [u32; 64],
    /// The attack set for every pattern of relevant blockers, at the
    /// pattern's slot.
    pub slots: Vec<Vec<u64>>,
}

impl SliderTable {
    /// The tables hold, for every square and every pattern of blockers,
    /// what the slider attacks.
    pub open spec fn wf(&self, is_rook: bool) -> bool {
        &&& self.slots@.len() == 64
        &&& forall|s: int|
            0 <= s < 64 ==> square_ok(
                self.relevant[s],
                self.bits[s],
                (#[trigger] self.slots@[s])@,
                is_rook,
                s,
            )
    }

    /// Builds the tables of the rooks (`is_rook`) or of the bishops.
    /// `None` where a multiplier does not do its work.
    pub fn build(is_rook: bool) -> (table: Option<SliderTable>)
        ensures
            table is Some <==> (forall|s: int| 0 <= s < 64 ==> #[trigger] magic_fits(is_rook, s)),
            table matches Some(t) ==> t.wf(is_rook),
    {
        let mut relevant: [u64; 64] = [0; 64];
        let mut bits: [u32; 64] = [0; 64];
        let mut slots: Vec<Vec<u64>> = Vec::new();
        let limit: u32 = if is_rook {
            ROOK_MAX_BITS
        } else {
            BISHOP_MAX_BITS
        };
        let mut square: usize = 0;
        while square < 64
            invariant
                square <= 64,
                limit == max_bits(is_rook),
                slots@.len() == square,
                forall|s: int| 0 <= s < square ==> #[trigger] magic_fits(is_rook, s),
                forall|s: int|
                    0 <= s < square ==> square_ok(
                        relevant[s],
                        bits[s],
                        (#[trigger] slots@[s])@,
                        is_rook,
                        s,
                    ),
            decreases 64 - square,
        {
            let mask = if is_rook {
                bitmask::rook_relevant_occupancy(square)
            } else {
                bitmask::bishop_relevant_occupancy(square)
            };
            let count = count_bits(mask);
            if count < 1 || count > limit {
                proof {
                    assert(is_relevant_mask(mask, is_rook, square as int));
                    assert(!magic_fits(is_rook, square as int));
                }
                return None;
            }
            match gen_magic(is_rook, square, mask, count) {
                None => {
                    proof {
                        assert(is_relevant_mask(mask, is_rook, square as int));
                        assert(!magic_fits(is_rook, square as int));
                    }
                    return None;
                },
                Some(filled) => {
                    proof {
                        assert forall|other: u64| #[trigger]
                            is_relevant_mask(other, is_rook, square as int) implies 1 <= popcount(
                            other,
                        ) <= max_bits(is_rook) && collision_free(
                            is_rook,
                            square as int,
                            magic_of(is_rook, square as int),
                            other,
                            popcount(other) as u32,
                        ) by {
                            lemma_bits_equal(other, mask);
                        }
                    }
                    let ghost before = slots@;
                    slots.push(filled);
                    relevant[square] = mask;
                    bits[square] = count;
                    proof {
                        assert forall|s: int| 0 <= s < square + 1 implies square_ok(
                            relevant[s],
                            bits[s],
                            (#[trigger] slots@[s])@,
                            is_rook,
                            s,
                        ) by {
                            if s < square {
                                assert(slots@[s] == before[s]);
                            }
                        }
                    }
                },
            }
            square += 1;
        }
        Some(SliderTable { relevant, bits, slots })
    }

    /// What the slider on `square` attacks when the occupancy is `blockers`.
    pub fn lookup(&self, is_rook: bool, square: usize, blockers: u64) -> (moves: u64)
        requires
            self.wf(is_rook),
            square < 64,
        ensures
            holds_attacks(moves, is_rook, blockers, square as int),
    {
        let magic = if is_rook {
            ROOK_MAGICS[square]
        } else {
            BISHOP_MAGICS[square]
        };
        let mask = self.relevant[square];
        let count = self.bits[square];
        let sub = blockers & mask;
        let ghost s = square as int;
        proof {
            assert(square_ok(self.relevant[s], self.bits[s], self.slots@[s]@, is_rook, s));
            bv_subset_basics(mask, blockers);
            bv_index_range(magic.wrapping_mul(sub), count as u64);
        }
        let i = magic_index(magic, count, sub);
        let moves = self.slots[square][i as usize];
        proof {
            assert(moves == self.slots@[s]@[spec_magic_index(magic_of(is_rook, s), count, sub) as int]);
            assert(holds_attacks(moves, is_rook, sub, s));
            lemma_relevant_blockers(is_rook, blockers, mask, s);
            assert forall|t: int| 0 <= t < 64 implies #[trigger] bit(moves, t) == slider_attack(
                is_rook,
                blockers,
                s,
                t,
            ) by {
                assert(bit(moves, t) == slider_attack(is_rook, sub, s, t));
            }
        }
        moves
    }
}

/// The table of one square for a rook. `None` where the square's
/// multiplier does not do its work.
pub fn gen_magic_rook(square: usize) -> (table: Option<Vec<u64>>)
    requires
        square < 64,
    ensures
        table is Some <==> magic_fits(true, square as int),
        table matches Some(slots) ==> forall|mask: u64| #[trigger]
            is_relevant_mask(mask, true, square as int) ==> slots@.len() == (1u64 << (popcount(
                mask,
            ) as u64)) && slots_ok(mask, popcount(mask) as u32, slots@, true, square as int),
{
    let mask = bitmask::rook_relevant_occupancy(square);
    let count = count_bits(mask);
    proof {
        assert(is_relevant_mask(mask, true, square as int));
        assert forall|other: u64| #[trigger] is_relevant_mask(other, true, square as int) implies other
            == mask by {
            lemma_bits_equal(other, mask);
        }
    }
    if count < 1 || count > ROOK_MAX_BITS {
        return None;
    }
    gen_magic(true, square, mask, count)
}

/// The table of one square for a bishop. `None` where the square's
/// multiplier does not do its work.
pub fn gen_magic_bishop(square: usize) -> (table: Option<Vec<u64>>)
    requires
        square < 64,
    ensures
        table is Some <==> magic_fits(false, square as int),
        table matches Some(slots) ==> forall|mask: u64| #[trigger]
            is_relevant_mask(mask, false, square as int) ==> slots@.len() == (1u64 << (popcount(
                mask,
            ) as u64)) && slots_ok(mask, popcount(mask) as u32, slots@, false, square as int),
{
    let mask = bitmask::bishop_relevant_occupancy(square);
    let count = count_bits(mask);
    proof {
        assert(is_relevant_mask(mask, false, square as int));
        assert forall|other: u64| #[trigger] is_relevant_mask(other, false, square as int) implies other
            == mask by {
            lemma_bits_equal(other, mask);
        }
    }
    if count < 1 || count > BISHOP_MAX_BITS {
        return None;
    }
    gen_magic(false, square, mask, count)
}

/// The attack tables of rooks and bishops.
pub struct MagicTables {
    pub rook: SliderTable,
    pub bishop: SliderTable,
}

impl MagicTables {
    pub open spec fn wf(&self) -> bool {
        self.rook.wf(true) && self.bishop.wf(false)
    }

    /// Builds the tables. `None` where a multiplier does not do its work.
    pub fn new() -> (tables: Option<MagicTables>)
        ensures
            tables is Some <==> magics_fit(),
            tables matches Some(t) ==> t.wf(),
    {
        let rook = match SliderTable::build(true) {
            Some(t) => t,
            None => {
                return None;
            },
        };
        let bishop = match SliderTable::build(false) {
            Some(t) => t,
            None => {
                return None;
            },
        };
        proof {
            assert forall|is_rook: bool, s: int| 0 <= s < 64 implies #[trigger] magic_fits(
                is_rook,
                s,
            ) by {
                if is_rook {
                } else {
                }
            }
        }
        Some(MagicTables { rook, bishop })
    }
}

/// What a rook on `square` attacks when the occupancy is `blockers`.
pub fn get_rook_moves(tables: &MagicTables, square: usize, blockers: u64) -> (moves: u64)
    requires
        tables.wf(),
        square < 64,
    ensures
        forall|t: int| 0 <= t < 64 ==> #[trigger] bit(moves, t) == rook_attack(
            blockers,
            square as int,
            t,
        ),
{
    tables.rook.lookup(true, square, blockers)
}

/// What a bishop on `square` attacks when the occupancy is `blockers`.
pub fn get_bishop_moves(tables: &MagicTables, square: usize, blockers: u64) -> (moves: u64)
    requires
        tables.wf(),
        square < 64,
    ensures
        forall|t: int| 0 <= t < 64 ==> #[trigger] bit(moves, t) == bishop_attack(
            blockers,
            square as int,
            t,
        ),
{
    tables.bishop.lookup(false, square, blockers)
}

/// What a queen on `square` attacks when the occupancy is `blockers`:
/// what a rook and a bishop attack from there.
pub fn get_queen_moves(tables: &MagicTables, square: usize, blockers: u64) -> (moves: u64)
    requires
        tables.wf(),
        square < 64,
    ensures
        forall|t: int| 0 <= t < 64 ==> #[trigger] bit(moves, t) == queen_attack(
            blockers,
            square as int,
            t,
        ),
{
    proof {
        lemma_bit_ops();
    }
    get_rook_moves(tables, square, blockers) | get_bishop_moves(tables, square, blockers)
}

} // verus!
