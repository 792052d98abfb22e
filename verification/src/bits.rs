//! Bit-level vocabulary for 64-bit boards: which bits a mask holds, and how
//! the bitwise operators act on single bits.

use vstd::prelude::*;
use vstd::std_specs::bits::{axiom_u64_trailing_zeros, u64_trailing_zeros};

verus! {

/// Bit `i` of `mask` is set. False for every `i` outside `0..64`.
pub open spec fn bit(mask: u64, i: int) -> bool {
    0 <= i < 64 && (mask >> (i as u64)) & 1 == 1
}

proof fn bv_bit_binary(a: u64, b: u64, i: u64)
    by (bit_vector)
    requires
        i < 64,
    ensures
        (((a & b) >> i) & 1 == 1) <==> (((a >> i) & 1 == 1) && ((b >> i) & 1 == 1)),
        (((a | b) >> i) & 1 == 1) <==> (((a >> i) & 1 == 1) || ((b >> i) & 1 == 1)),
        (((a ^ b) >> i) & 1 == 1) <==> (((a >> i) & 1 == 1) != ((b >> i) & 1 == 1)),
        (((!a) >> i) & 1 == 1) <==> !((a >> i) & 1 == 1),
        ((0u64 >> i) & 1 == 1) == false,
{
}

proof fn bv_bit_shift(a: u64, n: u64, i: u64)
    by (bit_vector)
    requires
        i < 64,
        n < 64,
    ensures
        (((1u64 << n) >> i) & 1 == 1) <==> i == n,
        (((a << n) >> i) & 1 == 1) <==> (i >= n && ((a >> ((i - n) as u64)) & 1 == 1)),
        (((a >> n) >> i) & 1 == 1) <==> (i + n < 64 && ((a >> ((i + n) as u64)) & 1 == 1)),
{
}

/// How `&`, `|`, `^` and `!` act on each bit.
pub proof fn lemma_bit_ops()
    ensures
        forall|a: u64, b: u64, i: int| #[trigger] bit(a & b, i) == (bit(a, i) && bit(b, i)),
        forall|a: u64, b: u64, i: int| #[trigger] bit(a | b, i) == (bit(a, i) || bit(b, i)),
        forall|a: u64, b: u64, i: int| #[trigger] bit(a ^ b, i) == (bit(a, i) != bit(b, i)),
        forall|a: u64, i: int| 0 <= i < 64 ==> #[trigger] bit(!a, i) == !bit(a, i),
        forall|i: int| !#[trigger] bit(0, i),
{
    assert forall|a: u64, b: u64, i: int| #[trigger] bit(a & b, i) == (bit(a, i) && bit(b, i)) by {
        if 0 <= i < 64 {
            bv_bit_binary(a, b, i as u64);
        }
    }
    assert forall|a: u64, b: u64, i: int| #[trigger] bit(a | b, i) == (bit(a, i) || bit(b, i)) by {
        if 0 <= i < 64 {
            bv_bit_binary(a, b, i as u64);
        }
    }
    assert forall|a: u64, b: u64, i: int| #[trigger] bit(a ^ b, i) == (bit(a, i) != bit(b, i)) by {
        if 0 <= i < 64 {
            bv_bit_binary(a, b, i as u64);
        }
    }
    assert forall|a: u64, i: int| 0 <= i < 64 implies #[trigger] bit(!a, i) == !bit(a, i) by {
        bv_bit_binary(a, a, i as u64);
    }
    assert forall|i: int| !#[trigger] bit(0, i) by {
        if 0 <= i < 64 {
            bv_bit_binary(0, 0, i as u64);
        }
    }
}

/// The bits of a one-bit mask and of a shifted mask.
pub proof fn lemma_bit_shifts()
    ensures
        forall|n: u64, i: int| n < 64 ==> #[trigger] bit(1u64 << n, i) == (i == n),
        forall|a: u64, n: u64, i: int|
            n < 64 ==> #[trigger] bit(a << n, i) == (n <= i < 64 && bit(a, i - n)),
        forall|a: u64, n: u64, i: int|
            n < 64 ==> #[trigger] bit(a >> n, i) == (0 <= i && bit(a, i + n)),
{
    assert forall|n: u64, i: int| n < 64 implies #[trigger] bit(1u64 << n, i) == (i == n) by {
        if 0 <= i < 64 {
            bv_bit_shift(0, n, i as u64);
        }
    }
    assert forall|a: u64, n: u64, i: int| n < 64 implies #[trigger] bit(a << n, i) == (n <= i < 64
        && bit(a, i - n)) by {
        if 0 <= i < 64 {
            bv_bit_shift(a, n, i as u64);
        }
    }
    assert forall|a: u64, n: u64, i: int| n < 64 implies #[trigger] bit(a >> n, i) == (0 <= i
        && bit(a, i + n)) by {
        if 0 <= i < 64 {
            bv_bit_shift(a, n, i as u64);
        }
    }
}

/// Number of set bits of `mask` among the bits below `n`.
pub open spec fn count_below(mask: u64, n: int) -> int
    decreases n,
{
    if n <= 0 {
        0
    } else {
        count_below(mask, n - 1) + if bit(mask, n - 1) {
            1int
        } else {
            0int
        }
    }
}

/// Number of set bits of `mask`.
pub open spec fn popcount(mask: u64) -> int {
    count_below(mask, 64)
}

pub proof fn lemma_count_bounds(mask: u64, n: int)
    requires
        0 <= n,
    ensures
        0 <= count_below(mask, n) <= n,
    decreases n,
{
    if n > 0 {
        lemma_count_bounds(mask, n - 1);
    }
}

/// A mask without set bits below `n` counts zero there, and the other way round.
pub proof fn lemma_count_zero(mask: u64, n: int)
    requires
        0 <= n,
    ensures
        count_below(mask, n) == 0 <==> (forall|i: int| 0 <= i < n ==> !bit(mask, i)),
    decreases n,
{
    if n > 0 {
        lemma_count_zero(mask, n - 1);
        lemma_count_bounds(mask, n - 1);
        if count_below(mask, n) == 0 {
            assert forall|i: int| 0 <= i < n implies !bit(mask, i) by {
                if i < n - 1 {
                }
            }
        }
    }
}

/// Masks that differ in bit `i` alone, set in `a`, differ by one in their count.
pub proof fn lemma_count_one_more(a: u64, b: u64, i: int, n: int)
    requires
        0 <= n,
        0 <= i < 64,
        bit(a, i),
        !bit(b, i),
        forall|j: int| 0 <= j < 64 && j != i ==> bit(a, j) == bit(b, j),
    ensures
        count_below(a, n) == count_below(b, n) + if i < n {
            1int
        } else {
            0int
        },
    decreases n,
{
    if n > 0 {
        lemma_count_one_more(a, b, i, n - 1);
        if n - 1 >= 64 {
            assert(!bit(a, n - 1) && !bit(b, n - 1));
        }
    }
}

/// The bits of `a` below `n`.
spec fn low_bits(a: u64, n: u64) -> u64 {
    a & !(0xFFFF_FFFF_FFFF_FFFFu64 << n)
}

proof fn bv_extend(a: u64, b: u64, n: u64)
    by (bit_vector)
    requires
        n < 64,
    ensures
        a & !(0xFFFF_FFFF_FFFF_FFFFu64 << 0) == 0,
        (a & !(0xFFFF_FFFF_FFFF_FFFFu64 << n) == b & !(0xFFFF_FFFF_FFFF_FFFFu64 << n) && ((a >> n)
            & 1 == 1) == ((b >> n) & 1 == 1)) ==> (n == 63 ==> a == b) && (n < 63 ==> a & !(
        0xFFFF_FFFF_FFFF_FFFFu64 << ((n + 1) as u64)) == b & !(0xFFFF_FFFF_FFFF_FFFFu64 << ((n
            + 1) as u64))),
{
}

proof fn lemma_low_bits_equal(a: u64, b: u64, n: u64)
    requires
        n < 64,
        forall|i: int| 0 <= i < 64 ==> bit(a, i) == bit(b, i),
    ensures
        low_bits(a, n) == low_bits(b, n),
    decreases n,
{
    if n == 0 {
        bv_extend(a, b, 0);
        bv_extend(b, a, 0);
    } else {
        lemma_low_bits_equal(a, b, (n - 1) as u64);
        assert(bit(a, n - 1) == bit(b, n - 1));
        bv_extend(a, b, (n - 1) as u64);
    }
}

/// Two masks with the same bits are the same mask.
pub proof fn lemma_bits_equal(a: u64, b: u64)
    requires
        forall|i: int| 0 <= i < 64 ==> bit(a, i) == bit(b, i),
    ensures
        a == b,
{
    lemma_low_bits_equal(a, b, 63);
    assert(bit(a, 63) == bit(b, 63));
    bv_extend(a, b, 63);
}

/// A mask is empty exactly when none of its bits is set.
pub proof fn lemma_zero_iff_no_bits(mask: u64)
    ensures
        (mask == 0) == (forall|i: int| 0 <= i < 64 ==> !#[trigger] bit(mask, i)),
{
    lemma_bit_ops();
    if forall|i: int| 0 <= i < 64 ==> !#[trigger] bit(mask, i) {
        assert forall|i: int| 0 <= i < 64 implies bit(mask, i) == bit(0, i) by {}
        lemma_bits_equal(mask, 0);
    }
}

/// The lowest set bit of a mask that is not empty.
pub fn lowest_bit(mask: u64) -> (i: usize)
    requires
        mask != 0,
    ensures
        i < 64,
        bit(mask, i as int),
        forall|j: int| 0 <= j < i ==> !bit(mask, j),
{
    proof {
        axiom_u64_trailing_zeros(mask);
        assert forall|j: int| 0 <= j < u64_trailing_zeros(mask) implies !bit(mask, j) by {
            let ju = j as u64;
            assert((mask >> ju) & 1u64 == 0u64);
        }
    }
    mask.trailing_zeros() as usize
}

/// Number of set bits.
pub fn count_bits(mask: u64) -> (count: u32)
    ensures
        count == popcount(mask),
{
    let mut count: u32 = 0;
    let mut rest = mask;
    proof {
        lemma_count_bounds(mask, 64);
    }
    while rest != 0
        invariant
            count + count_below(rest, 64) == count_below(mask, 64),
            0 <= count_below(mask, 64) <= 64,
            0 <= count_below(rest, 64),
        decreases count_below(rest, 64),
    {
        let i = lowest_bit(rest);
        let cleared = rest & !(1u64 << (i as u64));
        proof {
            lemma_bit_ops();
            lemma_bit_shifts();
            lemma_count_one_more(rest, cleared, i as int, 64);
            lemma_count_bounds(cleared, 64);
        }
        rest = cleared;
        count += 1;
    }
    proof {
        lemma_bit_ops();
        lemma_count_zero(rest, 64);
    }
    count
}

} // verus!
