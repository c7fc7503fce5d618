//! Bit-level model of a 128-bit word: which indices are set, how many are set,
//! and the facts about the bitwise operators that the rest of the library uses.
use vstd::prelude::*;

verus! {

/// Bit `i` of `b` is set.
pub open spec fn bit_at(b: u128, i: int) -> bool {
    0 <= i < 128 && (b >> (i as u128)) & 1u128 == 1u128
}

/// Number of set bits of `b` among the indices `0..n`.
pub open spec fn count_bits(b: u128, n: int) -> nat
    decreases n,
{
    if n <= 0 {
        0
    } else {
        count_bits(b, n - 1) + if bit_at(b, n - 1) {
            1nat
        } else {
            0nat
        }
    }
}

/// Population count of `b`.
pub open spec fn popcount(b: u128) -> nat {
    count_bits(b, 128)
}

pub broadcast proof fn lemma_bit_at_or(a: u128, b: u128, i: int)
    ensures
        #[trigger] bit_at(a | b, i) == (bit_at(a, i) || bit_at(b, i)),
{
    if 0 <= i < 128 {
        let j = i as u128;
        assert(((a | b) >> j) & 1u128 == 1u128 <==> ((a >> j) & 1u128 == 1u128 || (b >> j) & 1u128
            == 1u128)) by (bit_vector);
    }
}

pub broadcast proof fn lemma_bit_at_and(a: u128, b: u128, i: int)
    ensures
        #[trigger] bit_at(a & b, i) == (bit_at(a, i) && bit_at(b, i)),
{
    if 0 <= i < 128 {
        let j = i as u128;
        assert(((a & b) >> j) & 1u128 == 1u128 <==> ((a >> j) & 1u128 == 1u128 && (b >> j) & 1u128
            == 1u128)) by (bit_vector);
    }
}

pub broadcast proof fn lemma_bit_at_xor(a: u128, b: u128, i: int)
    ensures
        #[trigger] bit_at(a ^ b, i) == (0 <= i < 128 && bit_at(a, i) != bit_at(b, i)),
{
    if 0 <= i < 128 {
        let j = i as u128;
        assert(((a ^ b) >> j) & 1u128 == 1u128 <==> ((a >> j) & 1u128 == 1u128) != ((b >> j)
            & 1u128 == 1u128)) by (bit_vector);
    }
}

pub broadcast proof fn lemma_bit_at_not(a: u128, i: int)
    ensures
        #[trigger] bit_at(!a, i) == (0 <= i < 128 && !bit_at(a, i)),
{
    if 0 <= i < 128 {
        let j = i as u128;
        assert(((!a) >> j) & 1u128 == 1u128 <==> !((a >> j) & 1u128 == 1u128)) by (bit_vector)
            requires
                j < 128,
        ;
    }
}

pub broadcast proof fn lemma_bit_at_single(k: u128, i: int)
    requires
        k < 128,
    ensures
        #[trigger] bit_at(1u128 << k, i) == (i == k),
{
    if 0 <= i < 128 {
        let j = i as u128;
        assert(((1u128 << k) >> j) & 1u128 == 1u128 <==> j == k) by (bit_vector)
            requires
                k < 128,
                j < 128,
        ;
    }
}

pub broadcast proof fn lemma_bit_at_zero(i: int)
    ensures
        !(#[trigger] bit_at(0u128, i)),
{
    if 0 <= i < 128 {
        let j = i as u128;
        assert((0u128 >> j) & 1u128 == 0u128) by (bit_vector);
    }
}

/// Masking with a single bit tests that bit.
pub proof fn lemma_and_single(a: u128, k: u128)
    requires
        k < 128,
    ensures
        (a & (1u128 << k) != 0) == bit_at(a, k as int),
{
    assert((a & (1u128 << k) != 0) == ((a >> k) & 1u128 == 1u128)) by (bit_vector)
        requires
            k < 128,
    ;
}

/// The zero word is absorbing for `&`.
pub proof fn lemma_and_zero(a: u128)
    ensures
        a & 0 == 0,
        0 & a == 0,
{
    assert(a & 0 == 0 && 0 & a == 0) by (bit_vector);
}

pub broadcast group group_bits {
    lemma_bit_at_or,
    lemma_bit_at_and,
    lemma_bit_at_xor,
    lemma_bit_at_not,
    lemma_bit_at_single,
    lemma_bit_at_zero,
}

/// A word with no set bit at or above `n` is below `2^n`.
proof fn lemma_high_zero(x: u128, n: u128)
    requires
        n < 128,
        forall|i: int| n <= i < 128 ==> !bit_at(x, i),
    ensures
        x >> n == 0,
    decreases 127 - n,
{
    assert(!bit_at(x, n as int));
    if n == 127 {
        assert((x >> 127u128) & 1u128 != 1u128 ==> x >> 127u128 == 0) by (bit_vector);
    } else {
        lemma_high_zero(x, (n + 1) as u128);
        assert((x >> ((n + 1) as u128) == 0 && (x >> n) & 1u128 != 1u128) ==> x >> n == 0)
            by (bit_vector)
            requires
                n < 127,
        ;
    }
}

/// A word with no set bit is zero.
pub proof fn lemma_no_bits_zero(x: u128)
    requires
        forall|i: int| 0 <= i < 128 ==> !bit_at(x, i),
    ensures
        x == 0,
{
    lemma_high_zero(x, 0);
    assert(x >> 0u128 == x) by (bit_vector);
}

/// Two words with the same set bits are equal.
pub proof fn lemma_bits_ext(a: u128, b: u128)
    requires
        forall|i: int| 0 <= i < 128 ==> bit_at(a, i) == bit_at(b, i),
    ensures
        a == b,
{
    broadcast use group_bits;

    assert forall|i: int| 0 <= i < 128 implies !bit_at(a ^ b, i) by {
        assert(bit_at(a, i) == bit_at(b, i));
    }
    lemma_no_bits_zero(a ^ b);
    assert(a ^ b == 0 ==> a == b) by (bit_vector);
}

/// Two words with the same set bits below `n` have equal counts below `n`.
pub proof fn lemma_count_congruent(a: u128, b: u128, n: int)
    requires
        forall|i: int| 0 <= i < n ==> bit_at(a, i) == bit_at(b, i),
    ensures
        count_bits(a, n) == count_bits(b, n),
    decreases n,
{
    if n > 0 {
        lemma_count_congruent(a, b, n - 1);
    }
}

/// Counting is bounded by the number of indices counted.
pub proof fn lemma_count_bound(a: u128, n: int)
    ensures
        count_bits(a, n) <= if n < 0 {
            0
        } else {
            n
        },
    decreases n,
{
    if n > 0 {
        lemma_count_bound(a, n - 1);
    }
}

/// Counts are monotone under inclusion, and strictly so where a bit differs.
pub proof fn lemma_count_subset(a: u128, b: u128, n: int)
    requires
        forall|i: int| 0 <= i < n ==> bit_at(a, i) ==> bit_at(b, i),
    ensures
        count_bits(a, n) <= count_bits(b, n),
        (exists|i: int| 0 <= i < n && bit_at(b, i) && !bit_at(a, i)) ==> count_bits(a, n) < count_bits(
            b,
            n,
        ),
    decreases n,
{
    if n > 0 {
        lemma_count_subset(a, b, n - 1);
        if exists|i: int| 0 <= i < n && bit_at(b, i) && !bit_at(a, i) {
            let i = choose|i: int| 0 <= i < n && bit_at(b, i) && !bit_at(a, i);
            if i < n - 1 {
                assert(exists|i: int| 0 <= i < n - 1 && bit_at(b, i) && !bit_at(a, i));
            }
        }
    }
}

/// The count of a union of disjoint words is the sum of their counts.
pub proof fn lemma_count_disjoint_union(a: u128, b: u128, n: int)
    requires
        a & b == 0,
    ensures
        count_bits(a | b, n) == count_bits(a, n) + count_bits(b, n),
    decreases n,
{
    broadcast use group_bits;

    if n > 0 {
        lemma_count_disjoint_union(a, b, n - 1);
        assert(!bit_at(a & b, n - 1));
    }
}

/// Counting a word without any bit set gives zero, and a nonzero count means some bit is set.
pub proof fn lemma_count_zero(a: u128, n: int)
    ensures
        (count_bits(a, n) == 0) == (forall|i: int| 0 <= i < n ==> !bit_at(a, i)),
    decreases n,
{
    if n > 0 {
        lemma_count_zero(a, n - 1);
        if count_bits(a, n) == 0 {
            assert forall|i: int| 0 <= i < n implies !bit_at(a, i) by {
                if i < n - 1 {
                } else {
                }
            }
        }
    }
}

/// The population count is zero exactly for the zero word.
pub proof fn lemma_popcount_zero(a: u128)
    ensures
        (popcount(a) == 0) == (a == 0),
{
    broadcast use group_bits;

    lemma_count_zero(a, 128);
    if popcount(a) == 0 {
        lemma_no_bits_zero(a);
    }
}

/// Relies on `u128::count_ones`: the number of ones in the binary representation.
#[verifier::external_body]
pub(crate) fn count_ones_u128(b: u128) -> (r: u32)
    ensures
        r as nat == popcount(b),
{
    b.count_ones()
}

/// Relies on `u128::trailing_zeros`: the number of zeros below the lowest set bit,
/// 128 for the zero word.
#[verifier::external_body]
pub(crate) fn trailing_zeros_u128(b: u128) -> (r: u32)
    ensures
        r <= 128,
        b == 0 <==> r == 128,
        r < 128 ==> bit_at(b, r as int),
        forall|j: int| 0 <= j < r ==> !bit_at(b, j),
{
    b.trailing_zeros()
}

} // verus!
