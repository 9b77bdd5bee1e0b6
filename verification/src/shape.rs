//! The arithmetic of mountain ranges: how a leaf count decides the mountains
//! that stand over the leaves. There is one mountain for each set bit of the
//! count, and the lowest set bit belongs to the mountain that was finished
//! last.

use vstd::prelude::*;
use vstd::arithmetic::power2::{lemma2_to64, lemma_pow2_pos, lemma_pow2_unfold, pow2};

verus! {

/// The position of the lowest set bit of `n`, counted from 0. For `n == 0`,
/// which has no set bit, it is 0.
pub open spec fn lowest_set_bit(n: nat) -> nat
    decreases n,
{
    if n == 0 || n % 2 == 1 {
        0
    } else {
        1 + lowest_set_bit(n / 2)
    }
}

/// The number of set bits in the binary representation of `n`.
pub open spec fn count_ones(n: nat) -> nat
    decreases n,
{
    if n == 0 {
        0
    } else {
        (n % 2) + count_ones(n / 2)
    }
}

/// Whether the `bits` lowest bits of `n` are all zero, that is, whether
/// `2^bits` divides `n`.
pub open spec fn is_aligned(n: nat, bits: nat) -> bool
    decreases bits,
{
    bits == 0 || (n % 2 == 0 && is_aligned(n / 2, (bits - 1) as nat))
}

/// `n` with its lowest set bit cleared; 0 for `n == 0`.
pub open spec fn clear_lowest_bit(n: nat) -> nat {
    if n == 0 {
        0
    } else {
        (n - pow2(lowest_set_bit(n))) as nat
    }
}

/// The lowest set bit of a positive number is worth no more than the number.
pub proof fn lemma_lowest_set_bit_le(n: nat)
    requires
        n > 0,
    ensures
        0 < pow2(lowest_set_bit(n)) <= n,
        clear_lowest_bit(n) < n,
    decreases n,
{
    lemma_pow2_pos(lowest_set_bit(n));
    if n % 2 == 1 {
        lemma2_to64();
    } else {
        lemma_lowest_set_bit_le(n / 2);
        lemma_pow2_unfold(lowest_set_bit(n));
    }
}

/// A number that is aligned to some number of bits is aligned to any smaller
/// number of bits.
pub proof fn lemma_aligned_weaken(n: nat, bits: nat, fewer: nat)
    requires
        is_aligned(n, bits),
        fewer <= bits,
    ensures
        is_aligned(n, fewer),
    decreases fewer,
{
    if fewer > 0 {
        lemma_aligned_weaken(n / 2, (bits - 1) as nat, (fewer - 1) as nat);
    }
}

/// Zero is aligned to any number of bits.
pub proof fn lemma_zero_aligned(bits: nat)
    ensures
        is_aligned(0, bits),
    decreases bits,
{
    if bits > 0 {
        lemma_zero_aligned((bits - 1) as nat);
    }
}

/// The lowest set bit of a positive number that is aligned to `bits` bits is
/// at position `bits` or above.
pub proof fn lemma_aligned_lowest_bit_ge(n: nat, bits: nat)
    requires
        n > 0,
        is_aligned(n, bits),
    ensures
        lowest_set_bit(n) >= bits,
    decreases bits,
{
    if bits > 0 {
        lemma_aligned_lowest_bit_ge(n / 2, (bits - 1) as nat);
    }
}

/// Adding `2^bits` to a number that is aligned to `bits + 1` bits sets its
/// lowest bit at position `bits`.
pub proof fn lemma_add_bit_below(n: nat, bits: nat)
    requires
        is_aligned(n, bits + 1),
    ensures
        lowest_set_bit(n + pow2(bits)) == bits,
        clear_lowest_bit(n + pow2(bits)) == n,
    decreases bits,
{
    lemma_pow2_pos(bits);
    if bits == 0 {
        lemma2_to64();
    } else {
        lemma_pow2_unfold(bits);
        let half = pow2((bits - 1) as nat);
        lemma_add_bit_below(n / 2, (bits - 1) as nat);
        assert((n + 2 * half) / 2 == n / 2 + half);
        assert((n + 2 * half) % 2 == 0);
    }
}

/// A positive number that is aligned to `bits` bits and whose lowest set bit
/// is not at position `bits` is aligned to one bit more.
pub proof fn lemma_aligned_one_more(n: nat, bits: nat)
    requires
        n > 0,
        is_aligned(n, bits),
        lowest_set_bit(n) != bits,
    ensures
        is_aligned(n, bits + 1),
    decreases bits,
{
    if bits > 0 {
        lemma_aligned_one_more(n / 2, (bits - 1) as nat);
    } else {
        assert(is_aligned(n / 2, 0));
    }
}

/// Clearing the lowest set bit of a positive number leaves a number that is
/// aligned to one bit above it.
pub proof fn lemma_clear_lowest_bit_aligned(n: nat)
    requires
        n > 0,
    ensures
        is_aligned(clear_lowest_bit(n), lowest_set_bit(n) + 1),
    decreases n,
{
    lemma_lowest_set_bit_le(n);
    if n % 2 == 1 {
        lemma2_to64();
        assert(is_aligned(((n - 1) as nat) / 2, 0));
    } else {
        let bit = lowest_set_bit(n);
        lemma_pow2_unfold(bit);
        lemma_lowest_set_bit_le(n / 2);
        lemma_clear_lowest_bit_aligned(n / 2);
        let half = pow2((bit - 1) as nat);
        assert((n - 2 * half) / 2 == n / 2 - half);
        assert((n - 2 * half) % 2 == 0);
    }
}

/// Clearing the lowest set bit of a positive number takes one from its
/// number of set bits.
pub proof fn lemma_count_ones_clear_lowest_bit(n: nat)
    requires
        n > 0,
    ensures
        count_ones(n) == count_ones(clear_lowest_bit(n)) + 1,
    decreases n,
{
    lemma_lowest_set_bit_le(n);
    if n % 2 == 1 {
        lemma2_to64();
        let rest = (n - 1) as nat;
        assert(rest / 2 == n / 2);
        if rest > 0 {
            assert(rest % 2 == 0);
        } else {
            assert(count_ones(n / 2) == 0);
        }
    } else {
        let bit = lowest_set_bit(n);
        lemma_pow2_unfold(bit);
        lemma_lowest_set_bit_le(n / 2);
        lemma_count_ones_clear_lowest_bit(n / 2);
        let half = pow2((bit - 1) as nat);
        let rest = (n - 2 * half) as nat;
        assert(rest / 2 == n / 2 - half);
        assert(rest % 2 == 0);
        if rest == 0 {
            assert(count_ones(clear_lowest_bit(n / 2)) == 0);
        }
    }
}

/// Below an aligned number the low bits decide: adding less than `2^bits` to
/// a number that is aligned to `bits` bits gives a number whose lowest set bit
/// is that of what was added.
pub proof fn lemma_lowest_bit_of_sum(base: nat, extra: nat, bits: nat)
    requires
        is_aligned(base, bits),
        0 < extra < pow2(bits),
    ensures
        lowest_set_bit(base + extra) == lowest_set_bit(extra),
        clear_lowest_bit(base + extra) == base + clear_lowest_bit(extra),
    decreases bits,
{
    lemma_lowest_set_bit_le(extra);
    if bits == 0 {
        lemma2_to64();
    } else {
        lemma_pow2_unfold(bits);
        if extra % 2 == 0 {
            lemma_lowest_set_bit_le(extra / 2);
            lemma_lowest_bit_of_sum(base / 2, extra / 2, (bits - 1) as nat);
            assert((base + extra) / 2 == base / 2 + extra / 2);
            assert((base + extra) % 2 == 0);
        } else {
            assert((base + extra) % 2 == 1);
        }
    }
}

} // verus!
