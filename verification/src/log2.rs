//! Logarithms to base 2 of lengths.

use vstd::prelude::*;
use vstd::arithmetic::power2::*;

verus! {

/// Whether a number is a power of two.
pub open spec fn is_power_of_two(n: nat) -> bool {
    exists|k: nat| n == #[trigger] pow2(k)
}

/// `p3_util::log2_strict_usize`: the exponent of a power of two. It panics on any other number.
pub assume_specification[ p3_util::log2_strict_usize ](n: usize) -> (k: usize)
    requires
        is_power_of_two(n as nat),
    ensures
        pow2(k as nat) == n,
;

/// `p3_util::log2_ceil_usize`: the least exponent whose power of two is at least `n`; 0 for 0.
pub assume_specification[ p3_util::log2_ceil_usize ](n: usize) -> (k: usize)
    ensures
        n <= pow2(k as nat),
        k > 0 ==> pow2((k - 1) as nat) < n,
;

/// A power of two has one exponent.
pub proof fn lemma_exponent_unique(j: nat, k: nat)
    requires
        pow2(j) == pow2(k),
    ensures
        j == k,
{
    if j < k {
        lemma_pow2_strictly_increases(j, k);
    }
    if k < j {
        lemma_pow2_strictly_increases(k, j);
    }
}

/// Larger powers of two have larger exponents.
pub proof fn lemma_exponent_order(j: nat, k: nat)
    requires
        pow2(j) <= pow2(k),
    ensures
        j <= k,
{
    if k < j {
        lemma_pow2_strictly_increases(k, j);
    }
}

/// A quotient of powers of two is the power of the difference.
pub proof fn lemma_power_quotient(a: nat, b: nat)
    requires
        b <= a,
    ensures
        pow2(a) / pow2(b) == pow2((a - b) as nat),
        pow2(b) * pow2((a - b) as nat) == pow2(a),
{
    lemma_pow2_pos(b);
    lemma_pow2_adds(b, (a - b) as nat);
    vstd::arithmetic::div_mod::lemma_div_multiples_vanish(
        pow2((a - b) as nat) as int,
        pow2(b) as int,
    );
}

/// The least exponent whose power of two is at least `n`.
pub open spec fn ceil_log2(n: nat) -> nat
    decreases n,
{
    if n <= 1 {
        0
    } else {
        1 + ceil_log2((n + 1) / 2)
    }
}

/// What [`ceil_log2`] is, and that there is only one such exponent.
pub proof fn lemma_ceil_log2(n: nat, k: nat)
    requires
        n <= pow2(k),
        k > 0 ==> pow2((k - 1) as nat) < n,
    ensures
        k == ceil_log2(n),
    decreases n,
{
    lemma2_to64();
    if n <= 1 {
        if k > 0 {
            lemma_pow2_pos((k - 1) as nat);
        }
    } else {
        assert(k > 0);
        lemma_pow2_unfold(k);
        if k > 1 {
            lemma_pow2_unfold((k - 1) as nat);
        }
        lemma_ceil_log2((n + 1) / 2, (k - 1) as nat);
    }
}

/// The power of [`ceil_log2`] is at least `n`.
pub proof fn lemma_ceil_log2_covers(n: nat)
    ensures
        n <= pow2(ceil_log2(n)),
    decreases n,
{
    lemma2_to64();
    if n > 1 {
        lemma_ceil_log2_covers((n + 1) / 2);
        lemma_pow2_unfold(ceil_log2(n));
    }
}

/// The rounded-up logarithm is the least exponent whose power of two is at least `n`.
pub proof fn law_ceil_log2(n: nat)
    ensures
        n <= pow2(ceil_log2(n)),
        forall|k: nat| k < ceil_log2(n) ==> #[trigger] pow2(k) < n,
    decreases n,
{
    lemma2_to64();
    if n > 1 {
        let half = (n + 1) / 2;
        law_ceil_log2(half);
        lemma_pow2_unfold(ceil_log2(n));
        assert forall|k: nat| k < ceil_log2(n) implies #[trigger] pow2(k) < n by {
            if k > 0 {
                lemma_pow2_unfold(k);
                assert(pow2((k - 1) as nat) < half);
            }
        }
    }
}

} // verus!
