//! The Reed-Solomon codes of the ladder: length, largest degree, rate.

use vstd::prelude::*;
use vstd::arithmetic::power2::*;
use crate::arith::pow2_usize;

verus! {

/// The number of positions of a code whose messages have `2^log_msg_cols` coefficients, at rate
/// `2^-log_inv_rate`.
pub open spec fn block_length(log_inv_rate: nat, log_msg_cols: nat) -> nat {
    pow2(log_msg_cols + log_inv_rate)
}

/// The largest degree of a message polynomial with `2^log_msg_cols` coefficients.
pub open spec fn max_degree(log_msg_cols: nat) -> nat {
    (pow2(log_msg_cols) - 1) as nat
}

/// The rate of a code by its largest degree: the fraction `D/n`, as numerator and denominator.
///
/// A message has `2^log_msg_cols` coefficients, so `D = 2^log_msg_cols - 1`. At the small
/// recursive levels this differs perceptibly from the nominal rate.
pub fn reduced_rate(log_inv_rate: usize, log_msg_cols: usize) -> (r: (usize, usize))
    requires
        log_msg_cols + log_inv_rate < usize::BITS,
    ensures
        r.0 == max_degree(log_msg_cols as nat),
        r.1 == block_length(log_inv_rate as nat, log_msg_cols as nat),
        r.0 < r.1,
{
    proof {
        law_degree_below_length(log_inv_rate as nat, log_msg_cols as nat);
    }
    (pow2_usize(log_msg_cols) - 1, pow2_usize(log_msg_cols + log_inv_rate))
}

/// A code is longer than its largest degree.
pub proof fn law_degree_below_length(log_inv_rate: nat, log_msg_cols: nat)
    ensures
        max_degree(log_msg_cols) + 1 == pow2(log_msg_cols),
        max_degree(log_msg_cols) < block_length(log_inv_rate, log_msg_cols),
        log_msg_cols > 0 ==> max_degree(log_msg_cols) > 0,
{
    lemma_pow2_pos(log_msg_cols);
    if log_inv_rate > 0 {
        lemma_pow2_strictly_increases(log_msg_cols, log_msg_cols + log_inv_rate);
    }
    if log_msg_cols > 0 {
        lemma_pow2_strictly_increases(0, log_msg_cols);
        lemma2_to64();
    }
}

} // verus!
