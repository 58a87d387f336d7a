//! The production parameters: rate-1/2 Johnson list decoding with out-of-domain binding and
//! 128-bit round-by-round soundness over a 192-bit field.

use vstd::prelude::*;
use crate::text::with_number;

verus! {

/// Log of the number of bits that one committed word packs. The value is assumed: words of 64 bits.
pub const LOG_PACKING: usize = 6;

/// Round-by-round soundness target: every verifier challenge fails with probability at most
/// `2^-SECURITY_BITS`.
pub const SECURITY_BITS: usize = 128;

/// Rate index of the first level: rate `2^-LOG_INV_RATE_0`.
pub const LOG_INV_RATE_0: usize = 1;

/// The least rate index of the first level that can be selected.
pub const MIN_LOG_INV_RATE: usize = 1;

/// The largest rate index of the first level that can be selected.
pub const MAX_LOG_INV_RATE: usize = 4;

/// Proof-of-work bits per level, ground after the commitment and before the query positions are
/// sampled. Queries close the rest of the target.
pub const QUERY_GRINDING_BITS: usize = 17;

/// Variables that the first fold takes.
pub const INITIAL_FOLDING_FACTOR: usize = 6;

/// Variables that each later fold takes.
pub const SUBSEQUENT_FOLDING_FACTOR: usize = 4;

/// Bits that the total Reed-Solomon domain loses after the first fold.
pub const RS_DOMAIN_INITIAL_REDUCTION_FACTOR: usize = 3;

/// Bits that the total Reed-Solomon domain loses after each later fold.
pub const RS_DOMAIN_SUBSEQUENT_REDUCTION_FACTOR: usize = 1;

/// Folding stops once at most this many variables remain: the residual polynomial is sent in
/// clear.
pub const RESIDUAL_MAX_LOG: usize = 5;

/// The folds are at least as large as the domain reductions that go with them, and the residual is
/// never longer than the first fold. Every fold takes three variables more than the domain loses
/// bits, so the rate falls by a factor of eight at every level. A committed word has 64 bits, and
/// queries and grinding together reach 128.
pub proof fn law_production_factors()
    ensures
        RS_DOMAIN_INITIAL_REDUCTION_FACTOR <= INITIAL_FOLDING_FACTOR,
        RS_DOMAIN_SUBSEQUENT_REDUCTION_FACTOR <= SUBSEQUENT_FOLDING_FACTOR,
        RESIDUAL_MAX_LOG <= INITIAL_FOLDING_FACTOR,
        INITIAL_FOLDING_FACTOR - RS_DOMAIN_INITIAL_REDUCTION_FACTOR == 3,
        SUBSEQUENT_FOLDING_FACTOR - RS_DOMAIN_SUBSEQUENT_REDUCTION_FACTOR == 3,
        INITIAL_FOLDING_FACTOR == 6,
        SUBSEQUENT_FOLDING_FACTOR == 4,
        RESIDUAL_MAX_LOG == 5,
        vstd::arithmetic::power2::pow2(LOG_PACKING as nat) == 64,
        SECURITY_BITS == 128,
        SECURITY_BITS - QUERY_GRINDING_BITS == 111,
        MIN_LOG_INV_RATE == LOG_INV_RATE_0 == 1,
        MAX_LOG_INV_RATE == 4,
{
    vstd::arithmetic::power2::lemma2_to64();
}

/// How the check of a rate index ends.
pub open spec fn rate_outcome(log_inv_rate: nat) -> Result<(), Seq<char>> {
    if MIN_LOG_INV_RATE <= log_inv_rate <= MAX_LOG_INV_RATE {
        Ok(())
    } else {
        Err(
            "log_inv_rate must be in "@ + crate::text::decimal(MIN_LOG_INV_RATE as nat) + "..="@
                + crate::text::decimal(MAX_LOG_INV_RATE as nat) + ", got "@
                + crate::text::decimal(log_inv_rate),
        )
    }
}

/// Validates a production inverse-rate logarithm.
pub fn validate_log_inv_rate(log_inv_rate: usize) -> (r: Result<(), String>)
    ensures
        crate::text::outcome(r) == rate_outcome(log_inv_rate as nat),
{
    if log_inv_rate < MIN_LOG_INV_RATE || log_inv_rate > MAX_LOG_INV_RATE {
        let least = with_number("log_inv_rate must be in ".to_owned(), MIN_LOG_INV_RATE as u128);
        let range = with_number(least.concat("..="), MAX_LOG_INV_RATE as u128);
        return Err(with_number(range.concat(", got "), log_inv_rate as u128));
    }
    Ok(())
}

} // verus!
