//! The level ladder: how many variables each level folds, and the rate of each level's code.

use vstd::prelude::*;
use vstd::arithmetic::power2::*;
use crate::arith::pow2_usize;
use crate::params::{
    RESIDUAL_MAX_LOG, RS_DOMAIN_INITIAL_REDUCTION_FACTOR, RS_DOMAIN_SUBSEQUENT_REDUCTION_FACTOR,
    SUBSEQUENT_FOLDING_FACTOR,
};
use crate::text::with_number;
use crate::udr::udr_queries;

verus! {

/// How each new level's rate follows from the one before it.
#[derive(Clone, Copy, Debug, Eq, PartialEq, Structural)]
pub enum RateRule {
    /// The total Reed-Solomon domain loses a fixed number of bits per fold.
    Production,
    /// The least higher inverse rate whose code is long enough for its unique-decoding queries.
    UniqueDecoding,
}

/// Shape of a ladder: the dimensions of each level, the first one at index 0, and the residual.
pub struct LadderShape {
    pub log_inv_rates: Vec<usize>,
    pub log_msg_cols: Vec<usize>,
    pub k_levels: Vec<usize>,
    pub yr_log_n: usize,
}

/// The largest rate index that the search for a unique-decoding rate advances to.
pub const MAX_SEARCHED_RATE: usize = 20;

/// The number of folds after the first one, when `dim` variables remain behind that one.
pub open spec fn ladder_depth(dim: nat) -> nat {
    if dim <= RESIDUAL_MAX_LOG {
        0
    } else {
        ((dim - RESIDUAL_MAX_LOG + SUBSEQUENT_FOLDING_FACTOR - 1)
            / SUBSEQUENT_FOLDING_FACTOR as int) as nat
    }
}

/// The message dimension of level `i`.
pub open spec fn ladder_cols(dim: nat, i: nat) -> int {
    dim - SUBSEQUENT_FOLDING_FACTOR * i
}

/// The fold of level `i`.
pub open spec fn ladder_fold(initial_k: nat, i: nat) -> nat {
    if i == 0 {
        initial_k
    } else {
        SUBSEQUENT_FOLDING_FACTOR as nat
    }
}

/// The bits that the domain loses on the way to level `i`.
pub open spec fn domain_reduction(i: nat) -> nat {
    if i == 1 {
        RS_DOMAIN_INITIAL_REDUCTION_FACTOR as nat
    } else {
        RS_DOMAIN_SUBSEQUENT_REDUCTION_FACTOR as nat
    }
}

/// The least rate index, from `rate` on, at which a code of message dimension `cols` is at least
/// as long as its unique-decoding query count.
pub open spec fn udr_rate_outcome(rate: nat, cols: nat) -> Result<nat, Seq<char>>
    decreases MAX_SEARCHED_RATE - rate,
{
    if pow2(cols + rate) >= crate::udr::udr_count(rate) {
        Ok(rate)
    } else if rate + 1 > MAX_SEARCHED_RATE {
        Err("could not find feasible recursive rate (level too deep)"@)
    } else {
        udr_rate_outcome(rate + 1, cols)
    }
}

/// The rate index of level `i`, behind a level of rate index `rate` that folded `fold` variables
/// and left `cols`.
pub open spec fn next_rate_outcome(
    rule: RateRule,
    i: nat,
    rate: nat,
    fold: nat,
    cols: nat,
) -> Result<nat, Seq<char>> {
    match rule {
        RateRule::Production => if fold < domain_reduction(i) {
            Err(
                "folding factor "@ + crate::text::decimal(fold)
                    + " is smaller than RS domain reduction "@ + crate::text::decimal(
                    domain_reduction(i),
                ),
            )
        } else {
            Ok((rate + fold - domain_reduction(i)) as nat)
        },
        RateRule::UniqueDecoding => udr_rate_outcome(rate + 1, cols),
    }
}

/// The rate index of level `i` of a ladder.
pub open spec fn ladder_rate(
    rule: RateRule,
    dim: nat,
    initial_k: nat,
    log_inv_rate: nat,
    i: nat,
) -> Result<nat, Seq<char>>
    decreases i,
{
    if i == 0 {
        Ok(log_inv_rate)
    } else {
        match ladder_rate(rule, dim, initial_k, log_inv_rate, (i - 1) as nat) {
            Err(e) => Err(e),
            Ok(rate) => next_rate_outcome(
                rule,
                i,
                rate,
                ladder_fold(initial_k, (i - 1) as nat),
                ladder_cols(dim, i) as nat,
            ),
        }
    }
}

/// Why there is no ladder, or `None` where there is one.
pub open spec fn ladder_error(
    rule: RateRule,
    log_n: nat,
    initial_k: nat,
    log_inv_rate: nat,
) -> Option<Seq<char>> {
    if log_n <= initial_k {
        Some("log_n must be > initial_k"@)
    } else {
        let dim = (log_n - initial_k) as nat;
        match ladder_rate(rule, dim, initial_k, log_inv_rate, ladder_depth(dim)) {
            Err(e) => Some(e),
            Ok(_) => if ladder_depth(dim) < 1 {
                Some("log_n too small: needs at least 2 fold levels"@)
            } else {
                None
            },
        }
    }
}

impl LadderShape {
    /// Whether this is the ladder of the rule, first fold and first rate over `initial_k + dim`
    /// variables.
    pub open spec fn is_ladder(
        self,
        rule: RateRule,
        dim: nat,
        initial_k: nat,
        log_inv_rate: nat,
    ) -> bool {
        let depth = ladder_depth(dim);
        &&& self.log_inv_rates.len() == depth + 1
        &&& self.log_msg_cols.len() == depth + 1
        &&& self.k_levels.len() == depth + 1
        &&& forall|i: int|
            0 <= i <= depth ==> ladder_rate(rule, dim, initial_k, log_inv_rate, i as nat) == Ok::<
                nat,
                Seq<char>,
            >(#[trigger] self.log_inv_rates[i] as nat)
        &&& forall|i: int|
            0 <= i <= depth ==> #[trigger] self.log_msg_cols[i] == ladder_cols(dim, i as nat)
        &&& forall|i: int|
            0 <= i <= depth ==> #[trigger] self.k_levels[i] == ladder_fold(initial_k, i as nat)
        &&& self.yr_log_n == ladder_cols(dim, depth)
    }
}

/// Whether every rate index and code length on the way down the ladder fits in `usize`.
pub open spec fn ladder_fits(rule: RateRule, dim: nat, initial_k: nat, log_inv_rate: nat) -> bool {
    ladder_depth(dim) >= 1 ==> match rule {
        RateRule::Production => log_inv_rate + (initial_k - RS_DOMAIN_INITIAL_REDUCTION_FACTOR) + (
        ladder_depth(dim) - 1) * (SUBSEQUENT_FOLDING_FACTOR - RS_DOMAIN_SUBSEQUENT_REDUCTION_FACTOR)
            <= usize::MAX,
        RateRule::UniqueDecoding => dim + log_inv_rate < usize::BITS,
    }
}

/// On the production ladder, the fold of `k` variables raises the inverse-rate logarithm by `k`
/// less the reduction: the initial reduction once, one bit at every later fold.
pub proof fn law_production_rate(dim: nat, initial_k: nat, log_inv_rate: nat, i: nat)
    requires
        i >= 1,
    ensures
        initial_k >= RS_DOMAIN_INITIAL_REDUCTION_FACTOR ==> ladder_rate(
            RateRule::Production,
            dim,
            initial_k,
            log_inv_rate,
            i,
        ) == Ok::<nat, Seq<char>>(
            (log_inv_rate + (initial_k - RS_DOMAIN_INITIAL_REDUCTION_FACTOR) + (i - 1) * (
            SUBSEQUENT_FOLDING_FACTOR - RS_DOMAIN_SUBSEQUENT_REDUCTION_FACTOR)) as nat,
        ),
        initial_k < RS_DOMAIN_INITIAL_REDUCTION_FACTOR ==> ladder_rate(
            RateRule::Production,
            dim,
            initial_k,
            log_inv_rate,
            i,
        ) is Err,
    decreases i,
{
    assert(ladder_rate(RateRule::Production, dim, initial_k, log_inv_rate, 0) == Ok::<
        nat,
        Seq<char>,
    >(log_inv_rate));
    if i > 1 {
        law_production_rate(dim, initial_k, log_inv_rate, (i - 1) as nat);
    }
}

/// The residual of a ladder is short enough to be sent in clear, and no fold takes more variables
/// than there are.
pub proof fn law_residual(dim: nat)
    ensures
        0 <= ladder_cols(dim, ladder_depth(dim)) <= RESIDUAL_MAX_LOG,
        ladder_depth(dim) >= 1 ==> RESIDUAL_MAX_LOG - SUBSEQUENT_FOLDING_FACTOR < ladder_cols(
            dim,
            ladder_depth(dim),
        ),
        forall|i: nat|
            i < ladder_depth(dim) ==> #[trigger] ladder_cols(dim, i) > RESIDUAL_MAX_LOG,
{
    if dim > RESIDUAL_MAX_LOG {
        let x = dim - RESIDUAL_MAX_LOG + SUBSEQUENT_FOLDING_FACTOR - 1;
        assert(x == SUBSEQUENT_FOLDING_FACTOR * (x / 4) + x % 4);
    }
}

/// A ladder whose rates fail on the way fails at its end with the same error.
pub(crate) proof fn lemma_rate_error(
    rule: RateRule,
    dim: nat,
    initial_k: nat,
    log_inv_rate: nat,
    i: nat,
    last: nat,
)
    requires
        i <= last,
        ladder_rate(rule, dim, initial_k, log_inv_rate, i) is Err,
    ensures
        ladder_rate(rule, dim, initial_k, log_inv_rate, last) == ladder_rate(
            rule,
            dim,
            initial_k,
            log_inv_rate,
            i,
        ),
    decreases last,
{
    if i < last {
        lemma_rate_error(rule, dim, initial_k, log_inv_rate, i, (last - 1) as nat);
    }
}

pub(crate) proof fn lemma_short_code(k: nat)
    requires
        pow2(k) < 300,
    ensures
        k < 9,
{
    lemma2_to64();
    if k > 9 {
        lemma_pow2_strictly_increases(9, k);
    }
}

/// The rate index of the next level.
fn next_rate(
    rule: RateRule,
    level: usize,
    rate_running: usize,
    fold_running: usize,
    cols_next: usize,
) -> (r: Result<usize, String>)
    requires
        level >= 1,
        rule == RateRule::Production ==> rate_running + fold_running - domain_reduction(
            level as nat,
        ) <= usize::MAX,
        rule == RateRule::UniqueDecoding ==> cols_next + rate_running + 1 < usize::BITS,
    ensures
        match r {
            Ok(rate) => {
                &&& next_rate_outcome(
                    rule,
                    level as nat,
                    rate_running as nat,
                    fold_running as nat,
                    cols_next as nat,
                ) == Ok::<nat, Seq<char>>(rate as nat)
                &&& rule == RateRule::UniqueDecoding ==> cols_next + rate < usize::BITS
            },
            Err(e) => next_rate_outcome(
                rule,
                level as nat,
                rate_running as nat,
                fold_running as nat,
                cols_next as nat,
            ) == Err::<nat, Seq<char>>(e@),
        },
{
    match rule {
        RateRule::Production => {
            let reduction: usize = if level == 1 {
                RS_DOMAIN_INITIAL_REDUCTION_FACTOR
            } else {
                RS_DOMAIN_SUBSEQUENT_REDUCTION_FACTOR
            };
            if fold_running < reduction {
                return Err(
                    with_number(
                        with_number("folding factor ".to_owned(), fold_running as u128).concat(
                            " is smaller than RS domain reduction ",
                        ),
                        reduction as u128,
                    ),
                );
            }
            Ok(rate_running + (fold_running - reduction))
        },
        RateRule::UniqueDecoding => {
            let mut rate: usize = rate_running + 1;
            while pow2_usize(cols_next + rate) < udr_queries(rate)
                invariant
                    rate >= 1,
                    cols_next + rate < usize::BITS,
                    udr_rate_outcome((rate_running + 1) as nat, cols_next as nat)
                        == udr_rate_outcome(rate as nat, cols_next as nat),
                decreases usize::MAX - rate,
            {
                proof {
                    lemma_short_code((cols_next + rate) as nat);
                }
                rate = rate + 1;
                if rate > MAX_SEARCHED_RATE {
                    return Err(
                        "could not find feasible recursive rate (level too deep)".to_owned(),
                    );
                }
            }
            Ok(rate)
        },
    }
}

/// Descends the ladder: folds [`SUBSEQUENT_FOLDING_FACTOR`] variables per level until at most
/// [`RESIDUAL_MAX_LOG`] remain. The rule picks each new level's rate, and is all that separates
/// the production ladder from the unique-decoding one.
pub fn derive_ladder(log_n: usize, initial_k: usize, log_inv_rate: usize, rule: RateRule) -> (r:
    Result<LadderShape, String>)
    requires
        log_n > initial_k ==> ladder_fits(
            rule,
            (log_n - initial_k) as nat,
            initial_k as nat,
            log_inv_rate as nat,
        ),
    ensures
        match r {
            Ok(shape) => {
                &&& ladder_error(rule, log_n as nat, initial_k as nat, log_inv_rate as nat) is None
                &&& shape.is_ladder(
                    rule,
                    (log_n - initial_k) as nat,
                    initial_k as nat,
                    log_inv_rate as nat,
                )
            },
            Err(e) => ladder_error(rule, log_n as nat, initial_k as nat, log_inv_rate as nat)
                == Some(e@),
        },
{
    if log_n <= initial_k {
        return Err("log_n must be > initial_k".to_owned());
    }
    let ghost dim = (log_n - initial_k) as nat;
    let ghost k0 = initial_k as nat;
    let ghost r0 = log_inv_rate as nat;
    let ghost depth = ladder_depth(dim);
    let mut n_running: usize = log_n - initial_k;
    let mut log_inv_rates: Vec<usize> = Vec::new();
    log_inv_rates.push(log_inv_rate);
    let mut log_msg_cols: Vec<usize> = Vec::new();
    log_msg_cols.push(n_running);
    let mut k_levels: Vec<usize> = Vec::new();
    k_levels.push(initial_k);
    let mut rate_running: usize = log_inv_rate;
    let mut fold_running: usize = initial_k;
    let mut level: usize = 0;
    proof {
        law_residual(dim);
    }
    while n_running > RESIDUAL_MAX_LOG
        invariant
            dim == log_n - initial_k,
            k0 == initial_k,
            r0 == log_inv_rate,
            depth == ladder_depth(dim),
            0 <= level <= depth,
            n_running == ladder_cols(dim, level as nat),
            0 <= ladder_cols(dim, depth) <= RESIDUAL_MAX_LOG,
            forall|i: nat| i < depth ==> #[trigger] ladder_cols(dim, i) > RESIDUAL_MAX_LOG,
            ladder_fits(rule, dim, k0, r0),
            rule == RateRule::UniqueDecoding && depth >= 1 ==> n_running + rate_running
                < usize::BITS,
            fold_running == ladder_fold(k0, level as nat),
            ladder_rate(rule, dim, k0, r0, level as nat) == Ok::<nat, Seq<char>>(
                rate_running as nat,
            ),
            log_inv_rates.len() == level + 1,
            log_msg_cols.len() == level + 1,
            k_levels.len() == level + 1,
            forall|i: int|
                0 <= i <= level ==> ladder_rate(rule, dim, k0, r0, i as nat) == Ok::<
                    nat,
                    Seq<char>,
                >(#[trigger] log_inv_rates[i] as nat),
            forall|i: int|
                0 <= i <= level ==> #[trigger] log_msg_cols[i] == ladder_cols(dim, i as nat),
            forall|i: int| 0 <= i <= level ==> #[trigger] k_levels[i] == ladder_fold(k0, i as nat),
        decreases n_running,
    {
        assert(level < depth);
        let k: usize = if SUBSEQUENT_FOLDING_FACTOR <= n_running {
            SUBSEQUENT_FOLDING_FACTOR
        } else {
            n_running
        };
        let log_msg_cols_next: usize = n_running - k;
        proof {
            if rule == RateRule::Production {
                if level >= 1 {
                    law_production_rate(dim, k0, r0, level as nat);
                }
            }
            assert(ladder_cols(dim, (level + 1) as nat) == log_msg_cols_next);
        }
        let rate: usize = match next_rate(
            rule,
            level + 1,
            rate_running,
            fold_running,
            log_msg_cols_next,
        ) {
            Ok(rate) => rate,
            Err(e) => {
                proof {
                    lemma_rate_error(rule, dim, k0, r0, (level + 1) as nat, depth);
                }
                return Err(e);
            },
        };
        log_inv_rates.push(rate);
        log_msg_cols.push(log_msg_cols_next);
        k_levels.push(k);
        n_running = log_msg_cols_next;
        rate_running = rate;
        fold_running = k;
        level = level + 1;
    }
    assert(level == depth) by {
        if level < depth {
            assert(ladder_cols(dim, level as nat) > RESIDUAL_MAX_LOG);
        }
    }
    if k_levels.len() < 2 {
        return Err("log_n too small: needs at least 2 fold levels".to_owned());
    }
    Ok(LadderShape { log_inv_rates, log_msg_cols, k_levels, yr_log_n: n_running })
}

/// The production ladder.
pub fn derive_ladder_shape(log_n: usize, initial_k: usize, log_inv_rate: usize) -> (r: Result<
    LadderShape,
    String,
>)
    requires
        log_n > initial_k ==> ladder_fits(
            RateRule::Production,
            (log_n - initial_k) as nat,
            initial_k as nat,
            log_inv_rate as nat,
        ),
    ensures
        match r {
            Ok(shape) => {
                &&& ladder_error(
                    RateRule::Production,
                    log_n as nat,
                    initial_k as nat,
                    log_inv_rate as nat,
                ) is None
                &&& shape.is_ladder(
                    RateRule::Production,
                    (log_n - initial_k) as nat,
                    initial_k as nat,
                    log_inv_rate as nat,
                )
            },
            Err(e) => ladder_error(
                RateRule::Production,
                log_n as nat,
                initial_k as nat,
                log_inv_rate as nat,
            ) == Some(e@),
        },
{
    derive_ladder(log_n, initial_k, log_inv_rate, RateRule::Production)
}

} // verus!
