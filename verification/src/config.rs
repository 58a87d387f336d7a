//! The configuration that prover and verifier share, and the table of shapes it implies.

use vstd::prelude::*;
use vstd::arithmetic::power2::*;
use crate::arith::pow2_usize;
use crate::ladder::{derive_ladder, RateRule};
use crate::params::{RESIDUAL_MAX_LOG, SUBSEQUENT_FOLDING_FACTOR};
use crate::udr::udr_queries;

verus! {

/// Shape and per-level soundness parameters of one opening. Prover and verifier read the same
/// numbers.
#[derive(Clone, Debug)]
pub struct ProverConfig {
    /// Inverse-rate logarithm of each level.
    pub log_inv_rates: Vec<usize>,
    /// Number of folds after the first one.
    pub level_steps: usize,
    /// Variables that the first fold takes.
    pub initial_k: usize,
    /// Variables that each later fold takes.
    pub level_ks: Vec<usize>,
    /// Query count of each level, `level_steps + 1` in all.
    pub queries: Vec<usize>,
    /// Proof-of-work bits of each level, ground after the commitment and before the queries.
    pub grinding_bits: Vec<usize>,
    /// Out-of-domain samples of each level, taken right after the commitment. The first level
    /// takes none.
    pub ood_samples: Vec<usize>,
}

/// The verifier's name for the shared configuration.
pub type VerifierConfig = ProverConfig;

/// The per-level shape table that a configuration implies for an opening.
#[derive(Clone, Debug)]
pub struct LevelShapes {
    /// Level count.
    pub levels: usize,
    /// Fold count per level: the first fold, then the later ones.
    pub ks: Vec<usize>,
    /// Log message columns entering each level's fold.
    pub log_msg_cols: Vec<usize>,
    /// Committed block length per level.
    pub block_len: Vec<usize>,
    /// Dimension of the residual cube left after every fold.
    pub yr_log_n: usize,
}

/// The sum of the first `i` entries of `ks`.
pub open spec fn sum_first(ks: Seq<usize>, i: nat) -> nat
    decreases i,
{
    if i == 0 {
        0
    } else {
        sum_first(ks, (i - 1) as nat) + ks[i - 1] as nat
    }
}

pub(crate) proof fn lemma_sum_first_monotone(ks: Seq<usize>, i: nat, j: nat)
    requires
        i <= j,
    ensures
        sum_first(ks, i) <= sum_first(ks, j),
    decreases j,
{
    if i < j {
        lemma_sum_first_monotone(ks, i, (j - 1) as nat);
    }
}

impl ProverConfig {
    /// Log message columns that enter the fold of level `i`.
    pub open spec fn cols(self, log_n: nat, i: nat) -> int {
        log_n - self.initial_k - sum_first(self.level_ks@, i)
    }

    /// Whether the configuration describes an opening over `log_n` variables: every level has a
    /// fold and a rate, no fold takes more variables than there are, and every block length fits.
    pub open spec fn describes(self, log_n: nat) -> bool {
        &&& self.level_steps <= self.level_ks.len()
        &&& self.level_steps < self.log_inv_rates.len()
        &&& self.cols(log_n, self.level_steps as nat) >= 0
        &&& forall|i: int|
            0 <= i <= self.level_steps ==> #[trigger] self.log_inv_rates[i] + self.cols(
                log_n,
                i as nat,
            ) < usize::BITS
    }

    /// The shape table of an opening over `log_n` variables.
    pub fn level_shapes(&self, log_n: usize) -> (shapes: LevelShapes)
        requires
            self.describes(log_n as nat),
        ensures
            shapes.levels == self.level_steps + 1,
            shapes.ks@ == seq![self.initial_k] + self.level_ks@,
            shapes.log_msg_cols.len() == self.level_steps + 1,
            forall|i: int|
                0 <= i <= self.level_steps ==> #[trigger] shapes.log_msg_cols[i] == self.cols(
                    log_n as nat,
                    i as nat,
                ),
            shapes.block_len.len() == self.level_steps + 1,
            forall|i: int|
                0 <= i <= self.level_steps ==> #[trigger] shapes.block_len[i] == pow2(
                    (self.cols(log_n as nat, i as nat) + self.log_inv_rates[i]) as nat,
                ),
            shapes.yr_log_n == self.cols(log_n as nat, self.level_steps as nat),
    {
        let r: usize = self.level_steps;
        let ghost ks_view = self.level_ks@;
        let mut ks: Vec<usize> = Vec::new();
        ks.push(self.initial_k);
        let mut j: usize = 0;
        while j < self.level_ks.len()
            invariant
                j <= self.level_ks.len(),
                ks@ == seq![self.initial_k] + self.level_ks@.take(j as int),
            decreases self.level_ks.len() - j,
        {
            ks.push(self.level_ks[j]);
            j = j + 1;
        }
        assert(self.level_ks@.take(j as int) =~= self.level_ks@);
        proof {
            lemma_sum_first_monotone(ks_view, 0, r as nat);
        }
        let mut cols: usize = log_n - self.initial_k;
        let mut log_msg_cols: Vec<usize> = Vec::new();
        let mut block_len: Vec<usize> = Vec::new();
        let mut i: usize = 0;
        loop
            invariant_except_break
                i <= r,
                cols == self.cols(log_n as nat, i as nat),
                log_msg_cols.len() == i,
                block_len.len() == i,
            invariant
                r == self.level_steps,
                ks_view == self.level_ks@,
                self.describes(log_n as nat),
                forall|l: int|
                    0 <= l < log_msg_cols.len() ==> #[trigger] log_msg_cols[l] == self.cols(
                        log_n as nat,
                        l as nat,
                    ),
                forall|l: int|
                    0 <= l < block_len.len() ==> #[trigger] block_len[l] == pow2(
                        (self.cols(log_n as nat, l as nat) + self.log_inv_rates[l]) as nat,
                    ),
            ensures
                cols == self.cols(log_n as nat, r as nat),
                log_msg_cols.len() == r + 1,
                block_len.len() == r + 1,
            decreases r - i,
        {
            assert(self.log_inv_rates[i as int] + self.cols(log_n as nat, i as nat) < usize::BITS);
            log_msg_cols.push(cols);
            block_len.push(pow2_usize(cols + self.log_inv_rates[i]));
            if i == r {
                break;
            }
            proof {
                lemma_sum_first_monotone(ks_view, (i + 1) as nat, r as nat);
            }
            cols = cols - self.level_ks[i];
            i = i + 1;
        }
        LevelShapes { levels: r + 1, ks, yr_log_n: cols, log_msg_cols, block_len }
    }
}

/// Why there is no unique-decoding configuration, or `None` where there is one.
pub open spec fn default_error(log_n: nat, initial_k: nat, log_inv_rate: nat) -> Option<Seq<char>> {
    if log_n > initial_k && pow2((log_n - initial_k + log_inv_rate) as nat)
        < crate::udr::udr_count(log_inv_rate) {
        Some("L0 block_len < udr_queries: log_n too small for chosen rate"@)
    } else {
        crate::ladder::ladder_error(RateRule::UniqueDecoding, log_n, initial_k, log_inv_rate)
    }
}

/// Whether `config` is the unique-decoding configuration.
pub open spec fn is_default_config(
    config: ProverConfig,
    log_n: nat,
    initial_k: nat,
    log_inv_rate: nat,
) -> bool {
    let dim = (log_n - initial_k) as nat;
    let depth = crate::ladder::ladder_depth(dim);
    &&& config.initial_k == initial_k
    &&& config.level_steps == depth
    &&& config.log_inv_rates.len() == depth + 1
    &&& config.level_ks.len() == depth
    &&& config.queries.len() == depth + 1
    &&& config.grinding_bits.len() == depth + 1
    &&& config.ood_samples.len() == depth + 1
    &&& forall|i: int|
        0 <= i <= depth ==> crate::ladder::ladder_rate(
            RateRule::UniqueDecoding,
            dim,
            initial_k,
            log_inv_rate,
            i as nat,
        ) == Ok::<nat, Seq<char>>(#[trigger] config.log_inv_rates[i] as nat)
    &&& forall|i: int|
        0 <= i < depth ==> #[trigger] config.level_ks[i] == SUBSEQUENT_FOLDING_FACTOR
    &&& forall|i: int|
        0 <= i <= depth ==> #[trigger] config.queries[i] == crate::udr::udr_count(
            config.log_inv_rates[i] as nat,
        )
    &&& forall|i: int| 0 <= i <= depth ==> #[trigger] config.grinding_bits[i] == 0
    &&& forall|i: int| 0 <= i <= depth ==> #[trigger] config.ood_samples[i] == 0
}

fn zeros(len: usize) -> (v: Vec<usize>)
    ensures
        v.len() == len,
        forall|i: int| 0 <= i < len ==> #[trigger] v[i] == 0,
{
    let mut v: Vec<usize> = Vec::new();
    while v.len() < len
        invariant
            v.len() <= len,
            forall|i: int| 0 <= i < v.len() ==> #[trigger] v[i] == 0,
        decreases len - v.len(),
    {
        v.push(0);
    }
    v
}

/// A configuration from the raw shape alone, with unique-decoding query counts and without the
/// per-level soundness derivation, for sizes below that derivation's floor.
///
/// Each level takes the least higher inverse rate whose code is at least as long as its query
/// count, until the residual is small.
pub fn default_config(log_n: usize, log_batch_size: usize, log_inv_rate: usize) -> (r: Result<
    ProverConfig,
    String,
>)
    requires
        log_n > log_batch_size ==> log_inv_rate > 0 && log_n - log_batch_size + log_inv_rate
            < usize::BITS,
    ensures
        match r {
            Ok(config) => {
                &&& default_error(log_n as nat, log_batch_size as nat, log_inv_rate as nat) is None
                &&& is_default_config(
                    config,
                    log_n as nat,
                    log_batch_size as nat,
                    log_inv_rate as nat,
                )
            },
            Err(e) => default_error(log_n as nat, log_batch_size as nat, log_inv_rate as nat)
                == Some(e@),
        },
{
    let initial_k: usize = log_batch_size;
    if log_n > initial_k && pow2_usize(log_n - initial_k + log_inv_rate) < udr_queries(
        log_inv_rate,
    ) {
        return Err("L0 block_len < udr_queries: log_n too small for chosen rate".to_owned());
    }
    let shape = derive_ladder(log_n, initial_k, log_inv_rate, RateRule::UniqueDecoding)?;
    let n_levels: usize = shape.log_inv_rates.len();
    let ghost dim = (log_n - initial_k) as nat;
    let ghost depth = crate::ladder::ladder_depth(dim);
    let mut queries: Vec<usize> = Vec::new();
    let mut i: usize = 0;
    while i < n_levels
        invariant
            i <= n_levels,
            n_levels == depth + 1,
            log_inv_rate > 0,
            depth == crate::ladder::ladder_depth(dim),
            shape.is_ladder(
                RateRule::UniqueDecoding,
                dim,
                initial_k as nat,
                log_inv_rate as nat,
            ),
            queries.len() == i,
            forall|l: int|
                0 <= l < i ==> #[trigger] queries[l] == crate::udr::udr_count(
                    shape.log_inv_rates[l] as nat,
                ),
        decreases n_levels - i,
    {
        proof {
            let rate = shape.log_inv_rates[i as int];
            lemma_rate_positive(dim, initial_k as nat, log_inv_rate as nat, i as nat);
        }
        queries.push(udr_queries(shape.log_inv_rates[i]));
        i = i + 1;
    }
    let mut level_ks: Vec<usize> = Vec::new();
    let mut j: usize = 1;
    while j < n_levels
        invariant
            1 <= j <= n_levels,
            n_levels == depth + 1,
            depth == crate::ladder::ladder_depth(dim),
            shape.is_ladder(
                RateRule::UniqueDecoding,
                dim,
                initial_k as nat,
                log_inv_rate as nat,
            ),
            level_ks.len() == j - 1,
            forall|l: int| 0 <= l < j - 1 ==> #[trigger] level_ks[l] == SUBSEQUENT_FOLDING_FACTOR,
        decreases n_levels - j,
    {
        level_ks.push(shape.k_levels[j]);
        j = j + 1;
    }
    Ok(
        ProverConfig {
            queries,
            level_steps: shape.k_levels.len() - 1,
            log_inv_rates: shape.log_inv_rates,
            initial_k,
            level_ks,
            grinding_bits: zeros(n_levels),
            ood_samples: zeros(n_levels),
        },
    )
}

proof fn lemma_searched_rate(rate: nat, cols: nat)
    requires
        rate > 0,
    ensures
        crate::ladder::udr_rate_outcome(rate, cols) matches Ok(found) ==> {
            &&& found >= rate
            &&& pow2(cols + found) >= crate::udr::udr_count(found)
            &&& found == rate || cols + found < 10
            &&& forall|r: nat|
                rate <= r < found ==> pow2(cols + r) < #[trigger] crate::udr::udr_count(r)
        },
    decreases crate::ladder::MAX_SEARCHED_RATE - rate,
{
    if pow2(cols + rate) < crate::udr::udr_count(rate) && rate + 1
        <= crate::ladder::MAX_SEARCHED_RATE {
        crate::udr::law_udr_bounds(rate);
        crate::ladder::lemma_short_code(cols + rate);
        lemma_searched_rate(rate + 1, cols);
    }
}

proof fn lemma_rate_positive(dim: nat, initial_k: nat, log_inv_rate: nat, i: nat)
    requires
        log_inv_rate > 0,
    ensures
        crate::ladder::ladder_rate(
            RateRule::UniqueDecoding,
            dim,
            initial_k,
            log_inv_rate,
            i,
        ) matches Ok(rate) ==> rate > 0,
    decreases i,
{
    if i > 0 {
        lemma_rate_positive(dim, initial_k, log_inv_rate, (i - 1) as nat);
        match crate::ladder::ladder_rate(
            RateRule::UniqueDecoding,
            dim,
            initial_k,
            log_inv_rate,
            (i - 1) as nat,
        ) {
            Ok(rate) => {
                lemma_searched_rate(
                    rate + 1,
                    crate::ladder::ladder_cols(dim, i) as nat,
                );
            },
            Err(_) => {},
        }
    }
}

/// In a unique-decoding configuration every level's code is at least as long as its query count.
pub proof fn law_default_codes_hold_queries(
    config: ProverConfig,
    log_n: nat,
    initial_k: nat,
    log_inv_rate: nat,
    i: nat,
)
    requires
        log_inv_rate > 0,
        default_error(log_n, initial_k, log_inv_rate) is None,
        is_default_config(config, log_n, initial_k, log_inv_rate),
        i <= config.level_steps,
    ensures
        config.cols(log_n, i) >= 0,
        pow2((config.cols(log_n, i) + config.log_inv_rates[i as int]) as nat)
            >= config.queries[i as int],
{
    let dim = (log_n - initial_k) as nat;
    crate::ladder::law_residual(dim);
    lemma_default_sum(config, log_n, initial_k, log_inv_rate, i);
    assert(config.cols(log_n, i) == crate::ladder::ladder_cols(dim, i));
    let rate = config.log_inv_rates[i as int] as nat;
    assert(config.queries[i as int] == crate::udr::udr_count(rate));
    assert(crate::ladder::ladder_rate(
        RateRule::UniqueDecoding,
        dim,
        initial_k,
        log_inv_rate,
        i,
    ) == Ok::<nat, Seq<char>>(rate));
    if i > 0 {
        let before = config.log_inv_rates[i - 1] as nat;
        assert(crate::ladder::ladder_rate(
            RateRule::UniqueDecoding,
            dim,
            initial_k,
            log_inv_rate,
            (i - 1) as nat,
        ) == Ok::<nat, Seq<char>>(before));
        lemma_searched_rate(before + 1, crate::ladder::ladder_cols(dim, i) as nat);
    }
}

proof fn lemma_default_sum(
    config: ProverConfig,
    log_n: nat,
    initial_k: nat,
    log_inv_rate: nat,
    i: nat,
)
    requires
        is_default_config(config, log_n, initial_k, log_inv_rate),
        i <= config.level_steps,
    ensures
        sum_first(config.level_ks@, i) == SUBSEQUENT_FOLDING_FACTOR * i,
    decreases i,
{
    if i > 0 {
        lemma_default_sum(config, log_n, initial_k, log_inv_rate, (i - 1) as nat);
        assert(config.level_ks[i - 1] == SUBSEQUENT_FOLDING_FACTOR);
    }
}

/// The unique-decoding configuration, level by level: the first rate is the one asked for, every
/// later one is the least above the rate before it whose code is at least as long as its
/// unique-decoding query count, every level's code holds its queries, the residual is small, and
/// nothing is ground or sampled out of domain.
pub proof fn law_default_config(
    config: ProverConfig,
    log_n: nat,
    initial_k: nat,
    log_inv_rate: nat,
)
    requires
        log_inv_rate > 0,
        default_error(log_n, initial_k, log_inv_rate) is None,
        is_default_config(config, log_n, initial_k, log_inv_rate),
    ensures
        config.initial_k == initial_k,
        config.log_inv_rates.len() == config.level_steps + 1,
        config.level_ks.len() == config.level_steps,
        config.queries.len() == config.level_steps + 1,
        config.grinding_bits.len() == config.level_steps + 1,
        config.ood_samples.len() == config.level_steps + 1,
        config.log_inv_rates[0] == log_inv_rate,
        forall|i: int|
            0 <= i <= config.level_steps ==> #[trigger] config.queries[i] == crate::udr::udr_count(
                config.log_inv_rates[i] as nat,
            ) && pow2((config.cols(log_n, i as nat) + config.log_inv_rates[i]) as nat)
                >= config.queries[i],
        forall|i: int, rate: nat|
            0 < i <= config.level_steps && config.log_inv_rates[i - 1] < rate
                < config.log_inv_rates[i] ==> pow2(
                (#[trigger] config.cols(log_n, i as nat) + rate) as nat,
            ) < #[trigger] crate::udr::udr_count(rate),
        forall|i: int|
            0 < i <= config.level_steps ==> config.log_inv_rates[i - 1]
                < #[trigger] config.log_inv_rates[i],
        forall|i: int|
            0 <= i < config.level_steps ==> #[trigger] config.level_ks[i]
                == SUBSEQUENT_FOLDING_FACTOR,
        0 <= config.cols(log_n, config.level_steps as nat) <= RESIDUAL_MAX_LOG,
        forall|i: int| 0 <= i <= config.level_steps ==> #[trigger] config.grinding_bits[i] == 0,
        forall|i: int| 0 <= i <= config.level_steps ==> #[trigger] config.ood_samples[i] == 0,
{
    let dim = (log_n - initial_k) as nat;
    crate::ladder::law_residual(dim);
    lemma_default_sum(config, log_n, initial_k, log_inv_rate, config.level_steps as nat);
    assert(crate::ladder::ladder_rate(
        RateRule::UniqueDecoding,
        dim,
        initial_k,
        log_inv_rate,
        0,
    ) == Ok::<nat, Seq<char>>(config.log_inv_rates[0] as nat));
    assert forall|i: int| 0 <= i <= config.level_steps implies #[trigger] config.queries[i]
        == crate::udr::udr_count(config.log_inv_rates[i] as nat) && pow2(
        (config.cols(log_n, i as nat) + config.log_inv_rates[i]) as nat,
    ) >= config.queries[i] by {
        law_default_codes_hold_queries(config, log_n, initial_k, log_inv_rate, i as nat);
    }
    assert forall|i: int, rate: nat|
        0 < i <= config.level_steps && config.log_inv_rates[i - 1] < rate
            < config.log_inv_rates[i] implies pow2(
        (#[trigger] config.cols(log_n, i as nat) + rate) as nat,
    ) < #[trigger] crate::udr::udr_count(rate) by {
        lemma_default_rate(config, log_n, initial_k, log_inv_rate, i as nat);
    }
    assert forall|i: int| 0 < i <= config.level_steps implies config.log_inv_rates[i - 1]
        < #[trigger] config.log_inv_rates[i] by {
        lemma_default_rate(config, log_n, initial_k, log_inv_rate, i as nat);
    }
}

/// The rate of a deeper level is the one that the search above the rate before it finds.
proof fn lemma_default_rate(
    config: ProverConfig,
    log_n: nat,
    initial_k: nat,
    log_inv_rate: nat,
    i: nat,
)
    requires
        log_inv_rate > 0,
        default_error(log_n, initial_k, log_inv_rate) is None,
        is_default_config(config, log_n, initial_k, log_inv_rate),
        0 < i <= config.level_steps,
    ensures
        config.log_inv_rates[i - 1] < config.log_inv_rates[i as int],
        forall|rate: nat|
            config.log_inv_rates[i - 1] < rate < config.log_inv_rates[i as int] ==> pow2(
                (config.cols(log_n, i) + rate) as nat,
            ) < #[trigger] crate::udr::udr_count(rate),
{
    let dim = (log_n - initial_k) as nat;
    crate::ladder::law_residual(dim);
    lemma_default_sum(config, log_n, initial_k, log_inv_rate, i);
    assert(config.cols(log_n, i) == crate::ladder::ladder_cols(dim, i));
    let before = config.log_inv_rates[i - 1] as nat;
    let rate = config.log_inv_rates[i as int] as nat;
    assert(crate::ladder::ladder_rate(
        RateRule::UniqueDecoding,
        dim,
        initial_k,
        log_inv_rate,
        (i - 1) as nat,
    ) == Ok::<nat, Seq<char>>(before));
    assert(crate::ladder::ladder_rate(
        RateRule::UniqueDecoding,
        dim,
        initial_k,
        log_inv_rate,
        i,
    ) == Ok::<nat, Seq<char>>(rate));
    lemma_searched_rate(before + 1, crate::ladder::ladder_cols(dim, i) as nat);
}

} // verus!
