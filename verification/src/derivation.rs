//! The production configuration of a witness size and a first rate.

use vstd::prelude::*;
use crate::certificate::CapacityMcaCertificate;
use crate::config::{default_config, ProverConfig};
use crate::ladder::{derive_ladder_shape, LadderShape, RateRule};
use crate::optimizer::{optimize_johnson_level, LevelRequest};
use crate::params::{
    validate_log_inv_rate, INITIAL_FOLDING_FACTOR, LOG_INV_RATE_0, LOG_PACKING, MAX_LOG_INV_RATE,
    MIN_LOG_INV_RATE, QUERY_GRINDING_BITS, RESIDUAL_MAX_LOG, SECURITY_BITS,
};
use crate::security::{prev_queries_at, FinalBlockConfig, WhirSecurityConfig};
use crate::soundness::WhirLevelConfig;
use crate::text::with_number;

verus! {

/// The rate index of level `i` of the production ladder.
pub open spec fn production_rate(dim: nat, log_inv_rate: nat, i: nat) -> nat {
    match crate::ladder::ladder_rate(
        RateRule::Production,
        dim,
        INITIAL_FOLDING_FACTOR as nat,
        log_inv_rate,
        i,
    ) {
        Ok(rate) => rate,
        Err(_) => 0,
    }
}

/// What is fixed of level `i` of the production ladder once the queries before it are known.
pub open spec fn production_request(
    dim: nat,
    log_inv_rate: nat,
    i: nat,
    prev_queries: usize,
) -> LevelRequest {
    LevelRequest {
        level: i as usize,
        log_inv_rate: production_rate(dim, log_inv_rate, i) as usize,
        log_msg_cols: crate::ladder::ladder_cols(dim, i) as usize,
        log_num_interleaved: crate::ladder::ladder_fold(INITIAL_FOLDING_FACTOR as nat, i) as usize,
        target_bits: SECURITY_BITS,
        query_grinding_bits: QUERY_GRINDING_BITS,
        prev_queries,
    }
}

/// The level that a request's search gives.
pub open spec fn level_outcome(request: LevelRequest) -> Result<WhirLevelConfig, Seq<char>> {
    match request.optimum() {
        Err(e) => Err(e),
        Ok((queries, certificate)) => Ok(request.level_with(queries as usize, certificate)),
    }
}

/// Level `i` of the production configuration, each level searched with the queries of the one
/// before it, or the error of the first level that has none.
pub open spec fn production_level(dim: nat, log_inv_rate: nat, i: nat) -> Result<
    WhirLevelConfig,
    Seq<char>,
>
    decreases i,
{
    if i == 0 {
        level_outcome(production_request(dim, log_inv_rate, 0, 0))
    } else {
        match production_level(dim, log_inv_rate, (i - 1) as nat) {
            Err(e) => Err(e),
            Ok(before) => level_outcome(production_request(dim, log_inv_rate, i, before.queries)),
        }
    }
}

/// Why there is no production configuration, or `None` where there is one.
pub open spec fn production_error(m: nat, log_inv_rate: nat) -> Option<Seq<char>> {
    let log_n = (m - LOG_PACKING) as nat;
    let dim = (log_n - INITIAL_FOLDING_FACTOR) as nat;
    match crate::params::rate_outcome(log_inv_rate) {
        Err(e) => Some(e),
        Ok(_) => if m < LOG_PACKING {
            Some(
                "m ("@ + crate::text::decimal(m) + ") < LOG_PACKING ("@ + crate::text::decimal(
                    LOG_PACKING as nat,
                ) + ")"@,
            )
        } else {
            match crate::ladder::ladder_error(
                RateRule::Production,
                log_n,
                INITIAL_FOLDING_FACTOR as nat,
                log_inv_rate,
            ) {
                Some(e) => Some(e),
                None => match production_level(
                    dim,
                    log_inv_rate,
                    crate::ladder::ladder_depth(dim),
                ) {
                    Err(e) => Some(e),
                    Ok(_) => None,
                },
            }
        },
    }
}

impl WhirSecurityConfig {
    /// Whether this is the production configuration of a witness size and a first rate.
    pub open spec fn is_production(self, m: nat, log_inv_rate: nat) -> bool {
        let dim = m - LOG_PACKING - INITIAL_FOLDING_FACTOR;
        let depth = crate::ladder::ladder_depth(dim as nat);
        &&& dim >= 0
        &&& self.m == m
        &&& self.log_n == m - LOG_PACKING
        &&& self.initial_k == INITIAL_FOLDING_FACTOR
        &&& self.target_security_bits == SECURITY_BITS
        &&& self.analysis_version@ == "rs_capacity_mca_exact_threshold_width_free_rbr"@
        &&& self.levels.len() == depth + 1
        &&& forall|i: int|
            0 <= i <= depth ==> production_level(dim as nat, log_inv_rate, i as nat) == Ok::<
                WhirLevelConfig,
                Seq<char>,
            >(#[trigger] self.levels[i])
        &&& self.final_block.yr_log_n == crate::ladder::ladder_cols(dim as nat, depth)
    }
}

/// A level that fails on the way fails the last one with the same error.
pub(crate) proof fn lemma_level_error(dim: nat, log_inv_rate: nat, i: nat, last: nat)
    requires
        i <= last,
        production_level(dim, log_inv_rate, i) is Err,
    ensures
        production_level(dim, log_inv_rate, last) == production_level(dim, log_inv_rate, i),
    decreases last,
{
    if i < last {
        lemma_level_error(dim, log_inv_rate, i, (last - 1) as nat);
    }
}

/// Each production level is shorter than the first one.
pub(crate) proof fn lemma_production_shape(dim: nat, log_inv_rate: nat, i: nat)
    requires
        i <= crate::ladder::ladder_depth(dim),
        dim + log_inv_rate < usize::BITS,
        log_inv_rate > 0,
    ensures
        crate::ladder::ladder_rate(
            RateRule::Production,
            dim,
            INITIAL_FOLDING_FACTOR as nat,
            log_inv_rate,
            i,
        ) == Ok::<nat, Seq<char>>(production_rate(dim, log_inv_rate, i)),
        production_rate(dim, log_inv_rate, i) == log_inv_rate + 3 * i,
        0 <= crate::ladder::ladder_cols(dim, i) <= dim,
        crate::ladder::ladder_depth(dim) >= 1 ==> crate::ladder::ladder_cols(dim, i) > 0,
        crate::ladder::ladder_cols(dim, i) + production_rate(dim, log_inv_rate, i) <= dim
            + log_inv_rate,
{
    crate::ladder::law_residual(dim);
    if i > 0 {
        crate::ladder::law_production_rate(dim, INITIAL_FOLDING_FACTOR as nat, log_inv_rate, i);
    }
}

/// What a production level is, field by field, and which rows it meets.
pub(crate) proof fn lemma_production_level(dim: nat, log_inv_rate: nat, i: nat)
    requires
        i <= crate::ladder::ladder_depth(dim),
        crate::ladder::ladder_depth(dim) >= 1,
        dim + log_inv_rate < usize::BITS,
        log_inv_rate > 0,
    ensures
        production_level(dim, log_inv_rate, i) matches Ok(lv) ==> {
            let prev = if i == 0 {
                0
            } else {
                production_level(dim, log_inv_rate, (i - 1) as nat)->Ok_0.queries
            };
            let target = SECURITY_BITS as nat;
            &&& lv.log_inv_rate == log_inv_rate + 3 * i
            &&& lv.log_msg_cols == crate::ladder::ladder_cols(dim, i)
            &&& lv.log_msg_cols > 0
            &&& lv.log_num_interleaved == crate::ladder::ladder_fold(
                INITIAL_FOLDING_FACTOR as nat,
                i,
            )
            &&& lv.k == lv.log_num_interleaved
            &&& lv.length_fits()
            &&& 0 < lv.queries <= u32::MAX
            &&& lv.grinding_bits == QUERY_GRINDING_BITS
            &&& lv.target_security_bits == SECURITY_BITS
            &&& lv.ood_samples == crate::optimizer::samples_at(i)
            &&& lv.agreement == crate::query::query_agreement(
                lv.n(),
                lv.queries as nat,
                crate::optimizer::query_target(target, QUERY_GRINDING_BITS as nat),
            )
            &&& crate::optimizer::beyond_johnson(lv.n(), lv.degree(), lv.agreement as nat)
            &&& lv.agreement < lv.n()
            &&& crate::certificate::capacity_outcome(
                lv.n(),
                lv.degree(),
                lv.agreement as nat,
                lv.queries as nat,
            ) matches Ok(certificate)
            &&& crate::security::holds_certificate(lv, certificate)
            &&& crate::soundness::fold_outcome(lv, target) == Ok::<bool, Seq<char>>(true)
            &&& crate::soundness::ood_outcome(lv, target) == Ok::<bool, Seq<char>>(true)
            &&& crate::soundness::algebraic_outcome(lv, prev as nat, target) == Ok::<
                bool,
                Seq<char>,
            >(true)
        },
{
    if let Ok(lv) = production_level(dim, log_inv_rate, i) {
        let prev = if i == 0 {
            0
        } else {
            production_level(dim, log_inv_rate, (i - 1) as nat)->Ok_0.queries
        };
        let request = production_request(dim, log_inv_rate, i, prev);
        lemma_production_shape(dim, log_inv_rate, i);
        crate::ladder::law_residual(dim);
        crate::optimizer::law_fewest_queries(request);
        let (queries, certificate) = request.optimum()->Ok_0;
        assert(request.level == i);
        let a = request.agreement(queries);
        crate::code::law_degree_below_length(
            request.log_inv_rate as nat,
            request.log_msg_cols as nat,
        );
        crate::optimizer::lemma_length_fits(request);
        assert(request.candidate(queries) == Ok::<Option<CapacityMcaCertificate>, Seq<char>>(
            Some(certificate),
        ));
        crate::certificate::law_certificate_stands(request.n(), request.degree(), a, queries);
        assert(lv == request.level_with(queries as usize, certificate));
    }
}

/// The variables that the first levels of the production ladder fold.
proof fn lemma_production_folds(config: WhirSecurityConfig, lo: nat, hi: nat)
    requires
        lo <= 1,
        lo <= hi <= config.levels.len(),
        forall|i: int|
            0 <= i < config.levels.len() ==> (#[trigger] config.levels[i]).k
                == crate::ladder::ladder_fold(INITIAL_FOLDING_FACTOR as nat, i as nat),
    ensures
        lo == 0 && hi > 0 ==> crate::security::folds(config.levels@, lo, hi)
            == INITIAL_FOLDING_FACTOR + 4 * (hi - 1),
        lo == 1 ==> crate::security::folds(config.levels@, lo, hi) == 4 * (hi - 1),
        lo == hi ==> crate::security::folds(config.levels@, lo, hi) == 0,
    decreases hi,
{
    if hi > lo {
        assert(config.levels[hi - 1].k == crate::ladder::ladder_fold(
            INITIAL_FOLDING_FACTOR as nat,
            (hi - 1) as nat,
        ));
        lemma_production_folds(config, lo, (hi - 1) as nat);
    }
}

/// The production configuration is valid: nothing in it is in violation, whatever the witness size
/// and the first rate.
pub proof fn law_production_valid(config: WhirSecurityConfig, m: nat, log_inv_rate: nat)
    requires
        log_inv_rate > 0,
        m - LOG_PACKING - INITIAL_FOLDING_FACTOR + log_inv_rate < usize::BITS,
        production_error(m, log_inv_rate) is None,
        config.is_production(m, log_inv_rate),
    ensures
        config.lengths_fit(),
        config.violation() is None,
{
    let dim = (m - LOG_PACKING - INITIAL_FOLDING_FACTOR) as nat;
    let depth = crate::ladder::ladder_depth(dim);
    let levels = config.levels@;
    assert forall|i: int| 0 <= i <= depth implies (#[trigger] config.levels[i]).length_fits()
        && config.levels[i].k == crate::ladder::ladder_fold(
        INITIAL_FOLDING_FACTOR as nat,
        i as nat,
    ) by {
        lemma_production_level(dim, log_inv_rate, i as nat);
    }
    assert(config.header_violation() is None) by {
        reveal(WhirSecurityConfig::header_violation);
        lemma_production_folds(config, 1, levels.len());
        lemma_production_level(dim, log_inv_rate, 0);
        assert(production_level(dim, log_inv_rate, 0) == Ok::<WhirLevelConfig, Seq<char>>(
            config.levels[0],
        ));
    }
    assert forall|i: nat| i <= depth implies (#[trigger] config.level_violation(i)) is None by {
        reveal(WhirSecurityConfig::level_violation);
        lemma_production_level(dim, log_inv_rate, i);
        assert(production_level(dim, log_inv_rate, i) == Ok::<WhirLevelConfig, Seq<char>>(
            config.levels[i as int],
        ));
        if i > 0 {
            assert(production_level(dim, log_inv_rate, (i - 1) as nat) == Ok::<
                WhirLevelConfig,
                Seq<char>,
            >(config.levels[i - 1]));
        }
        assert(config.shape_violation(i) is None) by {
            reveal(WhirSecurityConfig::shape_violation);
            lemma_production_folds(config, 0, i);
            if i < depth {
                lemma_production_level(dim, log_inv_rate, i + 1);
                assert(production_level(dim, log_inv_rate, i + 1) == Ok::<
                    WhirLevelConfig,
                    Seq<char>,
                >(config.levels[i as int + 1]));
            }
        }
        assert(config.certificate_violation(i) is None);
        assert(config.ood_violation(i) is None);
        assert(config.rows_violation(i) is None);
    }
    crate::security::lemma_no_violation(config, 0);
}

/// The production profile: whatever the witness size, the configuration is valid and of that size,
/// the first fold and the first rate are the ones asked for, the residual is small, every level
/// folds all its lanes, and every level has the production target and grinding.
pub proof fn law_production_profile(config: WhirSecurityConfig, m: nat, log_inv_rate: nat, i: nat)
    requires
        log_inv_rate > 0,
        m - LOG_PACKING - INITIAL_FOLDING_FACTOR + log_inv_rate < usize::BITS,
        production_error(m, log_inv_rate) is None,
        config.is_production(m, log_inv_rate),
        i < config.levels.len(),
    ensures
        config.violation() is None,
        config.m == m,
        config.log_n + LOG_PACKING == m,
        config.initial_k == INITIAL_FOLDING_FACTOR,
        config.target_security_bits == SECURITY_BITS,
        config.levels[0].log_inv_rate == log_inv_rate,
        config.final_block.yr_log_n <= RESIDUAL_MAX_LOG,
        config.levels[i as int].target_security_bits == SECURITY_BITS,
        config.levels[i as int].grinding_bits == QUERY_GRINDING_BITS,
        config.levels[i as int].k == config.levels[i as int].log_num_interleaved,
{
    let dim = (m - LOG_PACKING - INITIAL_FOLDING_FACTOR) as nat;
    law_production_valid(config, m, log_inv_rate);
    crate::ladder::law_residual(dim);
    lemma_production_level(dim, log_inv_rate, 0);
    lemma_production_level(dim, log_inv_rate, i);
    assert(production_level(dim, log_inv_rate, 0) == Ok::<WhirLevelConfig, Seq<char>>(
        config.levels[0],
    ));
    assert(production_level(dim, log_inv_rate, i) == Ok::<WhirLevelConfig, Seq<char>>(
        config.levels[i as int],
    ));
}

impl WhirSecurityConfig {
    /// Derives the production configuration at witness size `m` for an explicit first rate
    /// `2^-log_inv_rate`: Johnson list decoding with out-of-domain binding, every error term of a
    /// verifier challenge within [`SECURITY_BITS`].
    ///
    /// What it returns is valid.
    pub fn derive_config_with_log_inv_rate(m: usize, log_inv_rate: usize) -> (r: Result<
        Self,
        String,
    >)
        requires
            MIN_LOG_INV_RATE <= log_inv_rate <= MAX_LOG_INV_RATE ==> m - LOG_PACKING
                - INITIAL_FOLDING_FACTOR + log_inv_rate < usize::BITS,
        ensures
            match r {
                Ok(config) => {
                    &&& production_error(m as nat, log_inv_rate as nat) is None
                    &&& config.is_production(m as nat, log_inv_rate as nat)
                    &&& config.lengths_fit()
                    &&& config.violation() is None
                },
                Err(e) => production_error(m as nat, log_inv_rate as nat) == Some(e@),
            },
    {
        validate_log_inv_rate(log_inv_rate)?;
        if m < LOG_PACKING {
            let text = with_number("m (".to_owned(), m as u128).concat(") < LOG_PACKING (");
            return Err(with_number(text, LOG_PACKING as u128).concat(")"));
        }
        let log_n: usize = m - LOG_PACKING;
        let shape = derive_ladder_shape(log_n, INITIAL_FOLDING_FACTOR, log_inv_rate)?;
        let ghost dim = (log_n - INITIAL_FOLDING_FACTOR) as nat;
        let levels = derive_levels(&shape, Ghost(dim), log_inv_rate)?;
        assert(production_level(
            dim,
            log_inv_rate as nat,
            crate::ladder::ladder_depth(dim),
        ) == Ok::<WhirLevelConfig, Seq<char>>(levels[levels.len() - 1]));
        let config = WhirSecurityConfig {
            m,
            log_n,
            initial_k: INITIAL_FOLDING_FACTOR,
            target_security_bits: SECURITY_BITS,
            analysis_version: "rs_capacity_mca_exact_threshold_width_free_rbr".to_owned(),
            levels,
            final_block: FinalBlockConfig { yr_log_n: shape.yr_log_n },
        };
        proof {
            law_production_valid(config, m as nat, log_inv_rate as nat);
        }
        Ok(config)
    }
}

/// Searches the levels of a production ladder, in order.
fn derive_levels(shape: &LadderShape, Ghost(dim): Ghost<nat>, log_inv_rate: usize) -> (r: Result<
    Vec<WhirLevelConfig>,
    String,
>)
    requires
        log_inv_rate > 0,
        dim + log_inv_rate < usize::BITS,
        shape.is_ladder(
            RateRule::Production,
            dim,
            INITIAL_FOLDING_FACTOR as nat,
            log_inv_rate as nat,
        ),
    ensures
        match r {
            Ok(levels) => {
                &&& levels.len() == crate::ladder::ladder_depth(dim) + 1
                &&& forall|i: int|
                    0 <= i < levels.len() ==> production_level(
                        dim,
                        log_inv_rate as nat,
                        i as nat,
                    ) == Ok::<WhirLevelConfig, Seq<char>>(#[trigger] levels[i])
            },
            Err(e) => production_level(
                dim,
                log_inv_rate as nat,
                crate::ladder::ladder_depth(dim),
            ) == Err::<WhirLevelConfig, Seq<char>>(e@),
        },
{
    let n_levels: usize = shape.log_inv_rates.len();
    let mut levels: Vec<WhirLevelConfig> = Vec::new();
    let mut i: usize = 0;
    while i < n_levels
        invariant
            i <= n_levels,
            n_levels == crate::ladder::ladder_depth(dim) + 1,
            log_inv_rate > 0,
            dim + log_inv_rate < usize::BITS,
            shape.is_ladder(
                RateRule::Production,
                dim,
                INITIAL_FOLDING_FACTOR as nat,
                log_inv_rate as nat,
            ),
            levels.len() == i,
            forall|l: int|
                0 <= l < i ==> production_level(dim, log_inv_rate as nat, l as nat) == Ok::<
                    WhirLevelConfig,
                    Seq<char>,
                >(#[trigger] levels[l]),
        decreases n_levels - i,
    {
        let request = LevelRequest {
            level: i,
            log_inv_rate: shape.log_inv_rates[i],
            log_msg_cols: shape.log_msg_cols[i],
            log_num_interleaved: shape.k_levels[i],
            target_bits: SECURITY_BITS,
            query_grinding_bits: QUERY_GRINDING_BITS,
            prev_queries: prev_queries_at(levels.as_slice(), i),
        };
        proof {
            lemma_production_shape(dim, log_inv_rate as nat, i as nat);
            assert(request == production_request(
                dim,
                log_inv_rate as nat,
                i as nat,
                request.prev_queries,
            ));
            if i > 0 {
                assert(production_level(dim, log_inv_rate as nat, (i - 1) as nat) == Ok::<
                    WhirLevelConfig,
                    Seq<char>,
                >(levels[i - 1]));
            }
        }
        match optimize_johnson_level(request) {
            Err(e) => {
                proof {
                    lemma_level_error(
                        dim,
                        log_inv_rate as nat,
                        i as nat,
                        crate::ladder::ladder_depth(dim),
                    );
                }
                return Err(e);
            },
            Ok(found) => {
                levels.push(
                    WhirLevelConfig {
                        log_inv_rate: request.log_inv_rate,
                        log_msg_cols: request.log_msg_cols,
                        log_num_interleaved: request.log_num_interleaved,
                        k: shape.k_levels[i],
                        agreement: found.certificate.agreement,
                        interpolation_m: found.certificate.interpolation_m,
                        jet_degree: found.certificate.jet_degree,
                        interpolation_height: found.certificate.interpolation_height,
                        list_bound: found.certificate.list_bound,
                        certificate_variant: found.certificate.variant,
                        queries: found.queries,
                        grinding_bits: QUERY_GRINDING_BITS,
                        ood_samples: found.ood_samples,
                        target_security_bits: SECURITY_BITS,
                    },
                );
            },
        }
        i = i + 1;
    }
    Ok(levels)
}

proof fn lemma_shared_sum(config: WhirSecurityConfig, shared: ProverConfig, i: nat)
    requires
        config.is_shared_config(shared),
        i < config.levels.len(),
    ensures
        crate::config::sum_first(shared.level_ks@, i) == crate::security::folds(
            config.levels@,
            1,
            i + 1,
        ),
    decreases i,
{
    if i > 0 {
        lemma_shared_sum(config, shared, (i - 1) as nat);
        assert(shared.level_ks[i - 1] == config.levels[i as int].k);
    }
}

/// The shape table of the shared production configuration agrees with the levels it came from:
/// each level's columns and block length, and the residual.
pub proof fn law_production_shapes(
    config: WhirSecurityConfig,
    shared: ProverConfig,
    m: nat,
    log_inv_rate: nat,
    i: nat,
)
    requires
        log_inv_rate > 0,
        m - LOG_PACKING - INITIAL_FOLDING_FACTOR + log_inv_rate < usize::BITS,
        production_error(m, log_inv_rate) is None,
        config.is_production(m, log_inv_rate),
        config.is_shared_config(shared),
        i < config.levels.len(),
    ensures
        shared.describes(config.log_n as nat),
        shared.cols(config.log_n as nat, i) == config.levels[i as int].log_msg_cols,
        vstd::arithmetic::power2::pow2(
            (shared.cols(config.log_n as nat, i) + shared.log_inv_rates[i as int]) as nat,
        ) == config.levels[i as int].n(),
        shared.cols(config.log_n as nat, shared.level_steps as nat)
            == config.final_block.yr_log_n,
{
    let dim = (m - LOG_PACKING - INITIAL_FOLDING_FACTOR) as nat;
    let log_n = config.log_n as nat;
    assert forall|j: int| 0 <= j < config.levels.len() implies (
    #[trigger] config.levels[j]).length_fits() && config.levels[j].k == crate::ladder::ladder_fold(
        INITIAL_FOLDING_FACTOR as nat,
        j as nat,
    ) && config.levels[j].log_msg_cols == crate::ladder::ladder_cols(dim, j as nat) by {
        lemma_production_level(dim, log_inv_rate, j as nat);
    }
    assert forall|j: nat| j < config.levels.len() implies #[trigger] shared.cols(log_n, j)
        == config.levels[j as int].log_msg_cols by {
        lemma_shared_sum(config, shared, j);
        lemma_production_folds(config, 1, j + 1);
    }
    assert forall|j: int| 0 <= j <= shared.level_steps implies #[trigger] shared.log_inv_rates[j]
        + shared.cols(log_n, j as nat) < usize::BITS by {
        assert(shared.cols(log_n, j as nat) == config.levels[j].log_msg_cols);
        assert(config.levels[j].length_fits());
    }
    assert(shared.cols(log_n, i) == config.levels[i as int].log_msg_cols);
    assert(shared.log_inv_rates[i as int] == config.levels[i as int].log_inv_rate);
}

/// The shapes that are tried where there is no production configuration: lane folds of 5 down to
/// 1, each with rates 1 to 4.
pub open spec fn fallback_fold(k: nat) -> nat {
    (5 - k / 4) as nat
}

/// The rate index of fallback `k`.
pub open spec fn fallback_rate(k: nat) -> nat {
    1 + k % 4
}

/// How many fallbacks there are.
pub const FALLBACKS: usize = 20;

/// The first fallback, from `k` on, that is feasible.
pub open spec fn first_fallback(log_n: nat, k: nat) -> Option<nat>
    decreases FALLBACKS - k,
{
    if k >= FALLBACKS {
        None
    } else if crate::config::default_error(log_n, fallback_fold(k), fallback_rate(k)) is None {
        Some(k)
    } else {
        first_fallback(log_n, k + 1)
    }
}

/// Whether `config` is the one for `2^log_n` words at the first production rate: the shared
/// production configuration where there is one, else that of the first feasible fallback.
pub open spec fn is_config_for(config: ProverConfig, log_n: nat) -> bool {
    let m = log_n + LOG_PACKING as nat;
    if production_error(m, LOG_INV_RATE_0 as nat) is None {
        exists|security: WhirSecurityConfig|
            security.is_production(m, LOG_INV_RATE_0 as nat) && #[trigger] security.is_shared_config(
                config,
            )
    } else {
        first_fallback(log_n, 0) matches Some(k) && crate::config::is_default_config(
            config,
            log_n,
            fallback_fold(k),
            fallback_rate(k),
        )
    }
}

/// The fallbacks are tried in order: the one that is taken is feasible and none before it is, and
/// where none is taken none is feasible.
pub proof fn law_first_fallback(log_n: nat)
    ensures
        match first_fallback(log_n, 0) {
            Some(k) => {
                &&& k < FALLBACKS
                &&& crate::config::default_error(log_n, fallback_fold(k), fallback_rate(k)) is None
                &&& forall|j: nat|
                    j < k ==> crate::config::default_error(
                        log_n,
                        #[trigger] fallback_fold(j),
                        fallback_rate(j),
                    ) is Some
            },
            None => forall|j: nat|
                j < FALLBACKS ==> crate::config::default_error(
                    log_n,
                    #[trigger] fallback_fold(j),
                    fallback_rate(j),
                ) is Some,
        },
{
    lemma_first_fallback(log_n, 0);
}

proof fn lemma_first_fallback(log_n: nat, from: nat)
    requires
        from <= FALLBACKS,
    ensures
        match first_fallback(log_n, from) {
            Some(k) => {
                &&& from <= k < FALLBACKS
                &&& crate::config::default_error(log_n, fallback_fold(k), fallback_rate(k)) is None
                &&& forall|j: nat|
                    from <= j < k ==> crate::config::default_error(
                        log_n,
                        #[trigger] fallback_fold(j),
                        fallback_rate(j),
                    ) is Some
            },
            None => forall|j: nat|
                from <= j < FALLBACKS ==> crate::config::default_error(
                    log_n,
                    #[trigger] fallback_fold(j),
                    fallback_rate(j),
                ) is Some,
        },
    decreases FALLBACKS - from,
{
    if from < FALLBACKS {
        lemma_first_fallback(log_n, from + 1);
    }
}

/// The production configuration where there is one, else that of the first feasible fallback, or
/// nothing where no fallback is feasible either.
pub fn config_or_fallback(production: Option<ProverConfig>, log_n: usize) -> (r: Option<
    ProverConfig,
>)
    requires
        production is None ==> log_n + 3 < usize::BITS,
    ensures
        match production {
            Some(config) => r == Some(config),
            None => match first_fallback(log_n as nat, 0) {
                Some(k) => r matches Some(config) && crate::config::is_default_config(
                    config,
                    log_n as nat,
                    fallback_fold(k),
                    fallback_rate(k),
                ),
                None => r is None,
            },
        },
{
    if production.is_some() {
        return production;
    }
    let mut k: usize = 0;
    while k < FALLBACKS
        invariant
            production is None,
            log_n + 3 < usize::BITS,
            first_fallback(log_n as nat, 0) == first_fallback(log_n as nat, k as nat),
            k <= FALLBACKS,
        decreases FALLBACKS - k,
    {
        if let Ok(config) = default_config(log_n, 5 - k / 4, 1 + k % 4) {
            return Some(config);
        }
        k = k + 1;
    }
    None
}

/// A configuration for a witness of `2^log_n` words, the production profile if it is feasible, or
/// nothing where no fallback is feasible either.
pub fn feasible_config_for(log_n: usize) -> (r: Option<ProverConfig>)
    requires
        log_n + 3 < usize::BITS,
    ensures
        r is Some <==> production_error((log_n + LOG_PACKING) as nat, LOG_INV_RATE_0 as nat) is None
            || first_fallback(log_n as nat, 0) is Some,
        r matches Some(config) ==> is_config_for(config, log_n as nat),
{
    let production = match WhirSecurityConfig::derive_config_with_log_inv_rate(
        log_n + LOG_PACKING,
        LOG_INV_RATE_0,
    ) {
        Ok(security) => match security.to_config() {
            Ok(config) => Some(config),
            Err(_) => None,
        },
        Err(_) => None,
    };
    config_or_fallback(production, log_n)
}

/// A configuration for a witness of `2^log_n` words for which there is one, the production profile
/// if it is feasible.
pub fn test_config_for(log_n: usize) -> (config: ProverConfig)
    requires
        log_n + 3 < usize::BITS,
        production_error((log_n + LOG_PACKING) as nat, LOG_INV_RATE_0 as nat) is None
            || first_fallback(log_n as nat, 0) is Some,
    ensures
        is_config_for(config, log_n as nat),
{
    feasible_config_for(log_n).unwrap()
}

} // verus!
