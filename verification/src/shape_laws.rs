//! What ladders and configurations look like from one level to the next.

use vstd::prelude::*;
use vstd::arithmetic::power::*;
use vstd::arithmetic::power2::*;
use crate::certificate::CapacityMcaCertificate;
use crate::config::ProverConfig;
use crate::ladder::{LadderShape, RateRule, MAX_SEARCHED_RATE};
use crate::optimizer::LevelRequest;
use crate::params::{
    INITIAL_FOLDING_FACTOR, LOG_PACKING, MAX_LOG_INV_RATE, MIN_LOG_INV_RATE, QUERY_GRINDING_BITS,
    RESIDUAL_MAX_LOG, RS_DOMAIN_INITIAL_REDUCTION_FACTOR, RS_DOMAIN_SUBSEQUENT_REDUCTION_FACTOR,
    SECURITY_BITS, SUBSEQUENT_FOLDING_FACTOR,
};
use crate::security::WhirSecurityConfig;
use crate::soundness::WhirLevelConfig;

verus! {

/// The unique-decoding queries of a rate are those that are enough, and no fewer are: each misses a
/// word at half the distance with probability `(2^r + 1) / 2^(r + 1)`.
pub proof fn law_udr_enough(log_inv_rate: nat, queries: nat)
    requires
        log_inv_rate > 0,
    ensures
        pow((pow2(log_inv_rate) + 1) as int, queries) * pow2(100) <= pow(
            pow2(log_inv_rate + 1) as int,
            queries,
        ) <==> queries >= crate::udr::udr_count(log_inv_rate),
{
    crate::udr::law_udr_bounds(log_inv_rate);
    let count = crate::udr::udr_count(log_inv_rate);
    if queries >= count {
        crate::udr::lemma_udr_row_monotone(log_inv_rate, count, queries);
    } else if crate::udr::udr_row_holds(log_inv_rate, queries) {
        crate::udr::lemma_udr_row_monotone(log_inv_rate, queries, (count - 1) as nat);
    }
}

/// The search for a rate goes up from where it starts, to a rate of `2^-20` at most, and stops
/// at the first rate whose code is as long as its unique-decoding queries.
pub proof fn law_searched_rate(rate: nat, cols: nat)
    ensures
        match crate::ladder::udr_rate_outcome(rate, cols) {
            Ok(found) => {
                &&& rate <= found
                &&& found <= 20 || found == rate
                &&& pow2(cols + found) >= crate::udr::udr_count(found)
                &&& forall|r: nat|
                    rate <= r < found ==> pow2(cols + r) < #[trigger] crate::udr::udr_count(r)
            },
            Err(_) => {
                &&& pow2(cols + rate) < crate::udr::udr_count(rate)
                &&& forall|r: nat|
                    rate <= r <= 20 ==> pow2(cols + r)
                        < #[trigger] crate::udr::udr_count(r)
            },
        },
    decreases MAX_SEARCHED_RATE - rate,
{
    if pow2(cols + rate) < crate::udr::udr_count(rate) && rate + 1 <= MAX_SEARCHED_RATE {
        law_searched_rate(rate + 1, cols);
    }
}

/// A ladder from one level to the next. The first level has all the variables behind the first
/// fold, each later one those of the level before it less its own fold, and only the last has no
/// more than the residual may have. On the production ladder the total domain loses its fixed
/// number of bits at each fold; on the other each rate is the least above the one before whose code
/// is as long as its queries.
pub proof fn law_ladder(
    shape: LadderShape,
    rule: RateRule,
    dim: nat,
    initial_k: nat,
    log_inv_rate: nat,
    i: int,
)
    requires
        shape.is_ladder(rule, dim, initial_k, log_inv_rate),
        0 <= i < shape.k_levels.len(),
    ensures
        shape.log_inv_rates.len() == shape.k_levels.len(),
        shape.log_msg_cols.len() == shape.k_levels.len(),
        shape.k_levels[0] == initial_k,
        shape.log_msg_cols[0] == dim,
        shape.log_inv_rates[0] == log_inv_rate,
        shape.log_msg_cols[shape.k_levels.len() - 1] == shape.yr_log_n,
        shape.log_msg_cols[i] <= RESIDUAL_MAX_LOG <==> i + 1 == shape.k_levels.len(),
        i + 1 < shape.k_levels.len() ==> {
            let next = i + 1;
            &&& shape.k_levels[next] == SUBSEQUENT_FOLDING_FACTOR
            &&& shape.log_msg_cols[next] + shape.k_levels[next] == shape.log_msg_cols[i]
            &&& rule == RateRule::Production ==> shape.log_inv_rates[next]
                == shape.log_inv_rates[i] + shape.k_levels[i] - if i == 0 {
                RS_DOMAIN_INITIAL_REDUCTION_FACTOR
            } else {
                RS_DOMAIN_SUBSEQUENT_REDUCTION_FACTOR
            }
            &&& rule == RateRule::UniqueDecoding ==> {
                &&& shape.log_inv_rates[next] > shape.log_inv_rates[i]
                &&& pow2((shape.log_msg_cols[next] + shape.log_inv_rates[next]) as nat)
                    >= crate::udr::udr_count(shape.log_inv_rates[next] as nat)
                &&& forall|r: nat|
                    shape.log_inv_rates[i] < r < shape.log_inv_rates[next] ==> pow2(
                        (shape.log_msg_cols[next] + r) as nat,
                    ) < #[trigger] crate::udr::udr_count(r)
            }
        },
{
    crate::ladder::law_residual(dim);
    assert(crate::ladder::ladder_rate(rule, dim, initial_k, log_inv_rate, 0) == Ok::<
        nat,
        Seq<char>,
    >(shape.log_inv_rates[0] as nat));
    assert(shape.log_msg_cols[i] == crate::ladder::ladder_cols(dim, i as nat));
    if i + 1 < shape.k_levels.len() {
        let next = i + 1;
        let rate = shape.log_inv_rates[i] as nat;
        assert(crate::ladder::ladder_cols(dim, i as nat) > RESIDUAL_MAX_LOG);
        assert(crate::ladder::ladder_rate(rule, dim, initial_k, log_inv_rate, i as nat) == Ok::<
            nat,
            Seq<char>,
        >(rate));
        assert(crate::ladder::ladder_rate(rule, dim, initial_k, log_inv_rate, next as nat) == Ok::<
            nat,
            Seq<char>,
        >(shape.log_inv_rates[next] as nat));
        assert(crate::ladder::ladder_cols(dim, next as nat) == shape.log_msg_cols[next]);
        law_searched_rate(rate + 1, shape.log_msg_cols[next] as nat);
    }
}

/// When there is a production ladder: exactly where the first fold leaves more variables than the
/// residual may have and takes no fewer than the domain loses.
pub proof fn law_production_ladder(log_n: nat, initial_k: nat, log_inv_rate: nat)
    ensures
        crate::ladder::ladder_error(RateRule::Production, log_n, initial_k, log_inv_rate) is None
            <==> log_n > initial_k + RESIDUAL_MAX_LOG && initial_k
            >= RS_DOMAIN_INITIAL_REDUCTION_FACTOR,
{
    if log_n > initial_k {
        let dim = (log_n - initial_k) as nat;
        let depth = crate::ladder::ladder_depth(dim);
        crate::ladder::law_residual(dim);
        if depth >= 1 {
            crate::ladder::law_production_rate(dim, initial_k, log_inv_rate, depth);
        }
    }
}

/// When there is a unique-decoding configuration: only where the first code is as long as its
/// queries and the first fold leaves more variables than the residual may have; and there is one
/// wherever moreover some rate can be found for each deeper level.
pub proof fn law_default_feasible(log_n: nat, initial_k: nat, log_inv_rate: nat)
    ensures
        crate::config::default_error(log_n, initial_k, log_inv_rate) is None <==> {
            let dim = (log_n - initial_k) as nat;
            &&& log_n > initial_k + RESIDUAL_MAX_LOG
            &&& pow2(dim + log_inv_rate) >= crate::udr::udr_count(log_inv_rate)
            &&& crate::ladder::ladder_rate(
                RateRule::UniqueDecoding,
                dim,
                initial_k,
                log_inv_rate,
                crate::ladder::ladder_depth(dim),
            ) is Ok
        },
{
    if log_n > initial_k {
        crate::ladder::law_residual((log_n - initial_k) as nat);
    }
}

/// The columns of an opening from one level to the next: what the first fold leaves, then what each
/// later fold leaves of that.
pub proof fn law_columns(config: ProverConfig, log_n: nat, i: nat)
    ensures
        config.cols(log_n, 0) == log_n - config.initial_k,
        config.cols(log_n, i + 1) == config.cols(log_n, i) - config.level_ks[i as int],
{
}

/// A production configuration level by level: rates rise by three a level, each deeper level has
/// four variables less, the first takes no out-of-domain sample and each deeper one takes one, and
/// the folding stops at the first level that leaves no more than the residual may have.
pub proof fn law_production_levels(config: WhirSecurityConfig, m: nat, log_inv_rate: nat, i: nat)
    requires
        log_inv_rate > 0,
        m - LOG_PACKING - INITIAL_FOLDING_FACTOR + log_inv_rate < usize::BITS,
        crate::derivation::production_error(m, log_inv_rate) is None,
        config.is_production(m, log_inv_rate),
        i < config.levels.len(),
    ensures
        ({
            let lv = config.levels[i as int];
            let step = SUBSEQUENT_FOLDING_FACTOR - RS_DOMAIN_SUBSEQUENT_REDUCTION_FACTOR;
            &&& MIN_LOG_INV_RATE <= log_inv_rate <= MAX_LOG_INV_RATE
            &&& config.levels.len() > 1
            &&& lv.log_inv_rate == log_inv_rate + if i == 0 {
                0
            } else {
                INITIAL_FOLDING_FACTOR - RS_DOMAIN_INITIAL_REDUCTION_FACTOR + (i - 1) * step
            }
            &&& lv.log_msg_cols == m - LOG_PACKING - INITIAL_FOLDING_FACTOR
                - SUBSEQUENT_FOLDING_FACTOR * i
            &&& lv.log_num_interleaved == if i == 0 {
                INITIAL_FOLDING_FACTOR
            } else {
                SUBSEQUENT_FOLDING_FACTOR
            }
            &&& lv.k == lv.log_num_interleaved
            &&& lv.ood_samples == if i == 0 {
                0int
            } else {
                1
            }
            &&& lv.grinding_bits == QUERY_GRINDING_BITS
            &&& lv.target_security_bits == SECURITY_BITS
            &&& lv.log_msg_cols <= RESIDUAL_MAX_LOG <==> i + 1 == config.levels.len()
            &&& i + 1 == config.levels.len() ==> lv.log_msg_cols == config.final_block.yr_log_n
        }),
{
    let dim = (m - LOG_PACKING - INITIAL_FOLDING_FACTOR) as nat;
    crate::ladder::law_residual(dim);
    crate::derivation::lemma_production_level(dim, log_inv_rate, i);
    assert(crate::derivation::production_level(dim, log_inv_rate, i) == Ok::<
        WhirLevelConfig,
        Seq<char>,
    >(config.levels[i as int]));
    if i < crate::ladder::ladder_depth(dim) {
        assert(crate::ladder::ladder_cols(dim, i) > RESIDUAL_MAX_LOG);
    }
    if i > 0 {
        assert(3 * i == 3 + (i - 1) * 3);
    }
}

/// When there is a production configuration: exactly where the first rate can be selected, the
/// witness is large enough to fold twice, and the search finds queries for the last level, which
/// it comes to only where it has found some for each level before.
pub proof fn law_production_feasible(m: nat, log_inv_rate: nat)
    ensures
        crate::derivation::production_error(m, log_inv_rate) is None <==> {
            let dim = (m - LOG_PACKING - INITIAL_FOLDING_FACTOR) as nat;
            &&& MIN_LOG_INV_RATE <= log_inv_rate <= MAX_LOG_INV_RATE
            &&& m > LOG_PACKING + INITIAL_FOLDING_FACTOR + RESIDUAL_MAX_LOG
            &&& forall|i: nat|
                i <= crate::ladder::ladder_depth(dim)
                    ==> (#[trigger] crate::derivation::production_level(
                    dim,
                    log_inv_rate,
                    i,
                )) is Ok
        },
{
    if m >= LOG_PACKING {
        let log_n = (m - LOG_PACKING) as nat;
        law_production_ladder(log_n, INITIAL_FOLDING_FACTOR as nat, log_inv_rate);
        if log_n > INITIAL_FOLDING_FACTOR {
            let dim = (log_n - INITIAL_FOLDING_FACTOR) as nat;
            let depth = crate::ladder::ladder_depth(dim);
            assert forall|i: nat|
                i <= depth && crate::derivation::production_level(
                    dim,
                    log_inv_rate,
                    depth,
                ) is Ok implies (#[trigger] crate::derivation::production_level(
                dim,
                log_inv_rate,
                i,
            )) is Ok by {
                if crate::derivation::production_level(dim, log_inv_rate, i) is Err {
                    crate::derivation::lemma_level_error(dim, log_inv_rate, i, depth);
                }
            }
        }
    }
}

/// The order of the fallbacks: wider first folds before narrower ones, 5 down to 1, and under one
/// fold lower rates before higher ones, 1 to 4. The first that is feasible is taken.
pub proof fn law_fallback_order(log_n: nat)
    ensures
        match crate::derivation::first_fallback(log_n, 0) {
            Some(k) => {
                let fold = crate::derivation::fallback_fold(k);
                let rate = crate::derivation::fallback_rate(k);
                &&& 1 <= fold <= 5
                &&& 1 <= rate <= 4
                &&& crate::config::default_error(log_n, fold, rate) is None
                &&& forall|f: nat, r: nat|
                    1 <= f <= 5 && 1 <= r <= 4 && (f > fold || (f == fold && r < rate))
                        ==> (#[trigger] crate::config::default_error(log_n, f, r)) is Some
            },
            None => forall|f: nat, r: nat|
                1 <= f <= 5 && 1 <= r <= 4 ==> (#[trigger] crate::config::default_error(
                    log_n,
                    f,
                    r,
                )) is Some,
        },
{
    crate::derivation::law_first_fallback(log_n);
    let taken = crate::derivation::first_fallback(log_n, 0);
    assert forall|f: nat, r: nat|
        1 <= f <= 5 && 1 <= r <= 4 && (taken matches Some(k) ==> (f
            > crate::derivation::fallback_fold(k) || (f == crate::derivation::fallback_fold(k) && r
            < crate::derivation::fallback_rate(k)))) implies (
    #[trigger] crate::config::default_error(log_n, f, r)) is Some by {
        let j = (4 * (5 - f) + (r - 1)) as nat;
        assert(crate::derivation::fallback_fold(j) == f);
        assert(crate::derivation::fallback_rate(j) == r);
    }
}

/// Which query counts end the search with a certificate: those whose threshold `a`, the least
/// agreement that the queries catch too rarely, lies strictly between the Johnson radius and the
/// length, has a certificate, and with it clears the fold row, the out-of-domain row and the
/// algebraic row.
pub proof fn law_candidate(
    request: LevelRequest,
    queries: nat,
    a: nat,
    level: WhirLevelConfig,
    certificate: CapacityMcaCertificate,
)
    requires
        0 < queries <= u32::MAX <= usize::MAX,
        0 < a <= usize::MAX,
        ({
            let n = pow2((request.log_msg_cols + request.log_inv_rate) as nat);
            let bits = if request.target_bits > request.query_grinding_bits {
                (request.target_bits - request.query_grinding_bits) as nat
            } else {
                1
            };
            &&& pow(a - 1, queries) * pow2(bits) <= pow(n as int, queries)
            &&& pow(n as int, queries) < pow(a as int, queries) * pow2(bits)
        }),
        level.log_inv_rate == request.log_inv_rate,
        level.log_msg_cols == request.log_msg_cols,
        level.log_num_interleaved == request.log_num_interleaved,
        level.k == request.log_num_interleaved,
        level.agreement == certificate.agreement,
        level.interpolation_m == certificate.interpolation_m,
        level.jet_degree == certificate.jet_degree,
        level.interpolation_height == certificate.interpolation_height,
        level.list_bound == certificate.list_bound,
        level.certificate_variant == certificate.variant,
        level.queries == queries,
        level.grinding_bits == request.query_grinding_bits,
        level.ood_samples == if request.level == 0 {
            0int
        } else {
            1
        },
        level.target_security_bits == request.target_bits,
    ensures
        request.candidate(queries) == Ok::<Option<CapacityMcaCertificate>, Seq<char>>(
            Some(certificate),
        ) <==> {
            let n = pow2((request.log_msg_cols + request.log_inv_rate) as nat);
            let degree = (pow2(request.log_msg_cols as nat) - 1) as nat;
            let target = request.target_bits as nat;
            &&& a * a > n * degree
            &&& a < n
            &&& crate::certificate::capacity_outcome(n, degree, a, queries) == Ok::<
                CapacityMcaCertificate,
                Seq<char>,
            >(certificate)
            &&& crate::soundness::fold_outcome(level, target) == Ok::<bool, Seq<char>>(true)
            &&& crate::soundness::ood_outcome(level, target) == Ok::<bool, Seq<char>>(true)
            &&& crate::soundness::algebraic_outcome(
                level,
                request.prev_queries as nat,
                target,
            ) == Ok::<bool, Seq<char>>(true)
        },
{
    crate::level_laws::lemma_on_the_edge(request.n(), queries, request.query_bits(), a);
    assert(level == request.level_with(queries as usize, certificate));
}

/// What prover and verifier share of a valid configuration: level by level its rates, queries,
/// grinding and out-of-domain samples, its first fold, and the folds of all later levels.
pub proof fn law_shared_config(config: WhirSecurityConfig, shared: ProverConfig, i: int)
    requires
        config.levels.len() > 0,
        config.is_shared_config(shared),
        0 <= i < config.levels.len(),
    ensures
        shared.level_steps + 1 == config.levels.len(),
        shared.initial_k == config.initial_k,
        shared.log_inv_rates.len() == config.levels.len(),
        shared.queries.len() == config.levels.len(),
        shared.grinding_bits.len() == config.levels.len(),
        shared.ood_samples.len() == config.levels.len(),
        shared.level_ks.len() + 1 == config.levels.len(),
        shared.log_inv_rates[i] == config.levels[i].log_inv_rate,
        shared.queries[i] == config.levels[i].queries,
        shared.grinding_bits[i] == config.levels[i].grinding_bits,
        shared.ood_samples[i] == config.levels[i].ood_samples,
        i > 0 ==> shared.level_ks[i - 1] == config.levels[i].k,
{
}

/// The configuration of a witness of `2^log_n` words: where there is a production configuration at
/// the first rate, one with its shape, so with its first fold and first rate; elsewhere the
/// unique-decoding one whose first fold and rate are the first that are feasible, without grinding
/// and samples.
pub proof fn law_config_for(config: ProverConfig, log_n: nat)
    requires
        crate::derivation::is_config_for(config, log_n),
        log_n + 3 < usize::BITS,
    ensures
        if crate::derivation::production_error(log_n + 6, 1) is None {
            &&& config.initial_k == INITIAL_FOLDING_FACTOR
            &&& config.log_inv_rates[0] == 1
            &&& config.log_inv_rates.len() == config.level_steps + 1
            &&& config.level_steps == (log_n - INITIAL_FOLDING_FACTOR - RESIDUAL_MAX_LOG
                + SUBSEQUENT_FOLDING_FACTOR - 1) / SUBSEQUENT_FOLDING_FACTOR as int
            &&& forall|i: int|
                0 <= i <= config.level_steps ==> #[trigger] config.grinding_bits[i]
                    == QUERY_GRINDING_BITS
            &&& forall|i: int|
                0 < i <= config.level_steps ==> #[trigger] config.ood_samples[i] == 1
        } else {
            &&& 1 <= config.initial_k <= 5
            &&& 1 <= config.log_inv_rates[0] <= 4
            &&& crate::config::default_error(
                log_n,
                config.initial_k as nat,
                config.log_inv_rates[0] as nat,
            ) is None
            &&& crate::config::is_default_config(
                config,
                log_n,
                config.initial_k as nat,
                config.log_inv_rates[0] as nat,
            )
            &&& forall|f: nat, r: nat|
                1 <= f <= 5 && 1 <= r <= 4 && (f > config.initial_k || (f == config.initial_k && r
                    < config.log_inv_rates[0])) ==> (#[trigger] crate::config::default_error(
                    log_n,
                    f,
                    r,
                )) is Some
        },
{
    if crate::derivation::production_error(log_n + 6, 1) is None {
        let m = log_n + 6;
        let security = choose|security: WhirSecurityConfig|
            security.is_production(m, 1) && #[trigger] security.is_shared_config(config);
        law_production_feasible(m, 1);
        let dim = (log_n - INITIAL_FOLDING_FACTOR) as nat;
        assert forall|i: int| 0 <= i <= config.level_steps implies #[trigger] config.grinding_bits[i]
            == QUERY_GRINDING_BITS && (i > 0 ==> config.ood_samples[i] == 1) by {
            law_shared_config(security, config, i);
            law_production_levels(security, m, 1, i as nat);
        }
        assert forall|i: int| 0 < i <= config.level_steps implies #[trigger] config.ood_samples[i]
            == 1 by {
            assert(config.grinding_bits[i] == QUERY_GRINDING_BITS);
        }
        law_shared_config(security, config, 0);
        law_production_levels(security, m, 1, 0);
    } else {
        law_fallback_order(log_n);
        let k = crate::derivation::first_fallback(log_n, 0)->0;
        let (fold, rate) = (
            crate::derivation::fallback_fold(k),
            crate::derivation::fallback_rate(k),
        );
        crate::config::law_default_config(config, log_n, fold, rate);
    }
}

/// Why there is no ladder: no variable behind the first fold, on the production ladder a first fold
/// that takes fewer than the domain loses, or no second fold.
pub proof fn law_ladder_refused(rule: RateRule, log_n: nat, initial_k: nat, log_inv_rate: nat)
    ensures
        ({
            let error = crate::ladder::ladder_error(rule, log_n, initial_k, log_inv_rate);
            &&& log_n <= initial_k ==> error == Some("log_n must be > initial_k"@)
            &&& initial_k < log_n <= initial_k + RESIDUAL_MAX_LOG ==> error == Some(
                "log_n too small: needs at least 2 fold levels"@,
            )
            &&& log_n > initial_k + RESIDUAL_MAX_LOG && rule == RateRule::Production && initial_k
                < RS_DOMAIN_INITIAL_REDUCTION_FACTOR ==> error == Some(
                "folding factor "@ + crate::text::decimal(initial_k)
                    + " is smaller than RS domain reduction "@ + crate::text::decimal(
                    RS_DOMAIN_INITIAL_REDUCTION_FACTOR as nat,
                ),
            )
            &&& log_n > initial_k + RESIDUAL_MAX_LOG && rule == RateRule::UniqueDecoding && error
                is Some ==> error == Some(
                "could not find feasible recursive rate (level too deep)"@,
            )
        }),
{
    if log_n > initial_k {
        let dim = (log_n - initial_k) as nat;
        let depth = crate::ladder::ladder_depth(dim);
        crate::ladder::law_residual(dim);
        assert(crate::ladder::ladder_rate(rule, dim, initial_k, log_inv_rate, 0) == Ok::<
            nat,
            Seq<char>,
        >(log_inv_rate));
        if depth >= 1 {
            if rule == RateRule::Production && initial_k < RS_DOMAIN_INITIAL_REDUCTION_FACTOR {
                crate::ladder::lemma_rate_error(rule, dim, initial_k, log_inv_rate, 1, depth);
            }
            if rule == RateRule::UniqueDecoding {
                lemma_rate_text(dim, initial_k, log_inv_rate, depth);
            }
        }
    }
}

proof fn lemma_search_text(rate: nat, cols: nat)
    ensures
        crate::ladder::udr_rate_outcome(rate, cols) matches Err(e) ==> e
            == "could not find feasible recursive rate (level too deep)"@,
    decreases MAX_SEARCHED_RATE - rate,
{
    if pow2(cols + rate) < crate::udr::udr_count(rate) && rate + 1 <= MAX_SEARCHED_RATE {
        lemma_search_text(rate + 1, cols);
    }
}

proof fn lemma_rate_text(dim: nat, initial_k: nat, log_inv_rate: nat, i: nat)
    ensures
        crate::ladder::ladder_rate(
            RateRule::UniqueDecoding,
            dim,
            initial_k,
            log_inv_rate,
            i,
        ) matches Err(e) ==> e == "could not find feasible recursive rate (level too deep)"@,
    decreases i,
{
    if i > 0 {
        lemma_rate_text(dim, initial_k, log_inv_rate, (i - 1) as nat);
        if let Ok(rate) = crate::ladder::ladder_rate(
            RateRule::UniqueDecoding,
            dim,
            initial_k,
            log_inv_rate,
            (i - 1) as nat,
        ) {
            lemma_search_text(rate + 1, crate::ladder::ladder_cols(dim, i) as nat);
        }
    }
}

/// Why there is no configuration before any search: a first code that is shorter than its
/// unique-decoding queries; on the production side a first rate that cannot be selected, or a
/// witness of less than one word.
pub proof fn law_configuration_refused(log_n: nat, initial_k: nat, log_inv_rate: nat, m: nat)
    ensures
        log_n > initial_k && pow2((log_n - initial_k + log_inv_rate) as nat)
            < crate::udr::udr_count(log_inv_rate) ==> crate::config::default_error(
            log_n,
            initial_k,
            log_inv_rate,
        ) == Some("L0 block_len < udr_queries: log_n too small for chosen rate"@),
        !(MIN_LOG_INV_RATE <= log_inv_rate <= MAX_LOG_INV_RATE)
            ==> crate::derivation::production_error(m, log_inv_rate) == Some(
            "log_inv_rate must be in "@ + crate::text::decimal(MIN_LOG_INV_RATE as nat) + "..="@
                + crate::text::decimal(MAX_LOG_INV_RATE as nat) + ", got "@ + crate::text::decimal(
                log_inv_rate,
            ),
        ),
        MIN_LOG_INV_RATE <= log_inv_rate <= MAX_LOG_INV_RATE && m < LOG_PACKING
            ==> crate::derivation::production_error(m, log_inv_rate) == Some(
            "m ("@ + crate::text::decimal(m) + ") < LOG_PACKING ("@ + crate::text::decimal(
                LOG_PACKING as nat,
            ) + ")"@,
        ),
{
}

} // verus!
