//! What the rows of one level decide, and what a valid configuration guarantees of each of its
//! levels, written out in the level's own parameters.

use vstd::prelude::*;
use vstd::arithmetic::power::*;
use vstd::arithmetic::power2::*;
use crate::params::{
    LOG_PACKING, RS_DOMAIN_INITIAL_REDUCTION_FACTOR, RS_DOMAIN_SUBSEQUENT_REDUCTION_FACTOR,
};
use crate::ring_switch::RING_SWITCH_SOUNDNESS_DEGREE;
use crate::security::{Violation, WhirSecurityConfig};
use crate::soundness::WhirLevelConfig;

verus! {

/// A budget of `2^(192 - t)` for a numerator is a bound of `2^192` on the numerator times `2^t`.
proof fn lemma_budget(numerator: int, target: nat, scale: int)
    requires
        target <= 192,
    ensures
        numerator <= pow2((192 - target) as nat) * scale <==> numerator * pow2(target) <= pow2(192)
            * scale,
{
    let (b, p, f) = (pow2((192 - target) as nat) as int, pow2(target) as int, pow2(192) as int);
    lemma_pow2_adds((192 - target) as nat, target);
    lemma_pow2_pos(target);
    assert((b * scale) * p == (b * p) * scale) by (nonlinear_arith);
    if numerator <= b * scale {
        assert(numerator * p <= (b * scale) * p) by (nonlinear_arith)
            requires
                numerator <= b * scale,
                p > 0,
        ;
    } else {
        assert(numerator * p > (b * scale) * p) by (nonlinear_arith)
            requires
                numerator > b * scale,
                p > 0,
        ;
    }
}

/// The fold row: the exceptional bound
/// `(2B - 1) H + (n - D)/(A - D) (B + H Psi) + (n - D - 1) B`, with
/// `Psi = 1 + (2D - 1)(2B - 1) + 2 max(0, B - 2D - 1)`, and twice the list, are together at most
/// `2^(192 - t)`. The row is decided wherever the agreement exceeds the degree, the target lies
/// above 64 bits and within the field, and the products fit their type.
pub proof fn law_fold_row(level: WhirLevelConfig, target: nat)
    requires
        level.log_msg_cols > 0,
        level.jet_degree > 0,
        level.interpolation_height > 0,
    ensures
        ({
            let n = pow2((level.log_msg_cols + level.log_inv_rate) as nat);
            let d = pow2(level.log_msg_cols as nat) - 1;
            let (a, b, h, list) = (
                level.agreement,
                level.jet_degree,
                level.interpolation_height,
                level.list_bound,
            );
            let above = if b > 2 * d + 1 {
                b - (2 * d + 1)
            } else {
                0
            };
            let psi = 1 + (2 * d - 1) * (2 * b - 1) + 2 * above;
            let error = ((2 * b - 1) * h + (n - d - 1) * b) * (a - d) + (n - d) * (b + h * psi) + 2
                * list * (a - d);
            let outcome = crate::soundness::fold_outcome(level, target);
            &&& outcome matches Ok(within) ==> {
                &&& a > d
                &&& 64 < target <= 192
                &&& within <==> error * pow2(target) <= pow2(192) * (a - d)
            }
            &&& a > d && 64 < target <= 192 && error <= u128::MAX && pow2((192 - target) as nat) * (
            a - d) <= u128::MAX ==> outcome is Ok
        }),
{
    let n = pow2((level.log_msg_cols + level.log_inv_rate) as nat) as int;
    let d = pow2(level.log_msg_cols as nat) - 1;
    let (a, b, h, list) = (
        level.agreement as int,
        level.jet_degree as int,
        level.interpolation_height as int,
        level.list_bound as int,
    );
    crate::code::law_degree_below_length(level.log_inv_rate as nat, level.log_msg_cols as nat);
    let psi = crate::soundness::psi(d as nat, b as nat);
    let integral = (2 * b - 1) * h + (n - d - 1) * b;
    let fractional = (n - d) * (b + h * psi);
    if a > d && target <= 192 {
        let error = integral * (a - d) + fractional + 2 * list * (a - d);
        lemma_budget(error, target, a - d);
        assert((2 * d - 1) * (2 * b - 1) >= 0) by (nonlinear_arith)
            requires
                d >= 1,
                b >= 1,
        ;
        assert((2 * b - 1) * h >= 0 && (n - d - 1) * b >= 0) by (nonlinear_arith)
            requires
                b >= 1,
                h >= 1,
                n >= d + 1,
        ;
        assert(integral * (a - d) >= integral) by (nonlinear_arith)
            requires
                integral >= 0,
                a - d >= 1,
        ;
        assert(h * psi >= psi) by (nonlinear_arith)
            requires
                h >= 1,
                psi >= 0,
        ;
        let inner = b + h * psi;
        assert((n - d) * inner >= inner) by (nonlinear_arith)
            requires
                n - d >= 1,
                inner >= 0,
        ;
        assert(2 * list * (a - d) >= 0) by (nonlinear_arith)
            requires
                list >= 0,
                a - d >= 0,
        ;
    }
}

/// The out-of-domain row: at a level without samples the list times the variables, at a level with
/// samples the pairs of the list times the variables, over the field, is at most `2^-t`. The number
/// of samples matters no further. The row is decided where the target lies above 64 bits and within
/// the field, and the product fits its type.
pub proof fn law_ood_row(level: WhirLevelConfig, target: nat)
    ensures
        ({
            let list = level.list_bound as int;
            let variables = level.log_msg_cols + level.log_num_interleaved;
            let outcome = crate::soundness::ood_outcome(level, target);
            &&& outcome is Ok <==> 64 < target <= 192 && (if level.ood_samples == 0 {
                list * variables
            } else {
                list * (list - 1) * variables
            }) <= u128::MAX
            &&& outcome matches Ok(within) ==> (within <==> if level.ood_samples == 0 {
                list * variables * pow2(target) <= pow2(192)
            } else {
                list * (list - 1) * variables * pow2(target) <= 2 * pow2(192)
            })
        }),
{
    let list = level.list_bound as int;
    let variables = level.log_msg_cols + level.log_num_interleaved;
    if list == 0 {
        assert(0 * (0 - 1) * variables == 0 && 0 * 0 * variables == 0);
    }
    let wide = list * (list - 1) * variables;
    assert(list * crate::soundness::one_less(list as nat) * variables == wide);
    assert(wide % 2 == 0 && wide >= 0) by {
        crate::soundness::lemma_consecutive_even(list as nat);
        let pairs = list * (list - 1) / 2;
        if list > 0 {
            assert(list * (list - 1) >= 0) by (nonlinear_arith)
                requires
                    list >= 1,
            ;
            assert(list * (list - 1) == 2 * pairs);
        } else {
            assert(pairs == 0);
        }
        assert(wide == 2 * (pairs * variables) && pairs * variables >= 0) by (nonlinear_arith)
            requires
                wide == (list * (list - 1)) * variables,
                list * (list - 1) == 2 * pairs,
                pairs >= 0,
                variables >= 0,
        ;
    }
    if target <= 192 {
        lemma_budget(list * variables, target, 1);
        lemma_budget(wide / 2, target, 1);
        assert(wide * pow2(target) == 2 * (wide / 2 * pow2(target))) by (nonlinear_arith)
            requires
                wide == 2 * (wide / 2),
        ;
    }
}

/// The algebraic row: both the degree of the ring switch and the number of claims that the batch
/// carries, each times the list and over the field, are at most `2^-t`. The row is decided where
/// the target lies above 64 bits and within the field, and the products fit their type.
pub proof fn law_algebraic_row(level: WhirLevelConfig, prev_queries: nat, target: nat)
    ensures
        ({
            let list = level.list_bound as int;
            let switch = 65_536 * list;
            let batch = (prev_queries + level.ood_samples) * list;
            let outcome = crate::soundness::algebraic_outcome(level, prev_queries, target);
            &&& outcome is Ok <==> 64 < target <= 192 && switch <= u128::MAX && batch <= u128::MAX
            &&& outcome matches Ok(within) ==> (within <==> switch * pow2(target) <= pow2(192)
                && batch * pow2(target) <= pow2(192))
        }),
{
    let list = level.list_bound as int;
    let switch = RING_SWITCH_SOUNDNESS_DEGREE * list;
    let batch = (prev_queries + level.ood_samples) * list;
    let claims = prev_queries + level.ood_samples;
    if RING_SWITCH_SOUNDNESS_DEGREE >= claims {
        assert(batch <= switch) by (nonlinear_arith)
            requires
                batch == claims * list,
                switch == RING_SWITCH_SOUNDNESS_DEGREE * list,
                RING_SWITCH_SOUNDNESS_DEGREE >= claims,
                list >= 0,
        ;
    } else {
        assert(switch <= batch) by (nonlinear_arith)
            requires
                batch == claims * list,
                switch == RING_SWITCH_SOUNDNESS_DEGREE * list,
                RING_SWITCH_SOUNDNESS_DEGREE <= claims,
                list >= 0,
        ;
    }
    if target <= 192 {
        lemma_budget(switch, target, 1);
        lemma_budget(batch, target, 1);
    }
}

/// The certificate of every level of a valid configuration is the one of the level's own code,
/// agreement and queries, parameter by parameter; and it stands on the level's own parameters: at
/// the level's height, with its multiplicity and jet degree, the unknowns outnumber the equations,
/// and the list bound is the greatest that the jet degree and the pairwise agreements allow.
pub proof fn law_valid_certificate(config: WhirSecurityConfig, i: nat)
    requires
        config.violation() is None,
        i < config.levels.len(),
    ensures
        ({
            let lv = config.levels[i as int];
            let n = pow2((lv.log_msg_cols + lv.log_inv_rate) as nat);
            let degree = (pow2(lv.log_msg_cols as nat) - 1) as nat;
            let (a, m, b, h) = (
                lv.agreement as nat,
                lv.interpolation_m as nat,
                lv.jet_degree as nat,
                lv.interpolation_height as nat,
            );
            &&& crate::certificate::capacity_outcome(n, degree, a, lv.queries as nat) matches Ok(
                certificate,
            ) && {
                &&& lv.agreement == certificate.agreement
                &&& lv.interpolation_m == certificate.interpolation_m
                &&& lv.jet_degree == certificate.jet_degree
                &&& lv.interpolation_height == certificate.interpolation_height
                &&& lv.list_bound == certificate.list_bound
                &&& lv.certificate_variant == certificate.variant
            }
            &&& 0 < degree < a < n
            &&& a * a > n * degree
            &&& 0 < m
            &&& 0 < b <= h
            &&& b * degree < m * a
            &&& h >= crate::certificate::required_height(n, degree, a, m, b)
            &&& crate::certificate_laws::unknowns(degree, a, m, b, h) > n
                * crate::certificate_laws::equations(m, b, h)
            &&& lv.list_bound <= b
            &&& lv.list_bound * (a * a - n * degree) <= n * (a - degree)
            &&& lv.list_bound < b ==> (lv.list_bound + 1) * (a * a - n * degree) > n * (a - degree)
        }),
{
    crate::security::lemma_valid_level(config, i);
    let lv = config.levels[i as int];
    let (n, degree, a) = (lv.n(), lv.degree(), lv.agreement as nat);
    let (m, b, h) = (
        lv.interpolation_m as nat,
        lv.jet_degree as nat,
        lv.interpolation_height as nat,
    );
    crate::code::law_degree_below_length(lv.log_inv_rate as nat, lv.log_msg_cols as nat);
    crate::certificate::law_certificate_stands(n, degree, a, lv.queries as nat);
    crate::certificate_laws::law_interpolation_supported(n, degree, a, m, b, h, h);
    crate::certificate_laws::law_list_bound(n, degree, a, b);
}

/// Every row of every level of a valid configuration clears the level's own target, which is no
/// lower than the global one.
///
/// - Queries: with `q` of them, a word of `A - 1` agreements passes all with probability at most
///   `2^-b`, for the `b` bits that grinding leaves; one more agreement would be too many.
/// - Out-of-domain: the first level takes no sample and is charged its list, a deeper one takes
///   some and is charged the pairs of its list.
/// - Fold: the exceptional bound and twice the list.
/// - Batching: the ring switch, and the claims of the previous level's queries with the level's own
///   samples.
pub proof fn law_valid_rows(config: WhirSecurityConfig, i: nat)
    requires
        config.violation() is None,
        i < config.levels.len(),
    ensures
        ({
            let lv = config.levels[i as int];
            let t = lv.target_security_bits as nat;
            let bits = if t > lv.grinding_bits {
                (t - lv.grinding_bits) as nat
            } else {
                1
            };
            let q = lv.queries as nat;
            let n = pow2((lv.log_msg_cols + lv.log_inv_rate) as nat);
            let d = pow2(lv.log_msg_cols as nat) - 1;
            let (a, b, h, list) = (
                lv.agreement,
                lv.jet_degree,
                lv.interpolation_height,
                lv.list_bound as int,
            );
            let psi = 1 + (2 * d - 1) * (2 * b - 1) + 2 * if b > 2 * d + 1 {
                b - (2 * d + 1)
            } else {
                0
            };
            let variables = lv.log_msg_cols + lv.log_num_interleaved;
            let claims = lv.ood_samples + if i == 0 {
                0
            } else {
                config.levels[i - 1].queries as int
            };
            &&& config.target_security_bits <= t
            &&& 64 < t <= 192
            &&& 0 < q <= u32::MAX
            &&& pow(a - 1, q) * pow2(bits) <= pow(n as int, q)
            &&& pow(n as int, q) < pow(a as int, q) * pow2(bits)
            &&& lv.ood_samples == 0 <==> i == 0
            &&& i == 0 ==> list * variables * pow2(t) <= pow2(192)
            &&& i > 0 ==> list * (list - 1) * variables * pow2(t) <= 2 * pow2(192)
            &&& (((2 * b - 1) * h + (n - d - 1) * b) * (a - d) + (n - d) * (b + h * psi) + 2 * list
                * (a - d)) * pow2(t) <= pow2(192) * (a - d)
            &&& 65_536 * list * pow2(t) <= pow2(192)
            &&& claims * list * pow2(t) <= pow2(192)
        }),
{
    crate::security::lemma_valid_level(config, i);
    law_valid_certificate(config, i);
    let lv = config.levels[i as int];
    let t = lv.target_security_bits as nat;
    let bits = crate::optimizer::query_target(t, lv.grinding_bits as nat);
    let a = lv.agreement as nat;
    crate::query::law_query_agreement_exact(lv.n(), lv.queries as nat, bits, (a - 1) as nat);
    crate::query::law_query_agreement_exact(lv.n(), lv.queries as nat, bits, a);
    reveal(WhirSecurityConfig::shape_violation);
    law_fold_row(lv, t);
    law_ood_row(lv, t);
    law_algebraic_row(lv, crate::security::queries_before(config.levels@, i), t);
}

/// What is asked of the shape of level `i`: a code of rate below one with at least two columns,
/// lanes and columns for all the variables that are left, all lanes folded, and behind it a domain
/// that loses its fixed number of bits.
pub open spec fn shape_asked(config: WhirSecurityConfig, i: int) -> bool {
    let levels = config.levels@;
    let lv = levels[i];
    &&& lv.log_inv_rate > 0
    &&& lv.log_msg_cols > 0
    &&& lv.k == lv.log_num_interleaved
    &&& lv.log_msg_cols + lv.log_num_interleaved == if i == 0 {
        config.log_n
    } else {
        levels[i - 1].log_msg_cols
    }
    &&& i + 1 < levels.len() ==> {
        &&& lv.log_inv_rate + lv.k <= usize::MAX
        &&& levels[i + 1].log_inv_rate == lv.log_inv_rate + lv.k - if i == 0 {
            RS_DOMAIN_INITIAL_REDUCTION_FACTOR
        } else {
            RS_DOMAIN_SUBSEQUENT_REDUCTION_FACTOR
        }
    }
}

/// What is asked of the queries and the certificate of level `i`.
pub open spec fn certificate_asked(config: WhirSecurityConfig, i: int) -> bool {
    let lv = config.levels@[i];
    let t = lv.target_security_bits as nat;
    let bits = if t > lv.grinding_bits {
        (t - lv.grinding_bits) as nat
    } else {
        1
    };
    let q = lv.queries as nat;
    let n = pow2((lv.log_msg_cols + lv.log_inv_rate) as nat);
    let degree = (pow2(lv.log_msg_cols as nat) - 1) as nat;
    let a = lv.agreement as nat;
    &&& 0 < q <= u32::MAX
    &&& 0 < a < n
    &&& pow(a - 1, q) * pow2(bits) <= pow(n as int, q)
    &&& pow(n as int, q) < pow(a as int, q) * pow2(bits)
    &&& a * a > n * degree
    &&& crate::certificate::capacity_outcome(n, degree, a, q) matches Ok(certificate) && {
        &&& lv.interpolation_m == certificate.interpolation_m
        &&& lv.jet_degree == certificate.jet_degree
        &&& lv.interpolation_height == certificate.interpolation_height
        &&& lv.list_bound == certificate.list_bound
        &&& lv.certificate_variant == certificate.variant
    }
}

/// What is asked of the rows of level `i`: no out-of-domain sample at the first level, some at each
/// deeper one, every row within the level's own target, and that target no lower than the global
/// one.
pub open spec fn rows_asked(config: WhirSecurityConfig, i: int) -> bool {
    let lv = config.levels@[i];
    let t = lv.target_security_bits as nat;
    let batched = if i == 0 {
        0
    } else {
        config.levels@[i - 1].queries as nat
    };
    &&& lv.ood_samples == 0 <==> i == 0
    &&& crate::soundness::ood_outcome(lv, t) == Ok::<bool, Seq<char>>(true)
    &&& crate::soundness::fold_outcome(lv, t) == Ok::<bool, Seq<char>>(true)
    &&& crate::soundness::algebraic_outcome(lv, batched, t) == Ok::<bool, Seq<char>>(true)
    &&& config.target_security_bits <= t
}

/// The variables that enter a level are the columns of the level before it.
proof fn lemma_entering(config: WhirSecurityConfig, i: nat)
    requires
        i <= config.levels.len(),
        forall|j: int| 0 <= j < config.levels.len() ==> #[trigger] shape_asked(config, j),
    ensures
        config.dim_in(i) == if i == 0 {
            config.log_n
        } else {
            config.levels[i - 1].log_msg_cols
        },
    decreases i,
{
    if i > 0 {
        lemma_entering(config, (i - 1) as nat);
        assert(shape_asked(config, i - 1));
    }
}

/// The agreement that lies on the edge of the query row is the threshold.
pub(crate) proof fn lemma_on_the_edge(n: nat, queries: nat, bits: nat, a: nat)
    requires
        queries > 0,
        a > 0,
        pow(a - 1, queries) * pow2(bits) <= pow(n as int, queries),
        pow(n as int, queries) < pow(a as int, queries) * pow2(bits),
    ensures
        crate::query::query_agreement(n, queries, bits) == a,
{
    crate::query::law_query_agreement_exact(n, queries, bits, (a - 1) as nat);
    crate::query::law_query_agreement_exact(n, queries, bits, a);
}

/// A configuration is valid if and only if its folds and its residual use up its variables, its
/// first level is the initial fold, and each of its levels is as asked.
pub proof fn law_valid_exactly(config: WhirSecurityConfig)
    ensures
        config.violation() is None <==> {
            &&& config.log_n + LOG_PACKING == config.m
            &&& config.levels.len() > 0
            &&& config.initial_k == config.levels[0].k
            &&& config.final_block.yr_log_n == config.levels@.last().log_msg_cols
            &&& forall|i: int|
                0 <= i < config.levels.len() ==> #[trigger] shape_asked(config, i)
            &&& forall|i: int|
                0 <= i < config.levels.len() ==> #[trigger] certificate_asked(config, i)
            &&& forall|i: int| 0 <= i < config.levels.len() ==> #[trigger] rows_asked(config, i)
        },
{
    let levels = config.levels@;
    if config.violation() is None {
        assert forall|i: int| 0 <= i < levels.len() implies #[trigger] shape_asked(config, i)
            && certificate_asked(config, i) && rows_asked(config, i) by {
            crate::security::lemma_valid_level(config, i as nat);
            crate::security::law_valid_shape(config, i as nat);
            law_valid_certificate(config, i as nat);
            law_valid_rows(config, i as nat);
            reveal(WhirSecurityConfig::shape_violation);
        }
        assert forall|i: int| 0 <= i < levels.len() implies #[trigger] certificate_asked(
            config,
            i,
        ) by {
            assert(shape_asked(config, i));
        }
        assert forall|i: int| 0 <= i < levels.len() implies #[trigger] rows_asked(config, i) by {
            assert(shape_asked(config, i));
        }
        reveal(WhirSecurityConfig::header_violation);
        crate::security::law_valid_shape(config, 0);
        crate::security::law_valid_shape(config, (levels.len() - 1) as nat);
    } else if {
        &&& config.log_n + LOG_PACKING == config.m
        &&& config.levels.len() > 0
        &&& config.initial_k == config.levels[0].k
        &&& config.final_block.yr_log_n == config.levels@.last().log_msg_cols
        &&& forall|i: int| 0 <= i < config.levels.len() ==> #[trigger] shape_asked(config, i)
        &&& forall|i: int| 0 <= i < config.levels.len() ==> #[trigger] certificate_asked(config, i)
        &&& forall|i: int| 0 <= i < config.levels.len() ==> #[trigger] rows_asked(config, i)
    } {
        assert(config.header_violation() is None) by {
            reveal(WhirSecurityConfig::header_violation);
            lemma_entering(config, levels.len());
            crate::security::lemma_folds_split(levels, levels.len());
            assert(shape_asked(config, 0));
        }
        assert forall|j: nat| j < levels.len() implies (#[trigger] config.level_violation(j)) is None
            by {
            let lv = levels[j as int];
            lemma_entering(config, j);
            assert(shape_asked(config, j as int) && certificate_asked(config, j as int)
                && rows_asked(config, j as int));
            let t = lv.target_security_bits as nat;
            lemma_on_the_edge(
                lv.n(),
                lv.queries as nat,
                crate::optimizer::query_target(t, lv.grinding_bits as nat),
                lv.agreement as nat,
            );
            reveal(WhirSecurityConfig::shape_violation);
            reveal(WhirSecurityConfig::level_violation);
        }
        crate::security::lemma_no_violation(config, 0);
    }
}

/// Which violation is reported. Where the header and all levels before the `i`-th are right, and
/// the shape of that level is too, the first of these that fails decides: the agreement is the
/// query threshold but does not lie strictly between the Johnson radius and the length, then the
/// out-of-domain row, then the fold row, then the algebraic row.
pub proof fn law_first_violation(config: WhirSecurityConfig, i: nat)
    requires
        i < config.levels.len(),
        config.header_violation() is None,
        forall|j: nat| j < i ==> (#[trigger] config.level_violation(j)) is None,
        config.shape_violation(i) is None,
        0 < config.levels[i as int].queries <= u32::MAX,
        config.levels[i as int].ood_samples == 0 <==> i == 0,
    ensures
        ({
            let lv = config.levels[i as int];
            let t = lv.target_security_bits as nat;
            let n = pow2((lv.log_msg_cols + lv.log_inv_rate) as nat);
            let degree = (pow2(lv.log_msg_cols as nat) - 1) as nat;
            let bits = if t > lv.grinding_bits {
                (t - lv.grinding_bits) as nat
            } else {
                1
            };
            let a = lv.agreement as nat;
            let ood = crate::soundness::ood_outcome(lv, t);
            let fold = crate::soundness::fold_outcome(lv, t);
            let algebraic = crate::soundness::algebraic_outcome(
                lv,
                if i == 0 {
                    0
                } else {
                    config.levels[i - 1].queries as nat
                },
                t,
            );
            let on_edge = {
                &&& 0 < a
                &&& pow(a - 1, lv.queries as nat) * pow2(bits) <= pow(n as int, lv.queries as nat)
                &&& pow(n as int, lv.queries as nat) < pow(a as int, lv.queries as nat) * pow2(bits)
            };
            let inside = a * a > n * degree && a < n;
            &&& on_edge && !inside ==> config.violation() == Some(Violation::JohnsonEta(i))
            &&& certificate_asked(config, i as int) ==> {
                &&& ood == Ok::<bool, Seq<char>>(false) ==> config.violation() == Some(
                    Violation::OodBinding(i, t),
                )
                &&& ood == Ok::<bool, Seq<char>>(true) && fold == Ok::<bool, Seq<char>>(false)
                    ==> config.violation() == Some(Violation::FoldSoundness(i, t))
                &&& ood == Ok::<bool, Seq<char>>(true) && fold == Ok::<bool, Seq<char>>(true)
                    && algebraic == Ok::<bool, Seq<char>>(false) ==> config.violation() == Some(
                    Violation::AlgebraicSoundness(i, t),
                )
            }
        }),
{
    let lv = config.levels[i as int];
    let t = lv.target_security_bits as nat;
    let bits = crate::optimizer::query_target(t, lv.grinding_bits as nat);
    let (n, a) = (lv.n(), lv.agreement as nat);
    if 0 < a && pow(a - 1, lv.queries as nat) * pow2(bits) <= pow(n as int, lv.queries as nat)
        && pow(n as int, lv.queries as nat) < pow(a as int, lv.queries as nat) * pow2(bits) {
        lemma_on_the_edge(n, lv.queries as nat, bits, a);
    }
    lemma_reached(config, 0, i);
    reveal(WhirSecurityConfig::level_violation);
}

/// Where nothing is wrong before a level, the validation comes to it.
proof fn lemma_reached(config: WhirSecurityConfig, from: nat, i: nat)
    requires
        from <= i < config.levels.len(),
        forall|j: nat| j < i ==> (#[trigger] config.level_violation(j)) is None,
    ensures
        config.levels_violation(from) == config.levels_violation(i),
        config.level_violation(i) is Some ==> config.levels_violation(i) == config.level_violation(
            i,
        ),
    decreases i - from,
{
    if from < i {
        assert(config.level_violation(from) is None);
        lemma_reached(config, from + 1, i);
    }
}

/// The exceptional bound of a level: over the denominator `A - D`, its numerator is
/// `((2B - 1) H + (n - D - 1) B) (A - D) + (n - D) (B + H Psi)`. There is one wherever the agreement
/// exceeds the degree and the products fit their type.
pub proof fn law_exceptional_fraction(level: WhirLevelConfig)
    requires
        level.log_msg_cols > 0,
        level.jet_degree > 0,
        level.interpolation_height > 0,
    ensures
        ({
            let n = pow2((level.log_msg_cols + level.log_inv_rate) as nat);
            let d = pow2(level.log_msg_cols as nat) - 1;
            let (a, b, h) = (level.agreement, level.jet_degree, level.interpolation_height);
            let above = if b > 2 * d + 1 {
                b - (2 * d + 1)
            } else {
                0
            };
            let psi = 1 + (2 * d - 1) * (2 * b - 1) + 2 * above;
            let numerator = ((2 * b - 1) * h + (n - d - 1) * b) * (a - d) + (n - d) * (b + h * psi);
            let outcome = crate::soundness::exceptional_outcome(level);
            &&& outcome is Ok <==> a > d && numerator <= u128::MAX
            &&& outcome matches Ok((top, bottom)) ==> top == numerator && bottom == a - d
        }),
{
    let n = pow2((level.log_msg_cols + level.log_inv_rate) as nat) as int;
    let d = pow2(level.log_msg_cols as nat) - 1;
    let (a, b, h) = (
        level.agreement as int,
        level.jet_degree as int,
        level.interpolation_height as int,
    );
    crate::code::law_degree_below_length(level.log_inv_rate as nat, level.log_msg_cols as nat);
    let psi = crate::soundness::psi(d as nat, b as nat);
    let integral = (2 * b - 1) * h + (n - d - 1) * b;
    if a > d {
        assert((2 * d - 1) * (2 * b - 1) >= 0) by (nonlinear_arith)
            requires
                d >= 1,
                b >= 1,
        ;
        assert((2 * b - 1) * h >= 0 && (n - d - 1) * b >= 0) by (nonlinear_arith)
            requires
                b >= 1,
                h >= 1,
                n >= d + 1,
        ;
        assert(integral * (a - d) >= integral) by (nonlinear_arith)
            requires
                integral >= 0,
                a - d >= 1,
        ;
        assert(h * psi >= psi) by (nonlinear_arith)
            requires
                h >= 1,
                psi >= 0,
        ;
        let inner = b + h * psi;
        assert((n - d) * inner >= inner) by (nonlinear_arith)
            requires
                n - d >= 1,
                inner >= 0,
        ;
    }
}

/// Which part of the shape is reported: the packing before the sum of folds and residual, that
/// before missing levels, and those before the first level's fold and lanes. Each message names the
/// numbers that do not fit.
pub proof fn law_header_messages(config: WhirSecurityConfig)
    ensures
        ({
            let levels = config.levels@;
            let later = crate::security::folds(levels, 1, levels.len());
            let yr = config.final_block.yr_log_n as nat;
            let sum = config.initial_k as nat + later + yr;
            let packed = config.log_n + LOG_PACKING == config.m;
            let summed = sum == config.log_n;
            let violation = config.violation();
            &&& !packed ==> violation == Some(
                Violation::Message(
                    "log_n ("@ + crate::text::decimal(config.log_n as nat) + ") + LOG_PACKING ("@
                        + crate::text::decimal(LOG_PACKING as nat) + ") != m ("@
                        + crate::text::decimal(config.m as nat) + ")"@,
                ),
            )
            &&& packed && !summed ==> violation == Some(
                Violation::Message(
                    "shape mismatch: initial_k ("@ + crate::text::decimal(config.initial_k as nat)
                        + ") + Σ k ("@ + crate::text::decimal(later) + ") + yr_log_n ("@
                        + crate::text::decimal(yr) + ") = "@ + crate::text::decimal(sum)
                        + " ≠ log_n ("@ + crate::text::decimal(config.log_n as nat) + ")"@,
                ),
            )
            &&& packed && summed && levels.len() == 0 ==> violation == Some(
                Violation::Message("empty levels"@),
            )
            &&& packed && summed && levels.len() > 0 && levels[0].k != config.initial_k
                ==> violation == Some(
                Violation::Message(
                    "L0.k ("@ + crate::text::decimal(levels[0].k as nat)
                        + ") must equal initial_k ("@ + crate::text::decimal(
                        config.initial_k as nat,
                    ) + ")"@,
                ),
            )
            &&& packed && summed && levels.len() > 0 && levels[0].k == config.initial_k
                && levels[0].log_num_interleaved != config.initial_k ==> violation == Some(
                Violation::Message(
                    "L0.log_num_interleaved ("@ + crate::text::decimal(
                        levels[0].log_num_interleaved as nat,
                    ) + ") must equal initial_k ("@ + crate::text::decimal(
                        config.initial_k as nat,
                    ) + ")"@,
                ),
            )
        }),
{
    reveal(WhirSecurityConfig::header_violation);
}

/// Which fault of a level is reported where nothing before the level is wrong: a code of rate one, a
/// code without columns, queries that are missing or too many, an agreement that is not the
/// threshold of its queries, a certificate that is not the level's own, samples at the first level
/// or none at a deeper one.
pub proof fn law_level_messages(config: WhirSecurityConfig, i: nat)
    requires
        i < config.levels.len(),
        config.header_violation() is None,
        forall|j: nat| j < i ==> (#[trigger] config.level_violation(j)) is None,
    ensures
        ({
            let lv = config.levels[i as int];
            let name = "L"@ + crate::text::decimal(i);
            let t = lv.target_security_bits as nat;
            let bits = if t > lv.grinding_bits {
                (t - lv.grinding_bits) as nat
            } else {
                1
            };
            let n = pow2((lv.log_msg_cols + lv.log_inv_rate) as nat);
            let degree = (pow2(lv.log_msg_cols as nat) - 1) as nat;
            let threshold = crate::query::query_agreement(n, lv.queries as nat, bits);
            let violation = config.violation();
            &&& lv.log_inv_rate == 0 ==> violation == Some(
                Violation::Message(name + ": log_inv_rate=0 gives a rate-one code"@),
            )
            &&& lv.log_inv_rate > 0 && lv.log_msg_cols == 0 ==> violation == Some(
                Violation::Message(name + ": log_msg_cols must be positive"@),
            )
            &&& config.shape_violation(i) is None ==> {
                &&& lv.queries == 0 ==> violation == Some(
                    Violation::Message(name + ": query count must be positive"@),
                )
                &&& lv.queries > u32::MAX ==> violation == Some(
                    Violation::Message("query count does not fit u32"@),
                )
                &&& 0 < lv.queries <= u32::MAX && lv.agreement != threshold ==> violation == Some(
                    Violation::Message(
                        name + ": agreement threshold "@ + crate::text::decimal(
                            lv.agreement as nat,
                        ) + " is not the exact query threshold "@ + crate::text::decimal(threshold),
                    ),
                )
                &&& certificate_asked(config, i as int) && i == 0 && lv.ood_samples != 0
                    ==> violation == Some(
                    Violation::Message(
                        "L0: ood_samples="@ + crate::text::decimal(lv.ood_samples as nat)
                            + " but L0 is bound by the opening's own evaluation claim (must be 0)"@,
                    ),
                )
                &&& certificate_asked(config, i as int) && i > 0 && lv.ood_samples == 0
                    ==> violation == Some(
                    Violation::Message(
                        name
                            + ": ood_samples ≥ 1 required past L0 (the query counts assume single-codeword binding)"@,
                    ),
                )
                &&& 0 < lv.queries <= u32::MAX && lv.agreement == threshold && lv.agreement
                    * lv.agreement > n * degree && lv.agreement < n ==> (
                crate::certificate::capacity_outcome(
                    n,
                    degree,
                    lv.agreement as nat,
                    lv.queries as nat,
                ) matches Ok(certificate) && (lv.interpolation_m != certificate.interpolation_m
                    || lv.jet_degree != certificate.jet_degree || lv.interpolation_height
                    != certificate.interpolation_height || lv.list_bound != certificate.list_bound
                    || lv.certificate_variant != certificate.variant) ==> violation == Some(
                    Violation::Message(
                        name
                            + ": capacity MCA certificate does not match its exact derived parameters"@,
                    ),
                ))
            }
        }),
{
    let lv = config.levels[i as int];
    lemma_reached(config, 0, i);
    if certificate_asked(config, i as int) {
        lemma_on_the_edge(
            lv.n(),
            lv.queries as nat,
            crate::optimizer::query_target(
                lv.target_security_bits as nat,
                lv.grinding_bits as nat,
            ),
            lv.agreement as nat,
        );
    }
    reveal(WhirSecurityConfig::level_violation);
    if lv.log_inv_rate == 0 || lv.log_msg_cols == 0 {
        reveal(WhirSecurityConfig::shape_violation);
    }
}

} // verus!
