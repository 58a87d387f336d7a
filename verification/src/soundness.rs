//! The error terms of one level, each held against a security target in exact integers.

use vstd::prelude::*;
use vstd::arithmetic::power::*;
use vstd::arithmetic::power2::*;
use crate::arith::{checked_product2, checked_product3, pow2_u128};
use crate::certificate::JohnsonCertificateVariant;
use crate::code::reduced_rate;
use crate::ring_switch::RING_SWITCH_SOUNDNESS_DEGREE;
use crate::text::with_number;

verus! {

/// Logarithm of the extension-field size that the analysis assumes: `q = 2^192`.
pub const ANALYSIS_LOG_Q: usize = 192;

/// Parameters of a single level in the ladder.
///
/// The slack from the Johnson radius, `A/n - sqrt(D/n)`, is a function of these parameters and is
/// not stored.
#[derive(Clone, Copy, Debug)]
pub struct WhirLevelConfig {
    /// Rate at this level: codeword expansion factor `2^log_inv_rate`.
    pub log_inv_rate: usize,
    /// Message dimension at this level: log of the number of field columns in the codeword.
    pub log_msg_cols: usize,
    /// Log of the lane width per Merkle leaf at this level.
    pub log_num_interleaved: usize,
    /// Number of sumcheck folds taken at this level.
    pub k: usize,
    /// Agreement threshold `A`.
    pub agreement: usize,
    /// Interpolation multiplicity in the certificate.
    pub interpolation_m: usize,
    /// Jet-degree cutoff in the certificate.
    pub jet_degree: usize,
    /// Auxiliary interpolation height in the certificate.
    pub interpolation_height: usize,
    /// Johnson list bound used by the fold, out-of-domain and algebraic checks.
    pub list_bound: usize,
    /// Where the certificate comes from.
    pub certificate_variant: JohnsonCertificateVariant,
    /// Number of codeword positions opened at this level.
    pub queries: usize,
    /// Proof-of-work bits ground after the commitment and before the queries.
    pub grinding_bits: usize,
    /// Out-of-domain samples taken right after this level's commitment: none at the first level,
    /// at least one at each deeper level.
    pub ood_samples: usize,
    /// Security target that this level guarantees, after grinding.
    pub target_security_bits: usize,
}

impl WhirLevelConfig {
    /// Whether the code's length fits in `usize`.
    pub open spec fn length_fits(self) -> bool {
        self.log_msg_cols + self.log_inv_rate < usize::BITS
    }

    /// The code's length.
    pub open spec fn n(self) -> nat {
        crate::code::block_length(self.log_inv_rate as nat, self.log_msg_cols as nat)
    }

    /// The code's largest degree.
    pub open spec fn degree(self) -> nat {
        crate::code::max_degree(self.log_msg_cols as nat)
    }

    /// The number of variables of this level's multilinear polynomial.
    pub open spec fn variables(self) -> nat {
        (self.log_msg_cols + self.log_num_interleaved) as nat
    }
}

/// `2^192` over `2^target_bits`: how large the numerator of an error term may be.
pub open spec fn budget_outcome(target_bits: nat) -> Result<nat, Seq<char>> {
    if target_bits > ANALYSIS_LOG_Q {
        Err("target "@ + crate::text::decimal(target_bits) + " exceeds the analysis field size"@)
    } else if ANALYSIS_LOG_Q - target_bits >= 128 {
        Err(
            "target "@ + crate::text::decimal(target_bits)
                + " is too small for an exact u128 soundness budget"@,
        )
    } else {
        Ok(pow2((ANALYSIS_LOG_Q - target_bits) as nat))
    }
}

/// How large the numerator of an error term over the field may be at a target.
pub fn soundness_budget(target_bits: usize) -> (r: Result<u128, String>)
    ensures
        match r {
            Ok(budget) => budget_outcome(target_bits as nat) == Ok::<nat, Seq<char>>(budget as nat),
            Err(e) => budget_outcome(target_bits as nat) == Err::<nat, Seq<char>>(e@),
        },
{
    if target_bits > ANALYSIS_LOG_Q {
        return Err(
            with_number("target ".to_owned(), target_bits as u128).concat(
                " exceeds the analysis field size",
            ),
        );
    }
    let exponent: usize = ANALYSIS_LOG_Q - target_bits;
    if exponent >= 128 {
        return Err(
            with_number("target ".to_owned(), target_bits as u128).concat(
                " is too small for an exact u128 soundness budget",
            ),
        );
    }
    Ok(pow2_u128(exponent))
}

/// The term `Psi` of the exceptional bound.
pub open spec fn psi(degree: nat, b: nat) -> int {
    let above = b - (2 * degree + 1);
    1 + (2 * degree - 1) * (2 * b - 1) + 2 * (if above > 0 {
        above
    } else {
        0
    })
}

/// The integral part of the exceptional bound.
pub open spec fn integral_term(n: nat, degree: nat, b: nat, height: nat) -> int {
    (2 * b - 1) * height + (n - degree - 1) * b
}

/// The numerator of the fractional part of the exceptional bound, over `A - D`.
pub open spec fn fractional_term(n: nat, degree: nat, b: nat, height: nat) -> int {
    (n - degree) * (b + height * psi(degree, b))
}

/// The numerator of the exceptional bound, over `A - D`.
pub open spec fn exceptional_numerator(
    n: nat,
    degree: nat,
    a: nat,
    b: nat,
    height: nat,
) -> int {
    integral_term(n, degree, b, height) * (a - degree) + fractional_term(n, degree, b, height)
}

/// The exceptional bound `(2B-1) H + (n-D)/(A-D) (B + H Psi) + (n-D-1) B` as a fraction over
/// `A - D`, or what keeps it from being computed.
pub open spec fn exceptional_outcome(level: WhirLevelConfig) -> Result<(nat, nat), Seq<char>> {
    let n = level.n();
    let degree = level.degree();
    let a = level.agreement as nat;
    let b = level.jet_degree as nat;
    let height = level.interpolation_height as nat;
    if a <= degree {
        Err("capacity MCA agreement must exceed the degree"@)
    } else if psi(degree, b) > u128::MAX {
        Err(crate::arith::overflow_text("capacity MCA Psi"@))
    } else if integral_term(n, degree, b, height) > u128::MAX {
        Err(crate::arith::overflow_text("capacity MCA integral term"@))
    } else if fractional_term(n, degree, b, height) > u128::MAX {
        Err(crate::arith::overflow_text("capacity MCA fractional term"@))
    } else if exceptional_numerator(n, degree, a, b, height) > u128::MAX {
        Err(crate::arith::overflow_text("capacity MCA exceptional numerator"@))
    } else {
        Ok((exceptional_numerator(n, degree, a, b, height) as nat, (a - degree) as nat))
    }
}

fn overflow(context: &str) -> (e: String)
    ensures
        e@ == crate::arith::overflow_text(context@),
{
    context.to_owned().concat(": integer overflow")
}

/// `x + y`, or the overflow error of `context`.
fn checked_sum(x: u128, y: u128, context: &str) -> (r: Result<u128, String>)
    ensures
        r is Ok <==> x + y <= u128::MAX,
        r matches Ok(sum) ==> sum == x + y,
        r matches Err(e) ==> e@ == crate::arith::overflow_text(context@),
{
    match x.checked_add(y) {
        Some(sum) => Ok(sum),
        None => Err(overflow(context)),
    }
}

/// The exact numerator and denominator of the exceptional bound of the capacity MCA theorem.
pub fn capacity_mca_exceptional_fraction(level: &WhirLevelConfig) -> (r: Result<
    (u128, u128),
    String,
>)
    requires
        level.length_fits(),
        level.agreement > level.degree() ==> level.log_msg_cols > 0 && level.jet_degree > 0,
    ensures
        match r {
            Ok((numerator, denominator)) => exceptional_outcome(*level) == Ok::<
                (nat, nat),
                Seq<char>,
            >((numerator as nat, denominator as nat)),
            Err(e) => exceptional_outcome(*level) == Err::<(nat, nat), Seq<char>>(e@),
        },
{
    let (small_degree, small_n) = reduced_rate(level.log_inv_rate, level.log_msg_cols);
    proof {
        crate::code::law_degree_below_length(
            level.log_inv_rate as nat,
            level.log_msg_cols as nat,
        );
    }
    let n: u128 = small_n as u128;
    let degree: u128 = small_degree as u128;
    let agreement: u128 = level.agreement as u128;
    let jet_degree: u128 = level.jet_degree as u128;
    let height: u128 = level.interpolation_height as u128;
    if agreement <= degree {
        return Err("capacity MCA agreement must exceed the degree".to_owned());
    }
    let denominator: u128 = agreement - degree;
    let ghost (gn, gd, ga, gb, gh) = (
        n as nat,
        degree as nat,
        agreement as nat,
        jet_degree as nat,
        height as nat,
    );
    proof {
        assert((2 * gd - 1) * (2 * gb - 1) >= 0) by (nonlinear_arith)
            requires
                gd >= 1,
                gb >= 1,
        ;
        assert((2 * gb - 1) * gh >= 0) by (nonlinear_arith)
            requires
                gb >= 1,
        ;
        assert((gn - gd - 1) * gb >= 0) by (nonlinear_arith)
            requires
                gn >= gd + 1,
        ;
        assert(gh * psi(gd, gb) >= 0) by (nonlinear_arith)
            requires
                psi(gd, gb) >= 0,
        ;
        let inner = gb + gh * psi(gd, gb);
        assert((gn - gd) * inner >= inner) by (nonlinear_arith)
            requires
                gn - gd >= 1,
                inner >= 0,
        ;
    }
    let psi_product: u128 = checked_product2(
        2 * degree - 1,
        2 * jet_degree - 1,
        "capacity MCA Psi",
    )?;
    let psi: u128 = checked_sum(
        checked_sum(1, psi_product, "capacity MCA Psi")?,
        2 * jet_degree.saturating_sub(2 * degree + 1),
        "capacity MCA Psi",
    )?;
    let integral: u128 = checked_sum(
        checked_product2(2 * jet_degree - 1, height, "capacity MCA integral term")?,
        checked_product2(n - degree - 1, jet_degree, "capacity MCA integral term")?,
        "capacity MCA integral term",
    )?;
    let fractional: u128 = checked_product2(
        n - degree,
        checked_sum(
            jet_degree,
            checked_product2(height, psi, "capacity MCA fractional term")?,
            "capacity MCA fractional term",
        )?,
        "capacity MCA fractional term",
    )?;
    proof {
        assert(integral * denominator >= 0) by (nonlinear_arith)
            requires
                integral >= 0,
                denominator >= 0,
        ;
    }
    let numerator: u128 = checked_sum(
        checked_product2(integral, denominator, "capacity MCA exceptional numerator")?,
        fractional,
        "capacity MCA exceptional numerator",
    )?;
    Ok((numerator, denominator))
}

/// Whether the fold challenge's error, the exceptional bound plus twice the list over the field,
/// stays within the target, or what keeps it from being decided.
pub open spec fn fold_outcome(level: WhirLevelConfig, target_bits: nat) -> Result<bool, Seq<char>> {
    match exceptional_outcome(level) {
        Err(e) => Err(e),
        Ok((numerator, denominator)) => {
            let list_term = 2 * level.list_bound * denominator;
            if list_term > u128::MAX {
                Err(crate::arith::overflow_text("capacity MCA list term"@))
            } else if numerator + list_term > u128::MAX {
                Err(crate::arith::overflow_text("capacity MCA fold numerator"@))
            } else {
                match budget_outcome(target_bits) {
                    Err(e) => Err(e),
                    Ok(budget) => if budget * denominator > u128::MAX {
                        Err(crate::arith::overflow_text("capacity MCA target"@))
                    } else {
                        Ok(numerator + list_term <= budget * denominator)
                    },
                }
            }
        },
    }
}

/// Whether the combined fold-challenge error of a level clears a target.
pub fn capacity_mca_fold_within_target(level: &WhirLevelConfig, target_bits: usize) -> (r: Result<
    bool,
    String,
>)
    requires
        level.length_fits(),
        level.agreement > level.degree() ==> level.log_msg_cols > 0 && level.jet_degree > 0,
    ensures
        crate::text::outcome(r) == fold_outcome(*level, target_bits as nat),
{
    let (exceptional_numerator, denominator) = capacity_mca_exceptional_fraction(level)?;
    let list_term: u128 = checked_product3(
        2,
        level.list_bound as u128,
        denominator,
        "capacity MCA list term",
    )?;
    let fold_numerator: u128 = checked_sum(
        exceptional_numerator,
        list_term,
        "capacity MCA fold numerator",
    )?;
    let target_numerator: u128 = checked_product2(
        soundness_budget(target_bits)?,
        denominator,
        "capacity MCA target",
    )?;
    Ok(fold_numerator <= target_numerator)
}

/// Whether a level's fold row clears a target and leaves less than one bit unused: it does not
/// clear one bit more.
pub open spec fn fold_is_tight(level: WhirLevelConfig, target_bits: nat) -> bool {
    &&& fold_outcome(level, target_bits) == Ok::<bool, Seq<char>>(true)
    &&& fold_outcome(level, target_bits + 1) == Ok::<bool, Seq<char>>(false)
}

/// Whether the fold row of some level clears a target and leaves less than one bit unused.
pub fn some_fold_is_tight(levels: &[WhirLevelConfig], target_bits: usize) -> (b: bool)
    requires
        target_bits < usize::MAX,
        forall|i: int|
            0 <= i < levels.len() ==> {
                let level = #[trigger] levels[i];
                &&& level.length_fits()
                &&& level.agreement > level.degree() ==> level.log_msg_cols > 0
                    && level.jet_degree > 0
            },
    ensures
        b == exists|i: int|
            0 <= i < levels.len() && fold_is_tight(#[trigger] levels[i], target_bits as nat),
{
    let mut i: usize = 0;
    while i < levels.len()
        invariant
            i <= levels.len(),
            target_bits < usize::MAX,
            forall|i: int|
                0 <= i < levels.len() ==> {
                    let level = #[trigger] levels[i];
                    &&& level.length_fits()
                    &&& level.agreement > level.degree() ==> level.log_msg_cols > 0
                        && level.jet_degree > 0
                },
            forall|j: int| 0 <= j < i ==> !fold_is_tight(#[trigger] levels[j], target_bits as nat),
        decreases levels.len() - i,
    {
        let level = levels[i];
        if let Ok(true) = capacity_mca_fold_within_target(&level, target_bits) {
            if let Ok(false) = capacity_mca_fold_within_target(&level, target_bits + 1) {
                assert(fold_is_tight(levels[i as int], target_bits as nat));
                return true;
            }
        }
        i = i + 1;
    }
    false
}

/// What a tight fold row says: the fold error, as a fraction of the field, lies above half of two
/// to the power of `-target_bits`, and not above the whole.
pub proof fn law_tight_fold(level: WhirLevelConfig, target_bits: nat)
    requires
        fold_is_tight(level, target_bits),
    ensures
        ({
            let (numerator, denominator) = exceptional_outcome(level)->Ok_0;
            let error = numerator + 2 * level.list_bound * denominator;
            error * pow2(target_bits) <= pow2(ANALYSIS_LOG_Q as nat) * denominator < error * pow2(
                target_bits + 1,
            )
        }),
{
    let (numerator, denominator) = exceptional_outcome(level)->Ok_0;
    let error = numerator + 2 * level.list_bound * denominator;
    let field = pow2(ANALYSIS_LOG_Q as nat) as int;
    let (low, high) = (
        pow2((ANALYSIS_LOG_Q - target_bits) as nat) as int,
        pow2((ANALYSIS_LOG_Q - target_bits - 1) as nat) as int,
    );
    let (p, q) = (pow2(target_bits) as int, pow2(target_bits + 1) as int);
    lemma_pow2_adds((ANALYSIS_LOG_Q - target_bits) as nat, target_bits);
    lemma_pow2_adds((ANALYSIS_LOG_Q - target_bits - 1) as nat, target_bits + 1);
    lemma_pow2_pos(target_bits);
    lemma_pow2_pos(target_bits + 1);
    assert(error * p <= field * denominator) by (nonlinear_arith)
        requires
            error <= low * denominator,
            low * p == field,
            p > 0,
    {
        assert((low * denominator) * p == (low * p) * denominator);
    }
    assert(field * denominator < error * q) by (nonlinear_arith)
        requires
            error > high * denominator,
            high * q == field,
            q > 0,
    {
        assert((high * denominator) * q == (high * q) * denominator);
    }
}

/// The degree that the worst algebraic identity test is charged: the ring switch, the batch of
/// the previous level's queries with this level's out-of-domain claims, or the quadratic sumcheck.
pub open spec fn algebraic_degree(prev_queries: nat, ood_samples: nat) -> nat {
    let batch = prev_queries + ood_samples;
    if RING_SWITCH_SOUNDNESS_DEGREE >= batch {
        RING_SWITCH_SOUNDNESS_DEGREE as nat
    } else {
        batch
    }
}

/// Whether the algebraic error, degree times list over the field, stays within the target, or what
/// keeps it from being decided.
pub open spec fn algebraic_outcome(
    level: WhirLevelConfig,
    prev_queries: nat,
    target_bits: nat,
) -> Result<bool, Seq<char>> {
    let numerator = algebraic_degree(prev_queries, level.ood_samples as nat) * level.list_bound;
    if numerator > u128::MAX {
        Err(crate::arith::overflow_text("algebraic soundness"@))
    } else {
        match budget_outcome(target_bits) {
            Err(e) => Err(e),
            Ok(budget) => Ok(numerator <= budget),
        }
    }
}

/// Whether the worst algebraic challenge of a level, unioned over the list, clears a target.
pub fn johnson_algebraic_within_target(
    level: &WhirLevelConfig,
    prev_queries: usize,
    target_bits: usize,
) -> (r: Result<bool, String>)
    ensures
        crate::text::outcome(r) == algebraic_outcome(
            *level,
            prev_queries as nat,
            target_bits as nat,
        ),
{
    let batch: u128 = prev_queries as u128 + level.ood_samples as u128;
    let ring_switch: u128 = RING_SWITCH_SOUNDNESS_DEGREE as u128;
    let degree: u128 = if ring_switch >= batch {
        ring_switch
    } else {
        batch
    };
    let numerator: u128 = checked_product2(
        degree,
        level.list_bound as u128,
        "algebraic soundness",
    )?;
    Ok(numerator <= soundness_budget(target_bits)?)
}

/// The numerator of the out-of-domain error: the list times the variables at the first level, the
/// pairs of the list times the variables deeper down.
pub open spec fn ood_numerator(list: nat, variables: nat, ood_samples: nat) -> nat {
    if ood_samples == 0 {
        list * variables
    } else {
        list * crate::soundness::one_less(list) * variables / 2
    }
}

/// `k - 1`, or 0.
pub open spec fn one_less(k: nat) -> nat {
    if k == 0 {
        0
    } else {
        (k - 1) as nat
    }
}

/// Whether the out-of-domain error stays within the target, or what keeps it from being decided.
pub open spec fn ood_outcome(level: WhirLevelConfig, target_bits: nat) -> Result<bool, Seq<char>> {
    let list = level.list_bound as nat;
    let wide = if level.ood_samples == 0 {
        list * level.variables()
    } else {
        list * one_less(list) * level.variables()
    };
    if wide > u128::MAX {
        Err(crate::arith::overflow_text("OOD soundness"@))
    } else {
        match budget_outcome(target_bits) {
            Err(e) => Err(e),
            Ok(budget) => Ok(
                ood_numerator(list, level.variables(), level.ood_samples as nat) <= budget,
            ),
        }
    }
}

/// Whether out-of-domain binding at a level clears a target. One sample is charged however many
/// are declared.
pub fn ood_within_target(level: &WhirLevelConfig, target_bits: usize) -> (r: Result<bool, String>)
    ensures
        crate::text::outcome(r) == ood_outcome(*level, target_bits as nat),
{
    let mu: u128 = level.log_msg_cols as u128 + level.log_num_interleaved as u128;
    let list: u128 = level.list_bound as u128;
    let numerator: u128 = if level.ood_samples == 0 {
        checked_product2(list, mu, "OOD soundness")?
    } else {
        let fewer: u128 = list.saturating_sub(1);
        proof {
            assert(list * fewer <= u128::MAX) by (nonlinear_arith)
                requires
                    0 <= list <= 0xffff_ffff_ffff_ffff,
                    0 <= fewer <= 0xffff_ffff_ffff_ffff,
            ;
        }
        checked_product3(list, fewer, mu, "OOD soundness")? / 2
    };
    Ok(numerator <= soundness_budget(target_bits)?)
}

/// Charging one out-of-domain sample is conservative for any larger count: where the check passes
/// with samples taken, the chance that two list members agree on all of them clears the target,
/// `pairs * (mu/q)^samples <= 2^-target`.
pub proof fn law_one_sample_conservative(level: WhirLevelConfig, target_bits: nat)
    requires
        level.ood_samples > 0,
        ood_outcome(level, target_bits) == Ok::<bool, Seq<char>>(true),
    ensures
        level.list_bound as nat * one_less(level.list_bound as nat) / 2 * pow(
            level.variables() as int,
            level.ood_samples as nat,
        ) * pow2(target_bits) <= pow(
            pow2(ANALYSIS_LOG_Q as nat) as int,
            level.ood_samples as nat,
        ),
{
    let list = level.list_bound as nat;
    let double = list * one_less(list);
    let pairs = double / 2;
    let mu = level.variables() as int;
    let samples = level.ood_samples as nat;
    let q = pow2(ANALYSIS_LOG_Q as nat) as int;
    let t = pow2(target_bits) as int;
    let budget = pow2((ANALYSIS_LOG_Q - target_bits) as nat) as int;
    assert(double == 2 * pairs) by {
        lemma_consecutive_even(list);
    }
    assert(double * mu == 2 * (pairs * mu)) by (nonlinear_arith)
        requires
            double == 2 * pairs,
    ;
    assert(pairs * mu <= budget);
    lemma_pow2_adds((ANALYSIS_LOG_Q - target_bits) as nat, target_bits);
    assert(budget * t == q);
    lemma_pow2_pos(target_bits);
    assert((pairs * mu) * t <= q) by (nonlinear_arith)
        requires
            pairs * mu <= budget,
            budget * t == q,
            t > 0,
    ;
    assert(mu <= q) by {
        lemma2_to64();
        lemma_pow2_strictly_increases(64, 65);
        lemma_pow2_unfold(65);
        lemma_pow2_strictly_increases(65, ANALYSIS_LOG_Q as nat);
    }
    lemma_more_samples(pairs as int, mu, t, q, samples);
}

pub(crate) proof fn lemma_consecutive_even(list: nat)
    ensures
        list * one_less(list) % 2 == 0,
    decreases list,
{
    if list >= 2 {
        lemma_consecutive_even((list - 1) as nat);
        assert(list * (list - 1) == (list - 1) * (list - 2) + 2 * (list - 1)) by (nonlinear_arith);
    } else {
        assert(list * one_less(list) == 0) by (nonlinear_arith)
            requires
                one_less(list) == 0,
        ;
    }
}

proof fn lemma_more_samples(pairs: int, mu: int, t: int, q: int, samples: nat)
    requires
        pairs >= 0,
        t >= 0,
        0 <= mu <= q,
        (pairs * mu) * t <= q,
        samples >= 1,
    ensures
        pairs * pow(mu, samples) * t <= pow(q, samples),
    decreases samples,
{
    reveal(pow);
    if samples == 1 {
        assert(pow(mu, 0) == 1 && pow(q, 0) == 1);
        assert(pow(mu, 1) == mu && pow(q, 1) == q) by (nonlinear_arith)
            requires
                pow(mu, 1) == mu * 1,
                pow(q, 1) == q * 1,
        ;
    } else {
        let d = (samples - 1) as nat;
        lemma_more_samples(pairs, mu, t, q, d);
        let (x, y) = (pow(mu, d), pow(q, d));
        crate::query::lemma_pow_base_monotone(mu as nat, q as nat, d);
        let z = pairs * x * t;
        assert(z >= 0) by (nonlinear_arith)
            requires
                z == pairs * x * t,
                pairs >= 0,
                x >= 0,
                t >= 0,
        ;
        assert(pairs * (mu * x) * t == mu * z) by (nonlinear_arith)
            requires
                z == pairs * x * t,
        ;
        assert(mu * z <= q * y) by (nonlinear_arith)
            requires
                0 <= mu <= q,
                0 <= z <= y,
        ;
    }
}

} // verus!
