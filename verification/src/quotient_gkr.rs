//! The layered proof that a sum of fractions has a given value.
//!
//! Prover and verifier walk the layers from the last one, which has two entries per column, back
//! to the fractions themselves. At every layer the claims on its columns at one point are reduced
//! by a sumcheck to claims on the columns of the layer before it.

use vstd::prelude::*;
use vstd::arithmetic::power2::*;
use vstd::slice::slice_subrange;
use p3_util::log2_strict_usize;
use crate::field::{dot_product, first_powers, Field};
use crate::fractions::{borrow_columns, quotient_layers, split_chunks};
use crate::multilinear::{copy_of, eq_poly_outside, line_at};

verus! {

/// The fractions in entry `e` of the columns of a last layer, which is given as its columns of two
/// one after another.
pub open spec fn last_ratios<F: Field>(last: Seq<F>, e: int) -> Seq<F> {
    let groups = last.len() / 2;
    Seq::new(
        groups / 2,
        |i: int| crate::field::ratio(last[2 * i + e], last[groups + 2 * i + e]),
    )
}

/// The sum of the fractions of a last layer.
pub open spec fn last_quotient<F: Field>(last: Seq<F>) -> F {
    crate::field::total(last_ratios(last, 0)).plus(crate::field::total(last_ratios(last, 1)))
}

/// Whether no denominator of a last layer is 0.
pub open spec fn last_denominators_nonzero<F: Field>(last: Seq<F>) -> bool {
    forall|i: int| last.len() / 2 <= i < last.len() ==> #[trigger] last[i] != F::nil()
}

/// A fraction.
fn divide<F: Field>(n: F, d: F) -> (r: F)
    requires
        n.valid(),
        d.valid(),
        d != F::nil(),
    ensures
        r.valid(),
        r == crate::field::ratio(n, d),
        crate::field::invertible(d),
{
    match d.try_inverse() {
        Some(c) => {
            proof {
                assert(crate::field::is_inverse(d, c));
                crate::field::lemma_inverse(d, c);
            }
            n.field_mul(c)
        },
        None => n,
    }
}

/// The sum of the fractions in entry `e` of a last layer.
fn sum_last_ratios<F: Field>(last: &[F], e: usize) -> (r: F)
    requires
        e < 2,
        last.len() % 4 == 0,
        crate::field::all_valid(last@),
        last_denominators_nonzero(last@),
    ensures
        r.valid(),
        r == crate::field::total(last_ratios(last@, e as int)),
{
    let groups: usize = last.len() / 2;
    let ghost terms = last_ratios(last@, e as int);
    let mut sum = F::zero();
    let mut i: usize = 0;
    while i < groups / 2
        invariant
            e < 2,
            i <= groups / 2,
            last.len() == 2 * groups,
            groups % 2 == 0,
            crate::field::all_valid(last@),
            last_denominators_nonzero(last@),
            terms == last_ratios(last@, e as int),
            sum.valid(),
            sum == crate::field::total(terms.take(i as int)),
        decreases groups / 2 - i,
    {
        assert(last[groups + 2 * i + e] != F::nil());
        assert(terms.take(i + 1).drop_last() =~= terms.take(i as int));
        sum = sum.field_add(divide(last[2 * i + e], last[groups + 2 * i + e]));
        i = i + 1;
    }
    assert(terms.take(i as int) =~= terms);
    sum
}

/// The sum of the fractions of a last layer.
pub fn sum_last_layer<F: Field>(last: &[F]) -> (r: F)
    requires
        last.len() % 4 == 0,
        crate::field::all_valid(last@),
        last_denominators_nonzero(last@),
    ensures
        r.valid(),
        r == last_quotient(last@),
{
    sum_last_ratios(last, 0).field_add(sum_last_ratios(last, 1))
}

/// The claims on columns from the evaluations of their halves: each pair on its line at `beta`.
pub open spec fn lines<F: Field>(evals: Seq<F>, beta: F) -> Seq<F> {
    Seq::new(
        evals.len() / 2,
        |i: int| crate::multilinear::line(evals[2 * i], evals[2 * i + 1], beta),
    )
}

/// The claims on columns from the evaluations of their halves.
pub fn lines_at<F: Field>(evals: &[F], beta: F) -> (v: Vec<F>)
    requires
        crate::field::all_valid(evals@),
        beta.valid(),
    ensures
        v@ == lines(evals@, beta),
        crate::field::all_valid(v@),
{
    let mut v: Vec<F> = Vec::new();
    while v.len() < evals.len() / 2
        invariant
            v.len() <= evals.len() / 2,
            crate::field::all_valid(evals@),
            beta.valid(),
            crate::field::all_valid(v@),
            forall|i: int| 0 <= i < v.len() ==> #[trigger] v[i] == lines(evals@, beta)[i],
        decreases evals.len() / 2 - v.len(),
    {
        let i: usize = v.len();
        v.push(line_at(evals[2 * i], evals[2 * i + 1], beta));
    }
    assert(v@ =~= lines(evals@, beta));
    v
}

/// The claims on numerators and denominators from the evaluations of their pieces, weighted.
pub open spec fn skip_claims<F: Field>(evals: Seq<F>, selectors: Seq<F>) -> Seq<F> {
    let groups = (evals.len() / 2) as int;
    seq![
        crate::field::dot(evals.take(groups), selectors),
        crate::field::dot(evals.skip(groups), selectors),
    ]
}

/// The claims on numerators and denominators from the evaluations of their pieces.
pub fn skip_claims_at<F: Field>(evals: &[F], selectors: &[F]) -> (v: Vec<F>)
    requires
        evals.len() == 2 * selectors.len(),
        crate::field::all_valid(evals@),
        crate::field::all_valid(selectors@),
    ensures
        v@ == skip_claims(evals@, selectors@),
        crate::field::all_valid(v@),
{
    let groups: usize = selectors.len();
    let low = slice_subrange(evals, 0, groups);
    let high = slice_subrange(evals, groups, evals.len());
    assert(low@ =~= evals@.take(groups as int));
    assert(high@ =~= evals@.skip(groups as int));
    let mut v: Vec<F> = Vec::new();
    v.push(dot_product(low, selectors));
    v.push(dot_product(high, selectors));
    assert(v@ =~= skip_claims(evals@, selectors@));
    v
}

/// One entry of a layer from the entries of the halves of the columns before it: the fractions of
/// each pair of halves, added.
pub open spec fn folded<F: Field>(evals: Seq<F>) -> Seq<F> {
    let groups = (evals.len() / 2) as int;
    Seq::new(
        evals.len() / 2,
        |i: int|
            if i < groups / 2 {
                evals[2 * i].times(evals[groups + 2 * i + 1]).plus(
                    evals[2 * i + 1].times(evals[groups + 2 * i]),
                )
            } else {
                evals[2 * i].times(evals[2 * i + 1])
            },
    )
}

/// What the sumcheck of a layer adds up over the cube, apart from the weights: the entries of the
/// layer behind it, batched by the powers of `alpha`.
pub open spec fn combination<F: Field>(evals: Seq<F>, alpha: F) -> F {
    crate::field::dot(folded(evals), crate::field::powers(alpha, evals.len() / 2))
}

/// The batched entries of a layer from the entries of the halves of the columns before it.
pub fn combine<F: Field>(evals: &[F], alpha: F) -> (r: F)
    requires
        evals.len() % 4 == 0,
        crate::field::all_valid(evals@),
        alpha.valid(),
    ensures
        r.valid(),
        r == combination(evals@, alpha),
{
    let groups: usize = evals.len() / 2;
    let mut v: Vec<F> = Vec::new();
    while v.len() < groups
        invariant
            v.len() <= groups,
            evals.len() == 2 * groups,
            groups % 2 == 0,
            crate::field::all_valid(evals@),
            crate::field::all_valid(v@),
            forall|i: int| 0 <= i < v.len() ==> #[trigger] v[i] == folded(evals@)[i],
        decreases groups - v.len(),
    {
        let i: usize = v.len();
        if i < groups / 2 {
            let left = evals[2 * i].field_mul(evals[groups + 2 * i + 1]);
            let right = evals[2 * i + 1].field_mul(evals[groups + 2 * i]);
            v.push(left.field_add(right));
        } else {
            v.push(evals[2 * i].field_mul(evals[2 * i + 1]));
        }
    }
    assert(v@ =~= folded(evals@));
    let weights = first_powers(alpha, groups);
    dot_product(v.as_slice(), weights.as_slice())
}

/// The claims of a layer, batched by the powers of `alpha`.
pub open spec fn batched<F: Field>(claims: Seq<F>, alpha: F) -> F {
    crate::field::dot(claims, crate::field::powers(alpha, claims.len()))
}

/// The claims of a layer, batched by the powers of `alpha`.
pub fn batch<F: Field>(claims: &[F], alpha: F) -> (r: F)
    requires
        crate::field::all_valid(claims@),
        alpha.valid(),
    ensures
        r.valid(),
        r == batched(claims@, alpha),
{
    let weights = first_powers(alpha, claims.len());
    dot_product(claims, weights.as_slice())
}

/// Why a proof is not accepted.
#[derive(Clone, Copy, Debug, Eq, PartialEq, Structural)]
pub enum ProofError {
    /// A check of the proof fails.
    InvalidProof,
    /// The proof ends before what is read from it.
    ExceededTranscript,
}

/// What a verifier wants from the transcript next.
#[derive(Clone, Copy, Debug, Eq, PartialEq, Structural)]
pub enum VerifierRequest {
    /// That many scalars, read from the proof.
    Scalars(usize),
    /// A challenge.
    Challenge,
    /// A challenge, with the values there of that many univariate selectors.
    SkipChallenge(usize),
    /// The check of a sumcheck over that many variables, with round polynomials of that degree.
    Sumcheck { n_vars: usize, degree: usize },
    /// Nothing: the verifier has finished.
    Nothing,
}

/// What the transcript hands a verifier.
#[derive(Clone, Debug)]
pub enum VerifierReply<F> {
    /// Scalars read from the proof.
    Scalars(Vec<F>),
    /// A challenge.
    Challenge(F),
    /// A challenge, with the values of the univariate selectors there.
    SkipChallenge { beta: F, selectors: Vec<F> },
    /// A checked sumcheck: the sum that it was about, and the value that is left to be checked at
    /// a point.
    Sumcheck { sum: F, point: Vec<F>, value: F },
    /// Why there is no reply.
    Failed(ProofError),
}

/// A [`VerifierReply`] as a mathematical value.
pub enum Answer<F> {
    Scalars(Seq<F>),
    Challenge(F),
    SkipChallenge(F, Seq<F>),
    Sumcheck(F, Seq<F>, F),
    Failed(ProofError),
}

impl<F> View for VerifierReply<F> {
    type V = Answer<F>;

    open spec fn view(&self) -> Answer<F> {
        match self {
            VerifierReply::Scalars(v) => Answer::Scalars(v@),
            VerifierReply::Challenge(c) => Answer::Challenge(*c),
            VerifierReply::SkipChallenge { beta, selectors } => Answer::SkipChallenge(
                *beta,
                selectors@,
            ),
            VerifierReply::Sumcheck { sum, point, value } => Answer::Sumcheck(
                *sum,
                point@,
                *value,
            ),
            VerifierReply::Failed(e) => Answer::Failed(*e),
        }
    }
}

/// Whether a reply is one to the request.
pub open spec fn answers<F: Field>(answer: Answer<F>, request: VerifierRequest) -> bool {
    match (request, answer) {
        (VerifierRequest::Scalars(n), Answer::Scalars(v)) => v.len() == n
            && crate::field::all_valid(v),
        (VerifierRequest::Challenge, Answer::Challenge(c)) => c.valid(),
        (VerifierRequest::SkipChallenge(n), Answer::SkipChallenge(beta, selectors)) => beta.valid()
            && selectors.len() == n && crate::field::all_valid(selectors),
        (VerifierRequest::Sumcheck { n_vars, degree }, Answer::Sumcheck(sum, point, value)) => {
            sum.valid() && value.valid() && point.len() == n_vars && crate::field::all_valid(point)
        },
        (VerifierRequest::Scalars(_), Answer::Failed(_)) => true,
        (VerifierRequest::Sumcheck { n_vars, degree }, Answer::Failed(_)) => true,
        _ => false,
    }
}

/// Where a verifier of a sum of fractions stands.
#[derive(Clone, Debug)]
pub enum GkrPhase<F> {
    /// The last layer is to be read.
    Opening,
    /// The point of the claims on the last layer is to be drawn.
    FirstChallenge { last: Vec<F>, quotient: F },
    /// The claims of a layer are to be batched.
    Batching { round: usize, quotient: F, point: Vec<F>, claims: Vec<F> },
    /// The sumcheck on the batched claims is to be checked.
    Sumcheck { round: usize, quotient: F, point: Vec<F>, claims: Vec<F>, alpha: F },
    /// The evaluations of the columns before the layer are to be read.
    Evaluations {
        round: usize,
        quotient: F,
        point: Vec<F>,
        alpha: F,
        sumcheck_point: Vec<F>,
        sumcheck_value: F,
    },
    /// The evaluations are to be folded to claims.
    Folding { round: usize, quotient: F, sumcheck_point: Vec<F>, evals: Vec<F> },
    /// The sum is proved, up to claims on numerators and denominators.
    Accepted { quotient: F, point: Vec<F>, numerator: F, denominator: F },
    /// The proof is not accepted.
    Rejected(ProofError),
}

/// A [`GkrPhase`] as a mathematical value.
pub enum GkrStage<F> {
    Opening,
    FirstChallenge { last: Seq<F>, quotient: F },
    Batching { round: nat, quotient: F, point: Seq<F>, claims: Seq<F> },
    Sumcheck { round: nat, quotient: F, point: Seq<F>, claims: Seq<F>, alpha: F },
    Evaluations {
        round: nat,
        quotient: F,
        point: Seq<F>,
        alpha: F,
        sumcheck_point: Seq<F>,
        sumcheck_value: F,
    },
    Folding { round: nat, quotient: F, sumcheck_point: Seq<F>, evals: Seq<F> },
    Accepted { quotient: F, point: Seq<F>, numerator: F, denominator: F },
    Rejected(ProofError),
}

impl<F> View for GkrPhase<F> {
    type V = GkrStage<F>;

    open spec fn view(&self) -> GkrStage<F> {
        match *self {
            GkrPhase::Opening => GkrStage::Opening,
            GkrPhase::FirstChallenge { last, quotient } => GkrStage::FirstChallenge {
                last: last@,
                quotient,
            },
            GkrPhase::Batching { round, quotient, point, claims } => GkrStage::Batching {
                round: round as nat,
                quotient,
                point: point@,
                claims: claims@,
            },
            GkrPhase::Sumcheck { round, quotient, point, claims, alpha } => GkrStage::Sumcheck {
                round: round as nat,
                quotient,
                point: point@,
                claims: claims@,
                alpha,
            },
            GkrPhase::Evaluations {
                round,
                quotient,
                point,
                alpha,
                sumcheck_point,
                sumcheck_value,
            } => GkrStage::Evaluations {
                round: round as nat,
                quotient,
                point: point@,
                alpha,
                sumcheck_point: sumcheck_point@,
                sumcheck_value,
            },
            GkrPhase::Folding { round, quotient, sumcheck_point, evals } => GkrStage::Folding {
                round: round as nat,
                quotient,
                sumcheck_point: sumcheck_point@,
                evals: evals@,
            },
            GkrPhase::Accepted { quotient, point, numerator, denominator } => GkrStage::Accepted {
                quotient,
                point: point@,
                numerator,
                denominator,
            },
            GkrPhase::Rejected(e) => GkrStage::Rejected(e),
        }
    }
}

/// Whether a stage can occur with `groups` columns and `rounds` sumchecks.
pub open spec fn stage_fits<F: Field>(groups: nat, rounds: nat, stage: GkrStage<F>) -> bool {
    match stage {
        GkrStage::Opening => true,
        GkrStage::FirstChallenge { last, quotient } => {
            &&& quotient.valid()
            &&& last.len() == 2 * groups
            &&& crate::field::all_valid(last)
        },
        GkrStage::Batching { round, quotient, point, claims } => {
            &&& 1 <= round <= rounds
            &&& quotient.valid()
            &&& point.len() == round
            &&& crate::field::all_valid(point)
            &&& claims.len() == groups
            &&& crate::field::all_valid(claims)
        },
        GkrStage::Sumcheck { round, quotient, point, claims, alpha } => {
            &&& 1 <= round <= rounds
            &&& quotient.valid()
            &&& alpha.valid()
            &&& point.len() == round
            &&& crate::field::all_valid(point)
            &&& claims.len() == groups
            &&& crate::field::all_valid(claims)
        },
        GkrStage::Evaluations { round, quotient, point, alpha, sumcheck_point, sumcheck_value } => {
            &&& 1 <= round <= rounds
            &&& quotient.valid()
            &&& alpha.valid()
            &&& sumcheck_value.valid()
            &&& point.len() == round
            &&& crate::field::all_valid(point)
            &&& sumcheck_point.len() == round
            &&& crate::field::all_valid(sumcheck_point)
        },
        GkrStage::Folding { round, quotient, sumcheck_point, evals } => {
            &&& 1 <= round <= rounds
            &&& quotient.valid()
            &&& sumcheck_point.len() == round
            &&& crate::field::all_valid(sumcheck_point)
            &&& evals.len() == 2 * groups
            &&& crate::field::all_valid(evals)
        },
        GkrStage::Accepted { quotient, point, numerator, denominator } => {
            &&& quotient.valid()
            &&& point.len() == rounds + 1
            &&& crate::field::all_valid(point)
            &&& numerator.valid()
            &&& denominator.valid()
        },
        GkrStage::Rejected(_) => true,
    }
}

/// What a verifier at a stage wants.
pub open spec fn wanted<F>(groups: usize, rounds: nat, stage: GkrStage<F>) -> VerifierRequest {
    match stage {
        GkrStage::Opening => VerifierRequest::Scalars((2 * groups) as usize),
        GkrStage::FirstChallenge { .. } => VerifierRequest::Challenge,
        GkrStage::Batching { .. } => VerifierRequest::Challenge,
        GkrStage::Sumcheck { round, .. } => VerifierRequest::Sumcheck {
            n_vars: round as usize,
            degree: 3,
        },
        GkrStage::Evaluations { .. } => VerifierRequest::Scalars((2 * groups) as usize),
        GkrStage::Folding { round, .. } => if round < rounds {
            VerifierRequest::Challenge
        } else {
            VerifierRequest::SkipChallenge(groups)
        },
        GkrStage::Accepted { .. } => VerifierRequest::Nothing,
        GkrStage::Rejected(_) => VerifierRequest::Nothing,
    }
}

/// Whether a verifier at a stage can take a reply: it is one to what the verifier wants, the last
/// layer can be read, and no denominator in it is 0.
pub open spec fn stage_takes<F: Field>(
    groups: usize,
    rounds: nat,
    stage: GkrStage<F>,
    answer: Answer<F>,
) -> bool {
    &&& answers(answer, wanted(groups, rounds, stage))
    &&& stage is Opening ==> (answer matches Answer::Scalars(last)
        && last_denominators_nonzero(last))
}

/// Where a verifier comes to from a stage with a reply.
pub open spec fn next_stage<F: Field>(
    rounds: nat,
    stage: GkrStage<F>,
    answer: Answer<F>,
) -> GkrStage<F> {
    match (stage, answer) {
        (GkrStage::Opening, Answer::Scalars(last)) => GkrStage::FirstChallenge {
            last,
            quotient: last_quotient(last),
        },
        (GkrStage::FirstChallenge { last, quotient }, Answer::Challenge(r)) => GkrStage::Batching {
            round: 1,
            quotient,
            point: seq![r],
            claims: lines(last, r),
        },
        (
            GkrStage::Batching { round, quotient, point, claims },
            Answer::Challenge(alpha),
        ) => GkrStage::Sumcheck { round, quotient, point, claims, alpha },
        (
            GkrStage::Sumcheck { round, quotient, point, claims, alpha },
            Answer::Sumcheck(sum, sumcheck_point, sumcheck_value),
        ) => if sum != batched(claims, alpha) {
            GkrStage::Rejected(ProofError::InvalidProof)
        } else {
            GkrStage::Evaluations { round, quotient, point, alpha, sumcheck_point, sumcheck_value }
        },
        (
            GkrStage::Evaluations { round, quotient, point, alpha, sumcheck_point, sumcheck_value },
            Answer::Scalars(evals),
        ) => if sumcheck_value != crate::multilinear::eq_poly(point, sumcheck_point).times(
            combination(evals, alpha),
        ) {
            GkrStage::Rejected(ProofError::InvalidProof)
        } else {
            GkrStage::Folding { round, quotient, sumcheck_point, evals }
        },
        (
            GkrStage::Folding { round, quotient, sumcheck_point, evals },
            Answer::Challenge(beta),
        ) => GkrStage::Batching {
            round: round + 1,
            quotient,
            point: seq![beta] + sumcheck_point,
            claims: lines(evals, beta),
        },
        (
            GkrStage::Folding { round, quotient, sumcheck_point, evals },
            Answer::SkipChallenge(beta, selectors),
        ) => GkrStage::Accepted {
            quotient,
            point: seq![beta] + sumcheck_point,
            numerator: skip_claims(evals, selectors)[0],
            denominator: skip_claims(evals, selectors)[1],
        },
        (_, Answer::Failed(e)) => GkrStage::Rejected(e),
        (_, _) => stage,
    }
}

/// A verifier of a sum of fractions, between two messages.
#[derive(Clone, Debug)]
pub struct GkrVerifier<F> {
    /// Number of columns of a layer.
    pub n_groups: usize,
    /// Number of sumchecks.
    pub rounds: usize,
    /// Where the verifier stands.
    pub phase: GkrPhase<F>,
}

impl<F: Field> GkrVerifier<F> {
    /// Whether the verifier's parts fit together.
    pub open spec fn fits(self) -> bool {
        &&& self.n_groups >= 2
        &&& self.n_groups % 2 == 0
        &&& 2 * self.n_groups <= usize::MAX
        &&& 1 <= self.rounds < usize::MAX
        &&& stage_fits(self.n_groups as nat, self.rounds as nat, self.phase@)
    }

    /// Whether a reply can be taken.
    pub open spec fn takes(self, answer: Answer<F>) -> bool {
        stage_takes(self.n_groups, self.rounds as nat, self.phase@, answer)
    }

    /// What the verifier wants from the transcript.
    pub fn request(&self) -> (r: VerifierRequest)
        requires
            self.fits(),
        ensures
            r == wanted(self.n_groups, self.rounds as nat, self.phase@),
    {
        phase_request(&self.phase, self.n_groups, self.rounds)
    }
}

/// What a verifier at a phase wants from the transcript.
pub fn phase_request<F: Field>(phase: &GkrPhase<F>, n_groups: usize, rounds: usize) -> (r:
    VerifierRequest)
    requires
        2 * n_groups <= usize::MAX,
        stage_fits(n_groups as nat, rounds as nat, phase@),
    ensures
        r == wanted(n_groups, rounds as nat, phase@),
{
    match phase {
        GkrPhase::Opening => VerifierRequest::Scalars(2 * n_groups),
        GkrPhase::FirstChallenge { .. } => VerifierRequest::Challenge,
        GkrPhase::Batching { .. } => VerifierRequest::Challenge,
        GkrPhase::Sumcheck { round, .. } => VerifierRequest::Sumcheck { n_vars: *round, degree: 3 },
        GkrPhase::Evaluations { .. } => VerifierRequest::Scalars(2 * n_groups),
        GkrPhase::Folding { round, .. } => if *round < rounds {
            VerifierRequest::Challenge
        } else {
            VerifierRequest::SkipChallenge(n_groups)
        },
        GkrPhase::Accepted { .. } => VerifierRequest::Nothing,
        GkrPhase::Rejected(_) => VerifierRequest::Nothing,
    }
}

/// `first` in front of a sequence of elements.
pub fn prepend<F: Field>(first: F, rest: &[F]) -> (v: Vec<F>)
    ensures
        v@ == seq![first] + rest@,
{
    let mut v: Vec<F> = Vec::new();
    v.push(first);
    let mut i: usize = 0;
    while i < rest.len()
        invariant
            i <= rest.len(),
            v@ == seq![first] + rest@.take(i as int),
        decreases rest.len() - i,
    {
        v.push(rest[i]);
        i = i + 1;
    }
    assert(rest@.take(i as int) =~= rest@);
    v
}

/// Starts the verification that `2^n_vars` fractions, in `n_groups` columns, have a sum.
pub fn verify_gkr_quotient<F: Field>(n_vars: usize, n_groups: usize) -> (v: GkrVerifier<F>)
    requires
        crate::log2::is_power_of_two(n_groups as nat),
        n_groups >= 2,
        2 * n_groups <= usize::MAX,
        n_groups < pow2(n_vars as nat),
    ensures
        v.fits(),
        v.n_groups == n_groups,
        pow2(v.rounds as nat) * n_groups == pow2(n_vars as nat),
        v.phase@ == GkrStage::<F>::Opening,
{
    let log: usize = log2_strict_usize(n_groups);
    proof {
        lemma2_to64();
        crate::log2::lemma_exponent_order(1, log as nat);
        crate::log2::lemma_exponent_order(log as nat, n_vars as nat);
        crate::log2::lemma_power_quotient(n_vars as nat, log as nat);
        lemma_pow2_unfold(log as nat);
        assert(pow2((n_vars - log) as nat) * pow2(log as nat) == pow2(log as nat) * pow2(
            (n_vars - log) as nat,
        )) by (nonlinear_arith);
    }
    GkrVerifier { n_groups, rounds: n_vars - log, phase: GkrPhase::Opening }
}

/// Takes a reply: the verifier's next stage.
pub fn verify_gkr_quotient_step<F: Field>(state: GkrVerifier<F>, reply: VerifierReply<F>) -> (next:
    GkrVerifier<F>)
    requires
        state.fits(),
        state.takes(reply@),
    ensures
        next.fits(),
        next.n_groups == state.n_groups,
        next.rounds == state.rounds,
        next.phase@ == next_stage(state.rounds as nat, state.phase@, reply@),
{
    let GkrVerifier { n_groups, rounds, phase } = state;
    let next = match (phase, reply) {
        (GkrPhase::Opening, VerifierReply::Scalars(last)) => {
            let quotient = sum_last_layer(last.as_slice());
            GkrPhase::FirstChallenge { last, quotient }
        },
        (GkrPhase::FirstChallenge { last, quotient }, VerifierReply::Challenge(r)) => {
            let mut point: Vec<F> = Vec::new();
            point.push(r);
            assert(point@ =~= seq![r]);
            GkrPhase::Batching { round: 1, quotient, point, claims: lines_at(last.as_slice(), r) }
        },
        (
            GkrPhase::Batching { round, quotient, point, claims },
            VerifierReply::Challenge(alpha),
        ) => GkrPhase::Sumcheck { round, quotient, point, claims, alpha },
        (
            GkrPhase::Sumcheck { round, quotient, point, claims, alpha },
            VerifierReply::Sumcheck { sum, point: sumcheck_point, value: sumcheck_value },
        ) => {
            if !sum.same(batch(claims.as_slice(), alpha)) {
                GkrPhase::Rejected(ProofError::InvalidProof)
            } else {
                GkrPhase::Evaluations {
                    round,
                    quotient,
                    point,
                    alpha,
                    sumcheck_point,
                    sumcheck_value,
                }
            }
        },
        (
            GkrPhase::Evaluations { round, quotient, point, alpha, sumcheck_point, sumcheck_value },
            VerifierReply::Scalars(evals),
        ) => {
            let weight = eq_poly_outside(point.as_slice(), sumcheck_point.as_slice());
            let expected = weight.field_mul(combine(evals.as_slice(), alpha));
            if !sumcheck_value.same(expected) {
                GkrPhase::Rejected(ProofError::InvalidProof)
            } else {
                GkrPhase::Folding { round, quotient, sumcheck_point, evals }
            }
        },
        (
            GkrPhase::Folding { round, quotient, sumcheck_point, evals },
            VerifierReply::Challenge(beta),
        ) => GkrPhase::Batching {
            round: round + 1,
            quotient,
            point: prepend(beta, sumcheck_point.as_slice()),
            claims: lines_at(evals.as_slice(), beta),
        },
        (
            GkrPhase::Folding { round, quotient, sumcheck_point, evals },
            VerifierReply::SkipChallenge { beta, selectors },
        ) => {
            let claims = skip_claims_at(evals.as_slice(), selectors.as_slice());
            GkrPhase::Accepted {
                quotient,
                point: prepend(beta, sumcheck_point.as_slice()),
                numerator: claims[0],
                denominator: claims[1],
            }
        },
        (_, VerifierReply::Failed(e)) => GkrPhase::Rejected(e),
        (phase, _) => phase,
    };
    GkrVerifier { n_groups, rounds, phase: next }
}

/// The columns of a last layer one after another.
pub open spec fn flattened<F>(cols: Seq<Seq<F>>) -> Seq<F> {
    Seq::new(2 * cols.len(), |i: int| cols[i / 2][i % 2])
}

/// Where a prover of a sum of fractions stands.
#[derive(Clone, Debug)]
pub enum GkrProverPhase<F> {
    /// The last layer is to be sent and the point of the claims on it drawn.
    Opening { last: Vec<F> },
    /// The claims of a layer are to be batched.
    Batching { round: usize, point: Vec<F>, claims: Vec<F> },
    /// The sumcheck on the batched claims is to be proved.
    Sumcheck { round: usize, point: Vec<F>, claims: Vec<F>, alpha: F },
    /// The evaluations are to be sent and folded to claims.
    Folding { round: usize, sumcheck_point: Vec<F>, evals: Vec<F> },
    /// The sum is proved, up to claims on numerators and denominators.
    Finished { point: Vec<F>, numerator: F, denominator: F },
}

/// A [`GkrProverPhase`] as a mathematical value.
pub enum GkrProverStage<F> {
    Opening { last: Seq<F> },
    Batching { round: nat, point: Seq<F>, claims: Seq<F> },
    Sumcheck { round: nat, point: Seq<F>, claims: Seq<F>, alpha: F },
    Folding { round: nat, sumcheck_point: Seq<F>, evals: Seq<F> },
    Finished { point: Seq<F>, numerator: F, denominator: F },
}

impl<F> View for GkrProverPhase<F> {
    type V = GkrProverStage<F>;

    open spec fn view(&self) -> GkrProverStage<F> {
        match *self {
            GkrProverPhase::Opening { last } => GkrProverStage::Opening { last: last@ },
            GkrProverPhase::Batching { round, point, claims } => GkrProverStage::Batching {
                round: round as nat,
                point: point@,
                claims: claims@,
            },
            GkrProverPhase::Sumcheck { round, point, claims, alpha } => GkrProverStage::Sumcheck {
                round: round as nat,
                point: point@,
                claims: claims@,
                alpha,
            },
            GkrProverPhase::Folding { round, sumcheck_point, evals } => GkrProverStage::Folding {
                round: round as nat,
                sumcheck_point: sumcheck_point@,
                evals: evals@,
            },
            GkrProverPhase::Finished { point, numerator, denominator } => {
                GkrProverStage::Finished { point: point@, numerator, denominator }
            },
        }
    }
}

/// What a prover wants done next.
#[derive(Clone, Debug)]
pub enum ProverRequest<F> {
    /// Scalars are to be sent, then a challenge drawn.
    SendThenChallenge(Vec<F>),
    /// Scalars are to be sent, then a challenge drawn with the values there of that many
    /// univariate selectors.
    SendThenSkipChallenge(Vec<F>, usize),
    /// A challenge is to be drawn.
    Challenge,
    /// The sumcheck over the columns of [`GkrProver::sumcheck_columns`] is to be proved: that their
    /// combinations by these powers, weighted by `eq` with the point, add up to the sum.
    Sumcheck { n_vars: usize, alpha_powers: Vec<F>, point: Vec<F>, sum: F },
    /// Nothing: the prover has finished.
    Nothing,
}

/// A [`ProverRequest`] as a mathematical value.
pub enum Task<F> {
    SendThenChallenge(Seq<F>),
    SendThenSkipChallenge(Seq<F>, nat),
    Challenge,
    Sumcheck { n_vars: nat, alpha_powers: Seq<F>, point: Seq<F>, sum: F },
    Nothing,
}

impl<F> View for ProverRequest<F> {
    type V = Task<F>;

    open spec fn view(&self) -> Task<F> {
        match *self {
            ProverRequest::SendThenChallenge(v) => Task::SendThenChallenge(v@),
            ProverRequest::SendThenSkipChallenge(v, n) => Task::SendThenSkipChallenge(
                v@,
                n as nat,
            ),
            ProverRequest::Challenge => Task::Challenge,
            ProverRequest::Sumcheck { n_vars, alpha_powers, point, sum } => Task::Sumcheck {
                n_vars: n_vars as nat,
                alpha_powers: alpha_powers@,
                point: point@,
                sum,
            },
            ProverRequest::Nothing => Task::Nothing,
        }
    }
}

/// What comes back to a prover.
#[derive(Clone, Debug)]
pub enum ProverReply<F> {
    /// A challenge.
    Challenge(F),
    /// A challenge, with the values of the univariate selectors there.
    SkipChallenge { beta: F, selectors: Vec<F> },
    /// A proved sumcheck: its point, and the values of the columns there.
    Sumcheck { point: Vec<F>, evals: Vec<F> },
}

/// A [`ProverReply`] as a mathematical value.
pub enum Outcome<F> {
    Challenge(F),
    SkipChallenge(F, Seq<F>),
    Sumcheck(Seq<F>, Seq<F>),
}

impl<F> View for ProverReply<F> {
    type V = Outcome<F>;

    open spec fn view(&self) -> Outcome<F> {
        match *self {
            ProverReply::Challenge(c) => Outcome::Challenge(c),
            ProverReply::SkipChallenge { beta, selectors } => Outcome::SkipChallenge(
                beta,
                selectors@,
            ),
            ProverReply::Sumcheck { point, evals } => Outcome::Sumcheck(point@, evals@),
        }
    }
}

/// What a prover at a stage wants done.
pub open spec fn task<F: Field>(groups: nat, rounds: nat, stage: GkrProverStage<F>) -> Task<F> {
    match stage {
        GkrProverStage::Opening { last } => Task::SendThenChallenge(last),
        GkrProverStage::Batching { .. } => Task::Challenge,
        GkrProverStage::Sumcheck { round, point, claims, alpha } => Task::Sumcheck {
            n_vars: round,
            alpha_powers: crate::field::powers(alpha, groups),
            point,
            sum: batched(claims, alpha),
        },
        GkrProverStage::Folding { round, evals, .. } => if round < rounds {
            Task::SendThenChallenge(evals)
        } else {
            Task::SendThenSkipChallenge(evals, groups)
        },
        GkrProverStage::Finished { .. } => Task::Nothing,
    }
}

/// Whether an outcome is one of the task.
pub open spec fn comes_of<F: Field>(groups: nat, outcome: Outcome<F>, t: Task<F>) -> bool {
    match (t, outcome) {
        (Task::SendThenChallenge(_), Outcome::Challenge(c)) => c.valid(),
        (Task::Challenge, Outcome::Challenge(c)) => c.valid(),
        (Task::SendThenSkipChallenge(_, n), Outcome::SkipChallenge(beta, selectors)) => {
            beta.valid() && selectors.len() == n && crate::field::all_valid(selectors)
        },
        (
            Task::Sumcheck { n_vars, alpha_powers, point: _, sum: _ },
            Outcome::Sumcheck(point, evals),
        ) => {
            &&& point.len() == n_vars
            &&& crate::field::all_valid(point)
            &&& evals.len() == 2 * groups
            &&& crate::field::all_valid(evals)
        },
        _ => false,
    }
}

/// Where a prover comes to from a stage with an outcome.
pub open spec fn next_prover_stage<F: Field>(
    stage: GkrProverStage<F>,
    outcome: Outcome<F>,
) -> GkrProverStage<F> {
    match (stage, outcome) {
        (GkrProverStage::Opening { last }, Outcome::Challenge(r)) => GkrProverStage::Batching {
            round: 1,
            point: seq![r],
            claims: lines(last, r),
        },
        (
            GkrProverStage::Batching { round, point, claims },
            Outcome::Challenge(alpha),
        ) => GkrProverStage::Sumcheck { round, point, claims, alpha },
        (
            GkrProverStage::Sumcheck { round, .. },
            Outcome::Sumcheck(sumcheck_point, evals),
        ) => GkrProverStage::Folding { round, sumcheck_point, evals },
        (
            GkrProverStage::Folding { round, sumcheck_point, evals },
            Outcome::Challenge(beta),
        ) => GkrProverStage::Batching {
            round: round + 1,
            point: seq![beta] + sumcheck_point,
            claims: lines(evals, beta),
        },
        (
            GkrProverStage::Folding { round, sumcheck_point, evals },
            Outcome::SkipChallenge(beta, selectors),
        ) => GkrProverStage::Finished {
            point: seq![beta] + sumcheck_point,
            numerator: skip_claims(evals, selectors)[0],
            denominator: skip_claims(evals, selectors)[1],
        },
        (_, _) => stage,
    }
}

/// Whether a prover's stage can occur with `groups` columns and `rounds` sumchecks.
pub open spec fn prover_stage_fits<F: Field>(
    groups: nat,
    rounds: nat,
    stage: GkrProverStage<F>,
) -> bool {
    match stage {
        GkrProverStage::Opening { last } => last.len() == 2 * groups && crate::field::all_valid(
            last,
        ),
        GkrProverStage::Batching { round, point, claims } => {
            &&& 1 <= round <= rounds
            &&& point.len() == round
            &&& crate::field::all_valid(point)
            &&& claims.len() == groups
            &&& crate::field::all_valid(claims)
        },
        GkrProverStage::Sumcheck { round, point, claims, alpha } => {
            &&& 1 <= round <= rounds
            &&& alpha.valid()
            &&& point.len() == round
            &&& crate::field::all_valid(point)
            &&& claims.len() == groups
            &&& crate::field::all_valid(claims)
        },
        GkrProverStage::Folding { round, sumcheck_point, evals } => {
            &&& 1 <= round <= rounds
            &&& sumcheck_point.len() == round
            &&& crate::field::all_valid(sumcheck_point)
            &&& evals.len() == 2 * groups
            &&& crate::field::all_valid(evals)
        },
        GkrProverStage::Finished { point, numerator, denominator } => {
            &&& point.len() == rounds + 1
            &&& crate::field::all_valid(point)
            &&& numerator.valid()
            &&& denominator.valid()
        },
    }
}

/// A prover of a sum of fractions, between two messages.
#[derive(Clone, Debug)]
pub struct GkrProver<F> {
    /// Number of columns of a layer.
    pub n_groups: usize,
    /// The layers, from the fractions to the last.
    pub layers: Vec<Vec<Vec<F>>>,
    /// The sum of the fractions.
    pub quotient: F,
    /// Where the prover stands.
    pub phase: GkrProverPhase<F>,
}

impl<F: Field> GkrProver<F> {
    /// Number of sumchecks.
    pub open spec fn rounds(self) -> nat {
        (self.layers.len() - 1) as nat
    }

    /// Whether the prover's parts fit together.
    pub open spec fn fits(self) -> bool {
        &&& crate::log2::is_power_of_two(self.n_groups as nat)
        &&& self.n_groups >= 2
        &&& 2 * self.n_groups <= usize::MAX
        &&& self.layers.len() >= 2
        &&& self.quotient.valid()
        &&& prover_stage_fits(self.n_groups as nat, self.rounds(), self.phase@)
        &&& forall|k: int|
            0 <= k < self.layers.len() ==> {
                let cols = crate::fractions::owned_columns((#[trigger] self.layers[k])@);
                &&& cols.len() == self.n_groups
                &&& crate::fractions::all_of_len(cols, pow2((self.layers.len() - k) as nat))
            }
    }

    /// Whether these are the layers over the given fractions.
    pub open spec fn over(self, nums: Seq<F>, dens: Seq<F>) -> bool {
        forall|k: int|
            0 <= k < self.layers.len() ==> crate::fractions::owned_columns(
                (#[trigger] self.layers[k])@,
            ) == crate::fractions::layer(nums, dens, self.n_groups as nat, k as nat)
    }

    /// What the prover wants done.
    pub fn request(&self) -> (r: ProverRequest<F>)
        requires
            self.fits(),
        ensures
            r@ == task(self.n_groups as nat, self.rounds(), self.phase@),
    {
        match &self.phase {
            GkrProverPhase::Opening { last } => ProverRequest::SendThenChallenge(
                copy_of(last.as_slice()),
            ),
            GkrProverPhase::Batching { .. } => ProverRequest::Challenge,
            GkrProverPhase::Sumcheck { round, point, claims, alpha } => ProverRequest::Sumcheck {
                n_vars: *round,
                alpha_powers: first_powers(*alpha, self.n_groups),
                point: copy_of(point.as_slice()),
                sum: batch(claims.as_slice(), *alpha),
            },
            GkrProverPhase::Folding { round, evals, .. } => if *round < self.layers.len() - 1 {
                ProverRequest::SendThenChallenge(copy_of(evals.as_slice()))
            } else {
                ProverRequest::SendThenSkipChallenge(copy_of(evals.as_slice()), self.n_groups)
            },
            GkrProverPhase::Finished { .. } => ProverRequest::Nothing,
        }
    }

    /// The columns that the sumcheck of round `round` runs over: the halves of the columns of its
    /// layer.
    pub fn sumcheck_columns(&self, round: usize) -> (r: Vec<&[F]>)
        requires
            self.fits(),
            1 <= round <= self.rounds(),
        ensures
            crate::fractions::columns(r@) == crate::fractions::split(
                crate::fractions::owned_columns(self.layers[self.rounds() - round]@),
                2,
            ),
    {
        let k: usize = self.layers.len() - 1 - round;
        let cols = borrow_columns(&self.layers[k]);
        proof {
            let e = (self.layers.len() - k) as nat;
            let all = crate::fractions::columns(cols@);
            assert(all[0] == cols[0]@);
            assert(all == crate::fractions::owned_columns(self.layers[k as int]@));
            lemma2_to64();
            lemma_pow2_unfold(e);
            lemma_pow2_pos((e - 1) as nat);
            assert(2nat == pow2(1));
        }
        split_chunks(cols.as_slice(), 2)
    }
}

/// The columns of two of a last layer one after another.
fn flatten<F: Field>(cols: &Vec<Vec<F>>) -> (v: Vec<F>)
    requires
        crate::fractions::all_of_len(crate::fractions::owned_columns(cols@), 2),
    ensures
        v@ == flattened(crate::fractions::owned_columns(cols@)),
{
    let ghost all = crate::fractions::owned_columns(cols@);
    let mut v: Vec<F> = Vec::new();
    let mut i: usize = 0;
    while i < cols.len()
        invariant
            i <= cols.len(),
            all == crate::fractions::owned_columns(cols@),
            crate::fractions::all_of_len(all, 2),
            v.len() == 2 * i,
            forall|j: int| 0 <= j < 2 * i ==> #[trigger] v[j] == all[j / 2][j % 2],
        decreases cols.len() - i,
    {
        assert(all[i as int] == cols[i as int]@);
        v.push(cols[i][0]);
        v.push(cols[i][1]);
        i = i + 1;
    }
    assert(v@ =~= flattened(all));
    v
}

/// The last layer over fractions, its columns one after another.
pub open spec fn last_layer<F: Field>(nums: Seq<F>, dens: Seq<F>, groups: nat, rounds: nat) -> Seq<
    F,
> {
    flattened(crate::fractions::layer(nums, dens, groups, rounds))
}

/// Starts the proof of the sum of fractions, in `n_groups` columns.
pub fn prove_gkr_quotient<F: Field>(
    numerators: &[F],
    denominators: &[F],
    n_groups: usize,
) -> (p: GkrProver<F>)
    requires
        numerators.len() == denominators.len(),
        crate::log2::is_power_of_two(numerators.len() as nat),
        crate::log2::is_power_of_two(n_groups as nat),
        2 <= n_groups < numerators.len(),
        crate::field::all_valid(numerators@),
        crate::field::all_valid(denominators@),
        crate::fractions::all_invertible(denominators@),
    ensures
        p.fits(),
        p.n_groups == n_groups,
        pow2(p.rounds()) * n_groups == numerators.len(),
        p.over(numerators@, denominators@),
        p.phase@ == (GkrProverStage::Opening {
            last: last_layer(numerators@, denominators@, n_groups as nat, p.rounds()),
        }),
        p.quotient == crate::fractions::column_sum(numerators@, denominators@),
{
    let layers = quotient_layers(numerators, denominators, n_groups);
    let ghost (nums, dens) = (numerators@, denominators@);
    let ghost rounds = (layers.len() - 1) as nat;
    proof {
        let a = choose|a: nat| nums.len() == pow2(a);
        let b = choose|b: nat| n_groups as nat == pow2(b);
        lemma2_to64();
        crate::log2::lemma_exponent_order(1, b);
        if a <= b {
            if a < b {
                lemma_pow2_strictly_increases(a, b);
            }
            assert(false);
        }
        let l = layers.len() as nat;
        assert(pow2(l) * pow2(b) == pow2(a + 1)) by {
            lemma_pow2_unfold(a + 1);
        }
        lemma_pow2_adds(l, b);
        crate::log2::lemma_exponent_unique(l + b, a + 1);
        lemma_pow2_adds(rounds, b);
        assert forall|k: int| 0 <= k < layers.len() implies {
            let cols = crate::fractions::owned_columns((#[trigger] layers[k])@);
            &&& cols.len() == n_groups
            &&& crate::fractions::all_of_len(cols, pow2((layers.len() - k) as nat))
        } by {
            crate::fractions::lemma_layer_shape(nums, dens, a, b, k as nat);
        }
        crate::fractions::lemma_layer_shape(nums, dens, a, b, rounds);
        lemma_pow2_unfold(b);
        if b >= 2 {
            lemma_pow2_unfold((b - 1) as nat);
        }
        lemma_pow2_strictly_increases(b, a);
        lemma_pow2_unfold((b + 1) as nat);
        if b + 1 < a {
            lemma_pow2_strictly_increases(b + 1, a);
        }
    }
    let last = flatten(&layers[layers.len() - 1]);
    proof {
        let cols = crate::fractions::layer(nums, dens, n_groups as nat, rounds);
        assert forall|i: int| 0 <= i < last.len() implies (#[trigger] last[i]).valid() by {
            assert(crate::field::all_valid(cols[i / 2]));
            assert(cols[i / 2].len() == 2);
        }
        assert(last@ == last_layer(nums, dens, n_groups as nat, rounds));
        let a = choose|a: nat| nums.len() == pow2(a);
        let b = choose|b: nat| n_groups as nat == pow2(b);
        lemma_pow2_adds(rounds, b);
        crate::log2::lemma_exponent_unique(rounds + b, a);
        crate::log2::lemma_exponent_order(1, b);
        crate::gkr_laws::law_quotient_is_sum(nums, dens, a, b);
    }
    let quotient = sum_last_layer(last.as_slice());
    GkrProver { n_groups, layers, quotient, phase: GkrProverPhase::Opening { last } }
}

/// Takes what came of the prover's task: the prover's next stage.
pub fn prove_gkr_quotient_step<F: Field>(state: GkrProver<F>, reply: ProverReply<F>) -> (next:
    GkrProver<F>)
    requires
        state.fits(),
        comes_of(
            state.n_groups as nat,
            reply@,
            task(state.n_groups as nat, state.rounds(), state.phase@),
        ),
    ensures
        next.fits(),
        next.n_groups == state.n_groups,
        next.layers == state.layers,
        next.quotient == state.quotient,
        next.phase@ == next_prover_stage(state.phase@, reply@),
{
    let GkrProver { n_groups, layers, quotient, phase } = state;
    let next = match (phase, reply) {
        (GkrProverPhase::Opening { last }, ProverReply::Challenge(r)) => {
            let mut point: Vec<F> = Vec::new();
            point.push(r);
            assert(point@ =~= seq![r]);
            GkrProverPhase::Batching { round: 1, point, claims: lines_at(last.as_slice(), r) }
        },
        (
            GkrProverPhase::Batching { round, point, claims },
            ProverReply::Challenge(alpha),
        ) => GkrProverPhase::Sumcheck { round, point, claims, alpha },
        (
            GkrProverPhase::Sumcheck { round, .. },
            ProverReply::Sumcheck { point: sumcheck_point, evals },
        ) => GkrProverPhase::Folding { round, sumcheck_point, evals },
        (
            GkrProverPhase::Folding { round, sumcheck_point, evals },
            ProverReply::Challenge(beta),
        ) => GkrProverPhase::Batching {
            round: round + 1,
            point: prepend(beta, sumcheck_point.as_slice()),
            claims: lines_at(evals.as_slice(), beta),
        },
        (
            GkrProverPhase::Folding { round, sumcheck_point, evals },
            ProverReply::SkipChallenge { beta, selectors },
        ) => {
            let claims = skip_claims_at(evals.as_slice(), selectors.as_slice());
            GkrProverPhase::Finished {
                point: prepend(beta, sumcheck_point.as_slice()),
                numerator: claims[0],
                denominator: claims[1],
            }
        },
        (phase, _) => phase,
    };
    GkrProver { n_groups, layers, quotient, phase: next }
}

} // verus!
