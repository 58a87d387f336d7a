//! Indexed lookups: values that are read from a table at committed indexes.
//!
//! The weights of the read positions are pushed forward to the table. A product sumcheck ties the
//! claimed value to table and pushforward; two sums of fractions, over the indexes and over the
//! table, tie the pushforward to the indexes.

use vstd::prelude::*;
use vstd::arithmetic::power2::*;
use p3_util::log2_strict_usize;
use crate::field::{Field, PrimeField};
use crate::multilinear::{copy_of, eq_poly_outside, Claim, Evaluation, MultilinearPoint};
use crate::quotient_gkr::{
    batch, phase_request, prove_gkr_quotient, prove_gkr_quotient_step, verify_gkr_quotient_step,
    Answer, GkrPhase, GkrProver, GkrProverPhase, GkrProverStage, GkrStage, GkrVerifier, Outcome,
    ProofError, ProverReply, ProverRequest, Task, VerifierReply, VerifierRequest,
};

verus! {

/// Number of columns of the layers under both sums of fractions.
pub const LOGUP_GROUPS: usize = 2;

/// The statements that are left of a lookup.
#[derive(Clone, Debug, PartialEq)]
pub struct LogupStarStatements<F> {
    pub on_indexes: Evaluation<F>,
    pub on_table: Evaluation<F>,
    pub on_pushforward: Vec<Evaluation<F>>,
}

/// [`LogupStarStatements`] as a mathematical value.
pub struct Statements<F> {
    pub on_indexes: Claim<F>,
    pub on_table: Claim<F>,
    pub on_pushforward: Seq<Claim<F>>,
}

/// Claims as mathematical values.
pub open spec fn claims_of<F>(claims: Seq<Evaluation<F>>) -> Seq<Claim<F>> {
    Seq::new(claims.len(), |i: int| claims[i]@)
}

impl<F> View for LogupStarStatements<F> {
    type V = Statements<F>;

    open spec fn view(&self) -> Statements<F> {
        Statements {
            on_indexes: self.on_indexes@,
            on_table: self.on_table@,
            on_pushforward: claims_of(self.on_pushforward@),
        }
    }
}

/// The remainders that indexes are.
pub open spec fn remainders<P: PrimeField>(indexes: Seq<P>) -> Seq<nat> {
    Seq::new(indexes.len(), |i: int| indexes[i].remainder())
}

/// The sum of the weights at index `j`.
pub open spec fn pushed<F: Field>(indexes: Seq<nat>, weights: Seq<F>, j: nat) -> F
    decreases indexes.len(),
{
    if indexes.len() == 0 {
        F::nil()
    } else {
        let before = pushed(indexes.drop_last(), weights.drop_last(), j);
        if indexes.last() == j {
            before.plus(weights.last())
        } else {
            before
        }
    }
}

/// The pushforward of weights: for every entry of the table, the sum of the weights of the
/// positions that read it.
pub open spec fn pushforward<F: Field>(indexes: Seq<nat>, weights: Seq<F>, length: nat) -> Seq<F> {
    Seq::new(length, |j: int| pushed(indexes, weights, j as nat))
}

/// Whether every index is one of a table of this length.
pub open spec fn in_table(indexes: Seq<nat>, length: nat) -> bool {
    forall|i: int| 0 <= i < indexes.len() ==> #[trigger] indexes[i] < length
}

/// Computes the pushforward of the weights of read positions.
pub fn compute_pushforward<P: PrimeField, F: Field>(
    indexes: &[P],
    table_length: usize,
    poly_eq_point: &[F],
) -> (v: Vec<F>)
    requires
        indexes.len() == poly_eq_point.len(),
        crate::field::all_valid(indexes@),
        crate::field::all_valid(poly_eq_point@),
        in_table(remainders(indexes@), table_length as nat),
    ensures
        v@ == pushforward(remainders(indexes@), poly_eq_point@, table_length as nat),
        crate::field::all_valid(v@),
{
    let ghost idx = remainders(indexes@);
    let ghost weights = poly_eq_point@;
    let mut v: Vec<F> = Vec::new();
    assert(idx.take(0) =~= Seq::<nat>::empty());
    while v.len() < table_length
        invariant
            v.len() <= table_length,
            crate::field::all_valid(v@),
            idx.take(0) == Seq::<nat>::empty(),
            forall|j: int|
                0 <= j < v.len() ==> #[trigger] v[j] == pushed(
                    idx.take(0),
                    weights.take(0),
                    j as nat,
                ),
        decreases table_length - v.len(),
    {
        v.push(F::zero());
    }
    let mut i: usize = 0;
    while i < indexes.len()
        invariant
            i <= indexes.len() == poly_eq_point.len(),
            idx == remainders(indexes@),
            weights == poly_eq_point@,
            crate::field::all_valid(indexes@),
            crate::field::all_valid(weights),
            in_table(idx, table_length as nat),
            v.len() == table_length,
            crate::field::all_valid(v@),
            forall|j: int|
                0 <= j < v.len() ==> #[trigger] v[j] == pushed(
                    idx.take(i as int),
                    weights.take(i as int),
                    j as nat,
                ),
        decreases indexes.len() - i,
    {
        let index: usize = indexes[i].to_usize();
        assert(idx[i as int] == index);
        proof {
            assert(idx.take(i + 1).drop_last() =~= idx.take(i as int));
            assert(weights.take(i + 1).drop_last() =~= weights.take(i as int));
        }
        let raised = v[index].field_add(poly_eq_point[i]);
        v.set(index, raised);
        i = i + 1;
    }
    proof {
        assert(idx.take(i as int) =~= idx);
        assert(weights.take(i as int) =~= weights);
        assert(v@ =~= pushforward(idx, weights, table_length as nat));
    }
    v
}

/// Weights times what is read at their indexes.
pub open spec fn read_products<F: Field>(
    indexes: Seq<nat>,
    weights: Seq<F>,
    table: Seq<F>,
) -> Seq<F> {
    Seq::new(indexes.len(), |i: int| weights[i].times(table[indexes[i] as int]))
}

pub(crate) proof fn lemma_pushed_valid<F: Field>(indexes: Seq<nat>, weights: Seq<F>, j: nat)
    requires
        indexes.len() == weights.len(),
        crate::field::all_valid(weights),
    ensures
        pushed(indexes, weights, j).valid(),
    decreases indexes.len(),
{
    F::closed();
    if indexes.len() > 0 {
        lemma_pushed_valid(indexes.drop_last(), weights.drop_last(), j);
    }
}

proof fn lemma_single_term<F: Field>(s: Seq<F>, k: int)
    requires
        0 <= k < s.len(),
        s[k].valid(),
        forall|j: int| 0 <= j < s.len() && j != k ==> #[trigger] s[j] == F::nil(),
    ensures
        crate::field::total(s) == s[k],
    decreases s.len(),
{
    F::closed();
    if k == s.len() - 1 {
        crate::field::lemma_total_nil(s.drop_last());
        crate::field::lemma_left_neutral(s[k]);
    } else {
        lemma_single_term(s.drop_last(), k);
        F::plus_nil(s[k]);
    }
}

/// The pushforward against a table is the weights against what is read from the table: what the
/// product sumcheck of a lookup is about is the claimed value.
pub proof fn law_pushforward_reads<F: Field>(
    indexes: Seq<nat>,
    weights: Seq<F>,
    table: Seq<F>,
)
    requires
        indexes.len() == weights.len(),
        in_table(indexes, table.len()),
        crate::field::all_valid(weights),
        crate::field::all_valid(table),
    ensures
        crate::field::dot(pushforward(indexes, weights, table.len()), table)
            == crate::field::total(read_products(indexes, weights, table)),
    decreases indexes.len(),
{
    F::closed();
    let n = table.len();
    let push = pushforward(indexes, weights, n);
    let terms = crate::field::products(push, table);
    let reads = read_products(indexes, weights, table);
    if indexes.len() == 0 {
        assert forall|j: int| 0 <= j < n implies #[trigger] terms[j] == F::nil() by {
            crate::field::lemma_times_nil(table[j]);
        }
        crate::field::lemma_total_nil(terms);
    } else {
        let (idx, w) = (indexes.drop_last(), weights.drop_last());
        let k = indexes.last() as int;
        let x = weights.last();
        let fewer = crate::field::products(pushforward(idx, w, n), table);
        assert(indexes[indexes.len() - 1] < n);
        assert forall|i: int| 0 <= i < idx.len() implies #[trigger] idx[i] < n by {
            assert(indexes[i] < n);
        }
        law_pushforward_reads(idx, w, table);
        let extra = Seq::new(
            n,
            |j: int|
                if j == k {
                    x.times(table[k])
                } else {
                    F::nil()
                },
        );
        assert forall|j: int| 0 <= j < n implies #[trigger] terms[j] == fewer[j].plus(extra[j])
            && fewer[j].valid() && extra[j].valid() by {
            lemma_pushed_valid(idx, w, j as nat);
            let before = pushed(idx, w, j as nat);
            if j == k {
                crate::field::lemma_distributes_right(before, x, table[j]);
            } else {
                F::plus_nil(before.times(table[j]));
            }
        }
        assert(crate::field::all_valid(fewer)) by {
            assert forall|j: int| 0 <= j < n implies (#[trigger] fewer[j]).valid() by {
                assert(terms[j] == fewer[j].plus(extra[j]));
            }
        }
        crate::field::lemma_total_plus(fewer, extra, terms);
        lemma_single_term(extra, k);
        assert(reads.drop_last() =~= read_products(idx, w, table));
    }
}

/// `c` less each index.
pub open spec fn minus_indexes<F: Field>(c: F, indexes: Seq<nat>) -> Seq<F> {
    Seq::new(indexes.len(), |i: int| c.minus(F::embed(indexes[i])))
}

/// The numbers 0, 1, 2, ... below `n`.
pub open spec fn increments(n: nat) -> Seq<nat> {
    Seq::new(n, |j: int| j as nat)
}

/// The two sums of fractions of a lookup agree: weights over `c` less the indexes, and their
/// pushforward over `c` less the table's positions.
pub proof fn law_lookup_sums_agree<F: Field>(
    indexes: Seq<nat>,
    weights: Seq<F>,
    length: nat,
    c: F,
)
    requires
        indexes.len() == weights.len(),
        in_table(indexes, length),
        crate::field::all_valid(weights),
        c.valid(),
        crate::fractions::all_invertible(minus_indexes(c, increments(length))),
    ensures
        crate::fractions::column_sum(weights, minus_indexes(c, indexes))
            == crate::fractions::column_sum(
            pushforward(indexes, weights, length),
            minus_indexes(c, increments(length)),
        ),
        crate::fractions::all_invertible(minus_indexes(c, indexes)),
{
    F::closed();
    let dens = minus_indexes(c, increments(length));
    let inverses = Seq::new(length, |j: int| crate::field::inverse(dens[j]));
    assert forall|j: int| 0 <= j < length implies (#[trigger] inverses[j]).valid() by {
        crate::field::lemma_invertible(dens[j]);
    }
    law_pushforward_reads(indexes, weights, inverses);
    let push = pushforward(indexes, weights, length);
    assert(crate::field::products(push, inverses) =~= Seq::new(
        length,
        |j: int| crate::field::ratio(push[j], dens[j]),
    ));
    let left = minus_indexes(c, indexes);
    assert forall|i: int| 0 <= i < indexes.len() implies #[trigger] left[i]
        == dens[indexes[i] as int] by {
        assert(indexes[i] < length);
    }
    assert(read_products(indexes, weights, inverses) =~= Seq::new(
        weights.len(),
        |i: int| crate::field::ratio(weights[i], left[i]),
    )) by {
        assert forall|i: int| 0 <= i < indexes.len() implies read_products(
            indexes,
            weights,
            inverses,
        )[i] == crate::field::ratio(weights[i], left[i]) by {
            assert(indexes[i] < length);
            assert(left[i] == dens[indexes[i] as int]);
        }
    }
    assert forall|i: int| 0 <= i < left.len() implies crate::field::invertible(
        #[trigger] left[i],
    ) by {
        assert(indexes[i] < length);
    }
}

/// The element 2.
pub open spec fn two<F: Field>() -> F {
    F::unit().plus(F::unit())
}

/// The number whose binary digits, the most significant first, are the coordinates.
pub open spec fn big_endian<F: Field>(point: Seq<F>) -> F
    decreases point.len(),
{
    if point.len() == 0 {
        F::nil()
    } else {
        big_endian(point.drop_first()).plus(
            point[0].times(crate::field::power(two::<F>(), (point.len() - 1) as nat)),
        )
    }
}

/// The number whose binary digits are the coordinates of a point.
pub fn big_endian_mle<F: Field>(point: &[F]) -> (r: F)
    requires
        crate::field::all_valid(point@),
    ensures
        r.valid(),
        r == big_endian(point@),
{
    let double = F::one().field_add(F::one());
    let mut r = F::zero();
    let mut weight = F::one();
    let mut i: usize = point.len();
    assert(point@.skip(i as int) =~= Seq::<F>::empty());
    while i > 0
        invariant
            i <= point.len(),
            crate::field::all_valid(point@),
            double.valid(),
            double == two::<F>(),
            r.valid(),
            r == big_endian(point@.skip(i as int)),
            weight.valid(),
            weight == crate::field::power(two::<F>(), (point.len() - i) as nat),
        decreases i,
    {
        i = i - 1;
        proof {
            assert(point@.skip(i as int).drop_first() =~= point@.skip(i + 1));
        }
        r = r.field_add(point[i].field_mul(weight));
        weight = weight.field_mul(double);
    }
    assert(point@.skip(0) =~= point@);
    r
}

proof fn lemma_embed_plus<F: Field>(m: nat, n: nat)
    ensures
        F::embed(m + n) == F::embed(m).plus(F::embed(n)),
    decreases n,
{
    crate::field::lemma_embed_valid::<F>(m);
    F::closed();
    F::embed_counts(0);
    if n == 0 {
        F::plus_nil(F::embed(m));
    } else {
        let d = (n - 1) as nat;
        crate::field::lemma_embed_valid::<F>(d);
        lemma_embed_plus::<F>(m, d);
        F::embed_counts(m + d);
        F::embed_counts(d);
        F::plus_associates(F::embed(m), F::embed(d), F::unit());
    }
}

proof fn lemma_embed_power<F: Field>(k: nat)
    ensures
        F::embed(pow2(k)) == crate::field::power(two::<F>(), k),
    decreases k,
{
    F::closed();
    lemma2_to64();
    F::embed_counts(0);
    crate::field::lemma_left_neutral(F::unit());
    if k > 0 {
        let d = (k - 1) as nat;
        lemma_pow2_unfold(k);
        lemma_embed_power::<F>(d);
        lemma_embed_plus::<F>(pow2(d), pow2(d));
        let x = F::embed(pow2(d));
        crate::field::lemma_embed_valid::<F>(pow2(d));
        F::distributes(x, F::unit(), F::unit());
        F::times_unit(x);
    } else {
        assert(F::embed(1) == F::nil().plus(F::unit()));
    }
}

proof fn lemma_big_endian_valid<F: Field>(point: Seq<F>)
    requires
        crate::field::all_valid(point),
    ensures
        big_endian(point).valid(),
    decreases point.len(),
{
    F::closed();
    if point.len() > 0 {
        lemma_big_endian_valid(point.drop_first());
        crate::field::lemma_power_valid(two::<F>(), (point.len() - 1) as nat);
    }
}

/// The numbers from `base` on, as elements.
pub open spec fn counting<F: Field>(base: nat, n: nat) -> Seq<F> {
    Seq::new(n, |j: int| F::embed((base + j) as nat))
}

/// The polynomial of counting numbers is the number that its point spells.
pub proof fn law_counting_evaluates<F: Field>(base: nat, point: Seq<F>)
    requires
        crate::field::all_valid(point),
    ensures
        crate::multilinear::mle(counting::<F>(base, pow2(point.len())), point) == F::embed(
            base,
        ).plus(big_endian(point)),
    decreases point.len(),
{
    F::closed();
    crate::field::lemma_embed_valid::<F>(base);
    let values = counting::<F>(base, pow2(point.len()));
    if point.len() == 0 {
        lemma2_to64();
        F::plus_nil(F::embed(base));
    } else {
        let d = (point.len() - 1) as nat;
        let rest = point.drop_first();
        let half = pow2(d);
        lemma_pow2_unfold(point.len());
        law_counting_evaluates(base, rest);
        law_counting_evaluates(base + half, rest);
        assert(values.take(half as int) =~= counting::<F>(base, half));
        assert(values.skip(half as int) =~= counting::<F>(base + half, half));
        let (e, h, r, t) = (F::embed(base), F::embed(half), big_endian(rest), point[0]);
        crate::field::lemma_embed_valid::<F>(half);
        lemma_big_endian_valid(rest);
        lemma_embed_plus::<F>(base, half);
        lemma_embed_power::<F>(d);
        // The two halves differ by the constant `h`.
        let low = e.plus(r);
        let high = e.plus(h).plus(r);
        F::plus_associates(e, h, r);
        F::plus_commutes(h, r);
        F::plus_associates(e, r, h);
        F::plus_commutes(low, h);
        F::minus_plus(h, low);
        F::plus_associates(e, r, t.times(h));
    }
}

/// The denominators over a table's positions evaluate to `c` less the number that the point
/// spells: what the verifier of a lookup holds its last claim against.
pub proof fn law_position_denominators_evaluate<F: Field>(c: F, point: Seq<F>)
    requires
        c.valid(),
        crate::field::all_valid(point),
    ensures
        crate::multilinear::mle(minus_indexes(c, increments(pow2(point.len()))), point) == c.minus(
            big_endian(point),
        ),
{
    F::closed();
    let values = counting::<F>(0, pow2(point.len()));
    assert forall|j: int| 0 <= j < values.len() implies (#[trigger] values[j]).valid() by {
        crate::field::lemma_embed_valid::<F>(j as nat);
    }
    law_counting_evaluates(0, point);
    F::embed_counts(0);
    lemma_big_endian_valid(point);
    crate::field::lemma_left_neutral(big_endian(point));
    crate::multilinear::law_mle_shifted(
        values,
        c,
        minus_indexes(c, increments(pow2(point.len()))),
        point,
    );
}

/// The values that claims state.
pub open spec fn claimed_values<F>(claims: Seq<Claim<F>>) -> Seq<F> {
    Seq::new(claims.len(), |i: int| claims[i].value)
}

/// `eq` of a point with the point of each claim.
pub open spec fn claim_weights<F: Field>(point: Seq<F>, claims: Seq<Claim<F>>) -> Seq<F> {
    Seq::new(claims.len(), |i: int| crate::multilinear::eq_poly(point, claims[i].point))
}

/// Whether claims are made of elements, each with `n_vars` coordinates.
pub open spec fn claims_fit<F: Field>(claims: Seq<Claim<F>>, n_vars: nat) -> bool {
    forall|i: int|
        0 <= i < claims.len() ==> {
            &&& (#[trigger] claims[i]).value.valid()
            &&& claims[i].point.len() == n_vars
            &&& crate::field::all_valid(claims[i].point)
        }
}

/// The claimed values, batched by the powers of `alpha`.
fn batch_values<F: Field>(claims: &[Evaluation<F>], alpha: F, Ghost(n_vars): Ghost<nat>) -> (r: F)
    requires
        claims_fit(claims_of(claims@), n_vars),
        alpha.valid(),
    ensures
        r.valid(),
        r == crate::quotient_gkr::batched(claimed_values(claims_of(claims@)), alpha),
{
    let ghost all = claims_of(claims@);
    let mut values: Vec<F> = Vec::new();
    while values.len() < claims.len()
        invariant
            values.len() <= claims.len(),
            all == claims_of(claims@),
            claims_fit(all, n_vars),
            crate::field::all_valid(values@),
            forall|i: int| 0 <= i < values.len() ==> #[trigger] values[i] == all[i].value,
        decreases claims.len() - values.len(),
    {
        let i: usize = values.len();
        assert(all[i as int] == claims[i as int]@);
        values.push(claims[i].value);
    }
    assert(values@ =~= claimed_values(all));
    batch(values.as_slice(), alpha)
}

/// `eq` of a point with the points of claims, batched by the powers of `alpha`.
fn batch_weights<F: Field>(point: &[F], claims: &[Evaluation<F>], alpha: F) -> (r: F)
    requires
        crate::field::all_valid(point@),
        claims_fit(claims_of(claims@), point.len() as nat),
        alpha.valid(),
    ensures
        r.valid(),
        r == crate::quotient_gkr::batched(claim_weights(point@, claims_of(claims@)), alpha),
{
    let ghost all = claims_of(claims@);
    let mut weights: Vec<F> = Vec::new();
    while weights.len() < claims.len()
        invariant
            weights.len() <= claims.len(),
            crate::field::all_valid(point@),
            all == claims_of(claims@),
            claims_fit(all, point.len() as nat),
            crate::field::all_valid(weights@),
            forall|i: int|
                0 <= i < weights.len() ==> #[trigger] weights[i] == crate::multilinear::eq_poly(
                    point@,
                    all[i].point,
                ),
        decreases claims.len() - weights.len(),
    {
        let i: usize = weights.len();
        assert(all[i as int] == claims[i as int]@);
        weights.push(eq_poly_outside(point, claims[i].point.0.as_slice()));
    }
    assert(weights@ =~= claim_weights(point@, all));
    batch(weights.as_slice(), alpha)
}

/// What a proved sum of fractions leaves: the sum, and claims on numerators and denominators at a
/// point.
pub struct SumClaim<F> {
    pub quotient: F,
    pub point: Seq<F>,
    pub numerator: F,
    pub denominator: F,
}

/// The statements of a lookup whose parts are these.
pub open spec fn statements<F: Field>(
    sumcheck_point: Seq<F>,
    table_eval: F,
    pushforward_eval: F,
    c: F,
    left: SumClaim<F>,
    right: SumClaim<F>,
) -> Statements<F> {
    Statements {
        on_indexes: Claim { point: left.point, value: c.minus(left.denominator) },
        on_table: Claim { point: sumcheck_point, value: table_eval },
        on_pushforward: seq![
            Claim { point: sumcheck_point, value: pushforward_eval },
            Claim { point: right.point, value: right.numerator },
        ],
    }
}

/// Whether the two sums of a lookup fit together and with the claims: the sums are equal, the
/// numerators over the indexes are the batched weights of the claims, and the denominators over
/// the table are `c` less the positions.
pub open spec fn sums_fit<F: Field>(
    claims: Seq<Claim<F>>,
    alpha: F,
    c: F,
    left: SumClaim<F>,
    right: SumClaim<F>,
) -> bool {
    &&& left.quotient == right.quotient
    &&& left.numerator == crate::quotient_gkr::batched(claim_weights(left.point, claims), alpha)
    &&& right.denominator == c.minus(big_endian(right.point))
}

/// The statements of a lookup from its parts.
fn make_statements<F: Field>(
    sumcheck_point: Vec<F>,
    table_eval: F,
    pushforward_eval: F,
    index_point: Vec<F>,
    index_eval: F,
    position_point: Vec<F>,
    final_eval: F,
) -> (s: LogupStarStatements<F>)
    ensures
        s@ == (Statements {
            on_indexes: Claim { point: index_point@, value: index_eval },
            on_table: Claim { point: sumcheck_point@, value: table_eval },
            on_pushforward: seq![
                Claim { point: sumcheck_point@, value: pushforward_eval },
                Claim { point: position_point@, value: final_eval },
            ],
        }),
{
    let on_table = Evaluation::new(
        MultilinearPoint(copy_of(sumcheck_point.as_slice())),
        table_eval,
    );
    let mut on_pushforward: Vec<Evaluation<F>> = Vec::new();
    on_pushforward.push(Evaluation::new(MultilinearPoint(sumcheck_point), pushforward_eval));
    on_pushforward.push(Evaluation::new(MultilinearPoint(position_point), final_eval));
    let s = LogupStarStatements {
        on_indexes: Evaluation::new(MultilinearPoint(index_point), index_eval),
        on_table,
        on_pushforward,
    };
    assert(s@.on_pushforward =~= seq![
        Claim { point: sumcheck_point@, value: pushforward_eval },
        Claim { point: position_point@, value: final_eval },
    ]);
    s
}

/// Where a verifier of a lookup stands.
#[derive(Clone, Debug)]
pub enum LogupPhase<F> {
    /// The product sumcheck is to be checked.
    Product,
    /// The evaluations of table and pushforward are to be read.
    Evaluations { point: Vec<F>, value: F },
    /// The denominators' constant is to be drawn.
    Constant { point: Vec<F>, table_eval: F, pushforward_eval: F },
    /// The sum over the indexes is being verified.
    Left { point: Vec<F>, table_eval: F, pushforward_eval: F, c: F, sum: GkrPhase<F> },
    /// The sum over the table is being verified.
    Right {
        point: Vec<F>,
        table_eval: F,
        pushforward_eval: F,
        c: F,
        left_quotient: F,
        left_point: Vec<F>,
        left_numerator: F,
        left_denominator: F,
        sum: GkrPhase<F>,
    },
    /// The lookup is proved, up to statements.
    Accepted(LogupStarStatements<F>),
    /// The proof is not accepted.
    Rejected(ProofError),
}

/// A [`LogupPhase`] as a mathematical value.
pub enum LogupStage<F> {
    Product,
    Evaluations { point: Seq<F>, value: F },
    Constant { point: Seq<F>, table_eval: F, pushforward_eval: F },
    Left { point: Seq<F>, table_eval: F, pushforward_eval: F, c: F, sum: GkrStage<F> },
    Right {
        point: Seq<F>,
        table_eval: F,
        pushforward_eval: F,
        c: F,
        left: SumClaim<F>,
        sum: GkrStage<F>,
    },
    Accepted(Statements<F>),
    Rejected(ProofError),
}

impl<F> View for LogupPhase<F> {
    type V = LogupStage<F>;

    open spec fn view(&self) -> LogupStage<F> {
        match *self {
            LogupPhase::Product => LogupStage::Product,
            LogupPhase::Evaluations { point, value } => LogupStage::Evaluations {
                point: point@,
                value,
            },
            LogupPhase::Constant { point, table_eval, pushforward_eval } => LogupStage::Constant {
                point: point@,
                table_eval,
                pushforward_eval,
            },
            LogupPhase::Left { point, table_eval, pushforward_eval, c, sum } => LogupStage::Left {
                point: point@,
                table_eval,
                pushforward_eval,
                c,
                sum: sum@,
            },
            LogupPhase::Right {
                point,
                table_eval,
                pushforward_eval,
                c,
                left_quotient,
                left_point,
                left_numerator,
                left_denominator,
                sum,
            } => LogupStage::Right {
                point: point@,
                table_eval,
                pushforward_eval,
                c,
                left: SumClaim {
                    quotient: left_quotient,
                    point: left_point@,
                    numerator: left_numerator,
                    denominator: left_denominator,
                },
                sum: sum@,
            },
            LogupPhase::Accepted(s) => LogupStage::Accepted(s@),
            LogupPhase::Rejected(e) => LogupStage::Rejected(e),
        }
    }
}

/// Where the verifier of a lookup comes to from a stage with a reply.
pub open spec fn logup_next<F: Field>(
    log_table_len: nat,
    log_indexes_len: nat,
    claims: Seq<Claim<F>>,
    alpha: F,
    stage: LogupStage<F>,
    answer: Answer<F>,
) -> LogupStage<F> {
    match (stage, answer) {
        (LogupStage::Product, Answer::Sumcheck(sum, point, value)) => if sum
            != crate::quotient_gkr::batched(claimed_values(claims), alpha) {
            LogupStage::Rejected(ProofError::InvalidProof)
        } else {
            LogupStage::Evaluations { point, value }
        },
        (LogupStage::Product, Answer::Failed(_)) => LogupStage::Rejected(
            ProofError::InvalidProof,
        ),
        (LogupStage::Evaluations { point, value }, Answer::Scalars(evals)) => if evals[0].times(
            evals[1],
        ) != value {
            LogupStage::Rejected(ProofError::InvalidProof)
        } else {
            LogupStage::Constant { point, table_eval: evals[0], pushforward_eval: evals[1] }
        },
        (LogupStage::Evaluations { .. }, Answer::Failed(e)) => LogupStage::Rejected(e),
        (
            LogupStage::Constant { point, table_eval, pushforward_eval },
            Answer::Challenge(c),
        ) => LogupStage::Left {
            point,
            table_eval,
            pushforward_eval,
            c,
            sum: GkrStage::Opening,
        },
        (LogupStage::Left { point, table_eval, pushforward_eval, c, sum }, _) => {
            match crate::quotient_gkr::next_stage(
                (log_indexes_len - 1) as nat,
                sum,
                answer,
            ) {
                GkrStage::Accepted { quotient, point: at, numerator, denominator } => {
                    LogupStage::Right {
                        point,
                        table_eval,
                        pushforward_eval,
                        c,
                        left: SumClaim { quotient, point: at, numerator, denominator },
                        sum: GkrStage::Opening,
                    }
                },
                GkrStage::Rejected(e) => LogupStage::Rejected(e),
                other => LogupStage::Left {
                    point,
                    table_eval,
                    pushforward_eval,
                    c,
                    sum: other,
                },
            }
        },
        (LogupStage::Right { point, table_eval, pushforward_eval, c, left, sum }, _) => {
            match crate::quotient_gkr::next_stage(
                (log_table_len - 1) as nat,
                sum,
                answer,
            ) {
                GkrStage::Accepted { quotient, point: at, numerator, denominator } => {
                    let right = SumClaim { quotient, point: at, numerator, denominator };
                    if sums_fit(claims, alpha, c, left, right) {
                        LogupStage::Accepted(
                            statements(point, table_eval, pushforward_eval, c, left, right),
                        )
                    } else {
                        LogupStage::Rejected(ProofError::InvalidProof)
                    }
                },
                GkrStage::Rejected(e) => LogupStage::Rejected(e),
                other => LogupStage::Right {
                    point,
                    table_eval,
                    pushforward_eval,
                    c,
                    left,
                    sum: other,
                },
            }
        },
        (other, _) => other,
    }
}

/// What a verifier of a lookup at a stage wants.
pub open spec fn logup_wanted<F>(
    log_table_len: usize,
    log_indexes_len: usize,
    stage: LogupStage<F>,
) -> VerifierRequest {
    match stage {
        LogupStage::Product => VerifierRequest::Sumcheck { n_vars: log_table_len, degree: 2 },
        LogupStage::Evaluations { .. } => VerifierRequest::Scalars(2),
        LogupStage::Constant { .. } => VerifierRequest::Challenge,
        LogupStage::Left { sum, .. } => crate::quotient_gkr::wanted(
            LOGUP_GROUPS,
            (log_indexes_len - 1) as nat,
            sum,
        ),
        LogupStage::Right { sum, .. } => crate::quotient_gkr::wanted(
            LOGUP_GROUPS,
            (log_table_len - 1) as nat,
            sum,
        ),
        LogupStage::Accepted(_) => VerifierRequest::Nothing,
        LogupStage::Rejected(_) => VerifierRequest::Nothing,
    }
}

/// Whether a sum of fractions is about to read its last layer.
pub open spec fn at_opening<F>(stage: LogupStage<F>) -> bool {
    match stage {
        LogupStage::Left { sum, .. } => sum is Opening,
        LogupStage::Right { sum, .. } => sum is Opening,
        _ => false,
    }
}

/// Whether a verifier of a lookup at a stage can take a reply: it is one to what the verifier
/// wants, the last layers can be read, and no denominator in them is 0.
pub open spec fn logup_takes<F: Field>(
    log_table_len: usize,
    log_indexes_len: usize,
    stage: LogupStage<F>,
    answer: Answer<F>,
) -> bool {
    &&& crate::quotient_gkr::answers(answer, logup_wanted(log_table_len, log_indexes_len, stage))
    &&& at_opening(stage) ==> (answer matches Answer::Scalars(last)
        && crate::quotient_gkr::last_denominators_nonzero(last))
}

/// A verifier of a lookup, between two messages.
#[derive(Clone, Debug)]
pub struct LogupVerifier<F> {
    /// Log of the table's length.
    pub log_table_len: usize,
    /// Log of the number of indexes.
    pub log_indexes_len: usize,
    /// The claims on the values read.
    pub claims: Vec<Evaluation<F>>,
    /// The challenge that batches the claims.
    pub alpha: F,
    /// Where the verifier stands.
    pub phase: LogupPhase<F>,
}

impl<F: Field> LogupVerifier<F> {
    /// Whether the verifier's parts fit together.
    pub open spec fn fits(self) -> bool {
        let (table_rounds, index_rounds) = (
            (self.log_table_len - 1) as nat,
            (self.log_indexes_len - 1) as nat,
        );
        &&& self.log_table_len >= 2
        &&& self.log_indexes_len >= 2
        &&& self.alpha.valid()
        &&& claims_fit(claims_of(self.claims@), self.log_indexes_len as nat)
        &&& match self.phase@ {
            LogupStage::Product => true,
            LogupStage::Evaluations { point, value } => crate::field::all_valid(point)
                && value.valid(),
            LogupStage::Constant { point, table_eval, pushforward_eval } => {
                crate::field::all_valid(point) && table_eval.valid() && pushforward_eval.valid()
            },
            LogupStage::Left { point, table_eval, pushforward_eval, c, sum } => {
                &&& c.valid()
                &&& !(sum is Accepted)
                &&& !(sum is Rejected)
                &&& crate::quotient_gkr::stage_fits(2, index_rounds, sum)
            },
            LogupStage::Right { point, table_eval, pushforward_eval, c, left, sum } => {
                &&& c.valid()
                &&& left.quotient.valid()
                &&& left.numerator.valid()
                &&& left.denominator.valid()
                &&& left.point.len() == self.log_indexes_len
                &&& crate::field::all_valid(left.point)
                &&& !(sum is Accepted)
                &&& !(sum is Rejected)
                &&& crate::quotient_gkr::stage_fits(2, table_rounds, sum)
            },
            LogupStage::Accepted(_) => true,
            LogupStage::Rejected(_) => true,
        }
    }

    /// What the verifier at its stage wants.
    pub open spec fn wants(self) -> VerifierRequest {
        logup_wanted(self.log_table_len, self.log_indexes_len, self.phase@)
    }

    /// Whether a reply can be taken.
    pub open spec fn takes(self, answer: Answer<F>) -> bool {
        logup_takes(self.log_table_len, self.log_indexes_len, self.phase@, answer)
    }

    /// Where the verifier comes to with a reply.
    pub open spec fn next(self, answer: Answer<F>) -> LogupStage<F> {
        logup_next(
            self.log_table_len as nat,
            self.log_indexes_len as nat,
            claims_of(self.claims@),
            self.alpha,
            self.phase@,
            answer,
        )
    }

    /// What the verifier wants from the transcript.
    pub fn request(&self) -> (r: VerifierRequest)
        requires
            self.fits(),
        ensures
            r == self.wants(),
    {
        match &self.phase {
            LogupPhase::Product => VerifierRequest::Sumcheck {
                n_vars: self.log_table_len,
                degree: 2,
            },
            LogupPhase::Evaluations { .. } => VerifierRequest::Scalars(2),
            LogupPhase::Constant { .. } => VerifierRequest::Challenge,
            LogupPhase::Left { sum, .. } => phase_request(
                sum,
                LOGUP_GROUPS,
                self.log_indexes_len - 1,
            ),
            LogupPhase::Right { sum, .. } => phase_request(
                sum,
                LOGUP_GROUPS,
                self.log_table_len - 1,
            ),
            LogupPhase::Accepted(_) => VerifierRequest::Nothing,
            LogupPhase::Rejected(_) => VerifierRequest::Nothing,
        }
    }
}

/// Takes a reply for one of the sums.
fn sum_step<F: Field>(sum: GkrPhase<F>, rounds: usize, reply: VerifierReply<F>) -> (next: GkrPhase<
    F,
>)
    requires
        1 <= rounds < usize::MAX,
        crate::quotient_gkr::stage_fits(2, rounds as nat, sum@),
        crate::quotient_gkr::answers(
            reply@,
            crate::quotient_gkr::wanted(LOGUP_GROUPS, rounds as nat, sum@),
        ),
        sum@ is Opening ==> (reply@ matches Answer::Scalars(last)
            && crate::quotient_gkr::last_denominators_nonzero(last)),
    ensures
        next@ == crate::quotient_gkr::next_stage(rounds as nat, sum@, reply@),
        crate::quotient_gkr::stage_fits(2, rounds as nat, next@),
{
    let state = GkrVerifier { n_groups: LOGUP_GROUPS, rounds, phase: sum };
    verify_gkr_quotient_step(state, reply).phase
}

/// Starts the verification that values were read from a table of length `2^log_table_len` at
/// `2^log_indexes_len` indexes.
pub fn verify_logup_star<F: Field>(
    log_table_len: usize,
    log_indexes_len: usize,
    claims: Vec<Evaluation<F>>,
    alpha: F,
) -> (v: LogupVerifier<F>)
    requires
        log_table_len >= 2,
        log_indexes_len >= 2,
        alpha.valid(),
        claims_fit(claims_of(claims@), log_indexes_len as nat),
    ensures
        v.fits(),
        v.log_table_len == log_table_len,
        v.log_indexes_len == log_indexes_len,
        v.claims == claims,
        v.alpha == alpha,
        v.phase@ == LogupStage::<F>::Product,
{
    LogupVerifier { log_table_len, log_indexes_len, claims, alpha, phase: LogupPhase::Product }
}

/// Takes a reply: the verifier's next stage.
pub fn verify_logup_star_step<F: Field>(state: LogupVerifier<F>, reply: VerifierReply<F>) -> (next:
    LogupVerifier<F>)
    requires
        state.fits(),
        state.takes(reply@),
    ensures
        next.fits(),
        next.log_table_len == state.log_table_len,
        next.log_indexes_len == state.log_indexes_len,
        next.claims == state.claims,
        next.alpha == state.alpha,
        next.phase@ == state.next(reply@),
{
    let LogupVerifier { log_table_len, log_indexes_len, claims, alpha, phase } = state;
    let next = match (phase, reply) {
        (LogupPhase::Product, VerifierReply::Sumcheck { sum, point, value }) => {
            let expected = batch_values(claims.as_slice(), alpha, Ghost(log_indexes_len as nat));
            if !sum.same(expected) {
                LogupPhase::Rejected(ProofError::InvalidProof)
            } else {
                LogupPhase::Evaluations { point, value }
            }
        },
        (LogupPhase::Product, VerifierReply::Failed(_)) => LogupPhase::Rejected(
            ProofError::InvalidProof,
        ),
        (LogupPhase::Evaluations { point, value }, VerifierReply::Scalars(evals)) => {
            let (table_eval, pushforward_eval) = (evals[0], evals[1]);
            if !table_eval.field_mul(pushforward_eval).same(value) {
                LogupPhase::Rejected(ProofError::InvalidProof)
            } else {
                LogupPhase::Constant { point, table_eval, pushforward_eval }
            }
        },
        (LogupPhase::Evaluations { .. }, VerifierReply::Failed(e)) => LogupPhase::Rejected(e),
        (
            LogupPhase::Constant { point, table_eval, pushforward_eval },
            VerifierReply::Challenge(c),
        ) => LogupPhase::Left { point, table_eval, pushforward_eval, c, sum: GkrPhase::Opening },
        (LogupPhase::Left { point, table_eval, pushforward_eval, c, sum }, reply) => {
            match sum_step(sum, log_indexes_len - 1, reply) {
                GkrPhase::Accepted { quotient, point: at, numerator, denominator } => {
                    LogupPhase::Right {
                        point,
                        table_eval,
                        pushforward_eval,
                        c,
                        left_quotient: quotient,
                        left_point: at,
                        left_numerator: numerator,
                        left_denominator: denominator,
                        sum: GkrPhase::Opening,
                    }
                },
                GkrPhase::Rejected(e) => LogupPhase::Rejected(e),
                other => LogupPhase::Left { point, table_eval, pushforward_eval, c, sum: other },
            }
        },
        (
            LogupPhase::Right {
                point,
                table_eval,
                pushforward_eval,
                c,
                left_quotient,
                left_point,
                left_numerator,
                left_denominator,
                sum,
            },
            reply,
        ) => {
            match sum_step(sum, log_table_len - 1, reply) {
                GkrPhase::Accepted { quotient, point: at, numerator, denominator } => {
                    let weights = batch_weights(left_point.as_slice(), claims.as_slice(), alpha);
                    let positions = c.field_sub(big_endian_mle(at.as_slice()));
                    if !left_quotient.same(quotient) || !left_numerator.same(weights)
                        || !denominator.same(positions) {
                        LogupPhase::Rejected(ProofError::InvalidProof)
                    } else {
                        LogupPhase::Accepted(
                            make_statements(
                                point,
                                table_eval,
                                pushforward_eval,
                                left_point,
                                c.field_sub(left_denominator),
                                at,
                                numerator,
                            ),
                        )
                    }
                },
                GkrPhase::Rejected(e) => LogupPhase::Rejected(e),
                other => LogupPhase::Right {
                    point,
                    table_eval,
                    pushforward_eval,
                    c,
                    left_quotient,
                    left_point,
                    left_numerator,
                    left_denominator,
                    sum: other,
                },
            }
        },
        (phase, _) => phase,
    };
    LogupVerifier { log_table_len, log_indexes_len, claims, alpha, phase: next }
}

/// Where a prover of a lookup stands.
#[derive(Clone, Debug)]
pub enum LogupProverPhase<F> {
    /// The product sumcheck is to be proved.
    Product,
    /// The evaluations of table and pushforward are to be sent and the denominators' constant
    /// drawn.
    Sending { point: Vec<F>, table_eval: F, pushforward_eval: F },
    /// The sum over the indexes is being proved.
    Left { point: Vec<F>, table_eval: F, pushforward_eval: F, c: F, sum: GkrProver<F> },
    /// The sum over the table is being proved.
    Right {
        point: Vec<F>,
        table_eval: F,
        pushforward_eval: F,
        c: F,
        index_point: Vec<F>,
        index_eval: F,
        sum: GkrProver<F>,
    },
    /// The lookup is proved, up to statements.
    Finished(LogupStarStatements<F>),
}

/// A [`LogupProverPhase`] as a mathematical value.
pub enum LogupProverStage<F> {
    Product,
    Sending { point: Seq<F>, table_eval: F, pushforward_eval: F },
    Left { point: Seq<F>, table_eval: F, pushforward_eval: F, c: F, sum: GkrProverStage<F> },
    Right {
        point: Seq<F>,
        table_eval: F,
        pushforward_eval: F,
        c: F,
        index_point: Seq<F>,
        index_eval: F,
        sum: GkrProverStage<F>,
    },
    Finished(Statements<F>),
}

impl<F> View for LogupProverPhase<F> {
    type V = LogupProverStage<F>;

    open spec fn view(&self) -> LogupProverStage<F> {
        match *self {
            LogupProverPhase::Product => LogupProverStage::Product,
            LogupProverPhase::Sending { point, table_eval, pushforward_eval } => {
                LogupProverStage::Sending { point: point@, table_eval, pushforward_eval }
            },
            LogupProverPhase::Left { point, table_eval, pushforward_eval, c, sum } => {
                LogupProverStage::Left {
                    point: point@,
                    table_eval,
                    pushforward_eval,
                    c,
                    sum: sum.phase@,
                }
            },
            LogupProverPhase::Right {
                point,
                table_eval,
                pushforward_eval,
                c,
                index_point,
                index_eval,
                sum,
            } => LogupProverStage::Right {
                point: point@,
                table_eval,
                pushforward_eval,
                c,
                index_point: index_point@,
                index_eval,
                sum: sum.phase@,
            },
            LogupProverPhase::Finished(s) => LogupProverStage::Finished(s@),
        }
    }
}

/// What a prover of a lookup wants done next.
#[derive(Clone, Debug)]
pub enum LogupRequest<F> {
    /// The sumcheck over the products of [`LogupProver::table`] and [`LogupProver::pushforward`] is
    /// to be proved: that they add up to the sum.
    Product { n_vars: usize, sum: F },
    /// What the proof of a sum of fractions wants, or a message of the same kind.
    Sum(ProverRequest<F>),
}

/// A [`LogupRequest`] as a mathematical value.
pub enum LogupTask<F> {
    Product { n_vars: nat, sum: F },
    Sum(Task<F>),
}

impl<F> View for LogupRequest<F> {
    type V = LogupTask<F>;

    open spec fn view(&self) -> LogupTask<F> {
        match *self {
            LogupRequest::Product { n_vars, sum } => LogupTask::Product {
                n_vars: n_vars as nat,
                sum,
            },
            LogupRequest::Sum(request) => LogupTask::Sum(request@),
        }
    }
}

/// What comes back to a prover of a lookup.
#[derive(Clone, Debug)]
pub enum LogupReply<F> {
    /// A proved product sumcheck: its point, the value that it left, and the values of table and
    /// pushforward there.
    Product { point: Vec<F>, value: F, table_eval: F, pushforward_eval: F },
    /// What came of a sum of fractions, or of a message of the same kind.
    Sum(ProverReply<F>),
}

/// A [`LogupReply`] as a mathematical value.
pub enum LogupOutcome<F> {
    Product { point: Seq<F>, value: F, table_eval: F, pushforward_eval: F },
    Sum(Outcome<F>),
}

impl<F> View for LogupReply<F> {
    type V = LogupOutcome<F>;

    open spec fn view(&self) -> LogupOutcome<F> {
        match *self {
            LogupReply::Product { point, value, table_eval, pushforward_eval } => {
                LogupOutcome::Product { point: point@, value, table_eval, pushforward_eval }
            },
            LogupReply::Sum(reply) => LogupOutcome::Sum(reply@),
        }
    }
}

/// Where the prover of a lookup comes to from a stage with an outcome.
pub open spec fn logup_prover_next<F: Field>(
    log_table_len: nat,
    log_indexes_len: nat,
    indexes: Seq<nat>,
    weights: Seq<F>,
    push: Seq<F>,
    stage: LogupProverStage<F>,
    outcome: LogupOutcome<F>,
) -> LogupProverStage<F> {
    match (stage, outcome) {
        (
            LogupProverStage::Product,
            LogupOutcome::Product { point, value, table_eval, pushforward_eval },
        ) => LogupProverStage::Sending { point, table_eval, pushforward_eval },
        (
            LogupProverStage::Sending { point, table_eval, pushforward_eval },
            LogupOutcome::Sum(Outcome::Challenge(c)),
        ) => LogupProverStage::Left {
            point,
            table_eval,
            pushforward_eval,
            c,
            sum: GkrProverStage::Opening {
                last: crate::quotient_gkr::last_layer(
                    weights,
                    minus_indexes(c, indexes),
                    2,
                    (log_indexes_len - 1) as nat,
                ),
            },
        },
        (
            LogupProverStage::Left { point, table_eval, pushforward_eval, c, sum },
            LogupOutcome::Sum(o),
        ) => match crate::quotient_gkr::next_prover_stage(sum, o) {
            GkrProverStage::Finished { point: at, numerator, denominator } => {
                LogupProverStage::Right {
                    point,
                    table_eval,
                    pushforward_eval,
                    c,
                    index_point: at,
                    index_eval: c.minus(denominator),
                    sum: GkrProverStage::Opening {
                        last: crate::quotient_gkr::last_layer(
                            push,
                            minus_indexes(c, increments(push.len())),
                            2,
                            (log_table_len - 1) as nat,
                        ),
                    },
                }
            },
            other => LogupProverStage::Left {
                point,
                table_eval,
                pushforward_eval,
                c,
                sum: other,
            },
        },
        (
            LogupProverStage::Right {
                point,
                table_eval,
                pushforward_eval,
                c,
                index_point,
                index_eval,
                sum,
            },
            LogupOutcome::Sum(o),
        ) => match crate::quotient_gkr::next_prover_stage(sum, o) {
            GkrProverStage::Finished { point: at, numerator, denominator } => {
                LogupProverStage::Finished(
                    Statements {
                        on_indexes: Claim { point: index_point, value: index_eval },
                        on_table: Claim { point, value: table_eval },
                        on_pushforward: seq![
                            Claim { point, value: pushforward_eval },
                            Claim { point: at, value: numerator },
                        ],
                    },
                )
            },
            other => LogupProverStage::Right {
                point,
                table_eval,
                pushforward_eval,
                c,
                index_point,
                index_eval,
                sum: other,
            },
        },
        (other, _) => other,
    }
}

/// What a prover of a lookup at a stage wants done.
pub open spec fn logup_task<F: Field>(
    log_table_len: nat,
    log_indexes_len: nat,
    claimed_value: F,
    stage: LogupProverStage<F>,
) -> LogupTask<F> {
    match stage {
        LogupProverStage::Product => LogupTask::Product {
            n_vars: log_table_len,
            sum: claimed_value,
        },
        LogupProverStage::Sending { table_eval, pushforward_eval, .. } => LogupTask::Sum(
            Task::SendThenChallenge(seq![table_eval, pushforward_eval]),
        ),
        LogupProverStage::Left { sum, .. } => LogupTask::Sum(
            crate::quotient_gkr::task(2, (log_indexes_len - 1) as nat, sum),
        ),
        LogupProverStage::Right { sum, .. } => LogupTask::Sum(
            crate::quotient_gkr::task(2, (log_table_len - 1) as nat, sum),
        ),
        LogupProverStage::Finished(_) => LogupTask::Sum(Task::Nothing),
    }
}

/// Whether an outcome can be taken at a stage: it is one of the task, the value that the product
/// sumcheck left is the product of the evaluations, and no denominator of the sums is 0.
pub open spec fn logup_comes_of<F: Field>(
    indexes: Seq<nat>,
    table_len: nat,
    stage: LogupProverStage<F>,
    t: LogupTask<F>,
    outcome: LogupOutcome<F>,
) -> bool {
    match (t, outcome) {
        (
            LogupTask::Product { n_vars, sum },
            LogupOutcome::Product { point, value, table_eval, pushforward_eval },
        ) => {
            &&& table_eval.valid()
            &&& pushforward_eval.valid()
            &&& value == table_eval.times(pushforward_eval)
        },
        (LogupTask::Sum(t), LogupOutcome::Sum(o)) => {
            &&& crate::quotient_gkr::comes_of(2, o, t)
            &&& stage is Sending ==> (o matches Outcome::Challenge(c) && {
                &&& crate::fractions::all_invertible(minus_indexes(c, indexes))
                &&& crate::fractions::all_invertible(minus_indexes(c, increments(table_len)))
            })
        },
        _ => false,
    }
}

/// A prover of a lookup, between two messages.
#[derive(Clone, Debug)]
pub struct LogupProver<P, F> {
    /// Log of the table's length.
    pub log_table_len: usize,
    /// Log of the number of indexes.
    pub log_indexes_len: usize,
    /// The table.
    pub table: Vec<F>,
    /// The indexes that are read.
    pub indexes: Vec<P>,
    /// The claimed batched value of what is read.
    pub claimed_value: F,
    /// The weights of the read positions.
    pub poly_eq_point: Vec<F>,
    /// The pushforward of the weights.
    pub pushforward: Vec<F>,
    /// Where the prover stands.
    pub phase: LogupProverPhase<F>,
}

/// Whether a sum of fractions is under way over these fractions.
pub open spec fn sum_under_way<F: Field>(
    sum: GkrProver<F>,
    nums: Seq<F>,
    dens: Seq<F>,
    log: nat,
) -> bool {
    &&& sum.fits()
    &&& sum.n_groups == LOGUP_GROUPS
    &&& sum.rounds() == log - 1
    &&& sum.over(nums, dens)
    &&& !(sum.phase@ is Finished)
}

impl<P: PrimeField, F: Field> LogupProver<P, F> {
    /// The denominators over the indexes.
    pub open spec fn index_denominators(self, c: F) -> Seq<F> {
        minus_indexes(c, remainders(self.indexes@))
    }

    /// The denominators over the table's positions.
    pub open spec fn position_denominators(self, c: F) -> Seq<F> {
        minus_indexes(c, increments(self.table.len() as nat))
    }

    /// Whether the prover's parts fit together.
    pub open spec fn fits(self) -> bool {
        &&& self.log_table_len >= 2
        &&& self.log_indexes_len >= 2
        &&& self.table.len() == pow2(self.log_table_len as nat)
        &&& self.indexes.len() == pow2(self.log_indexes_len as nat)
        &&& self.pushforward.len() == self.table.len()
        &&& self.poly_eq_point.len() == self.indexes.len()
        &&& self.claimed_value.valid()
        &&& crate::field::all_valid(self.table@)
        &&& crate::field::all_valid(self.indexes@)
        &&& crate::field::all_valid(self.poly_eq_point@)
        &&& crate::field::all_valid(self.pushforward@)
        &&& match self.phase {
            LogupProverPhase::Product => true,
            LogupProverPhase::Sending { point, table_eval, pushforward_eval } => true,
            LogupProverPhase::Left { c, sum, .. } => {
                &&& c.valid()
                &&& crate::fractions::all_invertible(self.position_denominators(c))
                &&& sum_under_way(
                    sum,
                    self.poly_eq_point@,
                    self.index_denominators(c),
                    self.log_indexes_len as nat,
                )
            },
            LogupProverPhase::Right { c, sum, .. } => {
                &&& c.valid()
                &&& sum_under_way(
                    sum,
                    self.pushforward@,
                    self.position_denominators(c),
                    self.log_table_len as nat,
                )
            },
            LogupProverPhase::Finished(_) => true,
        }
    }

    /// What the prover at its stage wants done.
    pub open spec fn wants(self) -> LogupTask<F> {
        logup_task(
            self.log_table_len as nat,
            self.log_indexes_len as nat,
            self.claimed_value,
            self.phase@,
        )
    }

    /// Whether an outcome can be taken.
    pub open spec fn takes(self, outcome: LogupOutcome<F>) -> bool {
        logup_comes_of(
            remainders(self.indexes@),
            self.table.len() as nat,
            self.phase@,
            self.wants(),
            outcome,
        )
    }

    /// Where the prover comes to with an outcome.
    pub open spec fn next(self, outcome: LogupOutcome<F>) -> LogupProverStage<F> {
        logup_prover_next(
            self.log_table_len as nat,
            self.log_indexes_len as nat,
            remainders(self.indexes@),
            self.poly_eq_point@,
            self.pushforward@,
            self.phase@,
            outcome,
        )
    }

    /// What the prover wants done.
    pub fn request(&self) -> (r: LogupRequest<F>)
        requires
            self.fits(),
        ensures
            r@ == self.wants(),
    {
        match &self.phase {
            LogupProverPhase::Product => LogupRequest::Product {
                n_vars: self.log_table_len,
                sum: self.claimed_value,
            },
            LogupProverPhase::Sending { table_eval, pushforward_eval, .. } => {
                let mut evals: Vec<F> = Vec::new();
                evals.push(*table_eval);
                evals.push(*pushforward_eval);
                assert(evals@ =~= seq![*table_eval, *pushforward_eval]);
                LogupRequest::Sum(ProverRequest::SendThenChallenge(evals))
            },
            LogupProverPhase::Left { sum, .. } => LogupRequest::Sum(sum.request()),
            LogupProverPhase::Right { sum, .. } => LogupRequest::Sum(sum.request()),
            LogupProverPhase::Finished(_) => LogupRequest::Sum(ProverRequest::Nothing),
        }
    }
}

/// `c` less each index.
fn c_minus_indexes<P: PrimeField, F: Field>(c: F, indexes: &[P]) -> (v: Vec<F>)
    requires
        c.valid(),
        crate::field::all_valid(indexes@),
    ensures
        v@ == minus_indexes(c, remainders(indexes@)),
        crate::field::all_valid(v@),
{
    let mut v: Vec<F> = Vec::new();
    while v.len() < indexes.len()
        invariant
            v.len() <= indexes.len(),
            c.valid(),
            crate::field::all_valid(indexes@),
            crate::field::all_valid(v@),
            forall|i: int|
                0 <= i < v.len() ==> #[trigger] v[i] == minus_indexes(c, remainders(indexes@))[i],
        decreases indexes.len() - v.len(),
    {
        let i: usize = v.len();
        v.push(c.field_sub(F::from_usize(indexes[i].to_usize())));
    }
    assert(v@ =~= minus_indexes(c, remainders(indexes@)));
    v
}

/// `c` less each position of a table.
fn c_minus_increments<F: Field>(c: F, length: usize) -> (v: Vec<F>)
    requires
        c.valid(),
    ensures
        v@ == minus_indexes(c, increments(length as nat)),
        crate::field::all_valid(v@),
{
    let mut v: Vec<F> = Vec::new();
    while v.len() < length
        invariant
            v.len() <= length,
            c.valid(),
            crate::field::all_valid(v@),
            forall|i: int|
                0 <= i < v.len() ==> #[trigger] v[i] == minus_indexes(
                    c,
                    increments(length as nat),
                )[i],
        decreases length - v.len(),
    {
        v.push(c.field_sub(F::from_usize(v.len())));
    }
    assert(v@ =~= minus_indexes(c, increments(length as nat)));
    v
}

/// Starts one of the sums of fractions of a lookup.
fn start_sum<F: Field>(numerators: &[F], denominators: &[F], Ghost(log): Ghost<nat>) -> (sum:
    GkrProver<F>)
    requires
        log >= 2,
        numerators.len() == denominators.len() == pow2(log),
        crate::field::all_valid(numerators@),
        crate::field::all_valid(denominators@),
        crate::fractions::all_invertible(denominators@),
    ensures
        sum_under_way(sum, numerators@, denominators@, log),
        sum.phase@ == (GkrProverStage::Opening {
            last: crate::quotient_gkr::last_layer(
                numerators@,
                denominators@,
                2,
                (log - 1) as nat,
            ),
        }),
{
    proof {
        lemma2_to64();
        assert(2nat == pow2(1));
        lemma_pow2_strictly_increases(1, log);
    }
    let sum = prove_gkr_quotient(numerators, denominators, LOGUP_GROUPS);
    proof {
        lemma_pow2_unfold(sum.rounds() + 1);
        crate::log2::lemma_exponent_unique(sum.rounds() + 1, log);
    }
    sum
}

/// Starts the proof that values were read from a table at indexes. The pushforward is already
/// committed.
pub fn prove_logup_star<P: PrimeField, F: Field>(
    table: Vec<F>,
    indexes: Vec<P>,
    claimed_value: F,
    poly_eq_point: Vec<F>,
    pushforward: Vec<F>,
) -> (p: LogupProver<P, F>)
    requires
        crate::log2::is_power_of_two(table.len() as nat),
        crate::log2::is_power_of_two(indexes.len() as nat),
        table.len() >= 4,
        indexes.len() >= 4,
        pushforward.len() == table.len(),
        poly_eq_point.len() == indexes.len(),
        claimed_value.valid(),
        crate::field::all_valid(table@),
        crate::field::all_valid(indexes@),
        crate::field::all_valid(poly_eq_point@),
        crate::field::all_valid(pushforward@),
    ensures
        p.fits(),
        p.table == table,
        p.indexes == indexes,
        p.claimed_value == claimed_value,
        p.poly_eq_point == poly_eq_point,
        p.pushforward == pushforward,
        p.phase@ == LogupProverStage::<F>::Product,
{
    let log_table_len: usize = log2_strict_usize(table.len());
    let log_indexes_len: usize = log2_strict_usize(indexes.len());
    proof {
        lemma2_to64();
        crate::log2::lemma_exponent_order(2, log_table_len as nat);
        crate::log2::lemma_exponent_order(2, log_indexes_len as nat);
    }
    LogupProver {
        log_table_len,
        log_indexes_len,
        table,
        indexes,
        claimed_value,
        poly_eq_point,
        pushforward,
        phase: LogupProverPhase::Product,
    }
}

/// Takes what came of the prover's task: the prover's next stage.
pub fn prove_logup_star_step<P: PrimeField, F: Field>(
    state: LogupProver<P, F>,
    reply: LogupReply<F>,
) -> (next: LogupProver<P, F>)
    requires
        state.fits(),
        state.takes(reply@),
    ensures
        next.fits(),
        next.table == state.table,
        next.indexes == state.indexes,
        next.claimed_value == state.claimed_value,
        next.poly_eq_point == state.poly_eq_point,
        next.pushforward == state.pushforward,
        next.phase@ == state.next(reply@),
{
    let LogupProver {
        log_table_len,
        log_indexes_len,
        table,
        indexes,
        claimed_value,
        poly_eq_point,
        pushforward,
        phase,
    } = state;
    let next = match (phase, reply) {
        (
            LogupProverPhase::Product,
            LogupReply::Product { point, value: _, table_eval, pushforward_eval },
        ) => LogupProverPhase::Sending { point, table_eval, pushforward_eval },
        (
            LogupProverPhase::Sending { point, table_eval, pushforward_eval },
            LogupReply::Sum(ProverReply::Challenge(c)),
        ) => {
            let denominators = c_minus_indexes(c, indexes.as_slice());
            let sum = start_sum(
                poly_eq_point.as_slice(),
                denominators.as_slice(),
                Ghost(log_indexes_len as nat),
            );
            LogupProverPhase::Left { point, table_eval, pushforward_eval, c, sum }
        },
        (
            LogupProverPhase::Left { point, table_eval, pushforward_eval, c, sum },
            LogupReply::Sum(reply),
        ) => {
            let stepped = prove_gkr_quotient_step(sum, reply);
            match stepped.phase {
                GkrProverPhase::Finished { point: at, numerator: _, denominator } => {
                    let denominators = c_minus_increments(c, table.len());
                    let sum = start_sum(
                        pushforward.as_slice(),
                        denominators.as_slice(),
                        Ghost(log_table_len as nat),
                    );
                    LogupProverPhase::Right {
                        point,
                        table_eval,
                        pushforward_eval,
                        c,
                        index_point: at,
                        index_eval: c.field_sub(denominator),
                        sum,
                    }
                },
                phase => LogupProverPhase::Left {
                    point,
                    table_eval,
                    pushforward_eval,
                    c,
                    sum: GkrProver {
                        n_groups: stepped.n_groups,
                        layers: stepped.layers,
                        quotient: stepped.quotient,
                        phase,
                    },
                },
            }
        },
        (
            LogupProverPhase::Right {
                point,
                table_eval,
                pushforward_eval,
                c,
                index_point,
                index_eval,
                sum,
            },
            LogupReply::Sum(reply),
        ) => {
            let stepped = prove_gkr_quotient_step(sum, reply);
            match stepped.phase {
                GkrProverPhase::Finished { point: at, numerator, denominator: _ } => {
                    LogupProverPhase::Finished(
                        make_statements(
                            point,
                            table_eval,
                            pushforward_eval,
                            index_point,
                            index_eval,
                            at,
                            numerator,
                        ),
                    )
                },
                phase => {
                    let sum_next = GkrProver {
                        n_groups: stepped.n_groups,
                        layers: stepped.layers,
                        quotient: stepped.quotient,
                        phase,
                    };
                    LogupProverPhase::Right {
                        point,
                        table_eval,
                        pushforward_eval,
                        c,
                        index_point,
                        index_eval,
                        sum: sum_next,
                    }
                },
            }
        },
        (phase, _) => phase,
    };
    LogupProver {
        log_table_len,
        log_indexes_len,
        table,
        indexes,
        claimed_value,
        poly_eq_point,
        pushforward,
        phase: next,
    }
}

} // verus!
