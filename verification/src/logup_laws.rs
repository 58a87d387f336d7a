//! What an indexed lookup guarantees: an honest one is accepted, and the statements it leaves are
//! true of table, indexes and pushforward.

use vstd::prelude::*;
use vstd::arithmetic::power2::*;
use crate::field::Field;
use crate::logup_star::{
    LogupOutcome, LogupProverStage, LogupStage, LogupTask, SumClaim,
};
use crate::multilinear::Claim;
use crate::quotient_gkr::{
    Answer, GkrProverStage, GkrStage, Outcome, ProofError, Task, VerifierRequest,
};

verus! {

/// The weights of the read positions under batched claims: for every position, the powers of
/// `alpha` against `eq` with the point of each claim.
pub open spec fn batched_table<F: Field>(claims: Seq<Claim<F>>, alpha: F, n_vars: nat) -> Seq<F> {
    Seq::new(
        pow2(n_vars),
        |x: int|
            crate::quotient_gkr::batched(
                Seq::new(
                    claims.len(),
                    |i: int| crate::multilinear::eq_table(claims[i].point)[x],
                ),
                alpha,
            ),
    )
}

/// What is read from a table at indexes.
pub open spec fn reads<F>(indexes: Seq<nat>, table: Seq<F>) -> Seq<F> {
    Seq::new(indexes.len(), |i: int| table[indexes[i] as int])
}

/// Indexes as elements.
pub open spec fn embedded<F: Field>(indexes: Seq<nat>) -> Seq<F> {
    Seq::new(indexes.len(), |i: int| F::embed(indexes[i]))
}

/// Batched weights against a sequence are the batched values of the sequence at the claims'
/// points.
pub proof fn law_batched_weights<F: Field>(
    claims: Seq<Claim<F>>,
    alpha: F,
    n_vars: nat,
    values: Seq<F>,
)
    requires
        crate::logup_star::claims_fit(claims, n_vars),
        alpha.valid(),
        values.len() == pow2(n_vars),
        crate::field::all_valid(values),
    ensures
        crate::field::all_valid(batched_table(claims, alpha, n_vars)),
        crate::field::total(
            crate::field::products(batched_table(claims, alpha, n_vars), values),
        ) == crate::quotient_gkr::batched(
            Seq::new(
                claims.len(),
                |i: int| crate::multilinear::mle(values, claims[i].point),
            ),
            alpha,
        ),
{
    F::closed();
    let n = pow2(n_vars);
    let k = claims.len();
    let table = batched_table(claims, alpha, n_vars);
    let alphas = crate::field::powers(alpha, k);
    assert forall|i: int| 0 <= i < k implies (#[trigger] alphas[i]).valid() by {
        crate::field::lemma_power_valid(alpha, i as nat);
    }
    assert forall|i: int| 0 <= i < k implies crate::multilinear::eq_table(
        (#[trigger] claims[i]).point,
    ).len() == n && crate::field::all_valid(crate::multilinear::eq_table(claims[i].point)) by {
        crate::multilinear::lemma_eq_table(claims[i].point);
    }
    let f = |i: int, x: int|
        values[x].times(crate::multilinear::eq_table(claims[i].point)[x]).times(alphas[i]);
    assert forall|i: int, x: int| 0 <= i < k && 0 <= x < n implies (#[trigger] f(i, x)).valid() by {
        assert(crate::field::all_valid(crate::multilinear::eq_table(claims[i].point)));
    }
    crate::field::lemma_total_exchange(f, k, n);
    let rows = crate::field::row_sums(f, k, n);
    let evals = Seq::new(k, |i: int| crate::multilinear::mle(values, claims[i].point));
    assert(rows =~= crate::field::products(evals, alphas)) by {
        assert forall|i: int| 0 <= i < k implies rows[i] == evals[i].times(alphas[i]) by {
            let weights = crate::multilinear::eq_table(claims[i].point);
            crate::multilinear::law_mle_weights(values, claims[i].point);
            let terms = crate::field::products(values, weights);
            crate::field::lemma_products_valid(values, weights);
            crate::field::lemma_total_scale(terms, alphas[i], Seq::new(n, |x: int| f(i, x)));
        }
    }
    let sums = crate::field::column_sums(f, k, n);
    assert forall|x: int| 0 <= x < n implies #[trigger] sums[x] == table[x].times(values[x])
        && table[x].valid() by {
        let entries = Seq::new(k, |i: int| crate::multilinear::eq_table(claims[i].point)[x]);
        assert forall|i: int| 0 <= i < k implies (#[trigger] entries[i]).valid() by {
            assert(crate::field::all_valid(crate::multilinear::eq_table(claims[i].point)));
        }
        let terms = crate::field::products(entries, alphas);
        crate::field::lemma_products_valid(entries, alphas);
        let column = Seq::new(k, |i: int| f(i, x));
        assert forall|i: int| 0 <= i < k implies #[trigger] column[i] == terms[i].times(
            values[x],
        ) by {
            assert(entries[i].valid());
            F::times_commutes(values[x], entries[i]);
            F::times_associates(entries[i], values[x], alphas[i]);
            F::times_commutes(values[x], alphas[i]);
            F::times_associates(entries[i], alphas[i], values[x]);
        }
        crate::field::lemma_total_scale(terms, values[x], column);
        crate::field::lemma_total_valid(terms);
    }
    assert(crate::field::all_valid(table)) by {
        assert forall|x: int| 0 <= x < n implies (#[trigger] table[x]).valid() by {
            assert(sums[x] == table[x].times(values[x]));
        }
    }
    assert(sums =~= crate::field::products(table, values));
}

/// The batched weights, taken as a polynomial, evaluate to the batched `eq` of the claims' points:
/// what the verifier of a lookup holds the numerators over the indexes against.
pub proof fn law_batched_weights_evaluate<F: Field>(
    claims: Seq<Claim<F>>,
    alpha: F,
    point: Seq<F>,
)
    requires
        crate::logup_star::claims_fit(claims, point.len()),
        alpha.valid(),
        crate::field::all_valid(point),
    ensures
        crate::multilinear::mle(batched_table(claims, alpha, point.len()), point)
            == crate::quotient_gkr::batched(
            crate::logup_star::claim_weights(point, claims),
            alpha,
        ),
{
    let weights = crate::multilinear::eq_table(point);
    crate::multilinear::lemma_eq_table(point);
    law_batched_weights(claims, alpha, point.len(), weights);
    crate::multilinear::law_mle_weights(batched_table(claims, alpha, point.len()), point);
    assert(Seq::new(
        claims.len(),
        |i: int| crate::multilinear::mle(weights, claims[i].point),
    ) =~= crate::logup_star::claim_weights(point, claims)) by {
        assert forall|i: int| 0 <= i < claims.len() implies crate::multilinear::mle(
            weights,
            (#[trigger] claims[i]).point,
        ) == crate::multilinear::eq_poly(point, claims[i].point) by {
            crate::multilinear::law_eq_table_evaluates_to_eq(point, claims[i].point);
        }
    }
}

/// The product sumcheck of a lookup is about a true sum: if the claims hold of what is read, the
/// batched claimed values are the pushforward of the batched weights against the table.
pub proof fn law_claimed_value_is_product_sum<F: Field>(
    claims: Seq<Claim<F>>,
    alpha: F,
    n_vars: nat,
    indexes: Seq<nat>,
    table: Seq<F>,
)
    requires
        crate::logup_star::claims_fit(claims, n_vars),
        alpha.valid(),
        indexes.len() == pow2(n_vars),
        crate::logup_star::in_table(indexes, table.len()),
        crate::field::all_valid(table),
        forall|i: int|
            0 <= i < claims.len() ==> (#[trigger] claims[i]).value == crate::multilinear::mle(
                reads(indexes, table),
                claims[i].point,
            ),
    ensures
        crate::quotient_gkr::batched(crate::logup_star::claimed_values(claims), alpha)
            == crate::field::dot(
            crate::logup_star::pushforward(
                indexes,
                batched_table(claims, alpha, n_vars),
                table.len(),
            ),
            table,
        ),
{
    let values = reads(indexes, table);
    let weights = batched_table(claims, alpha, n_vars);
    assert forall|i: int| 0 <= i < values.len() implies (#[trigger] values[i]).valid() by {
        assert(indexes[i] < table.len());
    }
    law_batched_weights(claims, alpha, n_vars, values);
    crate::logup_star::law_pushforward_reads(indexes, weights, table);
    assert(crate::logup_star::read_products(indexes, weights, table)
        =~= crate::field::products(weights, values));
    assert(Seq::new(
        claims.len(),
        |i: int| crate::multilinear::mle(values, claims[i].point),
    ) =~= crate::logup_star::claimed_values(claims));
}

/// With the two selectors `1 - beta` and `beta`, the first coordinate of a final point is an
/// ordinary one.
pub proof fn law_two_selectors<F: Field>(s: Seq<F>, beta: F, point: Seq<F>)
    requires
        s.len() == 2 * pow2(point.len()),
        crate::field::all_valid(s),
        crate::field::all_valid(point),
        beta.valid(),
    ensures
        crate::gkr_laws::skip_value(s, seq![F::unit().minus(beta), beta], point)
            == crate::multilinear::mle(s, seq![beta] + point),
{
    F::closed();
    let selectors = seq![F::unit().minus(beta), beta];
    let half = (s.len() / 2) as int;
    assert(0 * half == 0 && 1 * half == half && 2 * half == s.len());
    assert(crate::fractions::chunk(s, 2, 0) =~= s.take(half));
    assert(crate::fractions::chunk(s, 2, 1) =~= s.skip(half));
    let (a, b) = (
        crate::multilinear::mle(s.take(half), point),
        crate::multilinear::mle(s.skip(half), point),
    );
    crate::multilinear::lemma_mle_valid(s.take(half), point);
    crate::multilinear::lemma_mle_valid(s.skip(half), point);
    let pieces = Seq::new(
        selectors.len(),
        |j: int|
            crate::multilinear::mle(
                crate::fractions::chunk(s, selectors.len(), j as nat),
                point,
            ),
    );
    let terms = crate::field::products(pieces, selectors);
    assert(terms =~= seq![a.times(F::unit().minus(beta)), b.times(beta)]);
    assert(terms.drop_last() =~= seq![a.times(F::unit().minus(beta))]);
    assert(terms.drop_last().drop_last() =~= Seq::<F>::empty());
    assert(crate::field::total(terms.drop_last().drop_last()) == F::nil());
    crate::field::lemma_left_neutral(a.times(F::unit().minus(beta)));
    assert(terms.drop_last().last() == a.times(F::unit().minus(beta)));
    assert(crate::field::total(terms.drop_last()) == a.times(F::unit().minus(beta)));
    assert(terms.last() == b.times(beta));
    assert(crate::gkr_laws::skip_value(s, selectors, point) == crate::field::total(terms));
    crate::multilinear::lemma_line_weights(a, b, beta);
    assert((seq![beta] + point).drop_first() =~= point);
}

/// What an honest sum of fractions leaves at a point.
pub open spec fn honest_sum<F: Field>(nums: Seq<F>, dens: Seq<F>, point: Seq<F>) -> SumClaim<F> {
    SumClaim {
        quotient: crate::fractions::column_sum(nums, dens),
        point,
        numerator: crate::multilinear::mle(nums, point),
        denominator: crate::multilinear::mle(dens, point),
    }
}

/// An honest lookup passes the last check, and the statements that it leaves are true: the indexes
/// and the pushforward take the stated values at the stated points.
pub proof fn law_honest_lookup<F: Field>(
    claims: Seq<Claim<F>>,
    alpha: F,
    c: F,
    indexes: Seq<nat>,
    index_point: Seq<F>,
    position_point: Seq<F>,
    sumcheck_point: Seq<F>,
    table_eval: F,
    pushforward_eval: F,
)
    requires
        crate::logup_star::claims_fit(claims, index_point.len()),
        alpha.valid(),
        c.valid(),
        crate::field::all_valid(index_point),
        crate::field::all_valid(position_point),
        indexes.len() == pow2(index_point.len()),
        crate::logup_star::in_table(indexes, pow2(position_point.len())),
        crate::fractions::all_invertible(
            crate::logup_star::minus_indexes(
                c,
                crate::logup_star::increments(pow2(position_point.len())),
            ),
        ),
    ensures
        ({
            let length = pow2(position_point.len());
            let weights = batched_table(claims, alpha, index_point.len());
            let push = crate::logup_star::pushforward(indexes, weights, length);
            let left = honest_sum(
                weights,
                crate::logup_star::minus_indexes(c, indexes),
                index_point,
            );
            let right = honest_sum(
                push,
                crate::logup_star::minus_indexes(c, crate::logup_star::increments(length)),
                position_point,
            );
            let left_over = crate::logup_star::statements(
                sumcheck_point,
                table_eval,
                pushforward_eval,
                c,
                left,
                right,
            );
            &&& crate::logup_star::sums_fit(claims, alpha, c, left, right)
            &&& left_over.on_indexes.value == crate::multilinear::mle(
                embedded(indexes),
                left_over.on_indexes.point,
            )
            &&& left_over.on_pushforward[1].value == crate::multilinear::mle(
                push,
                left_over.on_pushforward[1].point,
            )
        }),
{
    let length = pow2(position_point.len());
    let weights = batched_table(claims, alpha, index_point.len());
    let table = crate::multilinear::eq_table(index_point);
    crate::multilinear::lemma_eq_table(index_point);
    law_batched_weights(claims, alpha, index_point.len(), table);
    law_batched_weights_evaluate(claims, alpha, index_point);
    crate::logup_star::law_lookup_sums_agree(indexes, weights, length, c);
    crate::logup_star::law_position_denominators_evaluate(c, position_point);
    let values = embedded::<F>(indexes);
    assert forall|i: int| 0 <= i < values.len() implies (#[trigger] values[i]).valid() by {
        crate::field::lemma_embed_valid::<F>(indexes[i]);
    }
    crate::multilinear::law_mle_shifted(
        values,
        c,
        crate::logup_star::minus_indexes(c, indexes),
        index_point,
    );
}

/// Batching term by term.
proof fn lemma_batched_terms<F: Field>(values: Seq<F>, alpha: F)
    ensures
        crate::quotient_gkr::batched(values, alpha) == crate::field::total(
            Seq::new(
                values.len(),
                |i: int| values[i].times(crate::field::power(alpha, i as nat)),
            ),
        ),
{
    assert(crate::field::products(values, crate::field::powers(alpha, values.len())) =~= Seq::new(
        values.len(),
        |i: int| values[i].times(crate::field::power(alpha, i as nat)),
    ));
}

/// The verdict of a lookup. Once the sum over the table has left its claims, the lookup is accepted
/// if and only if both sums are equal, the numerator over the indexes is what the points of the
/// claims weigh at its point, and the denominator over the table is the constant less the number
/// that its point spells. What it leaves then are the index value under the left denominator, the
/// values of table and pushforward at the point of the product sumcheck, and the numerator over the
/// table. In every other case the proof is invalid.
pub proof fn law_lookup_verdict<F: Field>(
    log_table_len: nat,
    log_indexes_len: nat,
    claims: Seq<Claim<F>>,
    alpha: F,
    point: Seq<F>,
    table_eval: F,
    pushforward_eval: F,
    c: F,
    left: SumClaim<F>,
    sum: GkrStage<F>,
    answer: Answer<F>,
    right: SumClaim<F>,
)
    requires
        crate::quotient_gkr::next_stage((log_table_len - 1) as nat, sum, answer)
            == (GkrStage::Accepted {
            quotient: right.quotient,
            point: right.point,
            numerator: right.numerator,
            denominator: right.denominator,
        }),
    ensures
        ({
            let end = crate::logup_star::logup_next(
                log_table_len,
                log_indexes_len,
                claims,
                alpha,
                LogupStage::Right { point, table_eval, pushforward_eval, c, left, sum },
                answer,
            );
            let weight = crate::field::total(
                Seq::new(
                    claims.len(),
                    |i: int|
                        crate::multilinear::eq_poly(left.point, claims[i].point).times(
                            crate::field::power(alpha, i as nat),
                        ),
                ),
            );
            &&& (end is Accepted) == (left.quotient == right.quotient && left.numerator == weight
                && right.denominator == c.minus(crate::logup_star::big_endian(right.point)))
            &&& !(end is Accepted) ==> end == LogupStage::<F>::Rejected(ProofError::InvalidProof)
            &&& end matches LogupStage::Accepted(given) ==> {
                &&& given.on_indexes.point == left.point
                &&& given.on_indexes.value == c.minus(left.denominator)
                &&& given.on_table.point == point
                &&& given.on_table.value == table_eval
                &&& given.on_pushforward.len() == 2
                &&& given.on_pushforward[0].point == point
                &&& given.on_pushforward[0].value == pushforward_eval
                &&& given.on_pushforward[1].point == right.point
                &&& given.on_pushforward[1].value == right.numerator
            }
        }),
{
    let weights = crate::logup_star::claim_weights(left.point, claims);
    lemma_batched_terms(weights, alpha);
    assert(Seq::new(
        weights.len(),
        |i: int| weights[i].times(crate::field::power(alpha, i as nat)),
    ) =~= Seq::new(
        claims.len(),
        |i: int|
            crate::multilinear::eq_poly(left.point, claims[i].point).times(
                crate::field::power(alpha, i as nat),
            ),
    ));
}

/// What a lookup is held against before its sums: the product sumcheck must be about the claimed
/// values, each with its power of `alpha`, and the values of table and pushforward must multiply to
/// what it left. Anything else, and a sumcheck that fails, makes the proof invalid.
pub proof fn law_lookup_product_checks<F: Field>(
    log_table_len: nat,
    log_indexes_len: nat,
    claims: Seq<Claim<F>>,
    alpha: F,
    sum: F,
    point: Seq<F>,
    value: F,
    evals: Seq<F>,
)
    ensures
        ({
            let invalid = LogupStage::<F>::Rejected(ProofError::InvalidProof);
            let claimed = crate::field::total(
                Seq::new(
                    claims.len(),
                    |i: int| claims[i].value.times(crate::field::power(alpha, i as nat)),
                ),
            );
            let checked = crate::logup_star::logup_next(
                log_table_len,
                log_indexes_len,
                claims,
                alpha,
                LogupStage::Product,
                Answer::Sumcheck(sum, point, value),
            );
            let read = crate::logup_star::logup_next(
                log_table_len,
                log_indexes_len,
                claims,
                alpha,
                LogupStage::Evaluations { point, value },
                Answer::Scalars(evals),
            );
            &&& sum != claimed ==> checked == invalid
            &&& sum == claimed ==> checked == (LogupStage::Evaluations { point, value })
            &&& evals[0].times(evals[1]) != value ==> read == invalid
            &&& evals[0].times(evals[1]) == value ==> read == (LogupStage::Constant {
                point,
                table_eval: evals[0],
                pushforward_eval: evals[1],
            })
        }),
{
    let values = crate::logup_star::claimed_values(claims);
    lemma_batched_terms(values, alpha);
    assert(Seq::new(
        values.len(),
        |i: int| values[i].times(crate::field::power(alpha, i as nat)),
    ) =~= Seq::new(
        claims.len(),
        |i: int| claims[i].value.times(crate::field::power(alpha, i as nat)),
    ));
}

/// A lookup is never accepted before the sum over its table has left its claims, a rejected sum
/// rejects the lookup for the same reason, a reply that fails rejects it at every stage that reads,
/// and a lookup that has ended stays as it is.
pub proof fn law_lookup_ends<F: Field>(
    log_table_len: nat,
    log_indexes_len: nat,
    claims: Seq<Claim<F>>,
    alpha: F,
    stage: LogupStage<F>,
    answer: Answer<F>,
)
    ensures
        ({
            let next = crate::logup_star::logup_next(
                log_table_len,
                log_indexes_len,
                claims,
                alpha,
                stage,
                answer,
            );
            &&& next is Accepted ==> stage is Accepted || stage is Right
            &&& stage is Accepted || stage is Rejected ==> next == stage
            &&& stage matches LogupStage::Right { sum, .. } ==> {
                let behind = crate::quotient_gkr::next_stage(
                    (log_table_len - 1) as nat,
                    sum,
                    answer,
                );
                &&& next is Accepted ==> behind is Accepted
                &&& behind matches GkrStage::Rejected(e) ==> next == LogupStage::<F>::Rejected(e)
                &&& !(behind is Accepted) && !(behind is Rejected) ==> next == (LogupStage::Right {
                    point: stage->Right_point,
                    table_eval: stage->Right_table_eval,
                    pushforward_eval: stage->Right_pushforward_eval,
                    c: stage->Right_c,
                    left: stage->Right_left,
                    sum: behind,
                })
            }
            &&& stage matches LogupStage::Left { sum, .. } ==> {
                let behind = crate::quotient_gkr::next_stage(
                    (log_indexes_len - 1) as nat,
                    sum,
                    answer,
                );
                &&& next is Right <==> behind is Accepted
                &&& behind matches GkrStage::Accepted {
                    quotient,
                    point: at,
                    numerator,
                    denominator,
                } ==> next == (LogupStage::Right {
                    point: stage->Left_point,
                    table_eval: stage->Left_table_eval,
                    pushforward_eval: stage->Left_pushforward_eval,
                    c: stage->Left_c,
                    left: SumClaim { quotient, point: at, numerator, denominator },
                    sum: GkrStage::Opening,
                })
                &&& behind matches GkrStage::Rejected(e) ==> next == LogupStage::<F>::Rejected(e)
                &&& !(behind is Accepted) && !(behind is Rejected) ==> next == (LogupStage::Left {
                    point: stage->Left_point,
                    table_eval: stage->Left_table_eval,
                    pushforward_eval: stage->Left_pushforward_eval,
                    c: stage->Left_c,
                    sum: behind,
                })
            }
            &&& stage is Evaluations ==> (answer matches Answer::Failed(e) ==> next
                == LogupStage::<F>::Rejected(e))
            &&& answer is Failed && (stage is Product || stage is Evaluations || stage is Left
                || stage is Right) ==> next is Rejected
            &&& stage is Constant ==> (answer matches Answer::Challenge(c) ==> next == (
            LogupStage::Left {
                point: stage->Constant_point,
                table_eval: stage->Constant_table_eval,
                pushforward_eval: stage->Constant_pushforward_eval,
                c,
                sum: GkrStage::Opening,
            }))
            &&& answer is Failed && stage is Product ==> next == LogupStage::<F>::Rejected(
                ProofError::InvalidProof,
            )
        }),
{
}

/// What the verifier of a lookup asks for: a sumcheck of degree two over the table's variables, the
/// values of table and pushforward, the constant, and then what the sum under way asks for.
pub proof fn law_lookup_asks<F: Field>(
    log_table_len: usize,
    log_indexes_len: usize,
    stage: LogupStage<F>,
)
    ensures
        ({
            let wanted = crate::logup_star::logup_wanted(log_table_len, log_indexes_len, stage);
            &&& stage is Product ==> wanted == (VerifierRequest::Sumcheck {
                n_vars: log_table_len,
                degree: 2,
            })
            &&& stage is Evaluations ==> wanted == VerifierRequest::Scalars(2)
            &&& stage is Constant ==> wanted == VerifierRequest::Challenge
            &&& stage matches LogupStage::Left { sum, .. } ==> wanted
                == crate::quotient_gkr::wanted(2, (log_indexes_len - 1) as nat, sum)
            &&& stage matches LogupStage::Right { sum, .. } ==> wanted
                == crate::quotient_gkr::wanted(2, (log_table_len - 1) as nat, sum)
            &&& stage is Accepted || stage is Rejected ==> wanted == VerifierRequest::Nothing
        }),
{
}

/// What the prover of a lookup wants done: the product sumcheck over the table's variables on the
/// claimed value, then the values of table and pushforward sent, in this order, and then what the sum
/// under way wants.
pub proof fn law_lookup_prover_asks<F: Field>(
    log_table_len: nat,
    log_indexes_len: nat,
    claimed_value: F,
    stage: LogupProverStage<F>,
)
    ensures
        ({
            let task = crate::logup_star::logup_task(
                log_table_len,
                log_indexes_len,
                claimed_value,
                stage,
            );
            &&& stage is Product ==> task == (LogupTask::Product {
                n_vars: log_table_len,
                sum: claimed_value,
            })
            &&& stage matches LogupProverStage::Sending { table_eval, pushforward_eval, .. }
                ==> task == LogupTask::Sum(
                Task::SendThenChallenge(seq![table_eval, pushforward_eval]),
            )
            &&& stage matches LogupProverStage::Left { sum, .. } ==> task == LogupTask::Sum(
                crate::quotient_gkr::task(2, (log_indexes_len - 1) as nat, sum),
            )
            &&& stage matches LogupProverStage::Right { sum, .. } ==> task == LogupTask::Sum(
                crate::quotient_gkr::task(2, (log_table_len - 1) as nat, sum),
            )
            &&& stage is Finished ==> task == LogupTask::<F>::Sum(Task::Nothing)
        }),
{
}

/// How the prover of a lookup ends: with what its two sums and its product sumcheck left, the index
/// value being the constant less the claim on the denominators over the indexes.
pub proof fn law_lookup_prover_ends<F: Field>(
    log_table_len: nat,
    log_indexes_len: nat,
    indexes: Seq<nat>,
    weights: Seq<F>,
    push: Seq<F>,
    point: Seq<F>,
    table_eval: F,
    pushforward_eval: F,
    c: F,
    index_point: Seq<F>,
    index_eval: F,
    sum: GkrProverStage<F>,
    outcome: Outcome<F>,
)
    ensures
        ({
            let behind = crate::quotient_gkr::next_prover_stage(sum, outcome);
            let left = crate::logup_star::logup_prover_next(
                log_table_len,
                log_indexes_len,
                indexes,
                weights,
                push,
                LogupProverStage::Left { point, table_eval, pushforward_eval, c, sum },
                LogupOutcome::Sum(outcome),
            );
            let right = crate::logup_star::logup_prover_next(
                log_table_len,
                log_indexes_len,
                indexes,
                weights,
                push,
                LogupProverStage::Right {
                    point,
                    table_eval,
                    pushforward_eval,
                    c,
                    index_point,
                    index_eval,
                    sum,
                },
                LogupOutcome::Sum(outcome),
            );
            &&& behind matches GkrProverStage::Finished { point: at, numerator, denominator } ==> {
                &&& left matches LogupProverStage::Right {
                    point: p,
                    table_eval: t,
                    pushforward_eval: f,
                    c: d,
                    index_point: i,
                    index_eval: e,
                    sum: s,
                } && p == point && t == table_eval && f == pushforward_eval && d == c && i == at && e
                    == c.minus(denominator) && s is Opening
                &&& right matches LogupProverStage::Finished(given) && {
                    &&& given.on_indexes.point == index_point
                    &&& given.on_indexes.value == index_eval
                    &&& given.on_table.point == point
                    &&& given.on_table.value == table_eval
                    &&& given.on_pushforward.len() == 2
                    &&& given.on_pushforward[0].point == point
                    &&& given.on_pushforward[0].value == pushforward_eval
                    &&& given.on_pushforward[1].point == at
                    &&& given.on_pushforward[1].value == numerator
                }
            }
            &&& !(behind is Finished) ==> {
                &&& left == (LogupProverStage::Left {
                    point,
                    table_eval,
                    pushforward_eval,
                    c,
                    sum: behind,
                })
                &&& right == (LogupProverStage::Right {
                    point,
                    table_eval,
                    pushforward_eval,
                    c,
                    index_point,
                    index_eval,
                    sum: behind,
                })
            }
        }),
{
}

} // verus!
