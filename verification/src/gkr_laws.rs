//! What the layered proof of a sum of fractions guarantees: its sum is the sum of the fractions,
//! an honest prover's claims are true at every round, and the verifier accepts them.

use vstd::prelude::*;
use vstd::arithmetic::power2::*;
use crate::field::Field;
use crate::quotient_gkr::{
    Answer, GkrProverStage, GkrStage, Outcome, ProofError, Task, VerifierRequest,
};

verus! {

/// What is common to the statements below: `2^a` fractions in `2^b` columns.
pub open spec fn proper<F: Field>(nums: Seq<F>, dens: Seq<F>, a: nat, b: nat) -> bool {
    &&& nums.len() == dens.len() == pow2(a)
    &&& 1 <= b < a
    &&& crate::field::all_valid(nums)
    &&& crate::field::all_valid(dens)
}

/// The entries at corner `x` of columns.
pub open spec fn corner<F>(cols: Seq<Seq<F>>, x: int) -> Seq<F> {
    Seq::new(cols.len(), |i: int| cols[i][x])
}

/// The sum that the sumcheck of a layer is about: over all corners of the cube, the combinations
/// of the halves of the columns, weighted by `eq` with a point.
pub open spec fn cube_sum<F: Field>(cols: Seq<Seq<F>>, point: Seq<F>, alpha: F) -> F {
    crate::field::dot(
        crate::multilinear::eq_table(point),
        Seq::new(
            pow2(point.len()),
            |x: int|
                crate::quotient_gkr::combination(
                    corner(crate::fractions::split(cols, 2), x),
                    alpha,
                ),
        ),
    )
}

/// Whether the claims of a round are true: they are the values at the point of the columns of the
/// layer that the round starts from.
pub open spec fn claims_true<F: Field>(
    nums: Seq<F>,
    dens: Seq<F>,
    a: nat,
    b: nat,
    round: nat,
    point: Seq<F>,
    claims: Seq<F>,
) -> bool {
    let cols = crate::fractions::layer(nums, dens, pow2(b), (a - b - round + 1) as nat);
    &&& claims.len() == pow2(b)
    &&& forall|c: int|
        0 <= c < claims.len() ==> #[trigger] claims[c] == crate::multilinear::mle(cols[c], point)
}

/// Whether the evaluations behind the sumcheck of a round are honest: the values at its point of
/// the halves of the columns of the layer before.
pub open spec fn evals_honest<F: Field>(
    nums: Seq<F>,
    dens: Seq<F>,
    a: nat,
    b: nat,
    round: nat,
    point: Seq<F>,
    evals: Seq<F>,
) -> bool {
    let cols = crate::fractions::layer(nums, dens, pow2(b), (a - b - round) as nat);
    &&& evals.len() == 2 * pow2(b)
    &&& forall|i: int|
        0 <= i < evals.len() ==> #[trigger] evals[i] == crate::multilinear::mle(
            crate::fractions::split(cols, 2)[i],
            point,
        )
}

/// Cutting in two gives the halves.
proof fn lemma_halves<F>(cols: Seq<Seq<F>>, c: int)
    requires
        0 <= c < cols.len(),
        cols[c].len() % 2 == 0,
    ensures
        crate::fractions::split(cols, 2)[2 * c] == cols[c].take((cols[c].len() / 2) as int),
        crate::fractions::split(cols, 2)[2 * c + 1] == cols[c].skip((cols[c].len() / 2) as int),
{
    let half = cols[c].len() / 2;
    assert(0 * half == 0 && 1 * half == half && 2 * half == cols[c].len());
    assert((2 * c) / 2 == c && (2 * c) % 2 == 0);
    assert((2 * c + 1) / 2 == c && (2 * c + 1) % 2 == 1);
    assert(crate::fractions::chunk(cols[c], 2, 0) =~= cols[c].take(half as int));
    assert(crate::fractions::chunk(cols[c], 2, 1) =~= cols[c].skip(half as int));
}

/// The sum that a prover states and a verifier computes is the sum of the fractions.
pub proof fn law_quotient_is_sum<F: Field>(nums: Seq<F>, dens: Seq<F>, a: nat, b: nat)
    requires
        proper(nums, dens, a, b),
        crate::fractions::all_invertible(dens),
    ensures
        crate::quotient_gkr::last_denominators_nonzero(
            crate::quotient_gkr::last_layer(nums, dens, pow2(b), (a - b) as nat),
        ),
        crate::quotient_gkr::last_quotient(
            crate::quotient_gkr::last_layer(nums, dens, pow2(b), (a - b) as nat),
        ) == crate::fractions::column_sum(nums, dens),
{
    F::closed();
    let k = (a - b) as nat;
    let groups = pow2(b);
    let half = groups / 2;
    let cols = crate::fractions::layer(nums, dens, groups, k);
    let last = crate::quotient_gkr::last_layer(nums, dens, groups, k);
    crate::fractions::law_layers_keep_sum(nums, dens, a, b, k);
    crate::fractions::lemma_layer_shape(nums, dens, a, b, k);
    lemma2_to64();
    assert forall|i: int| groups <= i < last.len() implies #[trigger] last[i] != F::nil() by {
        assert(crate::fractions::all_invertible(cols[i / 2]));
        assert(cols[i / 2].len() == 2);
        crate::field::lemma_invertible_nonzero(cols[i / 2][i % 2]);
    }
    let zeros = crate::quotient_gkr::last_ratios(last, 0);
    let ones = crate::quotient_gkr::last_ratios(last, 1);
    let sums = Seq::new(
        half,
        |i: int| crate::fractions::column_sum(cols[i], cols[i + half]),
    );
    assert forall|i: int| 0 <= i < half implies #[trigger] sums[i] == zeros[i].plus(ones[i])
        && zeros[i].valid() && ones[i].valid() by {
        let (n, d) = (cols[i], cols[i + half]);
        assert(n.len() == 2 && d.len() == 2);
        assert(crate::field::all_valid(n));
        assert(crate::fractions::all_invertible(d));
        crate::field::lemma_invertible(d[0]);
        crate::field::lemma_invertible(d[1]);
        let terms = Seq::new(2, |x: int| crate::field::ratio(n[x], d[x]));
        assert(last[2 * i] == n[0] && last[2 * i + 1] == n[1]);
        assert(groups == 2 * half);
        assert(last[groups + 2 * i] == d[0]) by {
            assert((groups + 2 * i) / 2 == i + half);
        }
        assert(last[groups + 2 * i + 1] == d[1]) by {
            assert((groups + 2 * i + 1) / 2 == i + half);
        }
        assert(terms.drop_last().drop_last() =~= Seq::<F>::empty());
        assert(crate::field::total(terms.drop_last().drop_last()) == F::nil());
        crate::field::lemma_left_neutral(terms[0]);
        assert(terms.drop_last().last() == terms[0]);
        assert(crate::field::total(terms.drop_last()) == terms[0]);
    }
    assert(crate::field::all_valid(zeros)) by {
        assert forall|i: int| 0 <= i < half implies (#[trigger] zeros[i]).valid() by {
            assert(sums[i] == zeros[i].plus(ones[i]));
        }
    }
    assert(crate::field::all_valid(ones)) by {
        assert forall|i: int| 0 <= i < half implies (#[trigger] ones[i]).valid() by {
            assert(sums[i] == zeros[i].plus(ones[i]));
        }
    }
    crate::field::lemma_total_plus(zeros, ones, sums);
}

/// The claims that the first round starts from are true.
pub proof fn law_opening_claims_true<F: Field>(nums: Seq<F>, dens: Seq<F>, a: nat, b: nat, r: F)
    requires
        proper(nums, dens, a, b),
        r.valid(),
    ensures
        claims_true(
            nums,
            dens,
            a,
            b,
            1,
            seq![r],
            crate::quotient_gkr::lines(
                crate::quotient_gkr::last_layer(nums, dens, pow2(b), (a - b) as nat),
                r,
            ),
        ),
{
    let k = (a - b) as nat;
    let cols = crate::fractions::layer(nums, dens, pow2(b), k);
    let last = crate::quotient_gkr::last_layer(nums, dens, pow2(b), k);
    let claims = crate::quotient_gkr::lines(last, r);
    crate::fractions::lemma_layer_shape(nums, dens, a, b, k);
    lemma2_to64();
    let point = seq![r];
    assert(point.drop_first() =~= Seq::<F>::empty());
    assert forall|c: int| 0 <= c < claims.len() implies #[trigger] claims[c]
        == crate::multilinear::mle(cols[c], point) by {
        assert(cols[c].len() == 2);
        assert(last[2 * c] == cols[c][0]);
        assert(last[2 * c + 1] == cols[c][1]);
        let none = Seq::<F>::empty();
        assert(crate::multilinear::mle(cols[c].take(1), none) == cols[c][0]);
        assert(crate::multilinear::mle(cols[c].skip(1), none) == cols[c][1]);
    }
}

/// Batched true claims on a layer are the cube sum over the layer before it.
pub proof fn law_batched_claims_are_cube_sum<F: Field>(
    cols: Seq<Seq<F>>,
    point: Seq<F>,
    claims: Seq<F>,
    alpha: F,
)
    requires
        cols.len() >= 2,
        cols.len() % 2 == 0,
        crate::fractions::all_of_len(cols, 2 * pow2(point.len())),
        crate::fractions::all_columns_valid(cols),
        crate::field::all_valid(point),
        alpha.valid(),
        claims.len() == cols.len(),
        forall|c: int|
            0 <= c < claims.len() ==> #[trigger] claims[c] == crate::multilinear::mle(
                crate::fractions::summed(cols)[c],
                point,
            ),
    ensures
        crate::quotient_gkr::batched(claims, alpha) == cube_sum(cols, point, alpha),
{
    F::closed();
    let groups = cols.len();
    let half = (groups / 2) as int;
    let n = pow2(point.len());
    let next = crate::fractions::summed(cols);
    let weights = crate::multilinear::eq_table(point);
    let alphas = crate::field::powers(alpha, groups);
    let pieces = crate::fractions::split(cols, 2);
    crate::multilinear::lemma_eq_table(point);
    assert(crate::field::all_valid(alphas)) by {
        assert forall|c: int| 0 <= c < groups implies (#[trigger] alphas[c]).valid() by {
            crate::field::lemma_power_valid(alpha, c as nat);
        }
    }
    assert forall|c: int| 0 <= c < groups implies (#[trigger] next[c]).len() == n
        && crate::field::all_valid(next[c]) by {
        crate::fractions::lemma_summed_valid(cols);
    }
    let f = |c: int, x: int| next[c][x].times(weights[x]).times(alphas[c]);
    assert forall|c: int, x: int| 0 <= c < groups && 0 <= x < n implies (#[trigger] f(
        c,
        x,
    )).valid() by {
        assert(crate::field::all_valid(next[c]));
    }
    crate::field::lemma_total_exchange(f, groups, n);
    // Row by row: the claims, weighted.
    let rows = crate::field::row_sums(f, groups, n);
    assert(rows =~= crate::field::products(claims, alphas)) by {
        assert forall|c: int| 0 <= c < groups implies rows[c] == claims[c].times(alphas[c]) by {
            crate::multilinear::law_mle_weights(next[c], point);
            let terms = crate::field::products(next[c], weights);
            crate::field::lemma_products_valid(next[c], weights);
            crate::field::lemma_total_scale(
                terms,
                alphas[c],
                Seq::new(n, |x: int| f(c, x)),
            );
            assert(claims[c] == crate::field::total(terms));
        }
    }
    // Column by column: the combinations, weighted.
    let sums = crate::field::column_sums(f, groups, n);
    let combos = Seq::new(
        n,
        |x: int| crate::quotient_gkr::combination(corner(pieces, x), alpha),
    );
    assert(sums =~= crate::field::products(weights, combos)) by {
        assert forall|x: int| 0 <= x < n implies sums[x] == weights[x].times(combos[x]) by {
            let evals = corner(pieces, x);
            let entries = crate::quotient_gkr::folded(evals);
            assert(evals.len() == 2 * groups);
            assert forall|c: int| 0 <= c < groups implies #[trigger] entries[c] == next[c][x] by {
                lemma_halves(cols, c);
                assert(cols[c].len() == 2 * n);
                if c < half {
                    lemma_halves(cols, c + half);
                    assert(cols[c + half].len() == 2 * n);
                    assert(2 * (c + half) == groups + 2 * c);
                } else {
                    assert(cols[c - half].len() == 2 * n);
                }
            }
            assert(crate::field::all_valid(entries)) by {
                assert forall|c: int| 0 <= c < groups implies (#[trigger] entries[c]).valid() by {
                    assert(crate::field::all_valid(next[c]));
                }
            }
            let terms = crate::field::products(entries, alphas);
            crate::field::lemma_products_valid(entries, alphas);
            let column = Seq::new(groups, |c: int| f(c, x));
            assert forall|c: int| 0 <= c < groups implies #[trigger] column[c] == terms[c].times(
                weights[x],
            ) by {
                assert(entries[c] == next[c][x]);
                F::times_associates(entries[c], weights[x], alphas[c]);
                F::times_commutes(weights[x], alphas[c]);
                F::times_associates(entries[c], alphas[c], weights[x]);
            }
            crate::field::lemma_total_scale(terms, weights[x], column);
            crate::field::lemma_total_valid(terms);
            F::times_commutes(crate::field::total(terms), weights[x]);
        }
    }
}

/// What the prover asks the sumcheck of a round to prove is so: from true claims, the batched
/// claims are the cube sum over the columns that the sumcheck runs over.
pub proof fn law_sumcheck_true<F: Field>(
    nums: Seq<F>,
    dens: Seq<F>,
    a: nat,
    b: nat,
    round: nat,
    point: Seq<F>,
    claims: Seq<F>,
    alpha: F,
)
    requires
        proper(nums, dens, a, b),
        1 <= round <= a - b,
        point.len() == round,
        crate::field::all_valid(point),
        alpha.valid(),
        claims_true(nums, dens, a, b, round, point, claims),
    ensures
        crate::quotient_gkr::batched(claims, alpha) == cube_sum(
            crate::fractions::layer(nums, dens, pow2(b), (a - b - round) as nat),
            point,
            alpha,
        ),
{
    let k = (a - b - round) as nat;
    crate::fractions::lemma_layer_shape(nums, dens, a, b, k);
    lemma_pow2_unfold((round + 1) as nat);
    law_batched_claims_are_cube_sum(
        crate::fractions::layer(nums, dens, pow2(b), k),
        point,
        claims,
        alpha,
    );
}

/// From honest evaluations the claims of the next round are true.
pub proof fn law_round_claims_true<F: Field>(
    nums: Seq<F>,
    dens: Seq<F>,
    a: nat,
    b: nat,
    round: nat,
    point: Seq<F>,
    evals: Seq<F>,
    beta: F,
)
    requires
        proper(nums, dens, a, b),
        1 <= round < a - b,
        point.len() == round,
        evals_honest(nums, dens, a, b, round, point, evals),
    ensures
        claims_true(
            nums,
            dens,
            a,
            b,
            round + 1,
            seq![beta] + point,
            crate::quotient_gkr::lines(evals, beta),
        ),
{
    let k = (a - b - round) as nat;
    let cols = crate::fractions::layer(nums, dens, pow2(b), k);
    let claims = crate::quotient_gkr::lines(evals, beta);
    let next_point = seq![beta] + point;
    crate::fractions::lemma_layer_shape(nums, dens, a, b, k);
    lemma_pow2_unfold((round + 1) as nat);
    assert(next_point.drop_first() =~= point);
    assert forall|c: int| 0 <= c < claims.len() implies #[trigger] claims[c]
        == crate::multilinear::mle(cols[c], next_point) by {
        assert(cols[c].len() == 2 * pow2(round));
        lemma_halves(cols, c);
        assert(evals[2 * c] == crate::multilinear::mle(
            crate::fractions::split(cols, 2)[2 * c],
            point,
        ));
        assert(evals[2 * c + 1] == crate::multilinear::mle(
            crate::fractions::split(cols, 2)[2 * c + 1],
            point,
        ));
    }
}

/// The value of a sequence at a point whose first coordinate selects among its pieces by weights.
pub open spec fn skip_value<F: Field>(s: Seq<F>, selectors: Seq<F>, point: Seq<F>) -> F {
    crate::field::dot(
        Seq::new(
            selectors.len(),
            |j: int|
                crate::multilinear::mle(
                    crate::fractions::chunk(s, selectors.len(), j as nat),
                    point,
                ),
        ),
        selectors,
    )
}

/// Cutting in `half` pieces and each of those in two is cutting in twice as many.
proof fn lemma_cut_twice<F>(s: Seq<F>, half: nat, c: nat, e: nat)
    requires
        c < half,
        e < 2,
        s.len() % (2 * half) == 0,
    ensures
        crate::fractions::chunk(crate::fractions::chunk(s, half, c), 2, e)
            == crate::fractions::chunk(s, 2 * half, 2 * c + e),
{
    let w = s.len() / (2 * half);
    vstd::arithmetic::div_mod::lemma_fundamental_div_mod(s.len() as int, (2 * half) as int);
    assert(s.len() == half * (2 * w)) by (nonlinear_arith)
        requires
            s.len() == (2 * half) * w,
    ;
    vstd::arithmetic::div_mod::lemma_div_multiples_vanish((2 * w) as int, half as int);
    assert(s.len() / half == 2 * w);
    crate::fractions::lemma_chunk_bounds(s.len(), half, c);
    let piece = crate::fractions::chunk(s, half, c);
    assert(piece.len() == 2 * w);
    assert(piece.len() / 2 == w);
    let i = 2 * c + e;
    crate::fractions::lemma_chunk_bounds(s.len(), 2 * half, i);
    assert(c * (2 * w) + e * w == i * w) by (nonlinear_arith)
        requires
            i == 2 * c + e,
    ;
    assert((e + 1) * w == e * w + w) by (nonlinear_arith);
    assert(e * w <= w) by (nonlinear_arith)
        requires
            e <= 1,
            w >= 0,
    ;
    assert(crate::fractions::chunk(piece, 2, e) =~= crate::fractions::chunk(s, 2 * half, i));
}

/// From honest evaluations the statements that prover and verifier end with are true: they are the
/// values of numerators and denominators at the final point, its first coordinate by selectors.
pub proof fn law_final_claims_true<F: Field>(
    nums: Seq<F>,
    dens: Seq<F>,
    a: nat,
    b: nat,
    point: Seq<F>,
    evals: Seq<F>,
    selectors: Seq<F>,
)
    requires
        proper(nums, dens, a, b),
        selectors.len() == pow2(b),
        evals_honest(nums, dens, a, b, (a - b) as nat, point, evals),
    ensures
        crate::quotient_gkr::skip_claims(evals, selectors)[0] == skip_value(nums, selectors, point),
        crate::quotient_gkr::skip_claims(evals, selectors)[1] == skip_value(dens, selectors, point),
{
    let groups = pow2(b);
    let half = pow2((b - 1) as nat);
    lemma_pow2_unfold(b);
    lemma_pow2_pos((b - 1) as nat);
    assert(groups / 2 == half);
    let cols = crate::fractions::layer(nums, dens, groups, 0);
    let pieces = crate::fractions::split(cols, 2);
    crate::fractions::lemma_layer_shape(nums, dens, a, b, 0);
    crate::log2::lemma_power_quotient(a, b);
    assert(pow2(a) % groups == 0) by {
        lemma_pow2_pos(b);
        vstd::arithmetic::div_mod::lemma_fundamental_div_mod(pow2(a) as int, groups as int);
    }
    assert forall|j: int| 0 <= j < groups implies pieces[j] == crate::fractions::chunk(
        nums,
        groups,
        j as nat,
    ) && #[trigger] pieces[j + groups] == crate::fractions::chunk(dens, groups, j as nat) by {
        let c = j / 2;
        let e = j % 2;
        crate::fractions::lemma_split_index(c, half as int);
        crate::fractions::lemma_split_index(c + half, half as int);
        assert((j + groups) / 2 == c + half);
        assert((j + groups) % 2 == e);
        assert(cols[c] == crate::fractions::chunk(nums, half, c as nat));
        assert(cols[c + half] == crate::fractions::chunk(dens, half, c as nat));
        lemma_cut_twice(nums, half, c as nat, e as nat);
        lemma_cut_twice(dens, half, c as nat, e as nat);
    }
    let values = |s: Seq<F>|
        Seq::new(
            groups,
            |j: int|
                crate::multilinear::mle(crate::fractions::chunk(s, groups, j as nat), point),
        );
    assert(evals.take(groups as int) =~= values(nums)) by {
        assert forall|j: int| 0 <= j < groups implies evals.take(groups as int)[j] == values(
            nums,
        )[j] by {
            assert(pieces[j + groups] == crate::fractions::chunk(dens, groups, j as nat));
            assert(evals[j] == crate::multilinear::mle(pieces[j], point));
        }
    }
    assert(evals.skip(groups as int) =~= values(dens)) by {
        assert forall|j: int| 0 <= j < groups implies evals.skip(groups as int)[j] == values(
            dens,
        )[j] by {
            assert(pieces[j + groups] == crate::fractions::chunk(dens, groups, j as nat));
            assert(evals[j + groups] == crate::multilinear::mle(pieces[j + groups], point));
        }
    }
}

/// The verifier rejects a round whose sumcheck was about another sum than its claims, and a round
/// whose evaluations do not give the value that the sumcheck left.
pub proof fn law_verifier_rejects<F: Field>(
    rounds: nat,
    round: nat,
    quotient: F,
    point: Seq<F>,
    claims: Seq<F>,
    alpha: F,
    sum: F,
    sumcheck_point: Seq<F>,
    sumcheck_value: F,
    evals: Seq<F>,
)
    requires
        sum != crate::quotient_gkr::batched(claims, alpha) || sumcheck_value
            != crate::multilinear::eq_poly(point, sumcheck_point).times(
            crate::quotient_gkr::combination(evals, alpha),
        ),
    ensures
        ({
            let start = GkrStage::Sumcheck { round, quotient, point, claims, alpha };
            let checked = crate::quotient_gkr::next_stage(
                rounds,
                start,
                Answer::Sumcheck(sum, sumcheck_point, sumcheck_value),
            );
            crate::quotient_gkr::next_stage(rounds, checked, Answer::Scalars(evals))
                == GkrStage::<F>::Rejected(ProofError::InvalidProof)
        }),
{
}

/// Every claim counts in the batched sum: another value for one of them changes the sum by the
/// difference times that claim's power of `alpha`.
pub proof fn law_batch_counts<F: Field>(claims: Seq<F>, i: int, x: F, alpha: F)
    requires
        crate::field::all_valid(claims),
        x.valid(),
        alpha.valid(),
        0 <= i < claims.len(),
    ensures
        crate::quotient_gkr::batched(claims.update(i, x), alpha).plus(
            claims[i].times(crate::field::power(alpha, i as nat)),
        ) == crate::quotient_gkr::batched(claims, alpha).plus(
            x.times(crate::field::power(alpha, i as nat)),
        ),
{
    let weights = crate::field::powers(alpha, claims.len());
    assert forall|j: int| 0 <= j < weights.len() implies (#[trigger] weights[j]).valid() by {
        crate::field::lemma_power_valid(alpha, j as nat);
    }
    crate::sum_laws::law_dot_counts(claims, weights, i, x);
}

/// The sum of the fractions of a last layer: the numerators are its first half, the denominators
/// its second, each numerator over the denominator at the same place.
pub proof fn law_last_quotient<F: Field>(last: Seq<F>)
    requires
        last.len() % 4 == 0,
        crate::field::all_valid(last),
        forall|i: int|
            last.len() / 2 <= i < last.len() ==> crate::field::invertible(#[trigger] last[i]),
    ensures
        crate::quotient_gkr::last_quotient(last) == crate::field::total(
            Seq::new(
                last.len() / 2,
                |i: int| last[i].times(crate::field::inverse(last[last.len() / 2 + i])),
            ),
        ),
{
    let groups = last.len() / 2;
    let ratios = Seq::new(
        groups,
        |i: int| last[i].times(crate::field::inverse(last[groups + i])),
    );
    assert(crate::field::all_valid(ratios)) by {
        F::closed();
        assert forall|i: int| 0 <= i < groups implies (#[trigger] ratios[i]).valid() by {
            assert(crate::field::invertible(last[groups + i]));
            crate::field::lemma_invertible(last[groups + i]);
        }
    }
    lemma_even_odd(ratios);
    let half = groups / 2;
    assert(crate::quotient_gkr::last_ratios(last, 0) =~= Seq::new(half, |i: int| ratios[2 * i]));
    assert(crate::quotient_gkr::last_ratios(last, 1) =~= Seq::new(
        half,
        |i: int| ratios[2 * i + 1],
    ));
}

/// A sum by entries at even and at odd places.
proof fn lemma_even_odd<F: Field>(s: Seq<F>)
    requires
        s.len() % 2 == 0,
        crate::field::all_valid(s),
    ensures
        crate::field::total(s) == crate::field::total(
            Seq::new(s.len() / 2, |i: int| s[2 * i]),
        ).plus(crate::field::total(Seq::new(s.len() / 2, |i: int| s[2 * i + 1]))),
    decreases s.len(),
{
    F::closed();
    let even = Seq::new(s.len() / 2, |i: int| s[2 * i]);
    let odd = Seq::new(s.len() / 2, |i: int| s[2 * i + 1]);
    if s.len() == 0 {
        F::plus_nil(F::nil());
    } else {
        let front = s.drop_last().drop_last();
        lemma_even_odd(front);
        assert(even.drop_last() =~= Seq::new(front.len() / 2, |i: int| front[2 * i]));
        assert(odd.drop_last() =~= Seq::new(front.len() / 2, |i: int| front[2 * i + 1]));
        let (e, o) = (s[s.len() - 2], s[s.len() - 1]);
        let (x, y) = (
            crate::field::total(even.drop_last()),
            crate::field::total(odd.drop_last()),
        );
        assert(crate::field::all_valid(even.drop_last()));
        assert(crate::field::all_valid(odd.drop_last()));
        crate::field::lemma_total_valid(even.drop_last());
        crate::field::lemma_total_valid(odd.drop_last());
        assert(even.last() == e && odd.last() == o);
        assert(crate::field::total(s) == crate::field::total(s.drop_last()).plus(o));
        assert(crate::field::total(s.drop_last()) == crate::field::total(front).plus(e));
        F::plus_associates(x.plus(y), e, o);
        crate::field::lemma_exchange(x, y, e, o);
    }
}

/// What the verifier checks at each round. A sumcheck passes if and only if its sum is that of all
/// the round's claims, each times its power of `alpha`. Evaluations pass if and only if `eq` of
/// the two points times the sum of their fractions, batched alike, is what the sumcheck left: for
/// each pair of halves of numerators `n0 d1 + n1 d0`, for each of denominators `d0 d1`. What passes
/// keeps the proved sum and all that the next check needs; what does not is an invalid proof.
pub proof fn law_round_verdict<F: Field>(
    rounds: nat,
    round: nat,
    quotient: F,
    point: Seq<F>,
    claims: Seq<F>,
    alpha: F,
    sum: F,
    sumcheck_point: Seq<F>,
    sumcheck_value: F,
    evals: Seq<F>,
)
    ensures
        crate::quotient_gkr::next_stage(
            rounds,
            GkrStage::Sumcheck { round, quotient, point, claims, alpha },
            Answer::Sumcheck(sum, sumcheck_point, sumcheck_value),
        ) == if sum == crate::field::total(
            Seq::new(
                claims.len(),
                |i: int| claims[i].times(crate::field::power(alpha, i as nat)),
            ),
        ) {
            GkrStage::Evaluations { round, quotient, point, alpha, sumcheck_point, sumcheck_value }
        } else {
            GkrStage::Rejected(ProofError::InvalidProof)
        },
        crate::quotient_gkr::next_stage(
            rounds,
            GkrStage::Evaluations {
                round,
                quotient,
                point,
                alpha,
                sumcheck_point,
                sumcheck_value,
            },
            Answer::Scalars(evals),
        ) == if sumcheck_value == crate::multilinear::eq_poly(point, sumcheck_point).times(
            crate::field::total(
                Seq::new(
                    evals.len() / 2,
                    |i: int|
                        (if i < evals.len() / 2 / 2 {
                            evals[2 * i].times(evals[evals.len() / 2 + 2 * i + 1]).plus(
                                evals[2 * i + 1].times(evals[evals.len() / 2 + 2 * i]),
                            )
                        } else {
                            evals[2 * i].times(evals[2 * i + 1])
                        }).times(crate::field::power(alpha, i as nat)),
                ),
            ),
        ) {
            GkrStage::Folding { round, quotient, sumcheck_point, evals }
        } else {
            GkrStage::Rejected(ProofError::InvalidProof)
        },
{
    assert(crate::field::products(claims, crate::field::powers(alpha, claims.len()))
        =~= Seq::new(
        claims.len(),
        |i: int| claims[i].times(crate::field::power(alpha, i as nat)),
    ));
    assert(crate::field::products(
        crate::quotient_gkr::folded(evals),
        crate::field::powers(alpha, evals.len() / 2),
    ) =~= Seq::new(
        evals.len() / 2,
        |i: int|
            (if i < evals.len() / 2 / 2 {
                evals[2 * i].times(evals[evals.len() / 2 + 2 * i + 1]).plus(
                    evals[2 * i + 1].times(evals[evals.len() / 2 + 2 * i]),
                )
            } else {
                evals[2 * i].times(evals[2 * i + 1])
            }).times(crate::field::power(alpha, i as nat)),
    ));
}

/// How the verifier moves between its checks. The sum that it proves is that of the last layer and
/// stays the same to the end. Claims on columns are their halves' values on a line,
/// `e0 + beta (e1 - e0)`, at the point with `beta` in front; at the last round, weighted sums of the
/// values of numerators and of denominators. A failed read is rejected with its error, and a verifier
/// that has accepted or rejected moves no further.
pub proof fn law_verifier_moves<F: Field>(
    rounds: nat,
    round: nat,
    quotient: F,
    point: Seq<F>,
    values: Seq<F>,
    challenge: F,
    selectors: Seq<F>,
    stage: GkrStage<F>,
    error: ProofError,
    answer: Answer<F>,
)
    ensures
        crate::quotient_gkr::next_stage(
            rounds,
            GkrStage::FirstChallenge { last: values, quotient },
            Answer::Challenge(challenge),
        ) == (GkrStage::Batching {
            round: 1,
            quotient,
            point: seq![challenge],
            claims: Seq::new(
                values.len() / 2,
                |i: int|
                    values[2 * i].plus(
                        challenge.times(values[2 * i + 1].minus(values[2 * i])),
                    ),
            ),
        }),
        crate::quotient_gkr::next_stage(
            rounds,
            GkrStage::Batching { round, quotient, point, claims: values },
            Answer::Challenge(challenge),
        ) == (GkrStage::Sumcheck { round, quotient, point, claims: values, alpha: challenge }),
        crate::quotient_gkr::next_stage(
            rounds,
            GkrStage::Folding { round, quotient, sumcheck_point: point, evals: values },
            Answer::Challenge(challenge),
        ) == (GkrStage::Batching {
            round: round + 1,
            quotient,
            point: seq![challenge] + point,
            claims: Seq::new(
                values.len() / 2,
                |i: int|
                    values[2 * i].plus(
                        challenge.times(values[2 * i + 1].minus(values[2 * i])),
                    ),
            ),
        }),
        values.len() == 2 * selectors.len() ==> crate::quotient_gkr::next_stage(
            rounds,
            GkrStage::Folding { round, quotient, sumcheck_point: point, evals: values },
            Answer::SkipChallenge(challenge, selectors),
        ) == (GkrStage::Accepted {
            quotient,
            point: seq![challenge] + point,
            numerator: crate::field::total(
                Seq::new(selectors.len(), |i: int| values[i].times(selectors[i])),
            ),
            denominator: crate::field::total(
                Seq::new(
                    selectors.len(),
                    |i: int| values[selectors.len() + i].times(selectors[i]),
                ),
            ),
        }),
        crate::quotient_gkr::next_stage(rounds, stage, Answer::Failed(error)) == GkrStage::<
            F,
        >::Rejected(error),
        (stage is Accepted || stage is Rejected) && !(answer is Failed)
            ==> crate::quotient_gkr::next_stage(rounds, stage, answer) == stage,
{
    assert(crate::quotient_gkr::lines(values, challenge) =~= Seq::new(
        values.len() / 2,
        |i: int| values[2 * i].plus(challenge.times(values[2 * i + 1].minus(values[2 * i]))),
    ));
    if values.len() == 2 * selectors.len() {
        let groups = selectors.len() as int;
        assert(crate::field::products(values.take(groups), selectors) =~= Seq::new(
            selectors.len(),
            |i: int| values[i].times(selectors[i]),
        ));
        assert(crate::field::products(values.skip(groups), selectors) =~= Seq::new(
            selectors.len(),
            |i: int| values[selectors.len() + i].times(selectors[i]),
        ));
    }
}

/// What the verifier asks for fits where it stands: two values for each column at the start and
/// behind each sumcheck, a sumcheck of degree three in as many variables as its point has, and,
/// exactly when the sumchecks are done, the weights of the columns.
pub proof fn law_verifier_asks<F: Field>(groups: usize, rounds: nat, stage: GkrStage<F>)
    requires
        crate::quotient_gkr::stage_fits(groups as nat, rounds, stage),
        2 * groups <= usize::MAX,
        rounds <= usize::MAX,
    ensures
        match crate::quotient_gkr::wanted(groups, rounds, stage) {
            VerifierRequest::Scalars(n) => (stage is Opening || stage is Evaluations) && n == 2
                * groups,
            VerifierRequest::Challenge => stage is FirstChallenge || stage is Batching || (
            stage matches GkrStage::Folding { round, .. } && round < rounds),
            VerifierRequest::Sumcheck { n_vars, degree } => {
                &&& stage matches GkrStage::Sumcheck { point, .. }
                &&& n_vars == point.len()
                &&& degree == 3
            },
            VerifierRequest::SkipChallenge(n) => {
                &&& stage matches GkrStage::Folding { round, .. }
                &&& round == rounds
                &&& n == groups
            },
            VerifierRequest::Nothing => stage is Accepted || stage is Rejected,
        },
{
}

/// What a prover wants done fits where it stands: a sumcheck over as many variables as its point
/// has, with one power of `alpha` for each column, on the sum of the claims times these powers; and
/// the last layer, and all evaluations behind each sumcheck, sent before the next challenge, which
/// behind the last sumcheck comes with the weights of the columns.
pub proof fn law_prover_asks<F: Field>(groups: nat, rounds: nat, stage: GkrProverStage<F>)
    requires
        crate::quotient_gkr::prover_stage_fits(groups, rounds, stage),
    ensures
        match crate::quotient_gkr::task(groups, rounds, stage) {
            Task::SendThenChallenge(sent) => {
                ||| (stage matches GkrProverStage::Opening { last } && sent == last)
                ||| (stage matches GkrProverStage::Folding { round, evals, .. } && round < rounds
                    && sent == evals)
            },
            Task::SendThenSkipChallenge(sent, n) => {
                &&& stage matches GkrProverStage::Folding { round, evals, .. }
                &&& round == rounds
                &&& sent == evals
                &&& n == groups
            },
            Task::Challenge => stage is Batching,
            Task::Sumcheck { n_vars, alpha_powers, point, sum } => {
                &&& stage matches GkrProverStage::Sumcheck { point: at, claims, alpha, .. }
                &&& point == at
                &&& n_vars == at.len()
                &&& alpha_powers.len() == claims.len() == groups
                &&& forall|i: int|
                    0 <= i < groups ==> #[trigger] alpha_powers[i] == crate::field::power(
                        alpha,
                        i as nat,
                    )
                &&& sum == crate::field::total(
                    Seq::new(groups, |i: int| claims[i].times(alpha_powers[i])),
                )
            },
            Task::Nothing => stage is Finished,
        },
{
    if let GkrProverStage::Sumcheck { claims, alpha, .. } = stage {
        let powers = crate::field::powers(alpha, groups);
        assert(crate::field::products(claims, powers) =~= Seq::new(
            groups,
            |i: int| claims[i].times(powers[i]),
        ));
    }
}

/// Prover and verifier move alike: from the same values and the same challenge both come to the
/// same round, point and claims, and at the end to the same point and claims.
pub proof fn law_prover_follows<F: Field>(
    rounds: nat,
    round: nat,
    quotient: F,
    point: Seq<F>,
    values: Seq<F>,
    challenge: F,
    selectors: Seq<F>,
)
    ensures
        ({
            let drawn = Outcome::Challenge(challenge);
            let told = Answer::Challenge(challenge);
            let first = crate::quotient_gkr::next_prover_stage(
                GkrProverStage::Opening { last: values },
                drawn,
            );
            let folded = crate::quotient_gkr::next_prover_stage(
                GkrProverStage::Folding { round, sumcheck_point: point, evals: values },
                drawn,
            );
            let ended = crate::quotient_gkr::next_prover_stage(
                GkrProverStage::Folding { round, sumcheck_point: point, evals: values },
                Outcome::SkipChallenge(challenge, selectors),
            );
            &&& crate::quotient_gkr::next_stage(
                rounds,
                GkrStage::FirstChallenge { last: values, quotient },
                told,
            ) == (GkrStage::Batching {
                round: first->Batching_round,
                quotient,
                point: first->Batching_point,
                claims: first->Batching_claims,
            })
            &&& first is Batching
            &&& crate::quotient_gkr::next_stage(
                rounds,
                GkrStage::Folding { round, quotient, sumcheck_point: point, evals: values },
                told,
            ) == (GkrStage::Batching {
                round: folded->Batching_round,
                quotient,
                point: folded->Batching_point,
                claims: folded->Batching_claims,
            })
            &&& folded is Batching
            &&& crate::quotient_gkr::next_stage(
                rounds,
                GkrStage::Folding { round, quotient, sumcheck_point: point, evals: values },
                Answer::SkipChallenge(challenge, selectors),
            ) == (GkrStage::Accepted {
                quotient,
                point: ended->Finished_point,
                numerator: ended->numerator,
                denominator: ended->denominator,
            })
            &&& ended is Finished
            &&& crate::quotient_gkr::next_prover_stage(
                GkrProverStage::Batching { round, point, claims: values },
                drawn,
            ) == (GkrProverStage::Sumcheck { round, point, claims: values, alpha: challenge })
            &&& crate::quotient_gkr::next_prover_stage(
                GkrProverStage::Sumcheck { round, point, claims: values, alpha: challenge },
                Outcome::Sumcheck(selectors, values),
            ) == (GkrProverStage::Folding { round, sumcheck_point: selectors, evals: values })
        }),
{
}

/// The sequence that a prover opens with holds its last layer column by column, two entries each.
pub proof fn law_flattened<F>(cols: Seq<Seq<F>>, c: int)
    requires
        0 <= c < cols.len(),
    ensures
        crate::quotient_gkr::flattened(cols).len() == 2 * cols.len(),
        crate::quotient_gkr::flattened(cols)[2 * c] == cols[c][0],
        crate::quotient_gkr::flattened(cols)[2 * c + 1] == cols[c][1],
{
}

} // verus!
