//! A whole session of the layered proof of a sum of fractions: what an honest prover leaves on the
//! transcript, and that the verifier accepts it.

use vstd::prelude::*;
use vstd::arithmetic::power2::*;
use crate::field::Field;
use crate::quotient_gkr::{Answer, GkrProverStage, GkrStage, Outcome, Task};

verus! {

/// The challenges of a session, and the points that its sumchecks come to.
pub struct Coins<F> {
    /// The point of the claims on the last layer.
    pub first: F,
    /// The challenge that batches the claims of each round.
    pub alphas: Seq<F>,
    /// The point of each round's sumcheck.
    pub points: Seq<Seq<F>>,
    /// The challenge that folds the evaluations of each round.
    pub betas: Seq<F>,
    /// The values of the univariate selectors at the last of them.
    pub selectors: Seq<F>,
}

impl<F: Field> Coins<F> {
    /// Whether the coins are those of a session of so many rounds over so many columns.
    pub open spec fn fit(self, rounds: nat, groups: nat) -> bool {
        &&& self.first.valid()
        &&& self.alphas.len() == rounds
        &&& self.points.len() == rounds
        &&& self.betas.len() == rounds
        &&& self.selectors.len() == groups
        &&& crate::field::all_valid(self.alphas)
        &&& crate::field::all_valid(self.betas)
        &&& crate::field::all_valid(self.selectors)
        &&& forall|r: int|
            0 <= r < rounds ==> (#[trigger] self.points[r]).len() == r + 1
                && crate::field::all_valid(self.points[r])
    }
}

/// The verifier behind a sequence of replies.
pub open spec fn run<F: Field>(rounds: nat, stage: GkrStage<F>, answers: Seq<Answer<F>>) -> GkrStage<
    F,
>
    decreases answers.len(),
{
    if answers.len() == 0 {
        stage
    } else {
        crate::quotient_gkr::next_stage(
            rounds,
            run(rounds, stage, answers.drop_last()),
            answers.last(),
        )
    }
}

/// What a verifier is told when a prover's task is done: the scalars that the task asks to send, the
/// challenges that are drawn, and of a sumcheck the sum that the task is about, its point, and the
/// value there of what it adds up.
pub open spec fn message<F: Field>(t: Task<F>, outcome: Outcome<F>) -> Seq<Answer<F>> {
    match (t, outcome) {
        (Task::SendThenChallenge(scalars), Outcome::Challenge(c)) => seq![
            Answer::Scalars(scalars),
            Answer::Challenge(c),
        ],
        (Task::SendThenSkipChallenge(scalars, _), Outcome::SkipChallenge(c, selectors)) => seq![
            Answer::Scalars(scalars),
            Answer::SkipChallenge(c, selectors),
        ],
        (Task::Challenge, Outcome::Challenge(c)) => seq![Answer::Challenge(c)],
        (
            Task::Sumcheck { n_vars: _, alpha_powers, point, sum },
            Outcome::Sumcheck(at, evals),
        ) => seq![
            Answer::Sumcheck(
                sum,
                at,
                crate::multilinear::eq_poly(point, at).times(
                    crate::field::dot(crate::quotient_gkr::folded(evals), alpha_powers),
                ),
            ),
        ],
        (_, _) => Seq::empty(),
    }
}

/// The prover behind a sequence of outcomes.
pub open spec fn prove<F: Field>(stage: GkrProverStage<F>, outcomes: Seq<Outcome<F>>) -> GkrProverStage<
    F,
>
    decreases outcomes.len(),
{
    if outcomes.len() == 0 {
        stage
    } else {
        crate::quotient_gkr::next_prover_stage(
            prove(stage, outcomes.drop_last()),
            outcomes.last(),
        )
    }
}

/// The transcript that a prover leaves: at every stage, what its task and the outcome give.
pub open spec fn transcript<F: Field>(
    groups: nat,
    rounds: nat,
    stage: GkrProverStage<F>,
    outcomes: Seq<Outcome<F>>,
) -> Seq<Answer<F>>
    decreases outcomes.len(),
{
    if outcomes.len() == 0 {
        Seq::empty()
    } else {
        transcript(groups, rounds, stage, outcomes.drop_last()) + message(
            crate::quotient_gkr::task(groups, rounds, prove(stage, outcomes.drop_last())),
            outcomes.last(),
        )
    }
}

/// The values, at the point of a round's sumcheck, of the columns that it runs over.
pub open spec fn evals_of_round<F: Field>(
    nums: Seq<F>,
    dens: Seq<F>,
    a: nat,
    b: nat,
    coins: Coins<F>,
    round: nat,
) -> Seq<F> {
    let cols = crate::fractions::layer(nums, dens, pow2(b), (a - b - round) as nat);
    Seq::new(
        2 * pow2(b),
        |i: int|
            crate::multilinear::mle(
                crate::fractions::split(cols, 2)[i],
                coins.points[round - 1],
            ),
    )
}

/// What an honest prover gets in a round.
pub open spec fn outcomes_of_round<F: Field>(
    nums: Seq<F>,
    dens: Seq<F>,
    a: nat,
    b: nat,
    coins: Coins<F>,
    round: nat,
) -> Seq<Outcome<F>> {
    seq![
        Outcome::Challenge(coins.alphas[round - 1]),
        Outcome::Sumcheck(
            coins.points[round - 1],
            evals_of_round(nums, dens, a, b, coins, round),
        ),
        if round < a - b {
            Outcome::Challenge(coins.betas[round - 1])
        } else {
            Outcome::SkipChallenge(coins.betas[round - 1], coins.selectors)
        },
    ]
}

/// What an honest prover gets up to the end of a round.
pub open spec fn outcomes_up_to<F: Field>(
    nums: Seq<F>,
    dens: Seq<F>,
    a: nat,
    b: nat,
    coins: Coins<F>,
    round: nat,
) -> Seq<Outcome<F>>
    decreases round,
{
    if round == 0 {
        seq![Outcome::Challenge(coins.first)]
    } else {
        outcomes_up_to(nums, dens, a, b, coins, (round - 1) as nat) + outcomes_of_round(
            nums,
            dens,
            a,
            b,
            coins,
            round,
        )
    }
}

/// The stage that an honest prover starts from.
pub open spec fn honest_start<F: Field>(
    nums: Seq<F>,
    dens: Seq<F>,
    a: nat,
    b: nat,
) -> GkrProverStage<F> {
    GkrProverStage::Opening {
        last: crate::quotient_gkr::last_layer(nums, dens, pow2(b), (a - b) as nat),
    }
}

/// The transcript of a whole honest session.
pub open spec fn honest_transcript<F: Field>(
    nums: Seq<F>,
    dens: Seq<F>,
    a: nat,
    b: nat,
    coins: Coins<F>,
) -> Seq<Answer<F>> {
    transcript(
        pow2(b),
        (a - b) as nat,
        honest_start(nums, dens, a, b),
        outcomes_up_to(nums, dens, a, b, coins, (a - b) as nat),
    )
}

pub(crate) proof fn lemma_run_concat<F: Field>(
    rounds: nat,
    stage: GkrStage<F>,
    first: Seq<Answer<F>>,
    second: Seq<Answer<F>>,
)
    ensures
        run(rounds, stage, first + second) == run(rounds, run(rounds, stage, first), second),
    decreases second.len(),
{
    if second.len() == 0 {
        assert(first + second =~= first);
    } else {
        assert((first + second).drop_last() =~= first + second.drop_last());
        lemma_run_concat(rounds, stage, first, second.drop_last());
    }
}

proof fn lemma_prove_concat<F: Field>(
    groups: nat,
    rounds: nat,
    stage: GkrProverStage<F>,
    first: Seq<Outcome<F>>,
    second: Seq<Outcome<F>>,
)
    ensures
        prove(stage, first + second) == prove(prove(stage, first), second),
        transcript(groups, rounds, stage, first + second) == transcript(
            groups,
            rounds,
            stage,
            first,
        ) + transcript(groups, rounds, prove(stage, first), second),
    decreases second.len(),
{
    if second.len() == 0 {
        let t = transcript(groups, rounds, stage, first);
        assert(first + second =~= first);
        assert(t + Seq::<Answer<F>>::empty() =~= t);
    } else {
        assert((first + second).drop_last() =~= first + second.drop_last());
        lemma_prove_concat(groups, rounds, stage, first, second.drop_last());
        let (t, u, m) = (
            transcript(groups, rounds, stage, first),
            transcript(groups, rounds, prove(stage, first), second.drop_last()),
            message(
                crate::quotient_gkr::task(
                    groups,
                    rounds,
                    prove(prove(stage, first), second.drop_last()),
                ),
                second.last(),
            ),
        );
        assert((t + u) + m =~= t + (u + m));
    }
}

/// Whether a verifier has come to an end.
pub open spec fn ended<F>(stage: GkrStage<F>) -> bool {
    stage is Accepted || stage is Rejected
}

/// Whether no proper part of a sequence of replies brings the verifier to an end.
pub open spec fn runs_on<F: Field>(
    rounds: nat,
    stage: GkrStage<F>,
    answers: Seq<Answer<F>>,
) -> bool {
    forall|k: int| 0 <= k < answers.len() ==> !ended(#[trigger] run(rounds, stage, answers.take(k)))
}

proof fn lemma_runs_on_concat<F: Field>(
    rounds: nat,
    stage: GkrStage<F>,
    first: Seq<Answer<F>>,
    second: Seq<Answer<F>>,
)
    requires
        runs_on(rounds, stage, first),
        runs_on(rounds, run(rounds, stage, first), second),
    ensures
        runs_on(rounds, stage, first + second),
{
    let all = first + second;
    assert forall|k: int| 0 <= k < all.len() implies !ended(
        #[trigger] run(rounds, stage, all.take(k)),
    ) by {
        if k < first.len() {
            assert(all.take(k) =~= first.take(k));
        } else {
            assert(all.take(k) =~= first + second.take(k - first.len()));
            lemma_run_concat(rounds, stage, first, second.take(k - first.len()));
        }
    }
}

/// Whether no proper part of a sequence of outcomes brings the prover to its end.
pub open spec fn proves_on<F: Field>(stage: GkrProverStage<F>, outcomes: Seq<Outcome<F>>) -> bool {
    forall|k: int|
        0 <= k < outcomes.len() ==> !((#[trigger] prove(stage, outcomes.take(k))) is Finished)
}

proof fn lemma_proves_on_concat<F: Field>(
    stage: GkrProverStage<F>,
    first: Seq<Outcome<F>>,
    second: Seq<Outcome<F>>,
)
    requires
        proves_on(stage, first),
        proves_on(prove(stage, first), second),
    ensures
        proves_on(stage, first + second),
{
    let all = first + second;
    assert forall|k: int| 0 <= k < all.len() implies !((#[trigger] prove(
        stage,
        all.take(k),
    )) is Finished) by {
        if k < first.len() {
            assert(all.take(k) =~= first.take(k));
        } else {
            assert(all.take(k) =~= first + second.take(k - first.len()));
            lemma_prove_concat(0, 0, stage, first, second.take(k - first.len()));
        }
    }
}

/// Whether the verifier can take every reply of a sequence, one after another.
pub open spec fn takes_all<F: Field>(
    groups: usize,
    rounds: nat,
    stage: GkrStage<F>,
    answers: Seq<Answer<F>>,
) -> bool {
    forall|k: int|
        0 <= k < answers.len() ==> crate::quotient_gkr::stage_takes(
            groups,
            rounds,
            #[trigger] run(rounds, stage, answers.take(k)),
            answers[k],
        )
}

proof fn lemma_takes_all_concat<F: Field>(
    groups: usize,
    rounds: nat,
    stage: GkrStage<F>,
    first: Seq<Answer<F>>,
    second: Seq<Answer<F>>,
)
    requires
        takes_all(groups, rounds, stage, first),
        takes_all(groups, rounds, run(rounds, stage, first), second),
    ensures
        takes_all(groups, rounds, stage, first + second),
{
    let all = first + second;
    assert forall|k: int| 0 <= k < all.len() implies crate::quotient_gkr::stage_takes(
        groups,
        rounds,
        #[trigger] run(rounds, stage, all.take(k)),
        all[k],
    ) by {
        if k < first.len() {
            assert(all.take(k) =~= first.take(k));
            assert(all[k] == first[k]);
        } else {
            let j = k - first.len();
            assert(all.take(k) =~= first + second.take(j));
            assert(all[k] == second[j]);
            lemma_run_concat(rounds, stage, first, second.take(j));
        }
    }
}

/// Whether every outcome of a sequence, one after another, is one of what the prover wants done.
pub open spec fn all_come<F: Field>(
    groups: nat,
    rounds: nat,
    stage: GkrProverStage<F>,
    outcomes: Seq<Outcome<F>>,
) -> bool {
    forall|k: int|
        0 <= k < outcomes.len() ==> crate::quotient_gkr::comes_of(
            groups,
            outcomes[k],
            crate::quotient_gkr::task(groups, rounds, #[trigger] prove(stage, outcomes.take(k))),
        )
}

proof fn lemma_all_come_concat<F: Field>(
    groups: nat,
    rounds: nat,
    stage: GkrProverStage<F>,
    first: Seq<Outcome<F>>,
    second: Seq<Outcome<F>>,
)
    requires
        all_come(groups, rounds, stage, first),
        all_come(groups, rounds, prove(stage, first), second),
    ensures
        all_come(groups, rounds, stage, first + second),
{
    let all = first + second;
    assert forall|k: int| 0 <= k < all.len() implies crate::quotient_gkr::comes_of(
        groups,
        all[k],
        crate::quotient_gkr::task(groups, rounds, #[trigger] prove(stage, all.take(k))),
    ) by {
        if k < first.len() {
            assert(all.take(k) =~= first.take(k));
            assert(all[k] == first[k]);
        } else {
            let j = k - first.len();
            assert(all.take(k) =~= first + second.take(j));
            assert(all[k] == second[j]);
            lemma_prove_concat(groups, rounds, stage, first, second.take(j));
        }
    }
}

/// Whether the numbers of columns and rounds are in the machine's range.
pub open spec fn in_range(a: nat, b: nat) -> bool {
    2 * pow2(b) <= usize::MAX && a - b < usize::MAX
}

proof fn lemma_batched_valid<F: Field>(claims: Seq<F>, alpha: F)
    requires
        crate::field::all_valid(claims),
        alpha.valid(),
    ensures
        crate::quotient_gkr::batched(claims, alpha).valid(),
{
    let weights = crate::field::powers(alpha, claims.len());
    assert forall|i: int| 0 <= i < weights.len() implies (#[trigger] weights[i]).valid() by {
        crate::field::lemma_power_valid(alpha, i as nat);
    }
    crate::field::lemma_products_valid(claims, weights);
    crate::field::lemma_total_valid(crate::field::products(claims, weights));
}

proof fn lemma_combination_valid<F: Field>(evals: Seq<F>, alpha: F)
    requires
        evals.len() % 4 == 0,
        crate::field::all_valid(evals),
        alpha.valid(),
    ensures
        crate::quotient_gkr::combination(evals, alpha).valid(),
{
    F::closed();
    let entries = crate::quotient_gkr::folded(evals);
    let groups = (evals.len() / 2) as int;
    assert forall|i: int| 0 <= i < entries.len() implies (#[trigger] entries[i]).valid() by {
        assert(evals[2 * i].valid() && evals[2 * i + 1].valid());
        if i < groups / 2 {
            assert(evals[groups + 2 * i].valid() && evals[groups + 2 * i + 1].valid());
        }
    }
    lemma_batched_valid(entries, alpha);
}

proof fn lemma_lines_valid<F: Field>(evals: Seq<F>, beta: F)
    requires
        crate::field::all_valid(evals),
        beta.valid(),
    ensures
        crate::field::all_valid(crate::quotient_gkr::lines(evals, beta)),
{
    F::closed();
    let claims = crate::quotient_gkr::lines(evals, beta);
    assert forall|i: int| 0 <= i < claims.len() implies (#[trigger] claims[i]).valid() by {
        assert(evals[2 * i].valid() && evals[2 * i + 1].valid());
    }
}

/// The last layer is as long as its columns are many, and made of elements.
proof fn lemma_last_valid<F: Field>(nums: Seq<F>, dens: Seq<F>, a: nat, b: nat)
    requires
        crate::gkr_laws::proper(nums, dens, a, b),
    ensures
        ({
            let last = crate::quotient_gkr::last_layer(nums, dens, pow2(b), (a - b) as nat);
            last.len() == 2 * pow2(b) && crate::field::all_valid(last)
        }),
{
    let k = (a - b) as nat;
    let cols = crate::fractions::layer(nums, dens, pow2(b), k);
    let last = crate::quotient_gkr::last_layer(nums, dens, pow2(b), k);
    crate::fractions::lemma_layer_shape(nums, dens, a, b, k);
    lemma2_to64();
    assert forall|i: int| 0 <= i < last.len() implies (#[trigger] last[i]).valid() by {
        assert(cols[i / 2].len() == 2);
        assert(crate::field::all_valid(cols[i / 2]));
        assert(cols[i / 2][i % 2].valid());
    }
}

/// The values of a round's columns at its point are elements.
proof fn lemma_evals_valid<F: Field>(
    nums: Seq<F>,
    dens: Seq<F>,
    a: nat,
    b: nat,
    coins: Coins<F>,
    round: nat,
)
    requires
        crate::gkr_laws::proper(nums, dens, a, b),
        coins.fit((a - b) as nat, pow2(b)),
        1 <= round <= a - b,
    ensures
        crate::field::all_valid(evals_of_round(nums, dens, a, b, coins, round)),
{
    let k = (a - b - round) as nat;
    let cols = crate::fractions::layer(nums, dens, pow2(b), k);
    let halves = crate::fractions::split(cols, 2);
    let evals = evals_of_round(nums, dens, a, b, coins, round);
    let at = coins.points[round - 1];
    crate::fractions::lemma_layer_shape(nums, dens, a, b, k);
    lemma_pow2_unfold((round + 1) as nat);
    assert(at.len() == round && crate::field::all_valid(at));
    assert forall|i: int| 0 <= i < evals.len() implies (#[trigger] evals[i]).valid() by {
        let col = cols[i / 2];
        assert(col.len() == 2 * pow2(round));
        assert(crate::field::all_valid(col));
        crate::fractions::lemma_chunk_bounds(col.len(), 2, (i % 2) as nat);
        let half = crate::fractions::chunk(col, 2, (i % 2) as nat);
        assert(halves[i] == half);
        assert(half.len() == pow2(round));
        assert(crate::field::all_valid(half));
        crate::multilinear::lemma_mle_valid(half, at);
    }
}

/// What a round of an honest session starts from is made of elements.
proof fn lemma_round_starts<F: Field>(
    nums: Seq<F>,
    dens: Seq<F>,
    a: nat,
    b: nat,
    coins: Coins<F>,
    round: nat,
)
    requires
        crate::gkr_laws::proper(nums, dens, a, b),
        coins.fit((a - b) as nat, pow2(b)),
        1 <= round <= a - b,
    ensures
        point_of_round(coins, round).len() == round,
        crate::field::all_valid(point_of_round(coins, round)),
        claims_of_round(nums, dens, a, b, coins, round).len() == pow2(b),
        crate::field::all_valid(claims_of_round(nums, dens, a, b, coins, round)),
{
    let point = point_of_round(coins, round);
    if round <= 1 {
        lemma_last_valid(nums, dens, a, b);
        lemma_lines_valid(
            crate::quotient_gkr::last_layer(nums, dens, pow2(b), (a - b) as nat),
            coins.first,
        );
    } else {
        let before = (round - 1) as nat;
        lemma_evals_valid(nums, dens, a, b, coins, before);
        lemma_lines_valid(
            evals_of_round(nums, dens, a, b, coins, before),
            coins.betas[round - 2],
        );
        let rest = coins.points[round - 2];
        assert(rest.len() == before && crate::field::all_valid(rest));
        assert forall|i: int| 0 <= i < point.len() implies (#[trigger] point[i]).valid() by {
            if i > 0 {
                assert(point[i] == rest[i - 1]);
            }
        }
    }
}

/// The messages of a round, and where prover and verifier come to with them.
proof fn lemma_round<F: Field>(
    nums: Seq<F>,
    dens: Seq<F>,
    a: nat,
    b: nat,
    coins: Coins<F>,
    round: nat,
    quotient: F,
    point: Seq<F>,
    claims: Seq<F>,
)
    requires
        b < a,
        1 <= round <= a - b,
    ensures
        ({
            let rounds = (a - b) as nat;
            let outcomes = outcomes_of_round(nums, dens, a, b, coins, round);
            let evals = evals_of_round(nums, dens, a, b, coins, round);
            let (beta, at) = (coins.betas[round - 1], coins.points[round - 1]);
            let p = GkrProverStage::Batching { round, point, claims };
            let v = GkrStage::Batching { round, quotient, point, claims };
            let messages = transcript(pow2(b), rounds, p, outcomes);
            &&& runs_on(rounds, v, messages)
            &&& proves_on(p, outcomes)
            &&& round_valid(nums, dens, a, b, coins, round, point, claims) ==> {
                &&& all_come(pow2(b), rounds, p, outcomes)
                &&& in_range(a, b) ==> takes_all(pow2(b) as usize, rounds, v, messages)
            }
            &&& round < rounds ==> {
                &&& prove(p, outcomes) == (GkrProverStage::Batching {
                    round: round + 1,
                    point: seq![beta] + at,
                    claims: crate::quotient_gkr::lines(evals, beta),
                })
                &&& run(rounds, v, messages) == (GkrStage::Batching {
                    round: round + 1,
                    quotient,
                    point: seq![beta] + at,
                    claims: crate::quotient_gkr::lines(evals, beta),
                })
            }
            &&& round == rounds ==> {
                &&& prove(p, outcomes) == (GkrProverStage::Finished {
                    point: seq![beta] + at,
                    numerator: crate::quotient_gkr::skip_claims(evals, coins.selectors)[0],
                    denominator: crate::quotient_gkr::skip_claims(evals, coins.selectors)[1],
                })
                &&& run(rounds, v, messages) == (GkrStage::Accepted {
                    quotient,
                    point: seq![beta] + at,
                    numerator: crate::quotient_gkr::skip_claims(evals, coins.selectors)[0],
                    denominator: crate::quotient_gkr::skip_claims(evals, coins.selectors)[1],
                })
            }
        }),
{
    let rounds = (a - b) as nat;
    let outcomes = outcomes_of_round(nums, dens, a, b, coins, round);
    let evals = evals_of_round(nums, dens, a, b, coins, round);
    let (alpha, beta, at) = (
        coins.alphas[round - 1],
        coins.betas[round - 1],
        coins.points[round - 1],
    );
    let p = GkrProverStage::Batching { round, point, claims };
    let v = GkrStage::Batching { round, quotient, point, claims };
    // The prover, outcome by outcome.
    let (o1, o2) = (outcomes.take(1), outcomes.take(2));
    assert(outcomes.drop_last() =~= o2);
    assert(o2.drop_last() =~= o1);
    assert(o1.drop_last() =~= Seq::<Outcome<F>>::empty());
    let p1 = GkrProverStage::Sumcheck { round, point, claims, alpha };
    let p2 = GkrProverStage::Folding { round, sumcheck_point: at, evals };
    assert(prove(p, o1.drop_last()) == p);
    assert(prove(p, o1) == p1);
    assert(prove(p, o2) == p2);
    assert forall|k: int| 0 <= k < outcomes.len() implies !((#[trigger] prove(
        p,
        outcomes.take(k),
    )) is Finished) by {
        assert(k == 0 || k == 1 || k == 2);
        assert(outcomes.take(0) =~= o1.drop_last());
    }
    // The messages, one by one.
    let m1 = Answer::Challenge(alpha);
    let m2 = Answer::Sumcheck(
        crate::quotient_gkr::batched(claims, alpha),
        at,
        crate::multilinear::eq_poly(point, at).times(
            crate::quotient_gkr::combination(evals, alpha),
        ),
    );
    let m3 = Answer::Scalars(evals);
    let m4 = if round < rounds {
        Answer::Challenge(beta)
    } else {
        Answer::SkipChallenge(beta, coins.selectors)
    };
    let messages = transcript(pow2(b), rounds, p, outcomes);
    assert(transcript(pow2(b), rounds, p, o1.drop_last()) =~= Seq::<Answer<F>>::empty());
    assert(transcript(pow2(b), rounds, p, o1) =~= seq![m1]);
    assert(transcript(pow2(b), rounds, p, o2) =~= seq![m1, m2]);
    assert(messages =~= seq![m1, m2, m3, m4]);
    // The verifier, message by message.
    let v1 = GkrStage::Sumcheck { round, quotient, point, claims, alpha };
    let v2 = GkrStage::Evaluations {
        round,
        quotient,
        point,
        alpha,
        sumcheck_point: at,
        sumcheck_value: m2->Sumcheck_2,
    };
    let v3 = GkrStage::Folding { round, quotient, sumcheck_point: at, evals };
    assert(messages.take(0) =~= Seq::<Answer<F>>::empty());
    assert(messages.take(1).drop_last() =~= messages.take(0));
    assert(messages.take(2).drop_last() =~= messages.take(1));
    assert(messages.take(3).drop_last() =~= messages.take(2));
    assert(messages.drop_last() =~= messages.take(3));
    assert(run(rounds, v, messages.take(0)) == v);
    assert(run(rounds, v, messages.take(1)) == v1);
    assert(run(rounds, v, messages.take(2)) == v2);
    assert(run(rounds, v, messages.take(3)) == v3);
    assert forall|k: int| 0 <= k < messages.len() implies !ended(
        #[trigger] run(rounds, v, messages.take(k)),
    ) by {
        assert(k == 0 || k == 1 || k == 2 || k == 3);
    }
    if round_valid(nums, dens, a, b, coins, round, point, claims) {
        F::closed();
        lemma_evals_valid(nums, dens, a, b, coins, round);
        crate::fractions::lemma_layer_shape(nums, dens, a, b, 0);
        assert(at.len() == round && crate::field::all_valid(at));
        lemma_batched_valid(claims, alpha);
        lemma_combination_valid(evals, alpha);
        crate::multilinear::lemma_eq_valid(point, at);
        assert forall|k: int| 0 <= k < outcomes.len() implies crate::quotient_gkr::comes_of(
            pow2(b),
            outcomes[k],
            crate::quotient_gkr::task(pow2(b), rounds, #[trigger] prove(p, outcomes.take(k))),
        ) by {
            assert(k == 0 || k == 1 || k == 2);
            assert(outcomes.take(0) =~= o1.drop_last());
        }
        if in_range(a, b) {
            assert forall|k: int|
                0 <= k < messages.len() implies crate::quotient_gkr::stage_takes(
                pow2(b) as usize,
                rounds,
                #[trigger] run(rounds, v, messages.take(k)),
                messages[k],
            ) by {
                assert(k == 0 || k == 1 || k == 2 || k == 3);
            }
        }
    }
}

/// Whether a round is one of an honest session, and starts from elements.
spec fn round_valid<F: Field>(
    nums: Seq<F>,
    dens: Seq<F>,
    a: nat,
    b: nat,
    coins: Coins<F>,
    round: nat,
    point: Seq<F>,
    claims: Seq<F>,
) -> bool {
    &&& crate::gkr_laws::proper(nums, dens, a, b)
    &&& coins.fit((a - b) as nat, pow2(b))
    &&& point.len() == round
    &&& crate::field::all_valid(point)
    &&& claims.len() == pow2(b)
    &&& crate::field::all_valid(claims)
}

/// The claims that a round starts from in an honest session.
pub open spec fn claims_of_round<F: Field>(
    nums: Seq<F>,
    dens: Seq<F>,
    a: nat,
    b: nat,
    coins: Coins<F>,
    round: nat,
) -> Seq<F> {
    if round <= 1 {
        crate::quotient_gkr::lines(
            crate::quotient_gkr::last_layer(nums, dens, pow2(b), (a - b) as nat),
            coins.first,
        )
    } else {
        crate::quotient_gkr::lines(
            evals_of_round(nums, dens, a, b, coins, (round - 1) as nat),
            coins.betas[round - 2],
        )
    }
}

/// The point of the claims that a round starts from in an honest session.
pub open spec fn point_of_round<F: Field>(coins: Coins<F>, round: nat) -> Seq<F> {
    if round <= 1 {
        seq![coins.first]
    } else {
        seq![coins.betas[round - 2]] + coins.points[round - 2]
    }
}

/// Whether a session is one over fractions whose denominators have inverses.
spec fn session_valid<F: Field>(
    nums: Seq<F>,
    dens: Seq<F>,
    a: nat,
    b: nat,
    coins: Coins<F>,
) -> bool {
    &&& crate::gkr_laws::proper(nums, dens, a, b)
    &&& crate::fractions::all_invertible(dens)
    &&& coins.fit((a - b) as nat, pow2(b))
}

proof fn lemma_session<F: Field>(
    nums: Seq<F>,
    dens: Seq<F>,
    a: nat,
    b: nat,
    coins: Coins<F>,
    done: nat,
)
    requires
        b < a,
        done < a - b,
    ensures
        ({
            let rounds = (a - b) as nat;
            let start = honest_start(nums, dens, a, b);
            let outcomes = outcomes_up_to(nums, dens, a, b, coins, done);
            let messages = transcript(pow2(b), rounds, start, outcomes);
            let (point, claims) = (
                point_of_round(coins, done + 1),
                claims_of_round(nums, dens, a, b, coins, done + 1),
            );
            let quotient = crate::quotient_gkr::last_quotient(
                crate::quotient_gkr::last_layer(nums, dens, pow2(b), rounds),
            );
            &&& runs_on(rounds, GkrStage::Opening, messages)
            &&& proves_on(start, outcomes)
            &&& session_valid(nums, dens, a, b, coins) ==> {
                &&& all_come(pow2(b), rounds, start, outcomes)
                &&& in_range(a, b) ==> takes_all(
                    pow2(b) as usize,
                    rounds,
                    GkrStage::Opening,
                    messages,
                )
            }
            &&& prove(start, outcomes) == (GkrProverStage::Batching {
                round: done + 1,
                point,
                claims,
            })
            &&& run(rounds, GkrStage::Opening, messages) == (GkrStage::Batching {
                round: done + 1,
                quotient,
                point,
                claims,
            })
        }),
    decreases done,
{
    let rounds = (a - b) as nat;
    let start = honest_start(nums, dens, a, b);
    let last = crate::quotient_gkr::last_layer(nums, dens, pow2(b), rounds);
    let quotient = crate::quotient_gkr::last_quotient(last);
    let opening = GkrStage::<F>::Opening;
    if done == 0 {
        let outcomes = outcomes_up_to(nums, dens, a, b, coins, 0);
        let none = Seq::<Outcome<F>>::empty();
        assert(outcomes.drop_last() =~= none);
        assert(prove(start, none) == start);
        assert(transcript(pow2(b), rounds, start, none) =~= Seq::<Answer<F>>::empty());
        assert forall|k: int| 0 <= k < outcomes.len() implies !((#[trigger] prove(
            start,
            outcomes.take(k),
        )) is Finished) by {
            assert(outcomes.take(k) =~= none);
        }
        let messages = transcript(pow2(b), rounds, start, outcomes);
        let (m1, m2) = (Answer::Scalars(last), Answer::Challenge(coins.first));
        assert(messages =~= seq![m1, m2]);
        assert(messages.take(0) =~= Seq::<Answer<F>>::empty());
        assert(messages.take(1).drop_last() =~= messages.take(0));
        assert(messages.drop_last() =~= messages.take(1));
        assert(run(rounds, opening, messages.take(0)) == opening);
        assert(run(rounds, opening, messages.take(1)) == (GkrStage::FirstChallenge {
            last,
            quotient,
        }));
        assert forall|k: int| 0 <= k < messages.len() implies !ended(
            #[trigger] run(rounds, opening, messages.take(k)),
        ) by {
            assert(k == 0 || k == 1);
        }
        if session_valid(nums, dens, a, b, coins) {
            lemma_last_valid(nums, dens, a, b);
            crate::gkr_laws::law_quotient_is_sum(nums, dens, a, b);
            assert forall|k: int| 0 <= k < outcomes.len() implies crate::quotient_gkr::comes_of(
                pow2(b),
                outcomes[k],
                crate::quotient_gkr::task(
                    pow2(b),
                    rounds,
                    #[trigger] prove(start, outcomes.take(k)),
                ),
            ) by {
                assert(outcomes.take(k) =~= none);
            }
            if in_range(a, b) {
                assert forall|k: int|
                    0 <= k < messages.len() implies crate::quotient_gkr::stage_takes(
                    pow2(b) as usize,
                    rounds,
                    #[trigger] run(rounds, opening, messages.take(k)),
                    messages[k],
                ) by {
                    assert(k == 0 || k == 1);
                }
            }
        }
    } else {
        let before = (done - 1) as nat;
        lemma_session(nums, dens, a, b, coins, before);
        let first = outcomes_up_to(nums, dens, a, b, coins, before);
        let second = outcomes_of_round(nums, dens, a, b, coins, done);
        lemma_prove_concat(pow2(b), rounds, start, first, second);
        lemma_round(
            nums,
            dens,
            a,
            b,
            coins,
            done,
            quotient,
            point_of_round(coins, done),
            claims_of_round(nums, dens, a, b, coins, done),
        );
        let m = transcript(pow2(b), rounds, start, first);
        let more = transcript(pow2(b), rounds, prove(start, first), second);
        lemma_run_concat(rounds, opening, m, more);
        lemma_runs_on_concat(rounds, opening, m, more);
        lemma_proves_on_concat(start, first, second);
        if session_valid(nums, dens, a, b, coins) {
            lemma_round_starts(nums, dens, a, b, coins, done);
            lemma_all_come_concat(pow2(b), rounds, start, first, second);
            if in_range(a, b) {
                lemma_takes_all_concat(pow2(b) as usize, rounds, opening, m, more);
            }
        }
    }
}

/// Completeness: over any fractions whose denominators have inverses, and with any challenges, an
/// honest prover finishes, the verifier accepts the transcript and not before its end, and both are
/// left with the same statement. Every step of either can be taken: what comes back to the prover
/// is at every stage one of what it wants, and every message is one that the verifier takes at the
/// stage that the messages before it bring it to. The statement is true: the sum is that of the fractions, and the claims are
/// the values of numerators and denominators at the final point.
pub proof fn law_honest_session_accepted<F: Field>(
    nums: Seq<F>,
    dens: Seq<F>,
    a: nat,
    b: nat,
    coins: Coins<F>,
)
    requires
        crate::gkr_laws::proper(nums, dens, a, b),
        crate::fractions::all_invertible(dens),
        coins.fit((a - b) as nat, pow2(b)),
    ensures
        ({
            let rounds = (a - b) as nat;
            let start = honest_start(nums, dens, a, b);
            let outcomes = outcomes_up_to(nums, dens, a, b, coins, rounds);
            let messages = honest_transcript(nums, dens, a, b, coins);
            let rest = coins.points[rounds - 1];
            let point = seq![coins.betas[rounds - 1]] + rest;
            let numerator = crate::gkr_laws::skip_value(nums, coins.selectors, rest);
            let denominator = crate::gkr_laws::skip_value(dens, coins.selectors, rest);
            &&& prove(start, outcomes) == (GkrProverStage::Finished {
                point,
                numerator,
                denominator,
            })
            &&& proves_on(start, outcomes)
            &&& all_come(pow2(b), rounds, start, outcomes)
            &&& runs_on(rounds, GkrStage::Opening, messages)
            &&& in_range(a, b) ==> takes_all(
                pow2(b) as usize,
                rounds,
                GkrStage::Opening,
                messages,
            )
            &&& run(rounds, GkrStage::Opening, messages) == (GkrStage::Accepted {
                quotient: crate::fractions::column_sum(nums, dens),
                point,
                numerator,
                denominator,
            })
        }),
{
    let rounds = (a - b) as nat;
    let before = (rounds - 1) as nat;
    let start = honest_start(nums, dens, a, b);
    let opening = GkrStage::<F>::Opening;
    lemma_session(nums, dens, a, b, coins, before);
    let first = outcomes_up_to(nums, dens, a, b, coins, before);
    let second = outcomes_of_round(nums, dens, a, b, coins, rounds);
    lemma_prove_concat(pow2(b), rounds, start, first, second);
    crate::gkr_laws::law_quotient_is_sum(nums, dens, a, b);
    lemma_round(
        nums,
        dens,
        a,
        b,
        coins,
        rounds,
        crate::fractions::column_sum(nums, dens),
        point_of_round(coins, rounds),
        claims_of_round(nums, dens, a, b, coins, rounds),
    );
    let m = transcript(pow2(b), rounds, start, first);
    let more = transcript(pow2(b), rounds, prove(start, first), second);
    lemma_run_concat(rounds, opening, m, more);
    lemma_runs_on_concat(rounds, opening, m, more);
    lemma_proves_on_concat(start, first, second);
    lemma_round_starts(nums, dens, a, b, coins, rounds);
    lemma_all_come_concat(pow2(b), rounds, start, first, second);
    if in_range(a, b) {
        lemma_takes_all_concat(pow2(b) as usize, rounds, opening, m, more);
    }
    let evals = evals_of_round(nums, dens, a, b, coins, rounds);
    crate::gkr_laws::law_final_claims_true(
        nums,
        dens,
        a,
        b,
        coins.points[rounds - 1],
        evals,
        coins.selectors,
    );
}

/// In an honest session the sum that each round's sumcheck is about is the true one.
pub proof fn law_session_sums_true<F: Field>(
    nums: Seq<F>,
    dens: Seq<F>,
    a: nat,
    b: nat,
    coins: Coins<F>,
    round: nat,
)
    requires
        crate::gkr_laws::proper(nums, dens, a, b),
        coins.fit((a - b) as nat, pow2(b)),
        1 <= round <= a - b,
    ensures
        crate::quotient_gkr::batched(
            claims_of_round(nums, dens, a, b, coins, round),
            coins.alphas[round - 1],
        ) == crate::gkr_laws::cube_sum(
            crate::fractions::layer(nums, dens, pow2(b), (a - b - round) as nat),
            point_of_round(coins, round),
            coins.alphas[round - 1],
        ),
{
    let point = point_of_round(coins, round);
    let claims = claims_of_round(nums, dens, a, b, coins, round);
    if round == 1 {
        crate::gkr_laws::law_opening_claims_true(nums, dens, a, b, coins.first);
    } else {
        let before = (round - 1) as nat;
        assert(coins.points[before - 1].len() == before);
        crate::gkr_laws::law_round_claims_true(
            nums,
            dens,
            a,
            b,
            before,
            coins.points[before - 1],
            evals_of_round(nums, dens, a, b, coins, before),
            coins.betas[before - 1],
        );
    }
    assert(crate::field::all_valid(point)) by {
        assert forall|i: int| 0 <= i < point.len() implies (#[trigger] point[i]).valid() by {
            if round > 1 && i > 0 {
                assert(crate::field::all_valid(coins.points[round - 2]));
                assert(point[i] == coins.points[round - 2][i - 1]);
            }
        }
    }
    crate::gkr_laws::law_sumcheck_true(
        nums,
        dens,
        a,
        b,
        round,
        point,
        claims,
        coins.alphas[round - 1],
    );
}

} // verus!
