//! A whole session of an indexed lookup: an honest prover's messages, and that the verifier accepts
//! them with true statements.

use vstd::prelude::*;
use vstd::arithmetic::power2::*;
use crate::field::Field;
use crate::gkr_session::Coins;
use crate::logup_star::{
    LogupOutcome, LogupProverStage, LogupStage, LogupTask, Statements, SumClaim, LOGUP_GROUPS,
};
use crate::multilinear::Claim;
use crate::quotient_gkr::{Answer, GkrProverStage, GkrStage, Outcome};

verus! {

/// What a lookup is about: values read from a table at indexes, claimed at some points and batched.
pub struct Lookup<F> {
    pub claims: Seq<Claim<F>>,
    pub alpha: F,
    pub log_table_len: nat,
    pub log_indexes_len: nat,
    pub table: Seq<F>,
    pub indexes: Seq<nat>,
}

/// The challenges of a session of a lookup, and the point that its product sumcheck comes to.
pub struct LookupCoins<F> {
    pub point: Seq<F>,
    pub c: F,
    pub left: Coins<F>,
    pub right: Coins<F>,
}

/// Whether the selectors are the two of an ordinary coordinate.
pub open spec fn ordinary<F: Field>(coins: Coins<F>) -> bool {
    coins.selectors == seq![F::unit().minus(coins.betas.last()), coins.betas.last()]
}

/// The point that a sum's session ends at.
pub open spec fn final_point<F>(coins: Coins<F>) -> Seq<F> {
    seq![coins.betas.last()] + coins.points.last()
}

impl<F: Field> Lookup<F> {
    /// Whether the lookup is an honest one: its parts fit together, and the claims are true of what
    /// is read.
    pub open spec fn honest(self) -> bool {
        &&& self.log_table_len >= 2
        &&& self.log_indexes_len >= 2
        &&& self.alpha.valid()
        &&& crate::logup_star::claims_fit(self.claims, self.log_indexes_len)
        &&& self.table.len() == pow2(self.log_table_len)
        &&& self.indexes.len() == pow2(self.log_indexes_len)
        &&& crate::field::all_valid(self.table)
        &&& crate::logup_star::in_table(self.indexes, self.table.len())
        &&& forall|i: int|
            0 <= i < self.claims.len() ==> (#[trigger] self.claims[i]).value
                == crate::multilinear::mle(
                crate::logup_laws::reads(self.indexes, self.table),
                self.claims[i].point,
            )
    }

    /// Whether the coins are those of a session, and no denominator is 0.
    pub open spec fn coins_fit(self, coins: LookupCoins<F>) -> bool {
        &&& coins.point.len() == self.log_table_len
        &&& crate::field::all_valid(coins.point)
        &&& coins.c.valid()
        &&& coins.left.fit((self.log_indexes_len - 1) as nat, 2)
        &&& coins.right.fit((self.log_table_len - 1) as nat, 2)
        &&& ordinary(coins.left)
        &&& ordinary(coins.right)
        &&& crate::fractions::all_invertible(self.position_denominators(coins.c))
    }

    /// The weights of the read positions.
    pub open spec fn weights(self) -> Seq<F> {
        crate::logup_laws::batched_table(self.claims, self.alpha, self.log_indexes_len)
    }

    /// The pushforward of the weights.
    pub open spec fn push(self) -> Seq<F> {
        crate::logup_star::pushforward(self.indexes, self.weights(), self.table.len())
    }

    /// The batched claimed value.
    pub open spec fn claimed_value(self) -> F {
        crate::quotient_gkr::batched(
            crate::logup_star::claimed_values(self.claims),
            self.alpha,
        )
    }

    /// The denominators over the indexes.
    pub open spec fn index_denominators(self, c: F) -> Seq<F> {
        crate::logup_star::minus_indexes(c, self.indexes)
    }

    /// The denominators over the table's positions.
    pub open spec fn position_denominators(self, c: F) -> Seq<F> {
        crate::logup_star::minus_indexes(c, crate::logup_star::increments(self.table.len()))
    }

    /// The transcript of an honest session: what the prover's tasks and their outcomes give.
    pub open spec fn transcript(self, coins: LookupCoins<F>) -> Seq<Answer<F>> {
        self.messages(LogupProverStage::Product, self.outcomes(coins))
    }

    /// What a verifier is told when the task of a prover at a stage is done.
    pub open spec fn message(self, stage: LogupProverStage<F>, outcome: LogupOutcome<F>) -> Seq<
        Answer<F>,
    > {
        match (self.task(stage), outcome) {
            (
                LogupTask::Product { n_vars: _, sum },
                LogupOutcome::Product { point, value, table_eval: _, pushforward_eval: _ },
            ) => seq![Answer::Sumcheck(sum, point, value)],
            (LogupTask::Sum(t), LogupOutcome::Sum(o)) => crate::gkr_session::message(t, o),
            (_, _) => Seq::empty(),
        }
    }

    /// What a prover at a stage wants done.
    pub open spec fn task(self, stage: LogupProverStage<F>) -> LogupTask<F> {
        crate::logup_star::logup_task(
            self.log_table_len,
            self.log_indexes_len,
            self.claimed_value(),
            stage,
        )
    }

    /// The transcript that a prover leaves: at every stage, what its task and the outcome give.
    pub open spec fn messages(
        self,
        stage: LogupProverStage<F>,
        outcomes: Seq<LogupOutcome<F>>,
    ) -> Seq<Answer<F>>
        decreases outcomes.len(),
    {
        if outcomes.len() == 0 {
            Seq::empty()
        } else {
            self.messages(stage, outcomes.drop_last()) + self.message(
                self.prove(stage, outcomes.drop_last()),
                outcomes.last(),
            )
        }
    }

    /// The messages of an honest session in full: the product sumcheck with the values of table
    /// and pushforward, the constant, and the sessions of both sums.
    spec fn parts(self, coins: LookupCoins<F>) -> Seq<Answer<F>> {
        let (te, pe) = (
            crate::multilinear::mle(self.table, coins.point),
            crate::multilinear::mle(self.push(), coins.point),
        );
        seq![
            Answer::Sumcheck(self.claimed_value(), coins.point, te.times(pe)),
            Answer::Scalars(seq![te, pe]),
            Answer::Challenge(coins.c),
        ] + crate::gkr_session::honest_transcript(
            self.weights(),
            self.index_denominators(coins.c),
            self.log_indexes_len,
            1,
            coins.left,
        ) + crate::gkr_session::honest_transcript(
            self.push(),
            self.position_denominators(coins.c),
            self.log_table_len,
            1,
            coins.right,
        )
    }

    /// The true statements at the points of a session.
    pub open spec fn true_statements(self, coins: LookupCoins<F>) -> Statements<F> {
        let (index_point, position_point) = (final_point(coins.left), final_point(coins.right));
        Statements {
            on_indexes: Claim {
                point: index_point,
                value: crate::multilinear::mle(
                    crate::logup_laws::embedded(self.indexes),
                    index_point,
                ),
            },
            on_table: Claim {
                point: coins.point,
                value: crate::multilinear::mle(self.table, coins.point),
            },
            on_pushforward: seq![
                Claim {
                    point: coins.point,
                    value: crate::multilinear::mle(self.push(), coins.point),
                },
                Claim {
                    point: position_point,
                    value: crate::multilinear::mle(self.push(), position_point),
                },
            ],
        }
    }

    /// The verifier behind a sequence of replies.
    pub open spec fn run(self, stage: LogupStage<F>, answers: Seq<Answer<F>>) -> LogupStage<F>
        decreases answers.len(),
    {
        if answers.len() == 0 {
            stage
        } else {
            crate::logup_star::logup_next(
                self.log_table_len,
                self.log_indexes_len,
                self.claims,
                self.alpha,
                self.run(stage, answers.drop_last()),
                answers.last(),
            )
        }
    }

    /// The prover behind a sequence of outcomes.
    pub open spec fn prove(
        self,
        stage: LogupProverStage<F>,
        outcomes: Seq<LogupOutcome<F>>,
    ) -> LogupProverStage<F>
        decreases outcomes.len(),
    {
        if outcomes.len() == 0 {
            stage
        } else {
            crate::logup_star::logup_prover_next(
                self.log_table_len,
                self.log_indexes_len,
                self.indexes,
                self.weights(),
                self.push(),
                self.prove(stage, outcomes.drop_last()),
                outcomes.last(),
            )
        }
    }

    /// Whether the lengths are in the machine's range.
    pub open spec fn in_range(self) -> bool {
        self.log_table_len <= usize::MAX && self.log_indexes_len <= usize::MAX
    }

    /// Whether the verifier can take every reply of a sequence, one after another.
    pub open spec fn takes_all(self, stage: LogupStage<F>, answers: Seq<Answer<F>>) -> bool {
        forall|k: int|
            0 <= k < answers.len() ==> crate::logup_star::logup_takes(
                self.log_table_len as usize,
                self.log_indexes_len as usize,
                #[trigger] self.run(stage, answers.take(k)),
                answers[k],
            )
    }

    /// Whether the prover at a stage can take an outcome.
    pub open spec fn comes(self, stage: LogupProverStage<F>, outcome: LogupOutcome<F>) -> bool {
        crate::logup_star::logup_comes_of(
            self.indexes,
            self.table.len(),
            stage,
            self.task(stage),
            outcome,
        )
    }

    /// Whether every outcome of a sequence, one after another, is one of what the prover wants
    /// done.
    pub open spec fn all_come(
        self,
        stage: LogupProverStage<F>,
        outcomes: Seq<LogupOutcome<F>>,
    ) -> bool {
        forall|k: int|
            0 <= k < outcomes.len() ==> self.comes(
                #[trigger] self.prove(stage, outcomes.take(k)),
                outcomes[k],
            )
    }

    proof fn lemma_takes_all_concat(
        self,
        stage: LogupStage<F>,
        first: Seq<Answer<F>>,
        second: Seq<Answer<F>>,
    )
        requires
            self.takes_all(stage, first),
            self.takes_all(self.run(stage, first), second),
        ensures
            self.takes_all(stage, first + second),
    {
        let all = first + second;
        assert forall|k: int| 0 <= k < all.len() implies crate::logup_star::logup_takes(
            self.log_table_len as usize,
            self.log_indexes_len as usize,
            #[trigger] self.run(stage, all.take(k)),
            all[k],
        ) by {
            if k < first.len() {
                assert(all.take(k) =~= first.take(k));
                assert(all[k] == first[k]);
            } else {
                let j = k - first.len();
                assert(all.take(k) =~= first + second.take(j));
                assert(all[k] == second[j]);
                self.lemma_run_concat(stage, first, second.take(j));
            }
        }
    }

    proof fn lemma_all_come_concat(
        self,
        stage: LogupProverStage<F>,
        first: Seq<LogupOutcome<F>>,
        second: Seq<LogupOutcome<F>>,
    )
        requires
            self.all_come(stage, first),
            self.all_come(self.prove(stage, first), second),
        ensures
            self.all_come(stage, first + second),
    {
        let all = first + second;
        assert forall|k: int| 0 <= k < all.len() implies self.comes(
            #[trigger] self.prove(stage, all.take(k)),
            all[k],
        ) by {
            if k < first.len() {
                assert(all.take(k) =~= first.take(k));
                assert(all[k] == first[k]);
            } else {
                let j = k - first.len();
                assert(all.take(k) =~= first + second.take(j));
                assert(all[k] == second[j]);
                self.lemma_prove_concat(stage, first, second.take(j));
            }
        }
    }

    proof fn lemma_run_concat(
        self,
        stage: LogupStage<F>,
        first: Seq<Answer<F>>,
        second: Seq<Answer<F>>,
    )
        ensures
            self.run(stage, first + second) == self.run(self.run(stage, first), second),
        decreases second.len(),
    {
        if second.len() == 0 {
            assert(first + second =~= first);
        } else {
            assert((first + second).drop_last() =~= first + second.drop_last());
            self.lemma_run_concat(stage, first, second.drop_last());
        }
    }

    /// The first sum runs inside the lookup as it runs alone.
    proof fn lemma_left_runs(
        self,
        point: Seq<F>,
        te: F,
        pe: F,
        c: F,
        answers: Seq<Answer<F>>,
        k: int,
    )
        requires
            0 <= k < answers.len(),
            crate::gkr_session::runs_on(
                (self.log_indexes_len - 1) as nat,
                GkrStage::Opening,
                answers,
            ),
        ensures
            self.run(
                LogupStage::Left {
                    point,
                    table_eval: te,
                    pushforward_eval: pe,
                    c,
                    sum: GkrStage::Opening,
                },
                answers.take(k),
            ) == (LogupStage::Left {
                point,
                table_eval: te,
                pushforward_eval: pe,
                c,
                sum: crate::gkr_session::run(
                    (self.log_indexes_len - 1) as nat,
                    GkrStage::Opening,
                    answers.take(k),
                ),
            }),
        decreases k,
    {
        if k > 0 {
            self.lemma_left_runs(point, te, pe, c, answers, k - 1);
            assert(answers.take(k).drop_last() =~= answers.take(k - 1));
            assert(!crate::gkr_session::ended(
                crate::gkr_session::run(
                    (self.log_indexes_len - 1) as nat,
                    GkrStage::Opening,
                    answers.take(k),
                ),
            ));
        } else {
            assert(answers.take(0) =~= Seq::<Answer<F>>::empty());
        }
    }

    /// The second sum runs inside the lookup as it runs alone.
    proof fn lemma_right_runs(
        self,
        point: Seq<F>,
        te: F,
        pe: F,
        c: F,
        left: SumClaim<F>,
        answers: Seq<Answer<F>>,
        k: int,
    )
        requires
            0 <= k < answers.len(),
            crate::gkr_session::runs_on(
                (self.log_table_len - 1) as nat,
                GkrStage::Opening,
                answers,
            ),
        ensures
            self.run(
                LogupStage::Right {
                    point,
                    table_eval: te,
                    pushforward_eval: pe,
                    c,
                    left,
                    sum: GkrStage::Opening,
                },
                answers.take(k),
            ) == (LogupStage::Right {
                point,
                table_eval: te,
                pushforward_eval: pe,
                c,
                left,
                sum: crate::gkr_session::run(
                    (self.log_table_len - 1) as nat,
                    GkrStage::Opening,
                    answers.take(k),
                ),
            }),
        decreases k,
    {
        if k > 0 {
            self.lemma_right_runs(point, te, pe, c, left, answers, k - 1);
            assert(answers.take(k).drop_last() =~= answers.take(k - 1));
            assert(!crate::gkr_session::ended(
                crate::gkr_session::run(
                    (self.log_table_len - 1) as nat,
                    GkrStage::Opening,
                    answers.take(k),
                ),
            ));
        } else {
            assert(answers.take(0) =~= Seq::<Answer<F>>::empty());
        }
    }
}

impl<F: Field> Lookup<F> {
    /// Table and pushforward have elements as values, and so has their claimed product.
    proof fn lemma_evals_valid(self, coins: LookupCoins<F>)
        requires
            self.honest(),
            self.coins_fit(coins),
        ensures
            crate::multilinear::mle(self.table, coins.point).valid(),
            crate::multilinear::mle(self.push(), coins.point).valid(),
            self.claimed_value().valid(),
    {
        let push = self.push();
        self.lemma_sums(coins);
        crate::multilinear::lemma_mle_valid(self.table, coins.point);
        crate::multilinear::lemma_mle_valid(push, coins.point);
        crate::logup_laws::law_claimed_value_is_product_sum(
            self.claims,
            self.alpha,
            self.log_indexes_len,
            self.indexes,
            self.table,
        );
        crate::field::lemma_products_valid(push, self.table);
        crate::field::lemma_total_valid(crate::field::products(push, self.table));
    }

    /// The messages before the sums can be taken.
    proof fn lemma_head_taken(self, coins: LookupCoins<F>)
        requires
            self.honest(),
            self.coins_fit(coins),
            self.in_range(),
        ensures
            ({
                let (te, pe) = (
                    crate::multilinear::mle(self.table, coins.point),
                    crate::multilinear::mle(self.push(), coins.point),
                );
                self.takes_all(
                    LogupStage::Product,
                    seq![
                        Answer::Sumcheck(self.claimed_value(), coins.point, te.times(pe)),
                        Answer::Scalars(seq![te, pe]),
                        Answer::Challenge(coins.c),
                    ],
                )
            }),
    {
        F::closed();
        self.lemma_evals_valid(coins);
        let (te, pe) = (
            crate::multilinear::mle(self.table, coins.point),
            crate::multilinear::mle(self.push(), coins.point),
        );
        let start = LogupStage::<F>::Product;
        let head = seq![
            Answer::Sumcheck(self.claimed_value(), coins.point, te.times(pe)),
            Answer::Scalars(seq![te, pe]),
            Answer::Challenge(coins.c),
        ];
        let (h1, h2) = (head.take(1), head.take(2));
        assert(head.take(0) =~= Seq::<Answer<F>>::empty());
        assert(h1.drop_last() =~= head.take(0));
        assert(h2.drop_last() =~= h1);
        assert(self.run(start, head.take(0)) == start);
        assert(h1.last() == head[0]);
        assert(self.run(start, h1) == (LogupStage::Evaluations {
            point: coins.point,
            value: te.times(pe),
        }));
        assert(h2.last() == head[1]);
        assert(self.run(start, h2) == (LogupStage::Constant {
            point: coins.point,
            table_eval: te,
            pushforward_eval: pe,
        }));
        assert forall|k: int| 0 <= k < head.len() implies crate::logup_star::logup_takes(
            self.log_table_len as usize,
            self.log_indexes_len as usize,
            #[trigger] self.run(start, head.take(k)),
            head[k],
        ) by {
            assert(k == 0 || k == 1 || k == 2);
        }
    }

    /// What the first sum takes alone it takes inside the lookup.
    proof fn lemma_left_taken(self, point: Seq<F>, te: F, pe: F, c: F, answers: Seq<Answer<F>>)
        requires
            self.in_range(),
            self.log_indexes_len >= 1,
            crate::gkr_session::runs_on(
                (self.log_indexes_len - 1) as nat,
                GkrStage::Opening,
                answers,
            ),
            crate::gkr_session::takes_all(
                LOGUP_GROUPS,
                (self.log_indexes_len - 1) as nat,
                GkrStage::Opening,
                answers,
            ),
        ensures
            self.takes_all(
                LogupStage::Left {
                    point,
                    table_eval: te,
                    pushforward_eval: pe,
                    c,
                    sum: GkrStage::Opening,
                },
                answers,
            ),
    {
        let start = LogupStage::Left {
            point,
            table_eval: te,
            pushforward_eval: pe,
            c,
            sum: GkrStage::Opening,
        };
        assert forall|k: int| 0 <= k < answers.len() implies crate::logup_star::logup_takes(
            self.log_table_len as usize,
            self.log_indexes_len as usize,
            #[trigger] self.run(start, answers.take(k)),
            answers[k],
        ) by {
            self.lemma_left_runs(point, te, pe, c, answers, k);
        }
    }

    /// What the second sum takes alone it takes inside the lookup.
    proof fn lemma_right_taken(
        self,
        point: Seq<F>,
        te: F,
        pe: F,
        c: F,
        left: SumClaim<F>,
        answers: Seq<Answer<F>>,
    )
        requires
            self.in_range(),
            self.log_table_len >= 1,
            crate::gkr_session::runs_on(
                (self.log_table_len - 1) as nat,
                GkrStage::Opening,
                answers,
            ),
            crate::gkr_session::takes_all(
                LOGUP_GROUPS,
                (self.log_table_len - 1) as nat,
                GkrStage::Opening,
                answers,
            ),
        ensures
            self.takes_all(
                LogupStage::Right {
                    point,
                    table_eval: te,
                    pushforward_eval: pe,
                    c,
                    left,
                    sum: GkrStage::Opening,
                },
                answers,
            ),
    {
        let start = LogupStage::Right {
            point,
            table_eval: te,
            pushforward_eval: pe,
            c,
            left,
            sum: GkrStage::Opening,
        };
        assert forall|k: int| 0 <= k < answers.len() implies crate::logup_star::logup_takes(
            self.log_table_len as usize,
            self.log_indexes_len as usize,
            #[trigger] self.run(start, answers.take(k)),
            answers[k],
        ) by {
            self.lemma_right_runs(point, te, pe, c, left, answers, k);
        }
    }
}

proof fn lemma_final_point<F: Field>(coins: Coins<F>, rounds: nat, groups: nat)
    requires
        coins.fit(rounds, groups),
        rounds >= 1,
    ensures
        final_point(coins).len() == rounds + 1,
        crate::field::all_valid(final_point(coins)),
        coins.betas.last().valid(),
        coins.points.last().len() == rounds,
        crate::field::all_valid(coins.points.last()),
        coins.betas.last() == coins.betas[rounds - 1],
        coins.points.last() == coins.points[rounds - 1],
{
    let p = final_point(coins);
    let rest = coins.points[rounds - 1];
    assert(crate::field::all_valid(rest));
    assert forall|i: int| 0 <= i < p.len() implies (#[trigger] p[i]).valid() by {
        if i > 0 {
            assert(p[i] == rest[i - 1]);
        }
    }
}

/// What an honest sum over columns of two leaves, as a claim at an ordinary point.
proof fn lemma_sum_session<F: Field>(nums: Seq<F>, dens: Seq<F>, a: nat, coins: Coins<F>)
    requires
        a >= 2,
        nums.len() == dens.len() == pow2(a),
        crate::field::all_valid(nums),
        crate::fractions::all_invertible(dens),
        coins.fit((a - 1) as nat, 2),
        ordinary(coins),
    ensures
        ({
            let rounds = (a - 1) as nat;
            let messages = crate::gkr_session::honest_transcript(nums, dens, a, 1, coins);
            let honest = crate::logup_laws::honest_sum(nums, dens, final_point(coins));
            &&& messages.len() > 0
            &&& crate::gkr_session::runs_on(rounds, GkrStage::Opening, messages)
            &&& rounds < usize::MAX ==> crate::gkr_session::takes_all(
                LOGUP_GROUPS,
                rounds,
                GkrStage::Opening,
                messages,
            )
            &&& crate::gkr_session::run(rounds, GkrStage::Opening, messages)
                == (GkrStage::Accepted {
                quotient: honest.quotient,
                point: honest.point,
                numerator: honest.numerator,
                denominator: honest.denominator,
            })
            &&& crate::gkr_session::outcomes_up_to(nums, dens, a, 1, coins, rounds).len() > 0
            &&& crate::gkr_session::all_come(
                2,
                rounds,
                crate::gkr_session::honest_start(nums, dens, a, 1),
                crate::gkr_session::outcomes_up_to(nums, dens, a, 1, coins, rounds),
            )
            &&& crate::gkr_session::proves_on(
                crate::gkr_session::honest_start(nums, dens, a, 1),
                crate::gkr_session::outcomes_up_to(nums, dens, a, 1, coins, rounds),
            )
            &&& crate::gkr_session::prove(
                crate::gkr_session::honest_start(nums, dens, a, 1),
                crate::gkr_session::outcomes_up_to(nums, dens, a, 1, coins, rounds),
            ) == (GkrProverStage::Finished {
                point: honest.point,
                numerator: honest.numerator,
                denominator: honest.denominator,
            })
        }),
{
    let rounds = (a - 1) as nat;
    lemma2_to64();
    lemma_pow2_unfold(a);
    assert(crate::field::all_valid(dens)) by {
        assert forall|x: int| 0 <= x < dens.len() implies (#[trigger] dens[x]).valid() by {
            crate::field::lemma_invertible(dens[x]);
        }
    }
    lemma_final_point(coins, rounds, 2);
    crate::gkr_session::law_honest_session_accepted(nums, dens, a, 1, coins);
    let (beta, rest) = (coins.betas.last(), coins.points.last());
    crate::logup_laws::law_two_selectors(nums, beta, rest);
    crate::logup_laws::law_two_selectors(dens, beta, rest);
    let messages = crate::gkr_session::honest_transcript(nums, dens, a, 1, coins);
    if messages.len() == 0 {
        assert(crate::gkr_session::run(rounds, GkrStage::<F>::Opening, messages)
            == GkrStage::<F>::Opening);
    }
}

/// Completeness: an honest lookup is accepted whatever the challenges, as long as no denominator is
/// 0, every message is one that the verifier takes at the stage that the messages before it bring
/// it to, and the statements that are left are true.
pub proof fn law_honest_lookup_accepted<F: Field>(lookup: Lookup<F>, coins: LookupCoins<F>)
    requires
        lookup.honest(),
        lookup.coins_fit(coins),
    ensures
        lookup.run(LogupStage::Product, lookup.transcript(coins)) == LogupStage::Accepted(
            lookup.true_statements(coins),
        ),
        lookup.in_range() ==> lookup.takes_all(LogupStage::Product, lookup.transcript(coins)),
        lookup.claimed_value() == crate::field::dot(lookup.push(), lookup.table),
{
    F::closed();
    let (weights, push, c) = (lookup.weights(), lookup.push(), coins.c);
    let (left_dens, right_dens) = (
        lookup.index_denominators(c),
        lookup.position_denominators(c),
    );
    let length = lookup.table.len();
    // What is summed stands for elements.
    let some_weights = crate::multilinear::eq_table(final_point(coins.left));
    lemma_final_point(coins.left, (lookup.log_indexes_len - 1) as nat, 2);
    lemma_final_point(coins.right, (lookup.log_table_len - 1) as nat, 2);
    crate::multilinear::lemma_eq_table(final_point(coins.left));
    crate::logup_laws::law_batched_weights(
        lookup.claims,
        lookup.alpha,
        lookup.log_indexes_len,
        some_weights,
    );
    assert forall|j: int| 0 <= j < push.len() implies (#[trigger] push[j]).valid() by {
        crate::logup_star::lemma_pushed_valid(lookup.indexes, weights, j as nat);
    }
    crate::logup_laws::law_claimed_value_is_product_sum(
        lookup.claims,
        lookup.alpha,
        lookup.log_indexes_len,
        lookup.indexes,
        lookup.table,
    );
    crate::logup_star::law_lookup_sums_agree(lookup.indexes, weights, length, c);
    lemma_sum_session(weights, left_dens, lookup.log_indexes_len, coins.left);
    lemma_sum_session(push, right_dens, lookup.log_table_len, coins.right);
    let left = crate::logup_laws::honest_sum(weights, left_dens, final_point(coins.left));
    let right = crate::logup_laws::honest_sum(push, right_dens, final_point(coins.right));
    let (te, pe) = (
        crate::multilinear::mle(lookup.table, coins.point),
        crate::multilinear::mle(push, coins.point),
    );
    crate::logup_laws::law_honest_lookup(
        lookup.claims,
        lookup.alpha,
        c,
        lookup.indexes,
        final_point(coins.left),
        final_point(coins.right),
        coins.point,
        te,
        pe,
    );
    // The product sumcheck.
    let head = seq![
        Answer::Sumcheck(lookup.claimed_value(), coins.point, te.times(pe)),
        Answer::Scalars(seq![te, pe]),
        Answer::Challenge(c),
    ];
    let at_left = LogupStage::Left {
        point: coins.point,
        table_eval: te,
        pushforward_eval: pe,
        c,
        sum: GkrStage::Opening,
    };
    let start = LogupStage::<F>::Product;
    assert(lookup.run(start, head) == at_left) by {
        let (h2, h1) = (head.drop_last(), head.drop_last().drop_last());
        assert(h1.drop_last() =~= Seq::<Answer<F>>::empty());
        assert(lookup.run(start, h1.drop_last()) == start);
        assert(h1.last() == head[0]);
        assert(lookup.run(start, h1) == (LogupStage::Evaluations {
            point: coins.point,
            value: te.times(pe),
        }));
        assert(h2.last() == head[1]);
        assert(lookup.run(start, h2) == (LogupStage::Constant {
            point: coins.point,
            table_eval: te,
            pushforward_eval: pe,
        }));
    }
    // The sum over the indexes.
    let m_left = crate::gkr_session::honest_transcript(
        weights,
        left_dens,
        lookup.log_indexes_len,
        1,
        coins.left,
    );
    let at_right = LogupStage::Right {
        point: coins.point,
        table_eval: te,
        pushforward_eval: pe,
        c,
        left,
        sum: GkrStage::Opening,
    };
    assert(lookup.run(at_left, m_left) == at_right) by {
        let k = m_left.len() - 1;
        lookup.lemma_left_runs(coins.point, te, pe, c, m_left, k);
        assert(m_left.drop_last() =~= m_left.take(k));
    }
    // The sum over the table.
    let m_right = crate::gkr_session::honest_transcript(
        push,
        right_dens,
        lookup.log_table_len,
        1,
        coins.right,
    );
    let done = LogupStage::Accepted(
        crate::logup_star::statements(coins.point, te, pe, c, left, right),
    );
    assert(lookup.run(at_right, m_right) == done) by {
        let k = m_right.len() - 1;
        lookup.lemma_right_runs(coins.point, te, pe, c, left, m_right, k);
        assert(m_right.drop_last() =~= m_right.take(k));
    }
    lookup.lemma_run_concat(start, head, m_left);
    lookup.lemma_run_concat(start, head + m_left, m_right);
    lookup.lemma_transcript(coins);
    let given = crate::logup_star::statements(coins.point, te, pe, c, left, right);
    assert(given.on_pushforward =~= lookup.true_statements(coins).on_pushforward);
    if lookup.in_range() {
        lookup.lemma_head_taken(coins);
        lookup.lemma_left_taken(coins.point, te, pe, c, m_left);
        lookup.lemma_right_taken(coins.point, te, pe, c, left, m_right);
        lookup.lemma_takes_all_concat(start, head, m_left);
        lookup.lemma_takes_all_concat(start, head + m_left, m_right);
    }
}

/// Outcomes of a sum's session as outcomes of a lookup's.
pub open spec fn within_lookup<F>(outcomes: Seq<Outcome<F>>) -> Seq<LogupOutcome<F>> {
    Seq::new(outcomes.len(), |i: int| LogupOutcome::Sum(outcomes[i]))
}

impl<F: Field> Lookup<F> {
    /// What an honest prover gets in the first sum.
    pub open spec fn left_outcomes(self, coins: LookupCoins<F>) -> Seq<Outcome<F>> {
        crate::gkr_session::outcomes_up_to(
            self.weights(),
            self.index_denominators(coins.c),
            self.log_indexes_len,
            1,
            coins.left,
            (self.log_indexes_len - 1) as nat,
        )
    }

    /// What an honest prover gets in the second sum.
    pub open spec fn right_outcomes(self, coins: LookupCoins<F>) -> Seq<Outcome<F>> {
        crate::gkr_session::outcomes_up_to(
            self.push(),
            self.position_denominators(coins.c),
            self.log_table_len,
            1,
            coins.right,
            (self.log_table_len - 1) as nat,
        )
    }

    /// What an honest prover gets in a session.
    pub open spec fn outcomes(self, coins: LookupCoins<F>) -> Seq<LogupOutcome<F>> {
        let (te, pe) = (
            crate::multilinear::mle(self.table, coins.point),
            crate::multilinear::mle(self.push(), coins.point),
        );
        seq![
            LogupOutcome::Product {
                point: coins.point,
                value: te.times(pe),
                table_eval: te,
                pushforward_eval: pe,
            },
            LogupOutcome::Sum(Outcome::Challenge(coins.c)),
        ] + within_lookup(self.left_outcomes(coins)) + within_lookup(self.right_outcomes(coins))
    }

    proof fn lemma_prove_concat(
        self,
        stage: LogupProverStage<F>,
        first: Seq<LogupOutcome<F>>,
        second: Seq<LogupOutcome<F>>,
    )
        ensures
            self.prove(stage, first + second) == self.prove(self.prove(stage, first), second),
        decreases second.len(),
    {
        if second.len() == 0 {
            assert(first + second =~= first);
        } else {
            assert((first + second).drop_last() =~= first + second.drop_last());
            self.lemma_prove_concat(stage, first, second.drop_last());
        }
    }

    proof fn lemma_left_proves(
        self,
        point: Seq<F>,
        te: F,
        pe: F,
        c: F,
        sum: GkrProverStage<F>,
        outcomes: Seq<Outcome<F>>,
        k: int,
    )
        requires
            0 <= k < outcomes.len(),
            crate::gkr_session::proves_on(sum, outcomes),
        ensures
            self.prove(
                LogupProverStage::Left { point, table_eval: te, pushforward_eval: pe, c, sum },
                within_lookup(outcomes).take(k),
            ) == (LogupProverStage::Left {
                point,
                table_eval: te,
                pushforward_eval: pe,
                c,
                sum: crate::gkr_session::prove(sum, outcomes.take(k)),
            }),
        decreases k,
    {
        let all = within_lookup(outcomes);
        if k > 0 {
            self.lemma_left_proves(point, te, pe, c, sum, outcomes, k - 1);
            assert(all.take(k).drop_last() =~= all.take(k - 1));
            assert(outcomes.take(k).drop_last() =~= outcomes.take(k - 1));
            assert(!(crate::gkr_session::prove(sum, outcomes.take(k)) is Finished));
        } else {
            assert(all.take(0) =~= Seq::<LogupOutcome<F>>::empty());
            assert(outcomes.take(0) =~= Seq::<Outcome<F>>::empty());
        }
    }

    proof fn lemma_right_proves(
        self,
        point: Seq<F>,
        te: F,
        pe: F,
        c: F,
        index_point: Seq<F>,
        index_eval: F,
        sum: GkrProverStage<F>,
        outcomes: Seq<Outcome<F>>,
        k: int,
    )
        requires
            0 <= k < outcomes.len(),
            crate::gkr_session::proves_on(sum, outcomes),
        ensures
            self.prove(
                LogupProverStage::Right {
                    point,
                    table_eval: te,
                    pushforward_eval: pe,
                    c,
                    index_point,
                    index_eval,
                    sum,
                },
                within_lookup(outcomes).take(k),
            ) == (LogupProverStage::Right {
                point,
                table_eval: te,
                pushforward_eval: pe,
                c,
                index_point,
                index_eval,
                sum: crate::gkr_session::prove(sum, outcomes.take(k)),
            }),
        decreases k,
    {
        let all = within_lookup(outcomes);
        if k > 0 {
            self.lemma_right_proves(
                point,
                te,
                pe,
                c,
                index_point,
                index_eval,
                sum,
                outcomes,
                k - 1,
            );
            assert(all.take(k).drop_last() =~= all.take(k - 1));
            assert(outcomes.take(k).drop_last() =~= outcomes.take(k - 1));
            assert(!(crate::gkr_session::prove(sum, outcomes.take(k)) is Finished));
        } else {
            assert(all.take(0) =~= Seq::<LogupOutcome<F>>::empty());
            assert(outcomes.take(0) =~= Seq::<Outcome<F>>::empty());
        }
    }
}

impl<F: Field> Lookup<F> {
    /// What an honest prover gets before the sums.
    spec fn head_outcomes(self, coins: LookupCoins<F>) -> Seq<LogupOutcome<F>> {
        let (te, pe) = (
            crate::multilinear::mle(self.table, coins.point),
            crate::multilinear::mle(self.push(), coins.point),
        );
        seq![
            LogupOutcome::Product {
                point: coins.point,
                value: te.times(pe),
                table_eval: te,
                pushforward_eval: pe,
            },
            LogupOutcome::Sum(Outcome::Challenge(coins.c)),
        ]
    }

    /// Where the first sum of an honest prover starts.
    spec fn left_start(self, coins: LookupCoins<F>) -> GkrProverStage<F> {
        crate::gkr_session::honest_start(
            self.weights(),
            self.index_denominators(coins.c),
            self.log_indexes_len,
            1,
        )
    }

    /// Where the second sum of an honest prover starts.
    spec fn right_start(self, coins: LookupCoins<F>) -> GkrProverStage<F> {
        crate::gkr_session::honest_start(
            self.push(),
            self.position_denominators(coins.c),
            self.log_table_len,
            1,
        )
    }

    /// Where an honest prover stands before the first sum.
    spec fn at_left(self, coins: LookupCoins<F>) -> LogupProverStage<F> {
        LogupProverStage::Left {
            point: coins.point,
            table_eval: crate::multilinear::mle(self.table, coins.point),
            pushforward_eval: crate::multilinear::mle(self.push(), coins.point),
            c: coins.c,
            sum: self.left_start(coins),
        }
    }

    /// Where an honest prover stands before the second sum.
    spec fn at_right(self, coins: LookupCoins<F>) -> LogupProverStage<F> {
        let left = crate::logup_laws::honest_sum(
            self.weights(),
            self.index_denominators(coins.c),
            final_point(coins.left),
        );
        LogupProverStage::Right {
            point: coins.point,
            table_eval: crate::multilinear::mle(self.table, coins.point),
            pushforward_eval: crate::multilinear::mle(self.push(), coins.point),
            c: coins.c,
            index_point: left.point,
            index_eval: coins.c.minus(left.denominator),
            sum: self.right_start(coins),
        }
    }

    /// What the sums of an honest lookup run over.
    proof fn lemma_sums(self, coins: LookupCoins<F>)
        requires
            self.honest(),
            self.coins_fit(coins),
        ensures
            self.weights().len() == pow2(self.log_indexes_len),
            crate::field::all_valid(self.weights()),
            crate::field::all_valid(self.push()),
            crate::fractions::all_invertible(self.index_denominators(coins.c)),
    {
        let (weights, push) = (self.weights(), self.push());
        let point = final_point(coins.left);
        lemma_final_point(coins.left, (self.log_indexes_len - 1) as nat, 2);
        crate::multilinear::lemma_eq_table(point);
        crate::logup_laws::law_batched_weights(
            self.claims,
            self.alpha,
            self.log_indexes_len,
            crate::multilinear::eq_table(point),
        );
        assert forall|j: int| 0 <= j < push.len() implies (#[trigger] push[j]).valid() by {
            crate::logup_star::lemma_pushed_valid(self.indexes, weights, j as nat);
        }
        crate::logup_star::law_lookup_sums_agree(
            self.indexes,
            weights,
            self.table.len(),
            coins.c,
        );
    }

    /// Where an honest prover comes to before each sum.
    proof fn lemma_prover_walk(self, coins: LookupCoins<F>)
        requires
            self.honest(),
            self.coins_fit(coins),
        ensures
            self.prove(LogupProverStage::Product, self.head_outcomes(coins)) == self.at_left(
                coins,
            ),
            self.prove(self.at_left(coins), within_lookup(self.left_outcomes(coins)))
                == self.at_right(coins),
    {
        let (weights, push, c) = (self.weights(), self.push(), coins.c);
        let left_dens = self.index_denominators(c);
        self.lemma_sums(coins);
        lemma_sum_session(weights, left_dens, self.log_indexes_len, coins.left);
        lemma2_to64();
        let (te, pe) = (
            crate::multilinear::mle(self.table, coins.point),
            crate::multilinear::mle(push, coins.point),
        );
        let start = LogupProverStage::<F>::Product;
        let head = self.head_outcomes(coins);
        let h1 = head.drop_last();
        assert(h1.drop_last() =~= Seq::<LogupOutcome<F>>::empty());
        assert(self.prove(start, h1.drop_last()) == start);
        assert(h1.last() == head[0]);
        assert(self.prove(start, h1) == (LogupProverStage::Sending {
            point: coins.point,
            table_eval: te,
            pushforward_eval: pe,
        }));
        let o_left = self.left_outcomes(coins);
        let k = o_left.len() - 1;
        let all = within_lookup(o_left);
        self.lemma_left_proves(coins.point, te, pe, c, self.left_start(coins), o_left, k);
        assert(all.drop_last() =~= all.take(k));
        assert(o_left.drop_last() =~= o_left.take(k));
        assert(all.last() == LogupOutcome::Sum(o_left.last()));
    }

    proof fn lemma_messages_concat(
        self,
        stage: LogupProverStage<F>,
        first: Seq<LogupOutcome<F>>,
        second: Seq<LogupOutcome<F>>,
    )
        ensures
            self.messages(stage, first + second) == self.messages(stage, first) + self.messages(
                self.prove(stage, first),
                second,
            ),
        decreases second.len(),
    {
        if second.len() == 0 {
            let m = self.messages(stage, first);
            assert(first + second =~= first);
            assert(m + Seq::<Answer<F>>::empty() =~= m);
        } else {
            assert((first + second).drop_last() =~= first + second.drop_last());
            self.lemma_messages_concat(stage, first, second.drop_last());
            self.lemma_prove_concat(stage, first, second.drop_last());
            let (t, u, m) = (
                self.messages(stage, first),
                self.messages(self.prove(stage, first), second.drop_last()),
                self.message(
                    self.prove(self.prove(stage, first), second.drop_last()),
                    second.last(),
                ),
            );
            assert((t + u) + m =~= t + (u + m));
        }
    }

    /// The first sum leaves inside the lookup what it leaves alone.
    proof fn lemma_left_messages(
        self,
        point: Seq<F>,
        te: F,
        pe: F,
        c: F,
        sum: GkrProverStage<F>,
        outcomes: Seq<Outcome<F>>,
        k: int,
    )
        requires
            0 <= k <= outcomes.len(),
            crate::gkr_session::proves_on(sum, outcomes),
        ensures
            self.messages(
                LogupProverStage::Left { point, table_eval: te, pushforward_eval: pe, c, sum },
                within_lookup(outcomes).take(k),
            ) == crate::gkr_session::transcript(
                2,
                (self.log_indexes_len - 1) as nat,
                sum,
                outcomes.take(k),
            ),
        decreases k,
    {
        let all = within_lookup(outcomes);
        if k > 0 {
            self.lemma_left_messages(point, te, pe, c, sum, outcomes, k - 1);
            self.lemma_left_proves(point, te, pe, c, sum, outcomes, k - 1);
            assert(all.take(k).drop_last() =~= all.take(k - 1));
            assert(outcomes.take(k).drop_last() =~= outcomes.take(k - 1));
        }
    }

    /// The second sum leaves inside the lookup what it leaves alone.
    proof fn lemma_right_messages(
        self,
        point: Seq<F>,
        te: F,
        pe: F,
        c: F,
        index_point: Seq<F>,
        index_eval: F,
        sum: GkrProverStage<F>,
        outcomes: Seq<Outcome<F>>,
        k: int,
    )
        requires
            0 <= k <= outcomes.len(),
            crate::gkr_session::proves_on(sum, outcomes),
        ensures
            self.messages(
                LogupProverStage::Right {
                    point,
                    table_eval: te,
                    pushforward_eval: pe,
                    c,
                    index_point,
                    index_eval,
                    sum,
                },
                within_lookup(outcomes).take(k),
            ) == crate::gkr_session::transcript(
                2,
                (self.log_table_len - 1) as nat,
                sum,
                outcomes.take(k),
            ),
        decreases k,
    {
        let all = within_lookup(outcomes);
        if k > 0 {
            self.lemma_right_messages(
                point,
                te,
                pe,
                c,
                index_point,
                index_eval,
                sum,
                outcomes,
                k - 1,
            );
            self.lemma_right_proves(
                point,
                te,
                pe,
                c,
                index_point,
                index_eval,
                sum,
                outcomes,
                k - 1,
            );
            assert(all.take(k).drop_last() =~= all.take(k - 1));
            assert(outcomes.take(k).drop_last() =~= outcomes.take(k - 1));
        }
    }

    /// The transcript of an honest session, part by part.
    proof fn lemma_transcript(self, coins: LookupCoins<F>)
        requires
            self.honest(),
            self.coins_fit(coins),
        ensures
            self.transcript(coins) == self.parts(coins),
    {
        let (weights, push, c) = (self.weights(), self.push(), coins.c);
        let start = LogupProverStage::<F>::Product;
        let (head, o_left, o_right) = (
            self.head_outcomes(coins),
            self.left_outcomes(coins),
            self.right_outcomes(coins),
        );
        let (te, pe) = (
            crate::multilinear::mle(self.table, coins.point),
            crate::multilinear::mle(push, coins.point),
        );
        self.lemma_sums(coins);
        lemma_sum_session(weights, self.index_denominators(c), self.log_indexes_len, coins.left);
        lemma_sum_session(push, self.position_denominators(c), self.log_table_len, coins.right);
        self.lemma_prover_walk(coins);
        lemma2_to64();
        let h1 = head.drop_last();
        assert(h1.drop_last() =~= Seq::<LogupOutcome<F>>::empty());
        assert(self.prove(start, h1.drop_last()) == start);
        assert(h1.last() == head[0]);
        assert(self.messages(start, h1.drop_last()) =~= Seq::<Answer<F>>::empty());
        assert(self.messages(start, h1) =~= seq![
            Answer::Sumcheck(self.claimed_value(), coins.point, te.times(pe)),
        ]);
        assert(self.prove(start, h1) == (LogupProverStage::Sending {
            point: coins.point,
            table_eval: te,
            pushforward_eval: pe,
        }));
        assert(self.messages(start, head) =~= seq![
            Answer::Sumcheck(self.claimed_value(), coins.point, te.times(pe)),
            Answer::Scalars(seq![te, pe]),
            Answer::Challenge(c),
        ]);
        let (in_left, in_right) = (within_lookup(o_left), within_lookup(o_right));
        let left_len = o_left.len() as int;
        self.lemma_left_messages(
            coins.point,
            te,
            pe,
            c,
            self.left_start(coins),
            o_left,
            left_len,
        );
        assert(in_left.take(left_len) =~= in_left);
        assert(o_left.take(left_len) =~= o_left);
        let left = crate::logup_laws::honest_sum(
            weights,
            self.index_denominators(c),
            final_point(coins.left),
        );
        let right_len = o_right.len() as int;
        self.lemma_right_messages(
            coins.point,
            te,
            pe,
            c,
            left.point,
            c.minus(left.denominator),
            self.right_start(coins),
            o_right,
            right_len,
        );
        assert(in_right.take(right_len) =~= in_right);
        assert(o_right.take(right_len) =~= o_right);
        self.lemma_prove_concat(start, head, in_left);
        self.lemma_messages_concat(start, head, in_left);
        self.lemma_messages_concat(start, head + in_left, in_right);
        assert(self.outcomes(coins) =~= head + in_left + in_right);
    }
}

/// Prover and verifier of an honest lookup are left with the same statements, and what comes back
/// to the prover is at every stage one of what it wants.
pub proof fn law_honest_prover_states_the_same<F: Field>(lookup: Lookup<F>, coins: LookupCoins<F>)
    requires
        lookup.honest(),
        lookup.coins_fit(coins),
    ensures
        lookup.prove(LogupProverStage::Product, lookup.outcomes(coins))
            == LogupProverStage::Finished(lookup.true_statements(coins)),
        lookup.all_come(LogupProverStage::Product, lookup.outcomes(coins)),
{
    let (weights, push, c) = (lookup.weights(), lookup.push(), coins.c);
    let (left_dens, right_dens) = (
        lookup.index_denominators(c),
        lookup.position_denominators(c),
    );
    lemma_final_point(coins.left, (lookup.log_indexes_len - 1) as nat, 2);
    lemma_final_point(coins.right, (lookup.log_table_len - 1) as nat, 2);
    lookup.lemma_sums(coins);
    lookup.lemma_prover_walk(coins);
    lemma_sum_session(weights, left_dens, lookup.log_indexes_len, coins.left);
    lemma_sum_session(push, right_dens, lookup.log_table_len, coins.right);
    lemma2_to64();
    let left = crate::logup_laws::honest_sum(weights, left_dens, final_point(coins.left));
    let right = crate::logup_laws::honest_sum(push, right_dens, final_point(coins.right));
    let (te, pe) = (
        crate::multilinear::mle(lookup.table, coins.point),
        crate::multilinear::mle(push, coins.point),
    );
    crate::logup_laws::law_honest_lookup(
        lookup.claims,
        lookup.alpha,
        c,
        lookup.indexes,
        final_point(coins.left),
        final_point(coins.right),
        coins.point,
        te,
        pe,
    );
    let start = LogupProverStage::<F>::Product;
    let head = lookup.head_outcomes(coins);
    let (left_start, right_start) = (lookup.left_start(coins), lookup.right_start(coins));
    let (at_left, at_right) = (lookup.at_left(coins), lookup.at_right(coins));
    let o_left = lookup.left_outcomes(coins);
    let o_right = lookup.right_outcomes(coins);
    let given = Statements {
        on_indexes: Claim { point: left.point, value: c.minus(left.denominator) },
        on_table: Claim { point: coins.point, value: te },
        on_pushforward: seq![
            Claim { point: coins.point, value: pe },
            Claim { point: right.point, value: right.numerator },
        ],
    };
    assert(lookup.prove(at_right, within_lookup(o_right)) == LogupProverStage::Finished(given)) by {
        let k = o_right.len() - 1;
        let all = within_lookup(o_right);
        lookup.lemma_right_proves(
            coins.point,
            te,
            pe,
            c,
            left.point,
            c.minus(left.denominator),
            right_start,
            o_right,
            k,
        );
        assert(all.drop_last() =~= all.take(k));
        assert(o_right.drop_last() =~= o_right.take(k));
        assert(all.last() == LogupOutcome::Sum(o_right.last()));
    }
    lookup.lemma_prove_concat(start, head, within_lookup(o_left));
    lookup.lemma_prove_concat(start, head + within_lookup(o_left), within_lookup(o_right));
    assert(given.on_pushforward =~= lookup.true_statements(coins).on_pushforward);
    assert(lookup.all_come(start, head)) by {
        lookup.lemma_evals_valid(coins);
        let h1 = head.take(1);
        assert(head.take(0) =~= Seq::<LogupOutcome<F>>::empty());
        assert(h1.drop_last() =~= head.take(0));
        assert(lookup.prove(start, head.take(0)) == start);
        assert(h1.last() == head[0]);
        assert(lookup.prove(start, h1) == (LogupProverStage::Sending {
            point: coins.point,
            table_eval: te,
            pushforward_eval: pe,
        }));
        assert forall|k: int| 0 <= k < head.len() implies lookup.comes(
            #[trigger] lookup.prove(start, head.take(k)),
            head[k],
        ) by {
            assert(k == 0 || k == 1);
        }
    }
    assert(lookup.all_come(at_left, within_lookup(o_left))) by {
        let all = within_lookup(o_left);
        assert forall|k: int| 0 <= k < all.len() implies lookup.comes(
            #[trigger] lookup.prove(at_left, all.take(k)),
            all[k],
        ) by {
            lookup.lemma_left_proves(coins.point, te, pe, c, left_start, o_left, k);
        }
    }
    assert(lookup.all_come(at_right, within_lookup(o_right))) by {
        let all = within_lookup(o_right);
        assert forall|k: int| 0 <= k < all.len() implies lookup.comes(
            #[trigger] lookup.prove(at_right, all.take(k)),
            all[k],
        ) by {
            lookup.lemma_right_proves(
                coins.point,
                te,
                pe,
                c,
                left.point,
                c.minus(left.denominator),
                right_start,
                o_right,
                k,
            );
        }
    }
    lookup.lemma_all_come_concat(start, head, within_lookup(o_left));
    lookup.lemma_all_come_concat(start, head + within_lookup(o_left), within_lookup(o_right));
}

} // verus!
