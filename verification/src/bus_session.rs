//! A whole session of the proof of a table's buses, and what it leaves when it is honest: the
//! values of the buses' own columns.

use vstd::prelude::*;
use vstd::arithmetic::power2::*;
use crate::bus::{Bus, BusData, BusStage};
use crate::field::{Field, PrimeField};
use crate::gkr_session::Coins;
use crate::quotient_gkr::{GkrProverStage, Outcome};

verus! {

/// The buses of a table, its columns, and the fingerprints of their rows.
pub struct BusTrace<P, F> {
    pub buses: Seq<Bus<P>>,
    pub cols: Seq<Seq<P>>,
    pub challenge: F,
    pub fingerprints: Seq<Seq<F>>,
    pub skips: nat,
    pub log_n_rows: nat,
}

/// The challenges of a session of a table's buses, and the values of the univariate selectors at
/// the one that selects among the pieces of a bus.
pub struct BusCoins<F> {
    pub sum: Coins<F>,
    pub epsilon: F,
    pub selectors: Seq<F>,
    pub beta: F,
}

impl<F: Field> BusData<F> {
    /// The prover behind a sequence of outcomes.
    pub open spec fn prove(self, stage: BusStage<F>, outcomes: Seq<Outcome<F>>) -> BusStage<F>
        decreases outcomes.len(),
    {
        if outcomes.len() == 0 {
            stage
        } else {
            self.next(self.prove(stage, outcomes.drop_last()), outcomes.last())
        }
    }

    /// Whether the prover can take every outcome of a sequence, one after another.
    pub open spec fn takes_all(self, stage: BusStage<F>, outcomes: Seq<Outcome<F>>) -> bool {
        forall|k: int|
            0 <= k < outcomes.len() ==> self.takes(
                #[trigger] self.prove(stage, outcomes.take(k)),
                outcomes[k],
            )
    }

    proof fn lemma_prove_concat(
        self,
        stage: BusStage<F>,
        first: Seq<Outcome<F>>,
        second: Seq<Outcome<F>>,
    )
        ensures
            self.prove(stage, first + second) == self.prove(self.prove(stage, first), second),
        decreases second.len(),
    {
        if second.len() == 0 {
            assert(first + second =~= first);
        } else {
            assert((first + second).drop_last() =~= first + second.drop_last());
            self.lemma_prove_concat(stage, first, second.drop_last());
        }
    }

    proof fn lemma_takes_all_concat(
        self,
        stage: BusStage<F>,
        first: Seq<Outcome<F>>,
        second: Seq<Outcome<F>>,
    )
        requires
            self.takes_all(stage, first),
            self.takes_all(self.prove(stage, first), second),
        ensures
            self.takes_all(stage, first + second),
    {
        let all = first + second;
        assert forall|k: int| 0 <= k < all.len() implies self.takes(
            #[trigger] self.prove(stage, all.take(k)),
            all[k],
        ) by {
            if k < first.len() {
                assert(all.take(k) =~= first.take(k));
                assert(all[k] == first[k]);
            } else {
                let j = k - first.len();
                assert(all.take(k) =~= first + second.take(j));
                assert(all[k] == second[j]);
                self.lemma_prove_concat(stage, first, second.take(j));
            }
        }
    }

    /// One outcome that can be taken is a sequence of them.
    proof fn lemma_one(self, stage: BusStage<F>, outcome: Outcome<F>)
        ensures
            self.prove(stage, seq![outcome]) == self.next(stage, outcome),
            self.takes(stage, outcome) ==> self.takes_all(stage, seq![outcome]),
    {
        let one = seq![outcome];
        assert(one.drop_last() =~= Seq::<Outcome<F>>::empty());
        assert(self.prove(stage, one.drop_last()) == stage);
        assert forall|k: int| 0 <= k < one.len() && self.takes(stage, outcome) implies self.takes(
            #[trigger] self.prove(stage, one.take(k)),
            one[k],
        ) by {
            assert(one.take(k) =~= one.drop_last());
        }
    }

    /// The sum runs under the buses as it runs alone.
    proof fn lemma_sum_proves(self, sum: GkrProverStage<F>, outcomes: Seq<Outcome<F>>, k: int)
        requires
            0 <= k < outcomes.len(),
            crate::gkr_session::proves_on(sum, outcomes),
        ensures
            self.prove(BusStage::Sum(sum), outcomes.take(k)) == BusStage::Sum(
                crate::gkr_session::prove(sum, outcomes.take(k)),
            ),
        decreases k,
    {
        if k > 0 {
            self.lemma_sum_proves(sum, outcomes, k - 1);
            assert(outcomes.take(k).drop_last() =~= outcomes.take(k - 1));
            assert(!(crate::gkr_session::prove(sum, outcomes.take(k)) is Finished));
        } else {
            assert(outcomes.take(0) =~= Seq::<Outcome<F>>::empty());
        }
    }
}

impl<P: PrimeField, F: Field> BusTrace<P, F> {
    /// Number of rows.
    pub open spec fn n_rows(self) -> nat {
        pow2(self.log_n_rows)
    }

    /// Log of the number of buses, rounded up.
    pub open spec fn log_n_buses(self) -> nat {
        crate::log2::ceil_log2(self.buses.len())
    }

    /// What the proof of the buses is about.
    pub open spec fn data(self) -> BusData<F> {
        let padded = pow2(self.log_n_buses());
        BusData {
            skips: self.skips,
            log_n_buses: self.log_n_buses(),
            log_n_rows: self.log_n_rows,
            directions: Seq::new(self.buses.len(), |b: int| self.buses[b].direction),
            challenge: self.challenge,
            numerators: crate::bus::bus_numerators::<P, F>(
                self.buses,
                self.cols,
                self.n_rows(),
                padded,
            ),
            denominators: crate::bus::bus_denominators(
                self.challenge,
                self.fingerprints,
                self.n_rows(),
                padded,
            ),
        }
    }

    /// Whether the parts fit together, and no denominator is 0.
    pub open spec fn fits(self) -> bool {
        &&& self.buses.len() > 0
        &&& 1 <= self.skips < self.log_n_buses() + self.log_n_rows
        &&& self.buses.len() > 1 ==> self.skips <= self.log_n_rows
        &&& crate::bus::buses_fit(
            self.buses,
            self.cols,
            self.challenge,
            self.fingerprints,
            self.n_rows(),
        )
    }

    /// Whether the coins are those of a session.
    pub open spec fn coins_fit(self, coins: BusCoins<F>) -> bool {
        &&& coins.sum.fit(self.data().rounds(), self.data().groups())
        &&& coins.epsilon.valid()
        &&& coins.selectors.len() == self.data().groups()
        &&& crate::field::all_valid(coins.selectors)
        &&& coins.beta.valid()
    }

    /// The signed selector column of a bus.
    pub open spec fn selector_column(self, b: int) -> Seq<F> {
        let bus = self.buses[b];
        Seq::new(
            self.n_rows(),
            |row: int|
                crate::bus::lifted::<P, F>(
                    crate::bus::signed(bus.direction, self.cols[bus.selector as int][row]),
                ),
        )
    }

    /// The denominators of a bus.
    pub open spec fn denominator_column(self, b: int) -> Seq<F> {
        Seq::new(self.n_rows(), |row: int| self.challenge.plus(self.fingerprints[b][row]))
    }

    /// What an honest prover gets in the sum over all buses.
    pub open spec fn sum_outcomes(self, coins: BusCoins<F>) -> Seq<Outcome<F>> {
        crate::gkr_session::outcomes_up_to(
            self.data().numerators,
            self.data().denominators,
            self.log_n_buses() + self.log_n_rows,
            self.skips,
            coins.sum,
            self.data().rounds(),
        )
    }

    /// What an honest prover gets in a session.
    pub open spec fn outcomes(self, coins: BusCoins<F>) -> Seq<Outcome<F>> {
        let last = Outcome::Challenge(coins.beta);
        self.sum_outcomes(coins) + if self.buses.len() == 1 {
            seq![last]
        } else {
            seq![Outcome::SkipChallenge(coins.epsilon, coins.selectors), last]
        }
    }

    /// The stage that an honest prover starts from.
    pub open spec fn start(self) -> BusStage<F> {
        BusStage::Sum(
            crate::gkr_session::honest_start(
                self.data().numerators,
                self.data().denominators,
                self.log_n_buses() + self.log_n_rows,
                self.skips,
            ),
        )
    }

    /// The values of the univariate selectors at the first coordinate of the final point.
    pub open spec fn final_selectors(self, coins: BusCoins<F>) -> Seq<F> {
        if self.buses.len() == 1 {
            coins.sum.selectors
        } else {
            coins.selectors
        }
    }

    /// The coordinates of the final point behind its first one.
    pub open spec fn final_tail(self, coins: BusCoins<F>) -> Seq<F> {
        coins.sum.points.last().skip(self.log_n_buses() as int)
    }

    /// The final point.
    pub open spec fn final_point(self, coins: BusCoins<F>) -> Seq<F> {
        seq![
            if self.buses.len() == 1 {
                coins.sum.betas.last()
            } else {
                coins.epsilon
            },
        ] + self.final_tail(coins)
    }

    /// The value of a column at the final point.
    pub open spec fn final_value(self, column: Seq<F>, coins: BusCoins<F>) -> F {
        crate::gkr_laws::skip_value(column, self.final_selectors(coins), self.final_tail(coins))
    }

    /// The value that a session should leave for a bus: the value of its signed selector column,
    /// with the sign again, plus `beta` times the value of its denominators less the challenge.
    pub open spec fn true_value(self, b: int, coins: BusCoins<F>) -> F {
        self.final_value(self.selector_column(b), coins).times(
            crate::bus::signed(self.buses[b].direction, F::unit()),
        ).plus(
            coins.beta.times(
                self.final_value(self.denominator_column(b), coins).minus(self.challenge),
            ),
        )
    }

    /// The sum over all buses is a proper one.
    proof fn lemma_proper(self)
        requires
            self.fits(),
        ensures
            crate::gkr_laws::proper(
                self.data().numerators,
                self.data().denominators,
                self.log_n_buses() + self.log_n_rows,
                self.skips,
            ),
            crate::fractions::all_invertible(self.data().denominators),
            self.buses.len() <= pow2(self.log_n_buses()),
            self.buses.len() == 1 ==> self.log_n_buses() == 0,
            self.data().numerators.len() == pow2(self.log_n_buses()) * self.n_rows(),
            self.data().denominators.len() == pow2(self.log_n_buses()) * self.n_rows(),
    {
        let dens = self.data().denominators;
        let padded = pow2(self.log_n_buses());
        crate::log2::lemma_ceil_log2_covers(self.buses.len());
        crate::bus::lemma_bus_fractions(
            self.buses,
            self.cols,
            self.challenge,
            self.fingerprints,
            self.n_rows(),
            padded,
        );
        lemma_pow2_adds(self.log_n_buses(), self.log_n_rows);
        assert forall|i: int| 0 <= i < dens.len() implies (#[trigger] dens[i]).valid() by {
            crate::field::lemma_invertible(dens[i]);
        }
    }

    /// The rows of a bus among all rows are its own columns.
    proof fn lemma_own_rows(self, b: int)
        requires
            self.fits(),
            0 <= b < self.buses.len(),
        ensures
            ({
                let n_rows = self.n_rows();
                &&& self.data().numerators.subrange(b * n_rows, (b + 1) * n_rows)
                    == self.selector_column(b)
                &&& self.data().denominators.subrange(b * n_rows, (b + 1) * n_rows)
                    == self.denominator_column(b)
                &&& (b + 1) * n_rows <= self.data().numerators.len()
            }),
    {
        let n_rows = self.n_rows() as int;
        let padded = pow2(self.log_n_buses()) as int;
        self.lemma_proper();
        lemma_pow2_pos(self.log_n_rows);
        crate::bus::lemma_cell(b, 0, n_rows, padded);
        let nums = self.data().numerators.subrange(b * n_rows, (b + 1) * n_rows);
        let dens = self.data().denominators.subrange(b * n_rows, (b + 1) * n_rows);
        assert forall|row: int| 0 <= row < n_rows implies nums[row] == self.selector_column(b)[row]
            && dens[row] == self.denominator_column(b)[row] by {
            crate::bus::lemma_cell(b, row, n_rows, padded);
        }
        assert(nums =~= self.selector_column(b));
        assert(dens =~= self.denominator_column(b));
    }

    /// What the values of the pieces come to is the value of the whole.
    proof fn lemma_whole(self, selectors: Seq<F>, point: Seq<F>)
        requires
            self.fits(),
            selectors.len() == self.data().groups(),
            self.buses.len() > 1,
            point.len() == self.data().rounds() + 1,
            crate::field::all_valid(point),
        ensures
            ({
                let d = self.data();
                let rest = point.skip(1);
                &&& d.whole(d.numerators, F::nil(), point, selectors)
                    == crate::gkr_laws::skip_value(d.numerators, selectors, rest)
                &&& d.whole(d.denominators, F::unit(), point, selectors)
                    == crate::gkr_laws::skip_value(d.denominators, selectors, rest)
            }),
    {
        let d = self.data();
        let (head, tail) = (d.head(point), d.tail(point));
        let rest = point.skip(1);
        self.lemma_proper();
        assert(rest =~= head + tail);
        assert(crate::field::all_valid(head)) by {
            assert forall|i: int| 0 <= i < head.len() implies (#[trigger] head[i]).valid() by {
                assert(head[i] == point[i + 1]);
            }
        }
        assert(crate::field::all_valid(tail)) by {
            assert forall|i: int| 0 <= i < tail.len() implies (#[trigger] tail[i]).valid() by {
                assert(tail[i] == point[i + 1 + self.log_n_buses()]);
            }
        }
        assert(tail.len() == self.log_n_rows - self.skips);
        lemma_pow2_adds(self.skips, tail.len());
        lemma_pow2_adds(self.log_n_buses(), self.skips);
        let padded = pow2(self.log_n_buses());
        let count = padded * d.groups();
        assert(self.n_rows() == d.groups() * pow2(tail.len()));
        assert(pow2(self.skips + head.len()) == count);
        crate::bus::law_pieces_stand_for_whole(d.numerators, selectors, head, tail, self.skips);
        crate::bus::law_pieces_stand_for_whole(d.denominators, selectors, head, tail, self.skips);
        let all_nums = crate::bus::piece_values(d.numerators, count, tail);
        let all_dens = crate::bus::piece_values(d.denominators, count, tail);
        let own = self.buses.len() * d.groups();
        assert(own <= count) by (nonlinear_arith)
            requires
                own == self.buses.len() * d.groups(),
                count == padded * d.groups(),
                self.buses.len() <= padded,
        ;
        let nums = crate::bus::filled(d.pieces(d.numerators, point), F::nil(), count);
        let dens = crate::bus::filled(d.pieces(d.denominators, point), F::unit(), count);
        assert forall|j: int| 0 <= j < count implies nums[j] == all_nums[j] && dens[j]
            == all_dens[j] by {
            if j >= own {
                crate::bus::law_padding_pieces_are_constant(
                    self.buses,
                    self.cols,
                    self.challenge,
                    self.fingerprints,
                    self.skips,
                    padded,
                    tail,
                    j as nat,
                );
            }
        }
        assert(nums =~= all_nums);
        assert(dens =~= all_dens);
    }
}

/// Completeness: with any challenges, every outcome of an honest session can be taken, the claims
/// that the sum ends with agree with the pieces, and the session leaves at its final point, for
/// every bus, the value of its signed selector column, with the sign again, plus `beta` times the
/// value of its denominators less the challenge.
pub proof fn law_honest_buses<P: PrimeField, F: Field>(trace: BusTrace<P, F>, coins: BusCoins<F>)
    requires
        trace.fits(),
        trace.coins_fit(coins),
    ensures
        trace.data().takes_all(trace.start(), trace.outcomes(coins)),
        trace.data().prove(trace.start(), trace.outcomes(coins)) == (BusStage::Finished {
            point: trace.final_point(coins),
            values: Seq::new(trace.buses.len(), |b: int| trace.true_value(b, coins)),
            beta: coins.beta,
        }),
{
    let d = trace.data();
    let total = trace.log_n_buses() + trace.log_n_rows;
    let (nums, dens) = (d.numerators, d.denominators);
    let rounds = d.rounds();
    trace.lemma_proper();
    crate::gkr_session::law_honest_session_accepted(nums, dens, total, trace.skips, coins.sum);
    let sum = crate::gkr_session::honest_start(nums, dens, total, trace.skips);
    let start = trace.start();
    let outcomes = trace.sum_outcomes(coins);
    let rest = coins.sum.points[rounds - 1];
    let point = seq![coins.sum.betas[rounds - 1]] + rest;
    assert(coins.sum.points.last() == rest && coins.sum.betas.last() == point[0]);
    assert(rest.len() == rounds && crate::field::all_valid(rest));
    assert forall|i: int| 0 <= i < point.len() implies (#[trigger] point[i]).valid() by {
        if i > 0 {
            assert(point[i] == rest[i - 1]);
        }
    }
    assert(point.skip(1) =~= rest);
    if outcomes.len() == 0 {
        assert(crate::gkr_session::prove(sum, outcomes) == sum);
    }
    // The sum over all buses.
    let k = outcomes.len() - 1;
    let done = crate::gkr_session::prove(sum, outcomes);
    d.lemma_sum_proves(sum, outcomes, k);
    assert(outcomes.drop_last() =~= outcomes.take(k));
    let behind = d.next(BusStage::Sum(crate::gkr_session::prove(sum, outcomes.take(k))), outcomes[k]);
    assert(d.prove(start, outcomes) == behind);
    assert(d.takes_all(start, outcomes)) by {
        assert forall|j: int| 0 <= j < outcomes.len() implies d.takes(
            #[trigger] d.prove(start, outcomes.take(j)),
            outcomes[j],
        ) by {
            d.lemma_sum_proves(sum, outcomes, j);
            assert(crate::quotient_gkr::comes_of(
                d.groups(),
                outcomes[j],
                crate::quotient_gkr::task(
                    d.groups(),
                    rounds,
                    crate::gkr_session::prove(sum, outcomes.take(j)),
                ),
            ));
            assert(outcomes.take(j + 1).drop_last() =~= outcomes.take(j));
            if j < k {
                assert(!(crate::gkr_session::prove(sum, outcomes.take(j + 1)) is Finished));
            } else {
                assert(outcomes.take(j + 1) =~= outcomes);
                lemma_last_outcome(trace, coins);
                if trace.buses.len() > 1 {
                    trace.lemma_whole(coins.sum.selectors, point);
                }
            }
        }
    }
    // The pieces, where there are several buses.
    let tail = trace.final_tail(coins);
    let last = Outcome::Challenge(coins.beta);
    if trace.buses.len() == 1 {
        lemma_pow2_pos(trace.log_n_rows);
        lemma2_to64();
        trace.lemma_own_rows(0);
        assert(rest.skip(0) =~= rest);
        assert(0 * trace.n_rows() == 0 && (0 + 1) * trace.n_rows() == trace.n_rows());
        assert(nums.subrange(0, nums.len() as int) =~= nums);
        assert(dens.subrange(0, dens.len() as int) =~= dens);
        d.lemma_one(behind, last);
        d.lemma_prove_concat(start, outcomes, seq![last]);
        d.lemma_takes_all_concat(start, outcomes, seq![last]);
    } else {
        let pieces = Outcome::SkipChallenge(coins.epsilon, coins.selectors);
        assert(d.tail(point) =~= tail);
        assert(behind == (BusStage::Pieces {
            point,
            numerators: d.pieces(nums, point),
            denominators: d.pieces(dens, point),
        }));
        let batching = d.next(behind, pieces);
        d.lemma_one(behind, pieces);
        d.lemma_one(batching, last);
        d.lemma_prove_concat(behind, seq![pieces], seq![last]);
        d.lemma_takes_all_concat(behind, seq![pieces], seq![last]);
        let both = seq![pieces, last];
        assert(seq![pieces] + seq![last] =~= both);
        d.lemma_prove_concat(start, outcomes, both);
        d.lemma_takes_all_concat(start, outcomes, both);
    }
    let values = Seq::new(trace.buses.len(), |b: int| trace.true_value(b, coins));
    let ended = d.prove(start, trace.outcomes(coins));
    assert forall|b: int| 0 <= b < trace.buses.len() implies ended->values[b] == values[b] by {
        trace.lemma_own_rows(b);
        if trace.buses.len() > 1 {
            lemma_bus_values(trace, coins, b);
        }
    }
    assert(ended->values =~= values);
    assert(ended->Finished_point =~= trace.final_point(coins));
}

/// The outcome that ends the sum holds the values of the selectors.
proof fn lemma_last_outcome<P: PrimeField, F: Field>(trace: BusTrace<P, F>, coins: BusCoins<F>)
    requires
        trace.fits(),
        trace.coins_fit(coins),
    ensures
        ({
            let outcomes = trace.sum_outcomes(coins);
            &&& outcomes.len() > 0
            &&& outcomes.last() == Outcome::SkipChallenge(
                coins.sum.betas[trace.data().rounds() - 1],
                coins.sum.selectors,
            )
        }),
{
    let d = trace.data();
    let total = trace.log_n_buses() + trace.log_n_rows;
    assert(d.rounds() >= 1 && d.rounds() == total - trace.skips);
    let round = crate::gkr_session::outcomes_of_round(
        d.numerators,
        d.denominators,
        total,
        trace.skips,
        coins.sum,
        d.rounds(),
    );
    assert(round.last() == round[2]);
    assert(trace.sum_outcomes(coins) == crate::gkr_session::outcomes_up_to(
        d.numerators,
        d.denominators,
        total,
        trace.skips,
        coins.sum,
        (d.rounds() - 1) as nat,
    ) + round);
}

/// The values that are drawn out of the pieces of a bus are those of its own columns.
proof fn lemma_bus_values<P: PrimeField, F: Field>(
    trace: BusTrace<P, F>,
    coins: BusCoins<F>,
    b: int,
)
    requires
        trace.fits(),
        trace.coins_fit(coins),
        trace.buses.len() > 1,
        0 <= b < trace.buses.len(),
    ensures
        ({
            let d = trace.data();
            let n_buses = trace.buses.len();
            let tail = trace.final_tail(coins);
            let count = n_buses * d.groups();
            &&& crate::bus::grouped(
                crate::bus::piece_values(d.numerators, count, tail),
                n_buses,
                coins.selectors,
            )[b] == trace.final_value(trace.selector_column(b), coins)
            &&& crate::bus::grouped(
                crate::bus::piece_values(d.denominators, count, tail),
                n_buses,
                coins.selectors,
            )[b] == trace.final_value(trace.denominator_column(b), coins)
        }),
{
    let d = trace.data();
    let n_buses = trace.buses.len();
    let tail = trace.final_tail(coins);
    let n_rows = trace.n_rows();
    trace.lemma_proper();
    trace.lemma_own_rows(b);
    trace.lemma_own_rows(n_buses - 1);
    assert(coins.sum.points.last() == coins.sum.points[d.rounds() - 1]);
    assert(tail.len() == trace.log_n_rows - trace.skips);
    lemma_pow2_adds(trace.skips, tail.len());
    lemma_pow2_pos(trace.skips);
    assert(n_rows == coins.selectors.len() * pow2(tail.len()));
    crate::bus::law_grouped_pieces_are_bus_values(
        d.numerators,
        n_buses,
        coins.selectors,
        tail,
        b as nat,
    );
    crate::bus::law_grouped_pieces_are_bus_values(
        d.denominators,
        n_buses,
        coins.selectors,
        tail,
        b as nat,
    );
}

/// When the claims that the sum over several buses ends with agree with its pieces: exactly where
/// the claim on numerators is the value of all numerators at the point, and the claim on
/// denominators that of all denominators, those of the buses that fill up their number with them.
pub proof fn law_agreement<P: PrimeField, F: Field>(
    trace: BusTrace<P, F>,
    sum: GkrProverStage<F>,
    beta: F,
    selectors: Seq<F>,
    point: Seq<F>,
    numerator: F,
    denominator: F,
)
    requires
        trace.fits(),
        trace.buses.len() > 1,
        selectors.len() == pow2(trace.skips),
        point.len() == trace.data().rounds() + 1,
        crate::field::all_valid(point),
        crate::quotient_gkr::next_prover_stage(sum, Outcome::SkipChallenge(beta, selectors))
            == (GkrProverStage::Finished { point, numerator, denominator }),
    ensures
        trace.data().agrees(BusStage::Sum(sum), Outcome::SkipChallenge(beta, selectors)) <==> {
            &&& numerator == crate::gkr_laws::skip_value(
                trace.data().numerators,
                selectors,
                point.skip(1),
            )
            &&& denominator == crate::gkr_laws::skip_value(
                trace.data().denominators,
                selectors,
                point.skip(1),
            )
        },
{
    trace.lemma_whole(selectors, point);
}

} // verus!
