//! The buses of a table: what its rows push to and pull from the other tables, as a sum of
//! fractions, and the claims that are left of it.

use vstd::prelude::*;
use vstd::arithmetic::power2::*;
use vstd::bits::*;
use vstd::slice::slice_subrange;
use p3_util::log2_ceil_usize;
use crate::arith::pow2_usize;
use crate::field::{dot_product, Field, PrimeField};
use crate::multilinear::{copy_of, evaluate};
use crate::quotient_gkr::{
    prepend, prove_gkr_quotient, prove_gkr_quotient_step, skip_claims_at, GkrProver,
    GkrProverPhase, GkrProverStage, Outcome, ProverReply, ProverRequest, Task,
};

verus! {

/// Whether a bus takes from the other tables or gives to them.
#[derive(Clone, Copy, Debug, Eq, PartialEq, Structural)]
pub enum BusDirection {
    Pull,
    Push,
}

/// The table that a bus leads to.
#[derive(Clone, Copy, Debug)]
pub enum BusTable<P> {
    /// Always the same one, by its element.
    Constant(P),
    /// The one that a column names, row by row.
    Variable(usize),
}

/// A bus: when its selector column is on, the data columns of a row go to or come from a table.
#[derive(Clone, Debug)]
pub struct Bus<P> {
    pub direction: BusDirection,
    pub table: BusTable<P>,
    pub selector: usize,
    pub data: Vec<usize>,
}

impl<P> Bus<P> {
    /// Whether the bus speaks of columns that there are.
    pub open spec fn within(self, n_columns: nat) -> bool {
        &&& self.selector < n_columns
        &&& self.table matches BusTable::Variable(col) ==> col < n_columns
        &&& forall|d: int| 0 <= d < self.data.len() ==> #[trigger] self.data[d] < n_columns
    }
}

/// Columns by their entries.
pub open spec fn trace_columns<P>(base: Seq<Vec<P>>) -> Seq<Seq<P>> {
    crate::fractions::owned_columns(base)
}

/// The element that names the table of a bus at a row.
pub open spec fn table_at<P>(bus: Bus<P>, cols: Seq<Seq<P>>, row: int) -> P {
    match bus.table {
        BusTable::Constant(table) => table,
        BusTable::Variable(col) => cols[col as int][row],
    }
}

/// The data of a bus at a row.
pub open spec fn data_at<P>(bus: Bus<P>, cols: Seq<Seq<P>>, row: int) -> Seq<P> {
    Seq::new(bus.data.len() as nat, |d: int| cols[bus.data[d] as int][row])
}

/// What the fingerprint of a bus at a row is taken of: the table and the data.
pub fn fingerprint_inputs<P: PrimeField>(bus: &Bus<P>, base: &[Vec<P>], row: usize) -> (r: (
    P,
    Vec<P>,
))
    requires
        bus.within(base.len() as nat),
        forall|c: int| 0 <= c < base.len() ==> row < (#[trigger] base[c]).len(),
    ensures
        r.0 == table_at(*bus, trace_columns(base@), row as int),
        r.1@ == data_at(*bus, trace_columns(base@), row as int),
{
    let table = match bus.table {
        BusTable::Constant(table) => table,
        BusTable::Variable(col) => base[col][row],
    };
    let mut data: Vec<P> = Vec::new();
    while data.len() < bus.data.len()
        invariant
            data.len() <= bus.data.len(),
            bus.within(base.len() as nat),
            forall|c: int| 0 <= c < base.len() ==> row < (#[trigger] base[c]).len(),
            forall|d: int|
                0 <= d < data.len() ==> #[trigger] data[d] == base[bus.data[d] as int][row as int],
        decreases bus.data.len() - data.len(),
    {
        let col: usize = bus.data[data.len()];
        data.push(base[col][row]);
    }
    assert(data@ =~= data_at(*bus, trace_columns(base@), row as int));
    (table, data)
}

/// The element that stands in a field for one of the prime field.
pub open spec fn lifted<P: PrimeField, F: Field>(x: P) -> F {
    F::embed(x.remainder())
}

/// A selector with the sign of a direction: itself for a push, its negative for a pull.
pub open spec fn signed<P: Field>(direction: BusDirection, selector: P) -> P {
    match direction {
        BusDirection::Pull => P::nil().minus(selector),
        BusDirection::Push => selector,
    }
}

/// The numerators over all rows of all buses, one bus after another, filled up with 0 to
/// `padded` buses.
pub open spec fn bus_numerators<P: PrimeField, F: Field>(
    buses: Seq<Bus<P>>,
    cols: Seq<Seq<P>>,
    n_rows: nat,
    padded: nat,
) -> Seq<F> {
    Seq::new(
        padded * n_rows,
        |i: int|
            if (i / (n_rows as int)) < buses.len() {
                let bus = buses[i / (n_rows as int)];
                lifted::<P, F>(
                    signed(bus.direction, cols[bus.selector as int][i % (n_rows as int)]),
                )
            } else {
                F::nil()
            },
    )
}

/// The denominators over all rows of all buses, one bus after another, filled up with 1 to
/// `padded` buses.
pub open spec fn bus_denominators<F: Field>(
    challenge: F,
    fingerprints: Seq<Seq<F>>,
    n_rows: nat,
    padded: nat,
) -> Seq<F> {
    Seq::new(
        padded * n_rows,
        |i: int|
            if (i / (n_rows as int)) < fingerprints.len() {
                challenge.plus(fingerprints[i / (n_rows as int)][i % (n_rows as int)])
            } else {
                F::unit()
            },
    )
}

pub(crate) proof fn lemma_cell(b: int, row: int, n_rows: int, padded: int)
    requires
        0 <= b < padded,
        0 <= row < n_rows,
    ensures
        0 <= b * n_rows,
        b * n_rows + row < padded * n_rows,
        b * n_rows + n_rows <= padded * n_rows,
        (b * n_rows + row) / n_rows == b,
        (b * n_rows + row) % n_rows == row,
        (b + 1) * n_rows == b * n_rows + n_rows,
{
    vstd::arithmetic::div_mod::lemma_fundamental_div_mod_converse(
        b * n_rows + row,
        n_rows,
        b,
        row,
    );
    assert(0 <= b * n_rows) by (nonlinear_arith)
        requires
            b >= 0,
            n_rows >= 0,
    ;
    assert(b * n_rows + n_rows <= padded * n_rows) by (nonlinear_arith)
        requires
            b + 1 <= padded,
            n_rows >= 0,
    ;
    assert((b + 1) * n_rows == b * n_rows + n_rows) by (nonlinear_arith);
}

/// Computes the numerators over all rows of all buses.
pub fn compute_bus_numerators<P: PrimeField, F: Field>(
    buses: &[Bus<P>],
    base: &[Vec<P>],
    n_rows: usize,
    padded: usize,
) -> (v: Vec<F>)
    requires
        n_rows > 0,
        buses.len() <= padded,
        padded * n_rows <= usize::MAX,
        forall|b: int| 0 <= b < buses.len() ==> (#[trigger] buses[b]).within(base.len() as nat),
        forall|c: int|
            0 <= c < base.len() ==> (#[trigger] base[c]).len() == n_rows
                && crate::field::all_valid(base[c]@),
    ensures
        v@ == bus_numerators::<P, F>(
            buses@,
            trace_columns(base@),
            n_rows as nat,
            padded as nat,
        ),
        crate::field::all_valid(v@),
{
    let ghost cols = trace_columns(base@);
    let ghost want = bus_numerators::<P, F>(buses@, cols, n_rows as nat, padded as nat);
    let mut v: Vec<F> = Vec::new();
    let mut b: usize = 0;
    while b < padded
        invariant
            b <= padded,
            n_rows > 0,
            buses.len() <= padded,
            padded * n_rows <= usize::MAX,
            forall|b: int|
                0 <= b < buses.len() ==> (#[trigger] buses[b]).within(base.len() as nat),
            forall|c: int|
                0 <= c < base.len() ==> (#[trigger] base[c]).len() == n_rows
                    && crate::field::all_valid(base[c]@),
            cols == trace_columns(base@),
            want == bus_numerators::<P, F>(buses@, cols, n_rows as nat, padded as nat),
            v.len() == b * n_rows,
            crate::field::all_valid(v@),
            forall|i: int| 0 <= i < v.len() ==> #[trigger] v[i] == want[i],
        decreases padded - b,
    {
        let ghost start = (b * n_rows) as int;
        let mut row: usize = 0;
        while row < n_rows
            invariant
                b < padded,
                row <= n_rows,
                n_rows > 0,
                forall|b: int|
                    0 <= b < buses.len() ==> (#[trigger] buses[b]).within(base.len() as nat),
                forall|c: int|
                    0 <= c < base.len() ==> (#[trigger] base[c]).len() == n_rows
                        && crate::field::all_valid(base[c]@),
                cols == trace_columns(base@),
                want == bus_numerators::<P, F>(buses@, cols, n_rows as nat, padded as nat),
                start == b * n_rows,
                v.len() == start + row,
                crate::field::all_valid(v@),
                forall|i: int| 0 <= i < v.len() ==> #[trigger] v[i] == want[i],
            decreases n_rows - row,
        {
            proof {
                lemma_cell(b as int, row as int, n_rows as int, padded as int);
            }
            if b < buses.len() {
                assert(buses[b as int].within(base.len() as nat));
                let column = &base[buses[b].selector];
                assert(crate::field::all_valid(column@));
                let selector = column[row];
                let value = match buses[b].direction {
                    BusDirection::Pull => P::zero().field_sub(selector),
                    BusDirection::Push => selector,
                };
                v.push(F::from_usize(value.to_usize()));
            } else {
                v.push(F::zero());
            }
            row = row + 1;
        }
        proof {
            lemma_cell(b as int, 0, n_rows as int, padded as int);
        }
        b = b + 1;
    }
    assert(v@ =~= want);
    v
}

/// Computes the denominators over all rows of all buses.
pub fn compute_bus_denominators<F: Field>(
    challenge: F,
    fingerprints: &[Vec<F>],
    n_rows: usize,
    padded: usize,
) -> (v: Vec<F>)
    requires
        n_rows > 0,
        challenge.valid(),
        fingerprints.len() <= padded,
        padded * n_rows <= usize::MAX,
        forall|b: int|
            0 <= b < fingerprints.len() ==> (#[trigger] fingerprints[b]).len() == n_rows
                && crate::field::all_valid(fingerprints[b]@),
    ensures
        v@ == bus_denominators(
            challenge,
            trace_columns(fingerprints@),
            n_rows as nat,
            padded as nat,
        ),
        crate::field::all_valid(v@),
{
    let ghost want = bus_denominators(
        challenge,
        trace_columns(fingerprints@),
        n_rows as nat,
        padded as nat,
    );
    let mut v: Vec<F> = Vec::new();
    let mut b: usize = 0;
    while b < padded
        invariant
            b <= padded,
            n_rows > 0,
            challenge.valid(),
            fingerprints.len() <= padded,
            padded * n_rows <= usize::MAX,
            forall|b: int|
                0 <= b < fingerprints.len() ==> (#[trigger] fingerprints[b]).len() == n_rows
                    && crate::field::all_valid(fingerprints[b]@),
            want == bus_denominators(
                challenge,
                trace_columns(fingerprints@),
                n_rows as nat,
                padded as nat,
            ),
            v.len() == b * n_rows,
            crate::field::all_valid(v@),
            forall|i: int| 0 <= i < v.len() ==> #[trigger] v[i] == want[i],
        decreases padded - b,
    {
        let ghost start = (b * n_rows) as int;
        let mut row: usize = 0;
        while row < n_rows
            invariant
                b < padded,
                row <= n_rows,
                n_rows > 0,
                challenge.valid(),
                forall|b: int|
                    0 <= b < fingerprints.len() ==> (#[trigger] fingerprints[b]).len() == n_rows
                        && crate::field::all_valid(fingerprints[b]@),
                want == bus_denominators(
                    challenge,
                    trace_columns(fingerprints@),
                    n_rows as nat,
                    padded as nat,
                ),
                start == b * n_rows,
                v.len() == start + row,
                crate::field::all_valid(v@),
                forall|i: int| 0 <= i < v.len() ==> #[trigger] v[i] == want[i],
            decreases n_rows - row,
        {
            proof {
                lemma_cell(b as int, row as int, n_rows as int, padded as int);
            }
            if b < fingerprints.len() {
                assert(trace_columns(fingerprints@)[b as int] == fingerprints[b as int]@);
                v.push(challenge.field_add(fingerprints[b][row]));
            } else {
                v.push(F::one());
            }
            row = row + 1;
        }
        proof {
            lemma_cell(b as int, 0, n_rows as int, padded as int);
        }
        b = b + 1;
    }
    assert(v@ =~= want);
    v
}

/// An element less each of a sequence.
pub open spec fn less_all<F: Field>(q: F, s: Seq<F>) -> F
    decreases s.len(),
{
    if s.len() == 0 {
        q
    } else {
        less_all(q, s.drop_last()).minus(s.last())
    }
}

/// The quotient of a table's buses, less what its padding rows contribute.
pub fn without_padding<F: Field>(quotient: F, contributions: &[F]) -> (r: F)
    requires
        quotient.valid(),
        crate::field::all_valid(contributions@),
    ensures
        r.valid(),
        r == less_all(quotient, contributions@),
{
    let mut r = quotient;
    let mut i: usize = 0;
    while i < contributions.len()
        invariant
            i <= contributions.len(),
            crate::field::all_valid(contributions@),
            r.valid(),
            r == less_all(quotient, contributions@.take(i as int)),
        decreases contributions.len() - i,
    {
        assert(contributions@.take(i + 1).drop_last() =~= contributions@.take(i as int));
        r = r.field_sub(contributions[i]);
        i = i + 1;
    }
    assert(contributions@.take(i as int) =~= contributions@);
    r
}

/// The claims on the virtual columns of the buses: the signed selector plus `beta` times the
/// fingerprint.
pub open spec fn bus_final_values<F: Field>(
    directions: Seq<BusDirection>,
    selectors: Seq<F>,
    data: Seq<F>,
    challenge: F,
    beta: F,
) -> Seq<F> {
    Seq::new(
        directions.len(),
        |b: int|
            selectors[b].times(signed(directions[b], F::unit())).plus(
                beta.times(data[b].minus(challenge)),
            ),
    )
}

/// Computes the claims on the virtual columns of the buses.
pub fn compute_bus_final_values<F: Field>(
    directions: &[BusDirection],
    selectors: &[F],
    data: &[F],
    challenge: F,
    beta: F,
) -> (v: Vec<F>)
    requires
        selectors.len() == directions.len(),
        data.len() == directions.len(),
        crate::field::all_valid(selectors@),
        crate::field::all_valid(data@),
        challenge.valid(),
        beta.valid(),
    ensures
        v@ == bus_final_values(directions@, selectors@, data@, challenge, beta),
        crate::field::all_valid(v@),
{
    let mut v: Vec<F> = Vec::new();
    while v.len() < directions.len()
        invariant
            v.len() <= directions.len(),
            selectors.len() == directions.len(),
            data.len() == directions.len(),
            crate::field::all_valid(selectors@),
            crate::field::all_valid(data@),
            challenge.valid(),
            beta.valid(),
            crate::field::all_valid(v@),
            forall|b: int|
                0 <= b < v.len() ==> #[trigger] v[b] == bus_final_values(
                    directions@,
                    selectors@,
                    data@,
                    challenge,
                    beta,
                )[b],
        decreases directions.len() - v.len(),
    {
        let b: usize = v.len();
        let sign = match directions[b] {
            BusDirection::Pull => F::zero().field_sub(F::one()),
            BusDirection::Push => F::one(),
        };
        let fingerprint = data[b].field_sub(challenge);
        v.push(selectors[b].field_mul(sign).field_add(beta.field_mul(fingerprint)));
    }
    assert(v@ =~= bus_final_values(directions@, selectors@, data@, challenge, beta));
    v
}

/// The values at `tail` of the first `count` pieces of a sequence, each as long as the cube of
/// `tail`.
pub open spec fn piece_values<F: Field>(values: Seq<F>, count: nat, tail: Seq<F>) -> Seq<F> {
    let width = pow2(tail.len());
    Seq::new(
        count,
        |j: int| crate::multilinear::mle(values.subrange(j * width, (j + 1) * width), tail),
    )
}

/// Computes the values at a point of the first pieces of a sequence.
fn compute_piece_values<F: Field>(values: &[F], count: usize, tail: &[F]) -> (v: Vec<F>)
    requires
        count * pow2(tail.len() as nat) <= values.len(),
        pow2(tail.len() as nat) <= usize::MAX,
        tail.len() < usize::BITS,
        crate::field::all_valid(values@),
        crate::field::all_valid(tail@),
    ensures
        v@ == piece_values(values@, count as nat, tail@),
        crate::field::all_valid(v@),
{
    let width: usize = pow2_usize(tail.len());
    let mut v: Vec<F> = Vec::new();
    while v.len() < count
        invariant
            v.len() <= count,
            width == pow2(tail.len() as nat),
            count * width <= values.len(),
            crate::field::all_valid(values@),
            crate::field::all_valid(tail@),
            crate::field::all_valid(v@),
            forall|j: int|
                0 <= j < v.len() ==> #[trigger] v[j] == piece_values(
                    values@,
                    count as nat,
                    tail@,
                )[j],
        decreases count - v.len(),
    {
        let j: usize = v.len();
        proof {
            lemma_pow2_pos(tail.len() as nat);
            lemma_cell(j as int, 0, width as int, count as int);
        }
        let piece = slice_subrange(values, j * width, j * width + width);
        assert(piece@ =~= values@.subrange(j * width, (j + 1) * width));
        v.push(evaluate(piece, tail));
    }
    assert(v@ =~= piece_values(values@, count as nat, tail@));
    v
}

/// The values of each group of pieces, weighted by selectors.
pub open spec fn grouped<F: Field>(values: Seq<F>, count: nat, selectors: Seq<F>) -> Seq<F> {
    let size = selectors.len();
    Seq::new(
        count,
        |b: int|
            crate::field::dot(
                values.subrange((b * size) as int, ((b + 1) * size) as int),
                selectors,
            ),
    )
}

/// Computes the values of each group of pieces.
fn compute_grouped<F: Field>(values: &[F], count: usize, selectors: &[F]) -> (v: Vec<F>)
    requires
        values.len() == count * selectors.len(),
        selectors.len() > 0,
        crate::field::all_valid(values@),
        crate::field::all_valid(selectors@),
    ensures
        v@ == grouped(values@, count as nat, selectors@),
        crate::field::all_valid(v@),
{
    let size: usize = selectors.len();
    let mut v: Vec<F> = Vec::new();
    while v.len() < count
        invariant
            v.len() <= count,
            size == selectors.len(),
            size > 0,
            values.len() == count * size,
            crate::field::all_valid(values@),
            crate::field::all_valid(selectors@),
            crate::field::all_valid(v@),
            forall|b: int|
                0 <= b < v.len() ==> #[trigger] v[b] == grouped(
                    values@,
                    count as nat,
                    selectors@,
                )[b],
        decreases count - v.len(),
    {
        let b: usize = v.len();
        proof {
            lemma_cell(b as int, 0, size as int, count as int);
        }
        let group = slice_subrange(values, b * size, b * size + size);
        assert(group@ =~= values@.subrange(b * size, (b + 1) * size));
        v.push(dot_product(group, selectors));
    }
    assert(v@ =~= grouped(values@, count as nat, selectors@));
    v
}

/// Where the prover of a table's buses stands.
#[derive(Clone, Debug)]
pub enum BusPhase<F> {
    /// The sum over all buses is being proved.
    Sum(GkrProver<F>),
    /// The values of the pieces of each bus are to be sent, and their weights drawn.
    Pieces { point: Vec<F>, numerators: Vec<F>, denominators: Vec<F> },
    /// The challenge that batches selectors and data is to be drawn.
    Batching { point: Vec<F>, selectors: Vec<F>, data: Vec<F> },
    /// The buses are proved, up to the values of their virtual columns at a point, which the proof
    /// of the table's constraints takes over.
    Finished { point: Vec<F>, values: Vec<F>, beta: F },
}

/// A [`BusPhase`] as a mathematical value.
pub enum BusStage<F> {
    Sum(GkrProverStage<F>),
    Pieces { point: Seq<F>, numerators: Seq<F>, denominators: Seq<F> },
    Batching { point: Seq<F>, selectors: Seq<F>, data: Seq<F> },
    Finished { point: Seq<F>, values: Seq<F>, beta: F },
}

impl<F> View for BusPhase<F> {
    type V = BusStage<F>;

    open spec fn view(&self) -> BusStage<F> {
        match *self {
            BusPhase::Sum(sum) => BusStage::Sum(sum.phase@),
            BusPhase::Pieces { point, numerators, denominators } => BusStage::Pieces {
                point: point@,
                numerators: numerators@,
                denominators: denominators@,
            },
            BusPhase::Batching { point, selectors, data } => BusStage::Batching {
                point: point@,
                selectors: selectors@,
                data: data@,
            },
            BusPhase::Finished { point, values, beta } => BusStage::Finished {
                point: point@,
                values: values@,
                beta,
            },
        }
    }
}

/// What the proof of a table's buses is about, as a mathematical value.
pub struct BusData<F> {
    pub skips: nat,
    pub log_n_buses: nat,
    pub log_n_rows: nat,
    pub directions: Seq<BusDirection>,
    pub challenge: F,
    pub numerators: Seq<F>,
    pub denominators: Seq<F>,
}

/// Values of pieces, filled up to `len` of them.
pub open spec fn filled<F>(pieces: Seq<F>, fill: F, len: nat) -> Seq<F> {
    Seq::new(
        len,
        |j: int|
            if j < pieces.len() {
                pieces[j]
            } else {
                fill
            },
    )
}

impl<F: Field> BusData<F> {
    /// Number of pieces that the univariate coordinate selects among.
    pub open spec fn groups(self) -> nat {
        pow2(self.skips)
    }

    /// Number of sumchecks under the sum.
    pub open spec fn rounds(self) -> nat {
        (self.log_n_buses + self.log_n_rows - self.skips) as nat
    }

    /// The coordinates of a point of the sum that select a bus.
    pub open spec fn head(self, point: Seq<F>) -> Seq<F> {
        point.subrange(1, 1 + self.log_n_buses as int)
    }

    /// The coordinates of a point of the sum that select within a piece of a bus.
    pub open spec fn tail(self, point: Seq<F>) -> Seq<F> {
        point.skip(1 + self.log_n_buses as int)
    }

    /// The values of the pieces of the table's own buses at a point of the sum.
    pub open spec fn pieces(self, values: Seq<F>, point: Seq<F>) -> Seq<F> {
        piece_values(values, self.directions.len() * self.groups(), self.tail(point))
    }

    /// What the values of the pieces come to at the coordinates that select among them, those of
    /// the buses that fill up their number being `fill`.
    pub open spec fn whole(self, values: Seq<F>, fill: F, point: Seq<F>, selectors: Seq<F>) -> F {
        crate::gkr_laws::skip_value(
            filled(self.pieces(values, point), fill, pow2(self.log_n_buses) * self.groups()),
            selectors,
            self.head(point),
        )
    }

    /// What a prover at a stage wants done.
    pub open spec fn task(self, stage: BusStage<F>) -> Task<F> {
        match stage {
            BusStage::Sum(sum) => crate::quotient_gkr::task(self.groups(), self.rounds(), sum),
            BusStage::Pieces { numerators, denominators, .. } => Task::SendThenSkipChallenge(
                numerators + denominators,
                self.groups(),
            ),
            BusStage::Batching { .. } => Task::Challenge,
            BusStage::Finished { .. } => Task::Nothing,
        }
    }

    /// Whether the claims that the sum over several buses ends with are what the values of the
    /// pieces come to.
    pub open spec fn agrees(self, stage: BusStage<F>, outcome: Outcome<F>) -> bool {
        match (stage, outcome) {
            (BusStage::Sum(sum), Outcome::SkipChallenge(_, selectors)) => {
                match crate::quotient_gkr::next_prover_stage(sum, outcome) {
                    GkrProverStage::Finished { point, numerator, denominator } => {
                        self.directions.len() > 1 ==> {
                            &&& numerator == self.whole(
                                self.numerators,
                                F::nil(),
                                point,
                                selectors,
                            )
                            &&& denominator == self.whole(
                                self.denominators,
                                F::unit(),
                                point,
                                selectors,
                            )
                        }
                    },
                    _ => true,
                }
            },
            (_, _) => true,
        }
    }

    /// Whether a prover at a stage can take an outcome: it is one of what the prover wants, and
    /// the claims that the sum ends with agree with the pieces.
    pub open spec fn takes(self, stage: BusStage<F>, outcome: Outcome<F>) -> bool {
        &&& crate::quotient_gkr::comes_of(self.groups(), outcome, self.task(stage))
        &&& self.agrees(stage, outcome)
    }

    /// Where a prover comes to from a stage with an outcome.
    pub open spec fn next(self, stage: BusStage<F>, outcome: Outcome<F>) -> BusStage<F> {
        let n_buses = self.directions.len();
        match (stage, outcome) {
            (BusStage::Sum(sum), o) => match crate::quotient_gkr::next_prover_stage(sum, o) {
                GkrProverStage::Finished { point, numerator, denominator } => if n_buses == 1 {
                    BusStage::Batching {
                        point,
                        selectors: seq![numerator],
                        data: seq![denominator],
                    }
                } else {
                    BusStage::Pieces {
                        point,
                        numerators: self.pieces(self.numerators, point),
                        denominators: self.pieces(self.denominators, point),
                    }
                },
                other => BusStage::Sum(other),
            },
            (
                BusStage::Pieces { point, numerators, denominators },
                Outcome::SkipChallenge(epsilon, selectors),
            ) => BusStage::Batching {
                point: seq![epsilon] + self.tail(point),
                selectors: grouped(numerators, n_buses, selectors),
                data: grouped(denominators, n_buses, selectors),
            },
            (
                BusStage::Batching { point, selectors, data },
                Outcome::Challenge(beta),
            ) => BusStage::Finished {
                point,
                values: bus_final_values(
                    self.directions,
                    selectors,
                    data,
                    self.challenge,
                    beta,
                ),
                beta,
            },
            (stage, _) => stage,
        }
    }
}

/// A prover of a table's buses, between two messages.
#[derive(Clone, Debug)]
pub struct BusProver<F> {
    /// Log of the number of pieces that the univariate coordinate selects among.
    pub skips: usize,
    /// Log of the number of buses, rounded up.
    pub log_n_buses: usize,
    /// Log of the number of rows.
    pub log_n_rows: usize,
    /// The directions of the buses.
    pub directions: Vec<BusDirection>,
    /// The challenge under the fingerprints.
    pub challenge: F,
    /// The numerators over all rows of all buses.
    pub numerators: Vec<F>,
    /// The denominators over all rows of all buses.
    pub denominators: Vec<F>,
    /// The sum over all buses, less what padding rows contribute.
    pub quotient: F,
    /// Where the prover stands.
    pub phase: BusPhase<F>,
}

impl<F: Field> BusProver<F> {
    /// What the proof is about.
    pub open spec fn data(self) -> BusData<F> {
        BusData {
            skips: self.skips as nat,
            log_n_buses: self.log_n_buses as nat,
            log_n_rows: self.log_n_rows as nat,
            directions: self.directions@,
            challenge: self.challenge,
            numerators: self.numerators@,
            denominators: self.denominators@,
        }
    }

    /// Number of pieces that the univariate coordinate selects among.
    pub open spec fn groups(self) -> nat {
        self.data().groups()
    }

    /// Number of sumchecks under the sum.
    pub open spec fn rounds(self) -> nat {
        self.data().rounds()
    }

    /// Whether the prover's parts fit together.
    pub open spec fn fits(self) -> bool {
        let n_buses = self.directions.len();
        let total = (self.log_n_buses + self.log_n_rows) as nat;
        &&& 1 <= self.skips < total < usize::BITS
        &&& 1 <= n_buses <= pow2(self.log_n_buses as nat)
        &&& n_buses > 1 ==> self.skips <= self.log_n_rows
        &&& self.challenge.valid()
        &&& self.quotient.valid()
        &&& self.numerators.len() == pow2(total)
        &&& self.denominators.len() == pow2(total)
        &&& crate::field::all_valid(self.numerators@)
        &&& crate::field::all_valid(self.denominators@)
        &&& match self.phase {
            BusPhase::Sum(sum) => {
                &&& sum.fits()
                &&& sum.n_groups == self.groups()
                &&& sum.rounds() == self.rounds()
                &&& sum.over(self.numerators@, self.denominators@)
                &&& !(sum.phase@ is Finished)
            },
            BusPhase::Pieces { point, numerators, denominators } => {
                &&& point.len() == self.rounds() + 1
                &&& crate::field::all_valid(point@)
                &&& numerators.len() == n_buses * self.groups()
                &&& denominators.len() == n_buses * self.groups()
                &&& crate::field::all_valid(numerators@)
                &&& crate::field::all_valid(denominators@)
                &&& n_buses > 1
            },
            BusPhase::Batching { point, selectors, data } => {
                &&& crate::field::all_valid(point@)
                &&& selectors.len() == n_buses
                &&& data.len() == n_buses
                &&& crate::field::all_valid(selectors@)
                &&& crate::field::all_valid(data@)
            },
            BusPhase::Finished { point, values, beta } => true,
        }
    }

    /// What the prover at its stage wants done.
    pub open spec fn wants(self) -> Task<F> {
        self.data().task(self.phase@)
    }

    /// Whether an outcome can be taken.
    pub open spec fn takes(self, outcome: Outcome<F>) -> bool {
        self.data().takes(self.phase@, outcome)
    }

    /// Where the prover comes to with an outcome.
    pub open spec fn next(self, outcome: Outcome<F>) -> BusStage<F> {
        self.data().next(self.phase@, outcome)
    }

    /// What the values of the pieces come to at the coordinates that select among them.
    fn whole(&self, values: &[F], fill: F, point: &[F], selectors: &[F]) -> (r: F)
        requires
            self.fits(),
            self.directions.len() > 1,
            fill.valid(),
            values.len() == pow2((self.log_n_buses + self.log_n_rows) as nat),
            crate::field::all_valid(values@),
            point.len() == self.rounds() + 1,
            crate::field::all_valid(point@),
            selectors.len() == self.groups(),
            crate::field::all_valid(selectors@),
        ensures
            r.valid(),
            r == self.data().whole(values@, fill, point@, selectors@),
    {
        let n_buses: usize = self.directions.len();
        let tail = slice_subrange(point, 1 + self.log_n_buses, point.len());
        let head = slice_subrange(point, 1, 1 + self.log_n_buses);
        let ghost (per, groups) = (pow2(self.log_n_buses as nat), self.groups());
        proof {
            assert(tail@ =~= self.data().tail(point@));
            assert(head@ =~= self.data().head(point@));
            lemma_piece_count(
                n_buses as nat,
                self.skips as nat,
                self.log_n_buses as nat,
                self.log_n_rows as nat,
            );
            lemma_padded_count(
                self.skips as nat,
                self.log_n_buses as nat,
                self.log_n_rows as nat,
            );
            assert(n_buses * groups <= per * groups) by (nonlinear_arith)
                requires
                    n_buses <= per,
                    groups >= 0,
            ;
        }
        let count: usize = n_buses * pow2_usize(self.skips);
        let mut pieces = compute_piece_values(values, count, tail);
        let ghost own = pieces@;
        let len: usize = pow2_usize(self.log_n_buses) * pow2_usize(self.skips);
        while pieces.len() < len
            invariant
                count == own.len(),
                count <= pieces.len() <= len,
                fill.valid(),
                crate::field::all_valid(pieces@),
                forall|j: int|
                    0 <= j < pieces.len() ==> #[trigger] pieces[j] == filled(
                        own,
                        fill,
                        len as nat,
                    )[j],
            decreases len - pieces.len(),
        {
            pieces.push(fill);
        }
        let ghost all = filled(own, fill, len as nat);
        assert(pieces@ =~= all);
        let selected = compute_piece_values(pieces.as_slice(), selectors.len(), head);
        proof {
            lemma_selected(all, selectors@, head@);
        }
        dot_product(selected.as_slice(), selectors)
    }

    /// Whether the claims that the sum over several buses ends with are what the values of the
    /// pieces come to.
    pub fn agrees(&self, reply: &ProverReply<F>) -> (b: bool)
        requires
            self.fits(),
            crate::quotient_gkr::comes_of(self.groups(), reply@, self.wants()),
        ensures
            b == self.data().agrees(self.phase@, reply@),
    {
        let sum = match &self.phase {
            BusPhase::Sum(sum) => sum,
            _ => {
                return true;
            },
        };
        match (&sum.phase, reply) {
            (
                GkrProverPhase::Folding { round: _, sumcheck_point, evals },
                ProverReply::SkipChallenge { beta, selectors },
            ) => {
                if self.directions.len() == 1 {
                    return true;
                }
                let point = prepend(*beta, sumcheck_point.as_slice());
                assert(crate::field::all_valid(point@)) by {
                    assert forall|i: int| 0 <= i < point.len() implies (
                    #[trigger] point[i]).valid() by {
                        if i > 0 {
                            assert(point[i] == sumcheck_point[i - 1]);
                        }
                    }
                }
                let claims = skip_claims_at(evals.as_slice(), selectors.as_slice());
                let zero = F::zero();
                let one = F::one();
                let numerator = self.whole(
                    self.numerators.as_slice(),
                    zero,
                    point.as_slice(),
                    selectors.as_slice(),
                );
                let denominator = self.whole(
                    self.denominators.as_slice(),
                    one,
                    point.as_slice(),
                    selectors.as_slice(),
                );
                claims[0].same(numerator) && claims[1].same(denominator)
            },
            (_, _) => true,
        }
    }

    /// What the prover wants done.
    pub fn request(&self) -> (r: ProverRequest<F>)
        requires
            self.fits(),
        ensures
            r@ == self.wants(),
    {
        match &self.phase {
            BusPhase::Sum(sum) => sum.request(),
            BusPhase::Pieces { numerators, denominators, .. } => {
                let mut scalars = copy_of(numerators.as_slice());
                let mut rest = copy_of(denominators.as_slice());
                scalars.append(&mut rest);
                ProverRequest::SendThenSkipChallenge(scalars, pow2_usize(self.skips))
            },
            BusPhase::Batching { .. } => ProverRequest::Challenge,
            BusPhase::Finished { .. } => ProverRequest::Nothing,
        }
    }
}

/// Takes what came of the prover's task: the prover's next stage.
pub fn prove_bus_step<F: Field>(state: BusProver<F>, reply: ProverReply<F>) -> (next: BusProver<F>)
    requires
        state.fits(),
        state.takes(reply@),
    ensures
        next.fits(),
        next.skips == state.skips,
        next.log_n_buses == state.log_n_buses,
        next.log_n_rows == state.log_n_rows,
        next.directions == state.directions,
        next.challenge == state.challenge,
        next.numerators == state.numerators,
        next.denominators == state.denominators,
        next.quotient == state.quotient,
        next.phase@ == state.next(reply@),
{
    let BusProver {
        skips,
        log_n_buses,
        log_n_rows,
        directions,
        challenge,
        numerators: all_numerators,
        denominators: all_denominators,
        quotient,
        phase,
    } = state;
    let n_buses: usize = directions.len();
    let next = match (phase, reply) {
        (BusPhase::Sum(sum), reply) => {
            let stepped = prove_gkr_quotient_step(sum, reply);
            match stepped.phase {
                GkrProverPhase::Finished { point, numerator, denominator } => {
                    if n_buses == 1 {
                        let mut selectors: Vec<F> = Vec::new();
                        selectors.push(numerator);
                        let mut data: Vec<F> = Vec::new();
                        data.push(denominator);
                        assert(selectors@ =~= seq![numerator]);
                        assert(data@ =~= seq![denominator]);
                        BusPhase::Batching { point, selectors, data }
                    } else {
                        let tail = slice_subrange(point.as_slice(), 1 + log_n_buses, point.len());
                        proof {
                            assert(tail@ =~= state.data().tail(point@));
                            lemma_piece_count(
                                n_buses as nat,
                                skips as nat,
                                log_n_buses as nat,
                                log_n_rows as nat,
                            );
                        }
                        let count: usize = n_buses * pow2_usize(skips);
                        BusPhase::Pieces {
                            numerators: compute_piece_values(
                                all_numerators.as_slice(),
                                count,
                                tail,
                            ),
                            denominators: compute_piece_values(
                                all_denominators.as_slice(),
                                count,
                                tail,
                            ),
                            point,
                        }
                    }
                },
                phase => BusPhase::Sum(
                    GkrProver {
                        n_groups: stepped.n_groups,
                        layers: stepped.layers,
                        quotient: stepped.quotient,
                        phase,
                    },
                ),
            }
        },
        (
            BusPhase::Pieces { point, numerators, denominators },
            ProverReply::SkipChallenge { beta: epsilon, selectors },
        ) => {
            let tail = slice_subrange(point.as_slice(), 1 + log_n_buses, point.len());
            proof {
                assert(tail@ =~= state.data().tail(point@));
                lemma_pow2_pos(skips as nat);
            }
            BusPhase::Batching {
                point: prepend(epsilon, tail),
                selectors: compute_grouped(numerators.as_slice(), n_buses, selectors.as_slice()),
                data: compute_grouped(denominators.as_slice(), n_buses, selectors.as_slice()),
            }
        },
        (BusPhase::Batching { point, selectors, data }, ProverReply::Challenge(beta)) => {
            BusPhase::Finished {
                values: compute_bus_final_values(
                    directions.as_slice(),
                    selectors.as_slice(),
                    data.as_slice(),
                    challenge,
                    beta,
                ),
                point,
                beta,
            }
        },
        (phase, _) => phase,
    };
    BusProver {
        skips,
        log_n_buses,
        log_n_rows,
        directions,
        challenge,
        numerators: all_numerators,
        denominators: all_denominators,
        quotient,
        phase: next,
    }
}

/// The pieces of the buses fit in the whole.
proof fn lemma_piece_count(n_buses: nat, skips: nat, log_n_buses: nat, log_n_rows: nat)
    requires
        n_buses <= pow2(log_n_buses),
        skips <= log_n_rows,
        log_n_buses + log_n_rows < usize::BITS,
    ensures
        n_buses * pow2(skips) * pow2((log_n_rows - skips) as nat) <= pow2(log_n_buses + log_n_rows),
        n_buses * pow2(skips) <= usize::MAX,
        pow2((log_n_rows - skips) as nat) <= usize::MAX,
        pow2(skips) <= usize::MAX,
{
    let width = pow2((log_n_rows - skips) as nat);
    lemma_pow2_adds(skips, (log_n_rows - skips) as nat);
    lemma_pow2_adds(log_n_buses, log_n_rows);
    lemma_pow2_pos((log_n_rows - skips) as nat);
    lemma_pow2_pos(skips);
    lemma_pow2_pos(log_n_buses);
    lemma_usize_pow2_no_overflow(log_n_buses + log_n_rows);
    assert(n_buses * pow2(skips) * width == n_buses * (pow2(skips) * width)) by (nonlinear_arith);
    assert(n_buses * pow2(log_n_rows) <= pow2(log_n_buses) * pow2(log_n_rows)) by (nonlinear_arith)
        requires
            n_buses <= pow2(log_n_buses),
            pow2(log_n_rows) >= 0,
    ;
    assert(n_buses * pow2(skips) <= n_buses * pow2(skips) * width) by (nonlinear_arith)
        requires
            width >= 1,
            n_buses * pow2(skips) >= 0,
    ;
    assert(width <= pow2(skips) * width) by (nonlinear_arith)
        requires
            pow2(skips) >= 1,
            width >= 0,
    ;
    assert(pow2(skips) <= pow2(skips) * width) by (nonlinear_arith)
        requires
            width >= 1,
            pow2(skips) >= 0,
    ;
    assert(pow2(log_n_rows) <= pow2(log_n_buses) * pow2(log_n_rows)) by (nonlinear_arith)
        requires
            pow2(log_n_buses) >= 1,
            pow2(log_n_rows) >= 0,
    ;
}

/// The pieces of all buses, those that fill up their number among them, fit in the machine's range.
proof fn lemma_padded_count(skips: nat, log_n_buses: nat, log_n_rows: nat)
    requires
        skips <= log_n_rows,
        log_n_buses + log_n_rows < usize::BITS,
    ensures
        pow2(log_n_buses) * pow2(skips) <= usize::MAX,
        pow2(log_n_buses) <= usize::MAX,
        pow2(skips) <= usize::MAX,
        pow2(skips) * pow2(log_n_buses) == pow2(log_n_buses) * pow2(skips),
{
    lemma_pow2_adds(log_n_buses, skips);
    lemma_usize_pow2_no_overflow(log_n_buses + skips);
    lemma_usize_pow2_no_overflow(log_n_buses);
    lemma_usize_pow2_no_overflow(skips);
    assert(pow2(skips) * pow2(log_n_buses) == pow2(log_n_buses) * pow2(skips)) by (nonlinear_arith);
}

/// A value by selectors is the sum of the values of equal pieces, weighted by the selectors.
pub(crate) proof fn lemma_selected<F: Field>(s: Seq<F>, selectors: Seq<F>, point: Seq<F>)
    requires
        selectors.len() > 0,
        s.len() == selectors.len() * pow2(point.len()),
    ensures
        crate::gkr_laws::skip_value(s, selectors, point) == crate::field::dot(
            piece_values(s, selectors.len(), point),
            selectors,
        ),
{
    let (groups, width) = (selectors.len(), pow2(point.len()));
    vstd::arithmetic::div_mod::lemma_div_multiples_vanish(width as int, groups as int);
    assert(s.len() / groups == width);
    let values = piece_values(s, groups, point);
    let chunks = Seq::new(
        groups,
        |j: int| crate::multilinear::mle(crate::fractions::chunk(s, groups, j as nat), point),
    );
    assert(values =~= chunks);
}

/// The sum of the fractions of one bus over its rows: signed selectors over the challenge plus
/// fingerprints.
pub open spec fn bus_sum<P: PrimeField, F: Field>(
    bus: Bus<P>,
    cols: Seq<Seq<P>>,
    challenge: F,
    fingerprints: Seq<F>,
) -> F {
    crate::field::total(
        Seq::new(
            fingerprints.len(),
            |row: int|
                crate::field::ratio(
                    lifted::<P, F>(signed(bus.direction, cols[bus.selector as int][row])),
                    challenge.plus(fingerprints[row]),
                ),
        ),
    )
}

/// Whether the buses of a table, its columns and their fingerprints fit together, and no
/// denominator is 0.
pub open spec fn buses_fit<P: PrimeField, F: Field>(
    buses: Seq<Bus<P>>,
    cols: Seq<Seq<P>>,
    challenge: F,
    fingerprints: Seq<Seq<F>>,
    n_rows: nat,
) -> bool {
    &&& n_rows > 0
    &&& challenge.valid()
    &&& fingerprints.len() == buses.len()
    &&& forall|b: int| 0 <= b < buses.len() ==> (#[trigger] buses[b]).within(cols.len())
    &&& crate::fractions::all_of_len(cols, n_rows)
    &&& crate::fractions::all_columns_valid(cols)
    &&& crate::fractions::all_of_len(fingerprints, n_rows)
    &&& crate::fractions::all_columns_valid(fingerprints)
    &&& forall|b: int, row: int|
        0 <= b < fingerprints.len() && 0 <= row < n_rows ==> crate::field::invertible(
            challenge.plus(#[trigger] fingerprints[b][row]),
        )
}

pub(crate) proof fn lemma_bus_fractions<P: PrimeField, F: Field>(
    buses: Seq<Bus<P>>,
    cols: Seq<Seq<P>>,
    challenge: F,
    fingerprints: Seq<Seq<F>>,
    n_rows: nat,
    padded: nat,
)
    requires
        buses_fit(buses, cols, challenge, fingerprints, n_rows),
        buses.len() <= padded,
    ensures
        crate::field::all_valid(bus_numerators::<P, F>(buses, cols, n_rows, padded)),
        crate::fractions::all_invertible(
            bus_denominators(challenge, fingerprints, n_rows, padded),
        ),
{
    F::closed();
    P::closed();
    let nums = bus_numerators::<P, F>(buses, cols, n_rows, padded);
    let dens = bus_denominators(challenge, fingerprints, n_rows, padded);
    assert forall|i: int| 0 <= i < nums.len() implies (#[trigger] nums[i]).valid()
        && crate::field::invertible(dens[i]) by {
        let (b, row) = (i / (n_rows as int), i % (n_rows as int));
        vstd::arithmetic::div_mod::lemma_mod_bound(i, n_rows as int);
        vstd::arithmetic::div_mod::lemma_div_pos_is_pos(i, n_rows as int);
        if b < buses.len() {
            let bus = buses[b];
            assert(bus.within(cols.len()));
            assert(crate::field::all_valid(cols[bus.selector as int]));
            assert(fingerprints[b][row] == fingerprints[b][row]);
            crate::field::lemma_embed_valid::<F>(
                signed(bus.direction, cols[bus.selector as int][row]).remainder(),
            );
        } else {
            F::times_unit(F::unit());
            crate::field::lemma_inverse(F::unit(), F::unit());
        }
    }
    assert forall|i: int| 0 <= i < dens.len() implies crate::field::invertible(
        #[trigger] dens[i],
    ) by {
        assert(nums[i].valid());
    }
}

/// The buses that fill up their number to a power of two add nothing: the sum is that of the
/// table's own buses.
pub proof fn law_padded_buses_add_nothing<P: PrimeField, F: Field>(
    buses: Seq<Bus<P>>,
    cols: Seq<Seq<P>>,
    challenge: F,
    fingerprints: Seq<Seq<F>>,
    n_rows: nat,
    padded: nat,
)
    requires
        buses_fit(buses, cols, challenge, fingerprints, n_rows),
        buses.len() <= padded,
        padded > 0,
    ensures
        crate::fractions::column_sum(
            bus_numerators::<P, F>(buses, cols, n_rows, padded),
            bus_denominators(challenge, fingerprints, n_rows, padded),
        ) == crate::field::total(
            Seq::new(
                buses.len(),
                |b: int| bus_sum(buses[b], cols, challenge, fingerprints[b]),
            ),
        ),
{
    F::closed();
    let nums = bus_numerators::<P, F>(buses, cols, n_rows, padded);
    let dens = bus_denominators(challenge, fingerprints, n_rows, padded);
    let terms = Seq::new(nums.len(), |x: int| crate::field::ratio(nums[x], dens[x]));
    lemma_bus_fractions(buses, cols, challenge, fingerprints, n_rows, padded);
    crate::fractions::lemma_ratios_valid(nums, dens);
    let own = Seq::new(
        buses.len(),
        |b: int| bus_sum(buses[b], cols, challenge, fingerprints[b]),
    );
    let pieces = Seq::new(
        padded,
        |b: int| crate::field::total(crate::fractions::chunk(terms, padded, b as nat)),
    );
    vstd::arithmetic::div_mod::lemma_div_multiples_vanish(n_rows as int, padded as int);
    vstd::arithmetic::div_mod::lemma_mod_multiples_basic(n_rows as int, padded as int);
    assert(padded * n_rows == n_rows * padded) by (nonlinear_arith);
    assert(terms.len() / padded == n_rows);
    assert(terms.len() % padded == 0);
    crate::fractions::lemma_pieces_sum(terms, padded, pieces, padded);
    assert(pieces.take(padded as int) =~= pieces);
    assert(terms.take((padded * n_rows) as int) =~= terms);
    assert forall|b: int| 0 <= b < padded implies #[trigger] pieces[b] == (if b < buses.len() {
        own[b]
    } else {
        F::nil()
    }) && pieces[b].valid() by {
        let piece = crate::fractions::chunk(terms, padded, b as nat);
        lemma_cell(b, 0, n_rows as int, padded as int);
        assert(piece.len() == n_rows);
        assert forall|row: int| 0 <= row < n_rows implies (#[trigger] piece[row])
            == crate::field::ratio(nums[b * n_rows + row], dens[b * n_rows + row]) by {
            lemma_cell(b, row, n_rows as int, padded as int);
        }
        assert(crate::field::all_valid(piece)) by {
            assert forall|row: int| 0 <= row < n_rows implies (#[trigger] piece[row]).valid() by {
                lemma_cell(b, row, n_rows as int, padded as int);
                assert(piece[row] == terms[b * n_rows + row]);
            }
        }
        crate::field::lemma_total_valid(piece);
        if b < buses.len() {
            assert(fingerprints[b].len() == n_rows);
            assert(piece =~= Seq::new(
                fingerprints[b].len(),
                |row: int|
                    crate::field::ratio(
                        lifted::<P, F>(
                            signed(buses[b].direction, cols[buses[b].selector as int][row]),
                        ),
                        challenge.plus(fingerprints[b][row]),
                    ),
            )) by {
                assert forall|row: int| 0 <= row < n_rows implies piece[row]
                    == crate::field::ratio(
                    lifted::<P, F>(
                        signed(buses[b].direction, cols[buses[b].selector as int][row]),
                    ),
                    challenge.plus(fingerprints[b][row]),
                ) by {
                    lemma_cell(b, row, n_rows as int, padded as int);
                }
            }
        } else {
            assert forall|row: int| 0 <= row < n_rows implies #[trigger] piece[row] == F::nil() by {
                lemma_cell(b, row, n_rows as int, padded as int);
                F::times_unit(F::unit());
                crate::field::lemma_inverse(F::unit(), F::unit());
                crate::field::lemma_times_nil(F::unit());
            }
            crate::field::lemma_total_nil(piece);
        }
    }
    let n = buses.len() as int;
    let (first, rest) = (pieces.take(n), pieces.skip(n));
    assert(crate::field::all_valid(first)) by {
        assert forall|b: int| 0 <= b < first.len() implies (#[trigger] first[b]).valid() by {
            assert(pieces[b].valid());
        }
    }
    assert(crate::field::all_valid(rest)) by {
        assert forall|b: int| 0 <= b < rest.len() implies (#[trigger] rest[b]).valid() by {
            assert(pieces[n + b].valid());
        }
    }
    assert(pieces =~= first + rest);
    crate::field::lemma_total_concat(first, rest);
    assert(first =~= own);
    assert forall|b: int| 0 <= b < rest.len() implies #[trigger] rest[b] == F::nil() by {
        assert(pieces[n + b] == F::nil());
    }
    crate::field::lemma_total_nil(rest);
    crate::field::lemma_total_valid(first);
    F::plus_nil(crate::field::total(first));
}

/// Starts the proof of a table's buses. Fingerprints are given per bus and row; contributions are
/// what the padding rows of the trace add per bus.
pub fn prove_bus_and_air<P: PrimeField, F: Field>(
    buses: &[Bus<P>],
    base: &[Vec<P>],
    log_n_rows: usize,
    fingerprints: &[Vec<F>],
    challenge: F,
    contributions: &[F],
    skips: usize,
) -> (p: BusProver<F>)
    requires
        buses.len() > 0,
        1 <= skips < crate::log2::ceil_log2(buses.len() as nat) + log_n_rows < usize::BITS,
        buses.len() > 1 ==> skips <= log_n_rows,
        buses_fit(
            buses@,
            trace_columns(base@),
            challenge,
            trace_columns(fingerprints@),
            pow2(log_n_rows as nat),
        ),
        crate::field::all_valid(contributions@),
    ensures
        p.fits(),
        p.skips == skips,
        p.log_n_rows == log_n_rows,
        p.log_n_buses == crate::log2::ceil_log2(buses.len() as nat),
        p.challenge == challenge,
        p.directions.len() == buses.len(),
        forall|b: int|
            0 <= b < buses.len() ==> #[trigger] p.directions[b] == buses[b].direction,
        p.numerators@ == bus_numerators::<P, F>(
            buses@,
            trace_columns(base@),
            pow2(log_n_rows as nat),
            pow2(p.log_n_buses as nat),
        ),
        p.denominators@ == bus_denominators(
            challenge,
            trace_columns(fingerprints@),
            pow2(log_n_rows as nat),
            pow2(p.log_n_buses as nat),
        ),
        p.quotient == less_all(
            crate::field::total(
                Seq::new(
                    buses.len() as nat,
                    |b: int|
                        bus_sum(
                            buses[b],
                            trace_columns(base@),
                            challenge,
                            trace_columns(fingerprints@)[b],
                        ),
                ),
            ),
            contributions@,
        ),
        p.phase@ == BusStage::<F>::Sum(
            GkrProverStage::Opening {
                last: crate::quotient_gkr::last_layer(
                    p.numerators@,
                    p.denominators@,
                    p.groups(),
                    p.rounds(),
                ),
            },
        ),
{
    let ghost cols = trace_columns(base@);
    let ghost prints = trace_columns(fingerprints@);
    let ghost rows = pow2(log_n_rows as nat);
    let n_buses: usize = buses.len();
    let log_n_buses: usize = log2_ceil_usize(n_buses);
    proof {
        crate::log2::lemma_ceil_log2(n_buses as nat, log_n_buses as nat);
        let total = (log_n_buses + log_n_rows) as nat;
        lemma_pow2_adds(log_n_buses as nat, log_n_rows as nat);
        lemma_usize_pow2_no_overflow(total);
        lemma_pow2_pos(log_n_rows as nat);
        lemma_pow2_pos(log_n_buses as nat);
        law_padded_buses_add_nothing(
            buses@,
            cols,
            challenge,
            prints,
            rows,
            pow2(log_n_buses as nat),
        );
        lemma_bus_fractions(
            buses@,
            cols,
            challenge,
            prints,
            rows,
            pow2(log_n_buses as nat),
        );
        assert forall|c: int| 0 <= c < base.len() implies (#[trigger] base[c]).len() == rows
            && crate::field::all_valid(base[c]@) by {
            assert(cols[c] == base[c]@);
        }
        assert forall|b: int| 0 <= b < fingerprints.len() implies (#[trigger] fingerprints[b]).len()
            == rows && crate::field::all_valid(fingerprints[b]@) by {
            assert(prints[b] == fingerprints[b]@);
        }
    }
    let n_rows: usize = pow2_usize(log_n_rows);
    let padded: usize = pow2_usize(log_n_buses);
    let numerators = compute_bus_numerators::<P, F>(buses, base, n_rows, padded);
    let denominators = compute_bus_denominators(challenge, fingerprints, n_rows, padded);
    let mut directions: Vec<BusDirection> = Vec::new();
    while directions.len() < n_buses
        invariant
            directions.len() <= n_buses,
            n_buses == buses.len(),
            forall|b: int|
                0 <= b < directions.len() ==> #[trigger] directions[b] == buses[b].direction,
        decreases n_buses - directions.len(),
    {
        directions.push(buses[directions.len()].direction);
    }
    let n_groups: usize = pow2_usize(skips);
    proof {
        lemma2_to64();
        if skips > 1 {
            lemma_pow2_strictly_increases(1, skips as nat);
        }
        lemma_pow2_strictly_increases(skips as nat, (log_n_buses + log_n_rows) as nat);
        assert(crate::log2::is_power_of_two(n_groups as nat));
        assert(crate::log2::is_power_of_two(numerators.len() as nat));
    }
    let sum = prove_gkr_quotient(
        numerators.as_slice(),
        denominators.as_slice(),
        n_groups,
    );
    proof {
        lemma_pow2_adds(sum.rounds(), skips as nat);
        crate::log2::lemma_exponent_unique(
            sum.rounds() + skips as nat,
            (log_n_buses + log_n_rows) as nat,
        );
    }
    let quotient = without_padding(sum.quotient, contributions);
    BusProver {
        skips,
        log_n_buses,
        log_n_rows,
        directions,
        challenge,
        numerators,
        denominators,
        quotient,
        phase: BusPhase::Sum(sum),
    }
}

proof fn lemma_mle_pieces<F: Field>(s: Seq<F>, head: Seq<F>, tail: Seq<F>)
    requires
        s.len() == pow2(head.len() + tail.len()),
        crate::field::all_valid(s),
        crate::field::all_valid(head),
        crate::field::all_valid(tail),
    ensures
        crate::multilinear::mle(s, head + tail) == crate::multilinear::mle(
            piece_values(s, pow2(head.len()), tail),
            head,
        ),
    decreases head.len(),
{
    let width = pow2(tail.len());
    let values = piece_values(s, pow2(head.len()), tail);
    lemma_pow2_adds(head.len(), tail.len());
    lemma_pow2_pos(head.len());
    lemma_pow2_pos(tail.len());
    if head.len() == 0 {
        lemma2_to64();
        assert(head + tail =~= tail);
        assert(0 * width == 0 && (0 + 1) * width == width);
        assert(s.subrange(0, width as int) =~= s);
    } else {
        let rest = head.drop_first();
        let half = pow2(rest.len());
        lemma_pow2_unfold(head.len());
        lemma_pow2_unfold((head.len() + tail.len()) as nat);
        lemma_pow2_adds(rest.len(), tail.len());
        assert((head + tail).drop_first() =~= rest + tail);
        let (low, high) = (s.take((s.len() / 2) as int), s.skip((s.len() / 2) as int));
        assert(s.len() / 2 == half * width);
        lemma_mle_pieces(low, rest, tail);
        lemma_mle_pieces(high, rest, tail);
        assert forall|j: int| 0 <= j < half implies values[j] == #[trigger] piece_values(
            low,
            half,
            tail,
        )[j] && values[j + half] == piece_values(high, half, tail)[j] by {
            lemma_cell(j, 0, width as int, half as int);
            lemma_cell(j + half, 0, width as int, (2 * half) as int);
            assert((j + half) * width == j * width + half * width) by (nonlinear_arith);
            assert((j + half + 1) * width == (j + half) * width + width) by (nonlinear_arith);
            assert(low.subrange(j * width, (j + 1) * width) =~= s.subrange(
                j * width,
                (j + 1) * width,
            ));
            assert(high.subrange(j * width, (j + 1) * width) =~= s.subrange(
                (j + half) * width,
                (j + half + 1) * width,
            ));
        }
        assert(values.take(half as int) =~= piece_values(low, half, tail));
        assert(values.skip(half as int) =~= piece_values(high, half, tail)) by {
            assert forall|j: int| 0 <= j < half implies values.skip(half as int)[j]
                == piece_values(high, half, tail)[j] by {
                assert(values[j] == piece_values(low, half, tail)[j]);
            }
        }
    }
}

/// The values of pieces stand for the whole: selected and evaluated at the leading coordinates,
/// they give the value of the whole at all of them. This is why the values that are sent for each
/// bus agree with the claims that the sum over all buses leaves.
pub proof fn law_pieces_stand_for_whole<F: Field>(
    s: Seq<F>,
    selectors: Seq<F>,
    head: Seq<F>,
    tail: Seq<F>,
    k: nat,
)
    requires
        selectors.len() == pow2(k),
        s.len() == pow2(k + head.len() + tail.len()),
        crate::field::all_valid(s),
        crate::field::all_valid(head),
        crate::field::all_valid(tail),
    ensures
        crate::gkr_laws::skip_value(s, selectors, head + tail) == crate::gkr_laws::skip_value(
            piece_values(s, pow2(k + head.len()), tail),
            selectors,
            head,
        ),
{
    let groups = pow2(k);
    let width = pow2(tail.len());
    let per = pow2(head.len());
    let pieces = piece_values(s, pow2(k + head.len()), tail);
    lemma_pow2_pos(k);
    lemma_pow2_pos(tail.len());
    lemma_pow2_pos(head.len());
    crate::log2::lemma_power_quotient(k + head.len() + tail.len(), k);
    crate::log2::lemma_power_quotient(k + head.len(), k);
    lemma_pow2_adds(head.len(), tail.len());
    let big = pow2(head.len() + tail.len());
    assert((k + head.len() + tail.len() - k) as nat == head.len() + tail.len());
    assert(s.len() / groups == big);
    assert(pieces.len() / groups == per);
    let whole = Seq::new(
        groups,
        |j: int|
            crate::multilinear::mle(
                crate::fractions::chunk(s, groups, j as nat),
                head + tail,
            ),
    );
    let parts = Seq::new(
        groups,
        |j: int|
            crate::multilinear::mle(crate::fractions::chunk(pieces, groups, j as nat), head),
    );
    assert forall|j: int| 0 <= j < groups implies whole[j] == parts[j] by {
        let part = crate::fractions::chunk(s, groups, j as nat);
        crate::fractions::lemma_chunk_bounds(s.len(), groups, j as nat);
        crate::fractions::lemma_chunk_bounds(pieces.len(), groups, j as nat);
        lemma_mle_pieces(part, head, tail);
        let inner = piece_values(part, per, tail);
        let outer = crate::fractions::chunk(pieces, groups, j as nat);
        assert forall|i: int| 0 <= i < per implies #[trigger] inner[i] == outer[i] by {
            lemma_cell(i, 0, width as int, per as int);
            assert((j * per + i) * width == j * big + i * width) by (nonlinear_arith)
                requires
                    big == per * width,
            ;
            assert((j * per + i + 1) * width == (j * per + i) * width + width)
                by (nonlinear_arith);
            assert((i + 1) * width == i * width + width) by (nonlinear_arith);
            assert(part.subrange(i * width, (i + 1) * width) =~= s.subrange(
                (j * per + i) * width,
                (j * per + i + 1) * width,
            ));
        }
        assert(inner =~= outer);
    }
    assert(whole =~= parts);
}

/// The pieces of the buses that fill up their number need not be sent: they have value 0 in the
/// numerators and 1 in the denominators.
pub proof fn law_padding_pieces_are_constant<P: PrimeField, F: Field>(
    buses: Seq<Bus<P>>,
    cols: Seq<Seq<P>>,
    challenge: F,
    fingerprints: Seq<Seq<F>>,
    skips: nat,
    padded: nat,
    tail: Seq<F>,
    j: nat,
)
    requires
        fingerprints.len() == buses.len() <= padded,
        crate::field::all_valid(tail),
        buses.len() * pow2(skips) <= j < padded * pow2(skips),
    ensures
        ({
            let n_rows = pow2(skips) * pow2(tail.len());
            let count = padded * pow2(skips);
            &&& piece_values(
                bus_numerators::<P, F>(buses, cols, n_rows, padded),
                count,
                tail,
            )[j as int] == F::nil()
            &&& piece_values(
                bus_denominators(challenge, fingerprints, n_rows, padded),
                count,
                tail,
            )[j as int] == F::unit()
        }),
{
    F::closed();
    let groups = pow2(skips);
    let width = pow2(tail.len());
    let n_rows = groups * width;
    lemma_pow2_pos(skips);
    lemma_pow2_pos(tail.len());
    let nums = bus_numerators::<P, F>(buses, cols, n_rows, padded);
    let dens = bus_denominators(challenge, fingerprints, n_rows, padded);
    let count = padded * groups;
    lemma_cell(j as int, 0, width as int, count as int);
    assert(count * width == padded * n_rows) by (nonlinear_arith)
        requires
            count == padded * groups,
            n_rows == groups * width,
    ;
    assert(n_rows > 0) by (nonlinear_arith)
        requires
            n_rows == groups * width,
            groups > 0,
            width > 0,
    ;
    let start = (j * width) as int;
    assert(buses.len() * n_rows <= start) by (nonlinear_arith)
        requires
            buses.len() * groups <= j,
            n_rows == groups * width,
            start == j * width,
            width >= 0,
    ;
    assert forall|i: int| start <= i < start + width implies #[trigger] nums[i] == F::nil()
        && dens[i] == F::unit() by {
        if i / (n_rows as int) < buses.len() {
            vstd::arithmetic::div_mod::lemma_fundamental_div_mod(i, n_rows as int);
            vstd::arithmetic::div_mod::lemma_mod_bound(i, n_rows as int);
            let q = i / (n_rows as int);
            assert(n_rows * q + n_rows <= buses.len() * n_rows) by (nonlinear_arith)
                requires
                    q + 1 <= buses.len(),
                    n_rows >= 0,
            ;
        }
    }
    let zeros = nums.subrange(start, start + width);
    let ones = dens.subrange(start, start + width);
    assert forall|i: int| 0 <= i < width implies #[trigger] zeros[i] == F::nil() by {
        assert(nums[start + i] == F::nil());
    }
    assert forall|i: int| 0 <= i < width implies #[trigger] ones[i] == F::unit() by {
        assert(nums[start + i] == F::nil());
    }
    crate::multilinear::law_mle_constant(zeros, F::nil(), tail);
    crate::multilinear::law_mle_constant(ones, F::unit(), tail);
}

/// The values that are drawn out of the pieces are those of the buses: each is the value of the
/// bus's own rows at the new point, its first coordinate by selectors.
pub proof fn law_grouped_pieces_are_bus_values<F: Field>(
    s: Seq<F>,
    n_buses: nat,
    selectors: Seq<F>,
    tail: Seq<F>,
    b: nat,
)
    requires
        b < n_buses,
        selectors.len() > 0,
        n_buses * (selectors.len() * pow2(tail.len())) <= s.len(),
    ensures
        ({
            let n_rows = selectors.len() * pow2(tail.len());
            grouped(
                piece_values(s, n_buses * selectors.len(), tail),
                n_buses,
                selectors,
            )[b as int] == crate::gkr_laws::skip_value(
                s.subrange((b * n_rows) as int, ((b + 1) * n_rows) as int),
                selectors,
                tail,
            )
        }),
{
    let size = selectors.len();
    let width = pow2(tail.len());
    let n_rows = size * width;
    lemma_pow2_pos(tail.len());
    assert(n_rows > 0) by (nonlinear_arith)
        requires
            n_rows == size * width,
            size > 0,
            width > 0,
    ;
    let pieces = piece_values(s, n_buses * size, tail);
    lemma_cell(b as int, 0, n_rows as int, n_buses as int);
    lemma_cell(b as int, 0, size as int, n_buses as int);
    let rows = s.subrange((b * n_rows) as int, ((b + 1) * n_rows) as int);
    vstd::arithmetic::div_mod::lemma_div_multiples_vanish(width as int, size as int);
    assert(rows.len() / size == width);
    let own = pieces.subrange((b * size) as int, ((b + 1) * size) as int);
    let chunks = Seq::new(
        size,
        |j: int|
            crate::multilinear::mle(crate::fractions::chunk(rows, size, j as nat), tail),
    );
    assert forall|j: int| 0 <= j < size implies own[j] == chunks[j] by {
        lemma_cell(b as int, j, size as int, n_buses as int);
        lemma_cell(j, 0, width as int, size as int);
        assert((b * size + j) * width == b * n_rows + j * width) by (nonlinear_arith)
            requires
                n_rows == size * width,
        ;
        assert((b * size + j + 1) * width == (b * size + j) * width + width) by (nonlinear_arith);
        assert(crate::fractions::chunk(rows, size, j as nat) =~= s.subrange(
            (b * size + j) * width,
            (b * size + j + 1) * width,
        ));
    }
    assert(own =~= chunks);
}

/// What goes into the sum over a table's buses, cell by cell, the rows of each bus one after
/// another. A row that is pushed counts its selector, a row that is pulled the negative of it, over
/// the challenge plus the row's fingerprint. Each bus that fills up their number counts 0 over 1.
pub proof fn law_bus_cells<P: PrimeField, F: Field>(
    buses: Seq<Bus<P>>,
    cols: Seq<Seq<P>>,
    challenge: F,
    fingerprints: Seq<Seq<F>>,
    n_rows: nat,
    padded: nat,
    b: int,
    row: int,
)
    requires
        fingerprints.len() == buses.len() <= padded,
        0 <= b < padded,
        0 <= row < n_rows,
    ensures
        ({
            let numerators = bus_numerators::<P, F>(buses, cols, n_rows, padded);
            let denominators = bus_denominators(challenge, fingerprints, n_rows, padded);
            let cell = b * n_rows + row;
            &&& numerators.len() == padded * n_rows
            &&& denominators.len() == padded * n_rows
            &&& 0 <= cell < padded * n_rows
            &&& b < buses.len() ==> {
                let selector = cols[buses[b].selector as int][row];
                &&& buses[b].direction == BusDirection::Push ==> numerators[cell] == F::embed(
                    selector.remainder(),
                )
                &&& buses[b].direction == BusDirection::Pull ==> numerators[cell] == F::embed(
                    P::nil().minus(selector).remainder(),
                )
                &&& denominators[cell] == challenge.plus(fingerprints[b][row])
            }
            &&& b >= buses.len() ==> numerators[cell] == F::nil() && denominators[cell]
                == F::unit()
        }),
{
    lemma_cell(b, row, n_rows as int, padded as int);
}

/// What is pushed and what is pulled cancel: the same selector in both directions adds up to 0.
pub proof fn law_push_and_pull_cancel<P: Field>(selector: P)
    requires
        selector.valid(),
    ensures
        signed(BusDirection::Push, selector).plus(signed(BusDirection::Pull, selector)) == P::nil(),
{
    P::closed();
    P::plus_commutes(selector, P::nil().minus(selector));
    P::minus_plus(P::nil(), selector);
}

/// What the padding rows contribute, added again, gives the whole sum back.
pub proof fn law_without_padding<F: Field>(quotient: F, contributions: Seq<F>)
    requires
        quotient.valid(),
        crate::field::all_valid(contributions),
    ensures
        less_all(quotient, contributions).valid(),
        less_all(quotient, contributions).plus(crate::field::total(contributions)) == quotient,
    decreases contributions.len(),
{
    F::closed();
    if contributions.len() == 0 {
        F::plus_nil(quotient);
    } else {
        let (front, last) = (contributions.drop_last(), contributions.last());
        law_without_padding(quotient, front);
        crate::field::lemma_total_valid(front);
        let (before, sum) = (less_all(quotient, front), crate::field::total(front));
        F::plus_commutes(sum, last);
        F::plus_associates(before.minus(last), last, sum);
        F::minus_plus(before, last);
    }
}

/// How a prover of a table's buses moves once its sum has ended. One bus keeps the claims that the
/// sum leaves; several buses send the values of their pieces, and each bus's values are then those
/// of its own pieces, weighted. What is left for each bus is its selector, negated again for a pull,
/// plus `beta` times its denominator less the challenge. A prover that has finished moves no
/// further.
pub proof fn law_bus_moves<F: Field>(
    data: BusData<F>,
    sum: GkrProverStage<F>,
    outcome: Outcome<F>,
    point: Seq<F>,
    numerators: Seq<F>,
    denominators: Seq<F>,
    challenge: F,
    weights: Seq<F>,
    b: int,
)
    requires
        0 <= b < data.directions.len(),
    ensures
        ({
            let behind = crate::quotient_gkr::next_prover_stage(sum, outcome);
            let next = data.next(BusStage::Sum(sum), outcome);
            &&& !(behind is Finished) ==> next == BusStage::<F>::Sum(behind)
            &&& behind matches GkrProverStage::Finished { point: at, numerator, denominator } ==> {
                &&& data.directions.len() == 1 ==> next == (BusStage::Batching {
                    point: at,
                    selectors: seq![numerator],
                    data: seq![denominator],
                })
                &&& data.directions.len() > 1 ==> next == (BusStage::Pieces {
                    point: at,
                    numerators: data.pieces(data.numerators, at),
                    denominators: data.pieces(data.denominators, at),
                })
            }
        }),
        ({
            let next = data.next(
                BusStage::Pieces { point, numerators, denominators },
                Outcome::SkipChallenge(challenge, weights),
            );
            let size = weights.len() as int;
            &&& next is Batching
            &&& next->Batching_point == seq![challenge] + point.skip(1 + data.log_n_buses as int)
            &&& next->selectors.len() == data.directions.len()
            &&& next->data.len() == data.directions.len()
            &&& next->selectors[b] == crate::field::dot(
                numerators.subrange(b * size, (b + 1) * size),
                weights,
            )
            &&& next->data[b] == crate::field::dot(
                denominators.subrange(b * size, (b + 1) * size),
                weights,
            )
        }),
        ({
            let next = data.next(
                BusStage::Batching { point, selectors: numerators, data: denominators },
                Outcome::Challenge(challenge),
            );
            let sign = match data.directions[b] {
                BusDirection::Push => F::unit(),
                BusDirection::Pull => F::nil().minus(F::unit()),
            };
            &&& next is Finished
            &&& next->Finished_point == point
            &&& next->beta == challenge
            &&& next->values.len() == data.directions.len()
            &&& next->values[b] == numerators[b].times(sign).plus(
                challenge.times(denominators[b].minus(data.challenge)),
            )
        }),
        data.next(
            BusStage::Finished { point, values: numerators, beta: challenge },
            outcome,
        ) == (BusStage::Finished { point, values: numerators, beta: challenge }),
{
}

/// What a fingerprint is taken of: the element of a constant table, or what the naming column holds
/// in the row, and what each data column holds there, in the order of the bus.
pub proof fn law_fingerprint_inputs<P>(bus: Bus<P>, cols: Seq<Seq<P>>, row: int, d: int)
    requires
        0 <= d < bus.data.len(),
    ensures
        bus.table matches BusTable::Constant(table) ==> table_at(bus, cols, row) == table,
        bus.table matches BusTable::Variable(col) ==> table_at(bus, cols, row)
            == cols[col as int][row],
        data_at(bus, cols, row).len() == bus.data.len(),
        data_at(bus, cols, row)[d] == cols[bus.data[d] as int][row],
{
}

} // verus!
