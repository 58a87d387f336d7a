//! The proof of an execution: the order of its steps, and what is computed between them.

use vstd::prelude::*;
use vstd::arithmetic::power2::*;
use p3_util::{log2_ceil_usize, log2_strict_usize};
use crate::arith::pow2_usize;
use crate::field::{Field, PrimeField};
use crate::logup_star::compute_pushforward;
use crate::multilinear::{copy_of, eval_eq, evaluate};

verus! {

/// A step of the proof of an execution.
#[derive(Clone, Copy, Debug, Eq, PartialEq, Structural)]
pub enum ExecutionStep {
    /// The program is executed and its trace built.
    Witness,
    /// The layers and witnesses of both permutation circuits are built.
    PoseidonWitnesses,
    /// The sizes of memory and tables are sent.
    BaseScalars,
    /// The base polynomials are committed.
    CommitBase,
    /// The permutation circuits are proved, the narrow one first.
    PoseidonProofs,
    /// The challenges of buses and fingerprints are drawn.
    BusChallenges,
    /// The buses and constraints of a table are proved.
    BusAndAir(usize),
    /// The balance of all buses is checked.
    BusBalance,
    /// The challenges that compress the bytecode are drawn, and its lookup prepared.
    BytecodeFolding,
    /// The single-word lookups into memory push forward.
    NormalLookupsFirst,
    /// The vector lookups into memory push forward.
    VectorLookupsFirst,
    /// The extension polynomials are committed.
    CommitExtension,
    /// The single-word lookups into memory are proved.
    NormalLookupsSecond,
    /// The vector lookups into memory are proved.
    VectorLookupsSecond,
    /// The bytecode lookup is proved.
    BytecodeLookup,
    /// The statements on the committed columns of a table are collected.
    CommittedStatements(usize),
    /// The statements on the base polynomials are batched.
    OpenBase,
    /// The statements on the extension polynomials are batched.
    OpenExtension,
    /// Both commitments are opened in one proof.
    BatchProof,
    /// The proof is complete.
    Complete,
}

/// The position of a step among those of a proof over `n_tables` tables.
pub open spec fn position(step: ExecutionStep, n_tables: nat) -> nat {
    match step {
        ExecutionStep::Witness => 0,
        ExecutionStep::PoseidonWitnesses => 1,
        ExecutionStep::BaseScalars => 2,
        ExecutionStep::CommitBase => 3,
        ExecutionStep::PoseidonProofs => 4,
        ExecutionStep::BusChallenges => 5,
        ExecutionStep::BusAndAir(t) => 6 + t as nat,
        ExecutionStep::BusBalance => 6 + n_tables,
        ExecutionStep::BytecodeFolding => 7 + n_tables,
        ExecutionStep::NormalLookupsFirst => 8 + n_tables,
        ExecutionStep::VectorLookupsFirst => 9 + n_tables,
        ExecutionStep::CommitExtension => 10 + n_tables,
        ExecutionStep::NormalLookupsSecond => 11 + n_tables,
        ExecutionStep::VectorLookupsSecond => 12 + n_tables,
        ExecutionStep::BytecodeLookup => 13 + n_tables,
        ExecutionStep::CommittedStatements(t) => 14 + n_tables + t as nat,
        ExecutionStep::OpenBase => 14 + 2 * n_tables,
        ExecutionStep::OpenExtension => 15 + 2 * n_tables,
        ExecutionStep::BatchProof => 16 + 2 * n_tables,
        ExecutionStep::Complete => 17 + 2 * n_tables,
    }
}

/// Whether a step is one of a proof over `n_tables` tables.
pub open spec fn is_step(step: ExecutionStep, n_tables: nat) -> bool {
    match step {
        ExecutionStep::BusAndAir(t) => t < n_tables,
        ExecutionStep::CommittedStatements(t) => t < n_tables,
        _ => true,
    }
}

/// The step behind a step. Every step comes once, in the order of [`position`]; a complete proof
/// stays complete.
pub fn step_after(step: ExecutionStep, n_tables: usize) -> (next: ExecutionStep)
    requires
        is_step(step, n_tables as nat),
    ensures
        is_step(next, n_tables as nat),
        step != ExecutionStep::Complete ==> position(next, n_tables as nat) == position(
            step,
            n_tables as nat,
        ) + 1,
        step == ExecutionStep::Complete ==> next == step,
{
    match step {
        ExecutionStep::Witness => ExecutionStep::PoseidonWitnesses,
        ExecutionStep::PoseidonWitnesses => ExecutionStep::BaseScalars,
        ExecutionStep::BaseScalars => ExecutionStep::CommitBase,
        ExecutionStep::CommitBase => ExecutionStep::PoseidonProofs,
        ExecutionStep::PoseidonProofs => ExecutionStep::BusChallenges,
        ExecutionStep::BusChallenges => if n_tables > 0 {
            ExecutionStep::BusAndAir(0)
        } else {
            ExecutionStep::BusBalance
        },
        ExecutionStep::BusAndAir(t) => if t + 1 < n_tables {
            ExecutionStep::BusAndAir(t + 1)
        } else {
            ExecutionStep::BusBalance
        },
        ExecutionStep::BusBalance => ExecutionStep::BytecodeFolding,
        ExecutionStep::BytecodeFolding => ExecutionStep::NormalLookupsFirst,
        ExecutionStep::NormalLookupsFirst => ExecutionStep::VectorLookupsFirst,
        ExecutionStep::VectorLookupsFirst => ExecutionStep::CommitExtension,
        ExecutionStep::CommitExtension => ExecutionStep::NormalLookupsSecond,
        ExecutionStep::NormalLookupsSecond => ExecutionStep::VectorLookupsSecond,
        ExecutionStep::VectorLookupsSecond => ExecutionStep::BytecodeLookup,
        ExecutionStep::BytecodeLookup => if n_tables > 0 {
            ExecutionStep::CommittedStatements(0)
        } else {
            ExecutionStep::OpenBase
        },
        ExecutionStep::CommittedStatements(t) => if t + 1 < n_tables {
            ExecutionStep::CommittedStatements(t + 1)
        } else {
            ExecutionStep::OpenBase
        },
        ExecutionStep::OpenBase => ExecutionStep::OpenExtension,
        ExecutionStep::OpenExtension => ExecutionStep::BatchProof,
        ExecutionStep::BatchProof => ExecutionStep::Complete,
        ExecutionStep::Complete => ExecutionStep::Complete,
    }
}

/// A step is known by its position.
pub proof fn law_position_identifies_step(a: ExecutionStep, b: ExecutionStep, n_tables: nat)
    requires
        is_step(a, n_tables),
        is_step(b, n_tables),
        position(a, n_tables) == position(b, n_tables),
    ensures
        a == b,
{
}

/// Every step stands behind what it needs. The witnesses of the permutation circuits are built and
/// the sizes sent before the base polynomials, which hold those witnesses, are committed; they are
/// committed before the permutation circuits and buses are challenged; every bus is proved before
/// their balance is checked, and the balance before the bytecode is folded; pushforwards are
/// committed before the lookups are proved; and all statements are collected before they are
/// opened.
pub proof fn law_steps_in_order(t: usize, n_tables: nat)
    requires
        t < n_tables,
    ensures
        position(ExecutionStep::Witness, n_tables) < position(
            ExecutionStep::PoseidonWitnesses,
            n_tables,
        ) < position(ExecutionStep::BaseScalars, n_tables) < position(
            ExecutionStep::CommitBase,
            n_tables,
        ) < position(ExecutionStep::PoseidonProofs, n_tables) < position(
            ExecutionStep::BusChallenges,
            n_tables,
        ) < position(ExecutionStep::BusAndAir(t), n_tables) < position(
            ExecutionStep::BusBalance,
            n_tables,
        ) < position(ExecutionStep::BytecodeFolding, n_tables) < position(
            ExecutionStep::NormalLookupsFirst,
            n_tables,
        ) < position(ExecutionStep::VectorLookupsFirst, n_tables) < position(
            ExecutionStep::CommitExtension,
            n_tables,
        ) < position(ExecutionStep::NormalLookupsSecond, n_tables) < position(
            ExecutionStep::VectorLookupsSecond,
            n_tables,
        ) < position(ExecutionStep::BytecodeLookup, n_tables) < position(
            ExecutionStep::CommittedStatements(t),
            n_tables,
        ) < position(ExecutionStep::OpenBase, n_tables) < position(
            ExecutionStep::OpenExtension,
            n_tables,
        ) < position(ExecutionStep::BatchProof, n_tables) < position(
            ExecutionStep::Complete,
            n_tables,
        ),
{
}

/// The same order where there are no tables.
pub proof fn law_steps_in_order_without_tables()
    ensures
        position(ExecutionStep::Witness, 0) < position(ExecutionStep::PoseidonWitnesses, 0)
            < position(ExecutionStep::BaseScalars, 0) < position(ExecutionStep::CommitBase, 0)
            < position(ExecutionStep::PoseidonProofs, 0) < position(
            ExecutionStep::BusChallenges,
            0,
        ) < position(ExecutionStep::BusBalance, 0) < position(ExecutionStep::BytecodeFolding, 0)
            < position(ExecutionStep::NormalLookupsFirst, 0) < position(
            ExecutionStep::VectorLookupsFirst,
            0,
        ) < position(ExecutionStep::CommitExtension, 0) < position(
            ExecutionStep::NormalLookupsSecond,
            0,
        ) < position(ExecutionStep::VectorLookupsSecond, 0) < position(
            ExecutionStep::BytecodeLookup,
            0,
        ) < position(ExecutionStep::OpenBase, 0) < position(ExecutionStep::OpenExtension, 0)
            < position(ExecutionStep::BatchProof, 0) < position(ExecutionStep::Complete, 0),
{
}

/// Tables are taken in their order, both where their buses are proved and where their statements
/// are collected, one right behind the other.
pub proof fn law_tables_in_order(s: usize, t: usize, n_tables: nat)
    requires
        s < n_tables,
        t < n_tables,
    ensures
        position(ExecutionStep::BusAndAir(t), n_tables) - position(
            ExecutionStep::BusAndAir(s),
            n_tables,
        ) == t - s,
        position(ExecutionStep::CommittedStatements(t), n_tables) - position(
            ExecutionStep::CommittedStatements(s),
            n_tables,
        ) == t - s,
{
}

/// No position is skipped: a proof starts at its witness, which stands at 0, and every position up
/// to the complete proof is that of a step.
pub proof fn law_every_position_is_a_step(at: nat, n_tables: nat)
    requires
        at <= position(ExecutionStep::Complete, n_tables),
        n_tables <= usize::MAX,
    ensures
        position(ExecutionStep::Witness, n_tables) == 0,
        exists|step: ExecutionStep|
            is_step(step, n_tables) && #[trigger] position(step, n_tables) == at,
{
    let step = if at == 0 {
        ExecutionStep::Witness
    } else if at == 1 {
        ExecutionStep::PoseidonWitnesses
    } else if at == 2 {
        ExecutionStep::BaseScalars
    } else if at == 3 {
        ExecutionStep::CommitBase
    } else if at == 4 {
        ExecutionStep::PoseidonProofs
    } else if at == 5 {
        ExecutionStep::BusChallenges
    } else if at < 6 + n_tables {
        ExecutionStep::BusAndAir((at - 6) as usize)
    } else if at == 6 + n_tables {
        ExecutionStep::BusBalance
    } else if at == 7 + n_tables {
        ExecutionStep::BytecodeFolding
    } else if at == 8 + n_tables {
        ExecutionStep::NormalLookupsFirst
    } else if at == 9 + n_tables {
        ExecutionStep::VectorLookupsFirst
    } else if at == 10 + n_tables {
        ExecutionStep::CommitExtension
    } else if at == 11 + n_tables {
        ExecutionStep::NormalLookupsSecond
    } else if at == 12 + n_tables {
        ExecutionStep::VectorLookupsSecond
    } else if at == 13 + n_tables {
        ExecutionStep::BytecodeLookup
    } else if at < 14 + 2 * n_tables {
        ExecutionStep::CommittedStatements((at - 14 - n_tables) as usize)
    } else if at == 14 + 2 * n_tables {
        ExecutionStep::OpenBase
    } else if at == 15 + 2 * n_tables {
        ExecutionStep::OpenExtension
    } else if at == 16 + 2 * n_tables {
        ExecutionStep::BatchProof
    } else {
        ExecutionStep::Complete
    };
    assert(is_step(step, n_tables) && position(step, n_tables) == at);
}

/// Memory as it is proved: at least `2^min_log` words, filled up with 0.
pub fn pad_memory<P: Field>(memory: Vec<P>, non_zero_size: usize, min_log: usize) -> (r: (
    Vec<P>,
    usize,
))
    requires
        min_log < usize::BITS,
    ensures
        memory.len() >= pow2(min_log as nat) ==> r.0 == memory && r.1 == non_zero_size,
        memory.len() < pow2(min_log as nat) ==> {
            &&& r.0.len() == pow2(min_log as nat)
            &&& r.0@.take(memory.len() as int) == memory@
            &&& forall|i: int|
                memory.len() <= i < r.0.len() ==> #[trigger] r.0[i] == P::nil()
            &&& r.1 == pow2(min_log as nat)
        },
{
    let least: usize = pow2_usize(min_log);
    if memory.len() < least {
        let mut padded = memory;
        while padded.len() < least
            invariant
                memory.len() <= padded.len() <= least,
                padded@.take(memory.len() as int) == memory@,
                forall|i: int| memory.len() <= i < padded.len() ==> #[trigger] padded[i] == P::nil(),
            decreases least - padded.len(),
        {
            let ghost before = padded@;
            padded.push(P::zero());
            assert(padded@.take(memory.len() as int) =~= before.take(memory.len() as int));
        }
        (padded, least)
    } else {
        (memory, non_zero_size)
    }
}

/// How memory is laid out: log of the length of the public part, and length of the private part
/// behind it.
pub fn memory_layout(public_size: usize, non_zero_size: usize) -> (r: (usize, usize))
    requires
        crate::log2::is_power_of_two(public_size as nat),
        public_size <= non_zero_size,
    ensures
        pow2(r.0 as nat) == public_size,
        r.1 == non_zero_size - public_size,
{
    (log2_strict_usize(public_size), non_zero_size - public_size)
}

/// The scalars that a proof starts with: the length of private memory, then the rows of each
/// table.
pub fn base_scalars<P: Field>(private_len: usize, rows: &[usize]) -> (v: Vec<P>)
    ensures
        v.len() == rows.len() + 1,
        v[0] == P::embed(private_len as nat),
        forall|i: int| 0 <= i < rows.len() ==> #[trigger] v[i + 1] == P::embed(rows[i] as nat),
        crate::field::all_valid(v@),
{
    let mut v: Vec<P> = Vec::new();
    v.push(P::from_usize(private_len));
    let mut i: usize = 0;
    while i < rows.len()
        invariant
            i <= rows.len(),
            v.len() == i + 1,
            v[0] == P::embed(private_len as nat),
            forall|j: int| 0 <= j < i ==> #[trigger] v[j + 1] == P::embed(rows[j] as nat),
            crate::field::all_valid(v@),
        decreases rows.len() - i,
    {
        v.push(P::from_usize(rows[i]));
        i = i + 1;
    }
    v
}

/// Whether the buses of all tables balance: their quotients add up to 0.
pub fn buses_balance<F: Field>(quotients: &[F]) -> (b: bool)
    requires
        crate::field::all_valid(quotients@),
    ensures
        b == (crate::field::total(quotients@) == F::nil()),
{
    let mut sum = F::zero();
    let mut i: usize = 0;
    while i < quotients.len()
        invariant
            i <= quotients.len(),
            crate::field::all_valid(quotients@),
            sum.valid(),
            sum == crate::field::total(quotients@.take(i as int)),
        decreases quotients.len() - i,
    {
        assert(quotients@.take(i + 1).drop_last() =~= quotients@.take(i as int));
        sum = sum.field_add(quotients[i]);
        i = i + 1;
    }
    assert(quotients@.take(i as int) =~= quotients@);
    let zero = F::zero();
    sum.same(zero)
}

/// A sequence filled up with `fill` to the next power of two.
pub open spec fn padded_to_power<F>(s: Seq<F>, fill: F) -> Seq<F> {
    Seq::new(
        pow2(crate::log2::ceil_log2(s.len())),
        |i: int|
            if i < s.len() {
                s[i]
            } else {
                fill
            },
    )
}

/// Fills a sequence up to the next power of two.
pub fn pad_to_next_power_of_two<F: Field>(s: &[F], fill: F) -> (v: Vec<F>)
    requires
        crate::log2::ceil_log2(s.len() as nat) < usize::BITS,
    ensures
        v@ == padded_to_power(s@, fill),
{
    let k: usize = log2_ceil_usize(s.len());
    proof {
        crate::log2::lemma_ceil_log2(s.len() as nat, k as nat);
    }
    let n: usize = pow2_usize(k);
    let mut v = copy_of(s);
    while v.len() < n
        invariant
            s.len() <= v.len() <= n,
            v@.take(s.len() as int) == s@,
            forall|i: int| s.len() <= i < v.len() ==> #[trigger] v[i] == fill,
        decreases n - v.len(),
    {
        let ghost before = v@;
        v.push(fill);
        assert(v@.take(s.len() as int) =~= before.take(s.len() as int));
    }
    assert(v@ =~= padded_to_power(s@, fill)) by {
        assert forall|i: int| 0 <= i < s.len() implies v[i] == s[i] by {
            assert(v@.take(s.len() as int)[i] == v[i]);
        }
    }
    v
}

/// The value that is claimed of the folded bytecode at the program counter: the evaluations of the
/// instruction columns, filled up with 0, at the compression challenges.
pub fn bytecode_lookup_value<F: Field>(evals: &[F], challenges: &[F]) -> (r: F)
    requires
        challenges.len() == crate::log2::ceil_log2(evals.len() as nat),
        challenges.len() < usize::BITS,
        crate::field::all_valid(evals@),
        crate::field::all_valid(challenges@),
    ensures
        r.valid(),
        r == crate::multilinear::mle(padded_to_power(evals@, F::nil()), challenges@),
{
    let padded = pad_to_next_power_of_two(evals, F::zero());
    proof {
        F::closed();
    }
    evaluate(padded.as_slice(), challenges)
}

/// How many challenges compress an instruction of `columns` columns: as many as the variables of
/// the columns, filled up to a power of two.
pub fn bytecode_challenges(columns: usize) -> (n: usize)
    ensures
        n == crate::log2::ceil_log2(columns as nat),
{
    let n: usize = log2_ceil_usize(columns);
    proof {
        crate::log2::lemma_ceil_log2(columns as nat, n as nat);
    }
    n
}

/// The lookup of instructions by the program counter: the weights of the rows, their pushforward
/// onto the bytecode, and the claimed value of the compressed instructions that are read.
pub fn bytecode_lookup<P: PrimeField, F: Field>(
    point: &[F],
    counters: &[P],
    table_len: usize,
    evals: &[F],
    challenges: &[F],
) -> (r: (Vec<F>, Vec<F>, F))
    requires
        counters.len() == pow2(point.len() as nat),
        crate::field::all_valid(point@),
        crate::field::all_valid(counters@),
        crate::logup_star::in_table(
            crate::logup_star::remainders(counters@),
            table_len as nat,
        ),
        challenges.len() == crate::log2::ceil_log2(evals.len() as nat),
        challenges.len() < usize::BITS,
        crate::field::all_valid(evals@),
        crate::field::all_valid(challenges@),
    ensures
        r.0@ == crate::multilinear::eq_table(point@),
        r.1@ == crate::logup_star::pushforward(
            crate::logup_star::remainders(counters@),
            r.0@,
            table_len as nat,
        ),
        r.2 == crate::multilinear::mle(padded_to_power(evals@, F::nil()), challenges@),
        crate::field::all_valid(r.0@),
        crate::field::all_valid(r.1@),
        r.2.valid(),
{
    let weights = eval_eq(point);
    let pushforward = compute_pushforward(counters, table_len, weights.as_slice());
    let value = bytecode_lookup_value(evals, challenges);
    (weights, pushforward, value)
}

/// For every table, its value as often as it has lookups.
pub open spec fn repeated(values: Seq<usize>, counts: Seq<usize>) -> Seq<usize>
    decreases values.len(),
{
    if values.len() == 0 {
        Seq::empty()
    } else {
        repeated(values.drop_last(), counts.drop_last()) + Seq::new(
            counts.last() as nat,
            |i: int| values.last(),
        )
    }
}

/// The number of rows behind every lookup column: for every table, its rows as often as it has
/// lookups.
pub fn rows_per_lookup(rows: &[usize], counts: &[usize]) -> (v: Vec<usize>)
    requires
        rows.len() == counts.len(),
    ensures
        v@ == repeated(rows@, counts@),
{
    let mut v: Vec<usize> = Vec::new();
    let mut t: usize = 0;
    while t < rows.len()
        invariant
            t <= rows.len() == counts.len(),
            v@ == repeated(rows@.take(t as int), counts@.take(t as int)),
        decreases rows.len() - t,
    {
        let ghost before = v@;
        let mut i: usize = 0;
        while i < counts[t]
            invariant
                t < rows.len() == counts.len(),
                i <= counts[t as int],
                v@ == before + Seq::new(i as nat, |l: int| rows[t as int]),
            decreases counts[t as int] - i,
        {
            v.push(rows[t]);
            i = i + 1;
            assert(v@ =~= before + Seq::new(i as nat, |l: int| rows[t as int]));
        }
        proof {
            assert(rows@.take(t + 1).drop_last() =~= rows@.take(t as int));
            assert(counts@.take(t + 1).drop_last() =~= counts@.take(t as int));
        }
        t = t + 1;
    }
    assert(rows@.take(t as int) =~= rows@);
    assert(counts@.take(t as int) =~= counts@);
    v
}

/// The lengths of the extension polynomials: the pushforward over memory, the one over memory in
/// vectors of `vector_len` words, and the one over the bytecode.
pub fn extension_lengths(non_zero_size: usize, vector_len: usize, n_instructions: usize) -> (r: [usize;
    3])
    requires
        vector_len > 0,
    ensures
        r[0] == non_zero_size,
        r[1] * vector_len >= non_zero_size,
        non_zero_size > 0 ==> (r[1] - 1) * vector_len < non_zero_size,
        non_zero_size == 0 ==> r[1] == 0,
        r[2] == n_instructions,
{
    let whole: usize = non_zero_size / vector_len;
    proof {
        vstd::arithmetic::div_mod::lemma_fundamental_div_mod(
            non_zero_size as int,
            vector_len as int,
        );
        vstd::arithmetic::div_mod::lemma_mod_bound(non_zero_size as int, vector_len as int);
        assert(vector_len * whole == whole * vector_len) by (nonlinear_arith);
        assert((whole + 1) * vector_len == whole * vector_len + vector_len) by (nonlinear_arith);
        assert((whole - 1) * vector_len == whole * vector_len - vector_len) by (nonlinear_arith);
        if non_zero_size % vector_len != 0 {
            assert(whole < non_zero_size) by (nonlinear_arith)
                requires
                    non_zero_size == vector_len * whole + non_zero_size % vector_len,
                    non_zero_size % vector_len > 0,
                    vector_len >= 1,
                    whole >= 0,
            ;
        }
        if non_zero_size == 0 {
            assert(whole == 0) by (nonlinear_arith)
                requires
                    vector_len * whole <= 0,
                    vector_len >= 1,
                    whole >= 0,
            ;
        }
    }
    let vectors: usize = if non_zero_size % vector_len == 0 {
        whole
    } else {
        whole + 1
    };
    [non_zero_size, vectors, n_instructions]
}

/// A sequence filled up to a power of two: the least that it fits in, itself at the front, and the
/// filling behind it.
pub proof fn law_padded_to_power<F>(s: Seq<F>, fill: F, k: nat)
    requires
        s.len() <= pow2(k),
        k > 0 ==> pow2((k - 1) as nat) < s.len(),
    ensures
        padded_to_power(s, fill).len() == pow2(k),
        padded_to_power(s, fill).take(s.len() as int) == s,
        forall|i: int| s.len() <= i < pow2(k) ==> #[trigger] padded_to_power(s, fill)[i] == fill,
{
    crate::log2::lemma_ceil_log2(s.len(), k);
}

proof fn lemma_repeated_prefix(values: Seq<usize>, counts: Seq<usize>, t: nat)
    requires
        values.len() == counts.len(),
        t <= values.len(),
    ensures
        repeated(values, counts).len() == crate::config::sum_first(counts, counts.len()),
        repeated(values.take(t as int), counts.take(t as int)).len() == crate::config::sum_first(
            counts,
            t,
        ),
        repeated(values.take(t as int), counts.take(t as int)).is_prefix_of(
            repeated(values, counts),
        ),
    decreases values.len(),
{
    if t == values.len() {
        assert(values.take(t as int) =~= values);
        assert(counts.take(t as int) =~= counts);
        if t > 0 {
            let (v, c) = (values.drop_last(), counts.drop_last());
            lemma_repeated_prefix(v, c, (t - 1) as nat);
            lemma_same_sum(counts, c, (t - 1) as nat);
        }
    } else {
        let (v, c) = (values.drop_last(), counts.drop_last());
        lemma_repeated_prefix(v, c, t);
        lemma_same_sum(counts, c, t);
        lemma_same_sum(counts, c, c.len());
        assert(values.take(t as int) =~= v.take(t as int));
        assert(counts.take(t as int) =~= c.take(t as int));
        let (part, front, all) = (
            repeated(values.take(t as int), counts.take(t as int)),
            repeated(v, c),
            repeated(values, counts),
        );
        assert(part =~= all.take(part.len() as int)) by {
            assert(part =~= front.take(part.len() as int));
        }
    }
}

proof fn lemma_same_sum(s: Seq<usize>, t: Seq<usize>, n: nat)
    requires
        n <= s.len(),
        n <= t.len(),
        forall|i: int| 0 <= i < n ==> s[i] == t[i],
    ensures
        crate::config::sum_first(s, n) == crate::config::sum_first(t, n),
    decreases n,
{
    if n > 0 {
        lemma_same_sum(s, t, (n - 1) as nat);
    }
}

/// The rows behind the lookup columns, column by column: behind those of all tables before it, each
/// of a table's lookup columns has that table's rows; and there are as many as lookups in all.
pub proof fn law_rows_per_lookup(values: Seq<usize>, counts: Seq<usize>, t: nat, i: nat)
    requires
        values.len() == counts.len(),
        t < values.len(),
        i < counts[t as int],
    ensures
        repeated(values, counts).len() == crate::config::sum_first(counts, counts.len()),
        crate::config::sum_first(counts, t) + i < repeated(values, counts).len(),
        repeated(values, counts)[(crate::config::sum_first(counts, t) + i) as int] == values[t as int],
{
    let (v, c) = (values.take(t as int + 1), counts.take(t as int + 1));
    lemma_repeated_prefix(values, counts, t);
    lemma_repeated_prefix(values, counts, t + 1);
    assert(v.drop_last() =~= values.take(t as int));
    assert(c.drop_last() =~= counts.take(t as int));
    let (part, all) = (repeated(v, c), repeated(values, counts));
    let at = crate::config::sum_first(counts, t) + i;
    assert(part[at as int] == values[t as int]);
    assert(all[at as int] == part[at as int]) by {
        assert(part =~= all.take(part.len() as int));
    }
}

} // verus!
