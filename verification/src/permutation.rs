//! The proof of many permutations at once: what is computed around the circuit's proof.

use vstd::prelude::*;
use vstd::arithmetic::power2::*;
use p3_util::log2_ceil_usize;
use crate::arith::pow2_usize;
use crate::field::{Field, PrimeField};
use crate::multilinear::{copy_of, evaluate, Evaluation, MultilinearPoint};

verus! {

/// Number of words that a compression keeps.
pub const COMPRESSION_OUTPUT_WIDTH: usize = 8;

/// One in how many permutations is compressed, when some are.
pub const COMPRESSION_SHARE: usize = 3;

/// The values that several polynomials take at one point.
#[derive(Clone, Debug, PartialEq)]
pub struct MultiEvaluation<F> {
    pub point: MultilinearPoint<F>,
    pub values: Vec<F>,
}

/// Log of the length of the packed commitment of `width` inputs and `n_cubes` cubes over
/// `2^log_n` permutations.
pub fn packed_variables(log_n: usize, width: usize, n_cubes: usize) -> (r: usize)
    requires
        width + n_cubes <= usize::MAX,
        log_n + crate::log2::ceil_log2((width + n_cubes) as nat) <= usize::MAX,
    ensures
        r == log_n + crate::log2::ceil_log2((width + n_cubes) as nat),
{
    let k: usize = log2_ceil_usize(width + n_cubes);
    proof {
        crate::log2::lemma_ceil_log2((width + n_cubes) as nat, k as nat);
    }
    log_n + k
}

/// How many of `n` permutations are compressed: the last third, or none.
pub fn compression_count(n: usize, compress: bool) -> (r: usize)
    ensures
        r == (if compress {
            n / COMPRESSION_SHARE
        } else {
            0
        }),
        r <= n,
{
    if compress {
        n / COMPRESSION_SHARE
    } else {
        0
    }
}

/// `zeros` times 0, then 1 up to length `n`.
pub open spec fn zeros_then_ones<F: Field>(zeros: nat, n: nat) -> Seq<F> {
    Seq::new(
        n,
        |i: int|
            if i < zeros {
                F::nil()
            } else {
                F::unit()
            },
    )
}

/// The column that selects the compressed permutations, which come last.
pub fn compression_selector<F: Field>(n: usize, n_compressions: usize) -> (v: Vec<F>)
    requires
        n_compressions <= n,
    ensures
        v@ == zeros_then_ones::<F>((n - n_compressions) as nat, n as nat),
        v.len() == n,
        forall|i: int| 0 <= i < n - n_compressions ==> #[trigger] v[i] == F::nil(),
        forall|i: int| n - n_compressions <= i < n ==> #[trigger] v[i] == F::unit(),
        crate::field::all_valid(v@),
{
    let zeros: usize = n - n_compressions;
    let mut v: Vec<F> = Vec::new();
    while v.len() < n
        invariant
            v.len() <= n,
            zeros <= n,
            crate::field::all_valid(v@),
            forall|i: int|
                0 <= i < v.len() ==> #[trigger] v[i] == zeros_then_ones::<F>(
                    zeros as nat,
                    n as nat,
                )[i],
        decreases n - v.len(),
    {
        if v.len() < zeros {
            v.push(F::zero());
        } else {
            v.push(F::one());
        }
    }
    assert(v@ =~= zeros_then_ones::<F>(zeros as nat, n as nat));
    v
}

/// Whether a claim on the selector column of `2^log_n` permutations is true.
pub fn selector_claim_holds<F: Field>(
    claim: &Evaluation<F>,
    log_n: usize,
    n_compressions: usize,
) -> (b: bool)
    requires
        log_n < usize::BITS,
        n_compressions <= pow2(log_n as nat),
        claim@.point.len() == log_n,
        crate::field::all_valid(claim@.point),
        claim@.value.valid(),
    ensures
        b == (claim@.value == crate::multilinear::mle(
            zeros_then_ones::<F>((pow2(log_n as nat) - n_compressions) as nat, pow2(log_n as nat)),
            claim@.point,
        )),
{
    let n: usize = pow2_usize(log_n);
    let selector = compression_selector::<F>(n, n_compressions);
    claim.value.same(evaluate(selector.as_slice(), claim.point.0.as_slice()))
}

/// The inputs of permutations by columns.
pub open spec fn transposed<P>(rows: Seq<Seq<P>>, width: nat) -> Seq<Seq<P>> {
    Seq::new(width, |i: int| Seq::new(rows.len(), |r: int| rows[r][i]))
}

/// Turns rows of `width` words into columns.
pub fn transpose<P: Field>(rows: &[Vec<P>], width: usize) -> (cols: Vec<Vec<P>>)
    requires
        forall|r: int| 0 <= r < rows.len() ==> (#[trigger] rows[r]).len() == width,
    ensures
        crate::fractions::owned_columns(cols@) == transposed(
            crate::fractions::owned_columns(rows@),
            width as nat,
        ),
        cols.len() == width,
        forall|i: int| 0 <= i < width ==> (#[trigger] cols[i]).len() == rows.len(),
        forall|i: int, r: int|
            0 <= i < width && 0 <= r < rows.len() ==> #[trigger] cols[i][r] == rows[r][i],
{
    let ghost all = crate::fractions::owned_columns(rows@);
    let ghost want = transposed(all, width as nat);
    let mut cols: Vec<Vec<P>> = Vec::new();
    while cols.len() < width
        invariant
            cols.len() <= width,
            all == crate::fractions::owned_columns(rows@),
            want == transposed(all, width as nat),
            forall|r: int| 0 <= r < rows.len() ==> (#[trigger] rows[r]).len() == width,
            forall|i: int| 0 <= i < cols.len() ==> (#[trigger] cols[i])@ == want[i],
        decreases width - cols.len(),
    {
        let i: usize = cols.len();
        let mut col: Vec<P> = Vec::new();
        while col.len() < rows.len()
            invariant
                i < width,
                col.len() <= rows.len(),
                all == crate::fractions::owned_columns(rows@),
                forall|r: int| 0 <= r < rows.len() ==> (#[trigger] rows[r]).len() == width,
                forall|r: int| 0 <= r < col.len() ==> #[trigger] col[r] == all[r][i as int],
            decreases rows.len() - col.len(),
        {
            let r: usize = col.len();
            col.push(rows[r][i]);
        }
        assert(col@ =~= want[i as int]);
        cols.push(col);
    }
    assert(crate::fractions::owned_columns(cols@) =~= want);
    assert forall|i: int, r: int| 0 <= i < width && 0 <= r < rows.len() implies #[trigger] cols[i][r]
        == rows[r][i] by {
        assert(cols[i]@ == want[i]);
        assert(all[r] == rows[r]@);
    }
    cols
}

/// The statements on the committed columns: one per input, then one per cube, each alone.
pub open spec fn opening_claims<F>(
    input_point: Seq<F>,
    inputs: Seq<F>,
    cube_point: Seq<F>,
    cubes: Seq<F>,
) -> Seq<Seq<crate::multilinear::Claim<F>>> {
    Seq::new(
        inputs.len() + cubes.len(),
        |i: int|
            if i < inputs.len() {
                seq![crate::multilinear::Claim { point: input_point, value: inputs[i] }]
            } else {
                seq![
                    crate::multilinear::Claim { point: cube_point, value: cubes[i - inputs.len()] },
                ]
            },
    )
}

/// The statements on the committed columns.
pub fn opening_statements<F: Field>(
    inputs: &MultiEvaluation<F>,
    cubes: &MultiEvaluation<F>,
) -> (v: Vec<Vec<Evaluation<F>>>)
    requires
        inputs.values.len() + cubes.values.len() <= usize::MAX,
    ensures
        crate::statements::claims_on_each(v@) == opening_claims(
            inputs.point.0@,
            inputs.values@,
            cubes.point.0@,
            cubes.values@,
        ),
        v.len() == inputs.values.len() + cubes.values.len(),
        forall|i: int|
            0 <= i < v.len() ==> {
                &&& (#[trigger] v[i]).len() == 1
                &&& i < inputs.values.len() ==> v[i][0].point.0@ == inputs.point.0@
                    && v[i][0].value == inputs.values[i]
                &&& i >= inputs.values.len() ==> v[i][0].point.0@ == cubes.point.0@
                    && v[i][0].value == cubes.values[i - inputs.values.len()]
            },
{
    let ghost want = opening_claims(
        inputs.point.0@,
        inputs.values@,
        cubes.point.0@,
        cubes.values@,
    );
    let n: usize = inputs.values.len();
    let total: usize = n + cubes.values.len();
    let mut v: Vec<Vec<Evaluation<F>>> = Vec::new();
    while v.len() < total
        invariant
            v.len() <= total,
            n == inputs.values.len(),
            total == n + cubes.values.len(),
            want == opening_claims(
                inputs.point.0@,
                inputs.values@,
                cubes.point.0@,
                cubes.values@,
            ),
            forall|i: int|
                0 <= i < v.len() ==> crate::logup_star::claims_of((#[trigger] v[i])@) == want[i],
            forall|i: int|
                0 <= i < v.len() ==> {
                    &&& (#[trigger] v[i]).len() == 1
                    &&& i < inputs.values.len() ==> v[i][0].point.0@ == inputs.point.0@
                        && v[i][0].value == inputs.values[i]
                    &&& i >= inputs.values.len() ==> v[i][0].point.0@ == cubes.point.0@
                        && v[i][0].value == cubes.values[i - inputs.values.len()]
                },
        decreases total - v.len(),
    {
        let i: usize = v.len();
        let claim = if i < n {
            Evaluation::new(
                MultilinearPoint(copy_of(inputs.point.0.as_slice())),
                inputs.values[i],
            )
        } else {
            Evaluation::new(
                MultilinearPoint(copy_of(cubes.point.0.as_slice())),
                cubes.values[i - n],
            )
        };
        let mut list: Vec<Evaluation<F>> = Vec::new();
        list.push(claim);
        assert(crate::logup_star::claims_of(list@) =~= want[i as int]);
        v.push(list);
    }
    assert(crate::statements::claims_on_each(v@) =~= want);
    v
}

/// Whether one output column is right: that of the permuted words, and with compression, past the
/// words that it keeps, 0 in the compressed rows.
pub open spec fn output_column_right<P: Field>(
    output: Seq<P>,
    permuted: Seq<P>,
    kept: bool,
    n_compressions: nat,
) -> bool {
    if kept {
        output == permuted
    } else {
        let plain = output.len() - n_compressions;
        &&& output.len() == permuted.len()
        &&& forall|r: int| 0 <= r < plain ==> #[trigger] output[r] == permuted[r]
        &&& forall|r: int| plain <= r < output.len() ==> #[trigger] output[r] == P::nil()
    }
}

/// Whether the entries from `lo` up to `hi` of two columns are equal.
fn ranges_equal<P: Field>(a: &[P], b: &[P], lo: usize, hi: usize) -> (r: bool)
    requires
        lo <= hi <= a.len(),
        hi <= b.len(),
        crate::field::all_valid(a@),
        crate::field::all_valid(b@),
    ensures
        r == (forall|i: int| lo <= i < hi ==> #[trigger] a[i] == b[i]),
{
    let mut i: usize = lo;
    while i < hi
        invariant
            lo <= i <= hi <= a.len(),
            hi <= b.len(),
            crate::field::all_valid(a@),
            crate::field::all_valid(b@),
            forall|j: int| lo <= j < i ==> #[trigger] a[j] == b[j],
        decreases hi - i,
    {
        if !a[i].same(b[i]) {
            return false;
        }
        i = i + 1;
    }
    true
}

/// Whether one output column is right.
fn check_output_column<P: Field>(
    output: &[P],
    permuted: &[P],
    kept: bool,
    n_compressions: usize,
) -> (r: bool)
    requires
        output.len() == permuted.len(),
        n_compressions <= output.len(),
        crate::field::all_valid(output@),
        crate::field::all_valid(permuted@),
    ensures
        r == output_column_right(output@, permuted@, kept, n_compressions as nat),
{
    if kept {
        let r = ranges_equal(output, permuted, 0, output.len());
        assert(r == (output@ =~= permuted@));
        return r;
    }
    let plain: usize = output.len() - n_compressions;
    if !ranges_equal(output, permuted, 0, plain) {
        return false;
    }
    let zero = P::zero();
    let mut i: usize = plain;
    while i < output.len()
        invariant
            plain <= i <= output.len(),
            plain == output.len() - n_compressions,
            !kept,
            zero.valid(),
            zero == P::nil(),
            crate::field::all_valid(output@),
            forall|j: int| plain <= j < i ==> #[trigger] output[j] == P::nil(),
        decreases output.len() - i,
    {
        if !output[i].same(zero) {
            assert(output@[i as int] != P::nil());
            return false;
        }
        i = i + 1;
    }
    true
}

/// An output column is right cell by cell: every row that is not compressed holds the permuted word,
/// and so does every row of a kept column; the compressed rows of the other columns hold 0.
pub proof fn law_output_column<P: Field>(
    output: Seq<P>,
    permuted: Seq<P>,
    kept: bool,
    n_compressions: nat,
)
    requires
        output.len() == permuted.len(),
        n_compressions <= output.len(),
    ensures
        output_column_right(output, permuted, kept, n_compressions) <==> (forall|row: int|
            0 <= row < output.len() ==> #[trigger] output[row] == (if !kept && row >= output.len()
                - n_compressions {
                P::nil()
            } else {
                permuted[row]
            })),
{
    let cells = forall|row: int|
        0 <= row < output.len() ==> #[trigger] output[row] == (if !kept && row >= output.len()
            - n_compressions {
            P::nil()
        } else {
            permuted[row]
        });
    if kept {
        if cells {
            assert(output =~= permuted);
        }
    } else if output_column_right(output, permuted, kept, n_compressions) {
        assert(cells);
    }
}

proof fn lemma_output_cells<P: Field>(
    output: Seq<Vec<P>>,
    permuted: Seq<Vec<P>>,
    compress: bool,
    n_compressions: nat,
)
    requires
        output.len() == permuted.len(),
        forall|i: int|
            0 <= i < output.len() ==> (#[trigger] output[i]).len() == permuted[i].len()
                && n_compressions <= output[i].len(),
    ensures
        (forall|i: int|
            0 <= i < output.len() ==> output_column_right(
                (#[trigger] output[i])@,
                permuted[i]@,
                !compress || i < COMPRESSION_OUTPUT_WIDTH,
                n_compressions,
            )) <==> (forall|i: int, row: int|
            0 <= i < output.len() && 0 <= row < output[i].len() ==> #[trigger] output[i][row] == (
            if compress && i >= COMPRESSION_OUTPUT_WIDTH && row >= output[i].len()
                - n_compressions {
                P::nil()
            } else {
                permuted[i][row]
            })),
{
    let cells = forall|i: int, row: int|
        0 <= i < output.len() && 0 <= row < output[i].len() ==> #[trigger] output[i][row] == (
        if compress && i >= COMPRESSION_OUTPUT_WIDTH && row >= output[i].len() - n_compressions {
            P::nil()
        } else {
            permuted[i][row]
        });
    assert forall|i: int| 0 <= i < output.len() && cells implies output_column_right(
        (#[trigger] output[i])@,
        permuted[i]@,
        !compress || i < COMPRESSION_OUTPUT_WIDTH,
        n_compressions,
    ) by {
        let (own, want) = (output[i]@, permuted[i]@);
        assert forall|row: int| 0 <= row < own.len() implies #[trigger] own[row] == (if !(!compress
            || i < COMPRESSION_OUTPUT_WIDTH) && row >= own.len() - n_compressions {
            P::nil()
        } else {
            want[row]
        }) by {
            assert(own[row] == output[i][row]);
        }
        law_output_column(own, want, !compress || i < COMPRESSION_OUTPUT_WIDTH, n_compressions);
    }
    if forall|i: int|
        0 <= i < output.len() ==> output_column_right(
            (#[trigger] output[i])@,
            permuted[i]@,
            !compress || i < COMPRESSION_OUTPUT_WIDTH,
            n_compressions,
        ) {
        assert forall|i: int, row: int|
            0 <= i < output.len() && 0 <= row < output[i].len() implies #[trigger] output[i][row]
            == (if compress && i >= COMPRESSION_OUTPUT_WIDTH && row >= output[i].len()
            - n_compressions {
            P::nil()
        } else {
            permuted[i][row]
        }) by {
            law_output_column(
                output[i]@,
                permuted[i]@,
                !compress || i < COMPRESSION_OUTPUT_WIDTH,
                n_compressions,
            );
            assert(output[i]@[row] == output[i][row]);
        }
    }
}

/// Whether the output columns of the circuit are those of the permuted words: all of them, or with
/// compression the first [`COMPRESSION_OUTPUT_WIDTH`], the others being 0 in the compressed rows.
pub fn output_matches<P: Field>(
    output: &[Vec<P>],
    permuted: &[Vec<P>],
    compress: bool,
    n_compressions: usize,
) -> (r: bool)
    requires
        output.len() == permuted.len(),
        forall|i: int|
            0 <= i < output.len() ==> (#[trigger] output[i]).len() == permuted[i].len()
                && n_compressions <= output[i].len() && crate::field::all_valid(output[i]@)
                && crate::field::all_valid(permuted[i]@),
    ensures
        r == (forall|i: int|
            0 <= i < output.len() ==> output_column_right(
                (#[trigger] output[i])@,
                permuted[i]@,
                !compress || i < COMPRESSION_OUTPUT_WIDTH,
                n_compressions as nat,
            )),
        r <==> (forall|i: int, row: int|
            0 <= i < output.len() && 0 <= row < output[i].len() ==> #[trigger] output[i][row] == (
            if compress && i >= COMPRESSION_OUTPUT_WIDTH && row >= output[i].len()
                - n_compressions {
                P::nil()
            } else {
                permuted[i][row]
            })),
{
    proof {
        lemma_output_cells(output@, permuted@, compress, n_compressions as nat);
    }
    let mut i: usize = 0;
    while i < output.len()
        invariant
            i <= output.len() == permuted.len(),
            forall|i: int|
                0 <= i < output.len() ==> (#[trigger] output[i]).len() == permuted[i].len()
                    && n_compressions <= output[i].len() && crate::field::all_valid(output[i]@)
                    && crate::field::all_valid(permuted[i]@),
            forall|j: int|
                0 <= j < i ==> output_column_right(
                    (#[trigger] output[j])@,
                    permuted[j]@,
                    !compress || j < COMPRESSION_OUTPUT_WIDTH,
                    n_compressions as nat,
                ),
        decreases output.len() - i,
    {
        let kept: bool = !compress || i < COMPRESSION_OUTPUT_WIDTH;
        assert(output[i as int].len() == permuted[i as int].len());
        if !check_output_column(
            output[i].as_slice(),
            permuted[i].as_slice(),
            kept,
            n_compressions,
        ) {
            proof {
                lemma_output_cells(output@, permuted@, compress, n_compressions as nat);
            }
            return false;
        }
        i = i + 1;
    }
    true
}

/// A column of the prime field as one of an extension.
pub open spec fn lifted_column<P: PrimeField, F: Field>(s: Seq<P>) -> Seq<F> {
    Seq::new(s.len(), |i: int| crate::bus::lifted::<P, F>(s[i]))
}

/// Brings a column of the prime field into an extension.
pub fn lift_column<P: PrimeField, F: Field>(s: &[P]) -> (v: Vec<F>)
    requires
        crate::field::all_valid(s@),
    ensures
        v@ == lifted_column::<P, F>(s@),
        crate::field::all_valid(v@),
{
    let mut v: Vec<F> = Vec::new();
    while v.len() < s.len()
        invariant
            v.len() <= s.len(),
            crate::field::all_valid(s@),
            crate::field::all_valid(v@),
            forall|i: int| 0 <= i < v.len() ==> #[trigger] v[i] == lifted_column::<P, F>(s@)[i],
        decreases s.len() - v.len(),
    {
        let i: usize = v.len();
        v.push(F::from_usize(s[i].to_usize()));
    }
    assert(v@ =~= lifted_column::<P, F>(s@));
    v
}

/// Whether statements on the output columns are true.
pub fn output_statements_hold<P: PrimeField, F: Field>(
    statements: &MultiEvaluation<F>,
    output: &[Vec<P>],
) -> (r: bool)
    requires
        crate::field::all_valid(statements.point.0@),
        crate::field::all_valid(statements.values@),
        forall|i: int|
            0 <= i < output.len() ==> (#[trigger] output[i]).len() == pow2(
                statements.point.0.len() as nat,
            ) && crate::field::all_valid(output[i]@),
    ensures
        r == (statements.values.len() == output.len() && forall|i: int|
            0 <= i < output.len() ==> statements.values[i] == crate::multilinear::mle(
                lifted_column::<P, F>((#[trigger] output[i])@),
                statements.point.0@,
            )),
{
    if statements.values.len() != output.len() {
        return false;
    }
    let mut i: usize = 0;
    while i < output.len()
        invariant
            i <= output.len() == statements.values.len(),
            crate::field::all_valid(statements.point.0@),
            crate::field::all_valid(statements.values@),
            forall|i: int|
                0 <= i < output.len() ==> (#[trigger] output[i]).len() == pow2(
                    statements.point.0.len() as nat,
                ) && crate::field::all_valid(output[i]@),
            forall|j: int|
                0 <= j < i ==> statements.values[j] == crate::multilinear::mle(
                    lifted_column::<P, F>((#[trigger] output[j])@),
                    statements.point.0@,
                ),
        decreases output.len() - i,
    {
        assert(crate::field::all_valid(output[i as int]@));
        let column = lift_column::<P, F>(output[i].as_slice());
        let value = evaluate(column.as_slice(), statements.point.0.as_slice());
        if !statements.values[i].same(value) {
            return false;
        }
        i = i + 1;
    }
    true
}

/// One in three permutations is compressed, where some are, and a compression keeps eight words.
pub proof fn law_compression_shape()
    ensures
        COMPRESSION_SHARE == 3,
        COMPRESSION_OUTPUT_WIDTH == 8,
{
}

/// The selector column is 0 on the first rows and 1 on all that follow.
pub proof fn law_selector_column<F: Field>(zeros: nat, n: nat, i: int)
    requires
        0 <= i < n,
    ensures
        zeros_then_ones::<F>(zeros, n).len() == n,
        i < zeros ==> zeros_then_ones::<F>(zeros, n)[i] == F::nil(),
        i >= zeros ==> zeros_then_ones::<F>(zeros, n)[i] == F::unit(),
{
}

/// A column that is brought into an extension keeps its length, and each entry becomes the sum of
/// as many ones as its remainder says.
pub proof fn law_lifted_column<P: PrimeField, F: Field>(s: Seq<P>, i: int)
    requires
        0 <= i < s.len(),
    ensures
        lifted_column::<P, F>(s).len() == s.len(),
        lifted_column::<P, F>(s)[i] == F::embed(s[i].remainder()),
{
}

} // verus!
