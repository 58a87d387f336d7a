//! Sums of fractions, halved layer by layer.
//!
//! A layer has as many columns as there are groups: the first half holds numerators, the second
//! half the denominators that go with them.

use vstd::prelude::*;
use vstd::arithmetic::mul::*;
use vstd::arithmetic::power2::*;
use vstd::slice::slice_subrange;
use p3_util::log2_strict_usize;
use crate::field::Field;
use crate::multilinear::copy_of;

verus! {

/// Columns by their entries.
pub open spec fn columns<A>(s: Seq<&[A]>) -> Seq<Seq<A>> {
    Seq::new(s.len(), |i: int| s[i]@)
}

/// Owned columns by their entries.
pub open spec fn owned_columns<A>(s: Seq<Vec<A>>) -> Seq<Seq<A>> {
    Seq::new(s.len(), |i: int| s[i]@)
}

/// Piece `j` of a sequence cut into `groups` pieces of equal length.
pub open spec fn chunk<A>(s: Seq<A>, groups: nat, j: nat) -> Seq<A> {
    let width = s.len() / groups;
    s.subrange((j * width) as int, ((j + 1) * width) as int)
}

/// Every column cut into `groups` pieces, the pieces of each column one after another.
pub open spec fn split<A>(cols: Seq<Seq<A>>, groups: nat) -> Seq<Seq<A>> {
    Seq::new(
        cols.len() * groups,
        |i: int| chunk(cols[i / groups as int], groups, (i % groups as int) as nat),
    )
}

/// Whether every column has `len` entries.
pub open spec fn all_of_len<A>(cols: Seq<Seq<A>>, len: nat) -> bool {
    forall|i: int| 0 <= i < cols.len() ==> (#[trigger] cols[i]).len() == len
}

/// Whether every entry of every column stands for an element.
pub open spec fn all_columns_valid<F: Field>(cols: Seq<Seq<F>>) -> bool {
    forall|i: int| 0 <= i < cols.len() ==> crate::field::all_valid(#[trigger] cols[i])
}

pub(crate) proof fn lemma_chunk_bounds(len: nat, groups: nat, j: nat)
    requires
        j < groups,
    ensures
        0 <= j * (len / groups) <= (j + 1) * (len / groups) <= len,
        (j + 1) * (len / groups) - j * (len / groups) == len / groups,
{
    let w = len / groups;
    assert((j + 1) * w == j * w + w) by (nonlinear_arith);
    vstd::arithmetic::div_mod::lemma_fundamental_div_mod(len as int, groups as int);
    assert((j + 1) * w <= groups * w) by (nonlinear_arith)
        requires
            j + 1 <= groups,
            w >= 0,
    ;
    assert(0 <= j * w) by (nonlinear_arith)
        requires
            j >= 0,
            w >= 0,
    ;
}

/// Cuts every column into `num_groups` pieces of equal length.
pub fn split_chunks<'a, A>(cols: &[&'a [A]], num_groups: usize) -> (res: Vec<&'a [A]>)
    requires
        cols.len() > 0,
        crate::log2::is_power_of_two(cols[0].len() as nat),
        crate::log2::is_power_of_two(num_groups as nat),
        cols[0].len() >= num_groups,
        all_of_len(columns(cols@), cols[0].len() as nat),
    ensures
        columns(res@) == split(columns(cols@), num_groups as nat),
{
    let ghost n = cols[0].len() as nat;
    let ghost want = split(columns(cols@), num_groups as nat);
    proof {
        let k = choose|k: nat| num_groups as nat == pow2(k);
        lemma_pow2_pos(k);
        assert(columns(cols@)[0] == cols[0]@);
    }
    let width: usize = cols[0].len() / num_groups;
    let mut res: Vec<&'a [A]> = Vec::new();
    let mut c: usize = 0;
    while c < cols.len()
        invariant
            c <= cols.len(),
            num_groups > 0,
            width == n / num_groups as nat,
            all_of_len(columns(cols@), n),
            want == split(columns(cols@), num_groups as nat),
            res.len() == c * num_groups,
            forall|i: int| 0 <= i < res.len() ==> (#[trigger] res[i])@ == want[i],
        decreases cols.len() - c,
    {
        let ghost base = (c * num_groups) as int;
        let slice = cols[c];
        assert(columns(cols@)[c as int] == slice@);
        let mut j: usize = 0;
        while j < num_groups
            invariant
                c < cols.len(),
                j <= num_groups,
                num_groups > 0,
                width == n / num_groups as nat,
                slice@ == columns(cols@)[c as int],
                slice.len() == n,
                want == split(columns(cols@), num_groups as nat),
                base == c * num_groups,
                res.len() == base + j,
                forall|i: int| 0 <= i < res.len() ==> (#[trigger] res[i])@ == want[i],
            decreases num_groups - j,
        {
            proof {
                lemma_chunk_bounds(n, num_groups as nat, j as nat);
                lemma_mul_is_commutative(j as int, width as int);
                vstd::arithmetic::div_mod::lemma_fundamental_div_mod_converse(
                    base + j,
                    num_groups as int,
                    c as int,
                    j as int,
                );
                assert(base + j < cols.len() * num_groups) by (nonlinear_arith)
                    requires
                        base == c * num_groups,
                        c + 1 <= cols.len(),
                        j < num_groups,
                ;
            }
            let start: usize = j * width;
            let end: usize = start + width;
            res.push(slice_subrange(slice, start, end));
            j = j + 1;
        }
        assert((c + 1) * num_groups == c * num_groups + num_groups) by (nonlinear_arith);
        c = c + 1;
    }
    assert(columns(res@) =~= want);
    res
}

/// The numerators of the sums of paired fractions, the first half of a column with the second.
pub open spec fn paired_numerators<F: Field>(nums: Seq<F>, dens: Seq<F>) -> Seq<F> {
    let half = nums.len() / 2;
    Seq::new(
        half,
        |x: int|
            nums[x].times(dens[x + half]).plus(nums[x + half].times(dens[x])),
    )
}

/// The denominators of the sums of paired fractions.
pub open spec fn paired_denominators<F: Field>(nums: Seq<F>, dens: Seq<F>) -> Seq<F> {
    let half = nums.len() / 2;
    Seq::new(half, |x: int| dens[x].times(dens[x + half]))
}

/// Adds the fractions of a column in pairs, each of the first half with its counterpart in the
/// second half.
pub fn sum_quotients_2_by_2<F: Field>(numerators: &[F], denominators: &[F]) -> (r: (Vec<F>, Vec<F>))
    requires
        denominators.len() >= numerators.len() / 2 * 2,
        crate::field::all_valid(numerators@),
        crate::field::all_valid(denominators@),
    ensures
        r.0@ == paired_numerators(numerators@, denominators@),
        r.1@ == paired_denominators(numerators@, denominators@),
        crate::field::all_valid(r.0@),
        crate::field::all_valid(r.1@),
{
    let new_n: usize = numerators.len() / 2;
    let mut new_numerators: Vec<F> = Vec::new();
    let mut new_denominators: Vec<F> = Vec::new();
    let mut i: usize = 0;
    while i < new_n
        invariant
            i <= new_n,
            new_n == numerators.len() / 2,
            denominators.len() >= new_n * 2,
            crate::field::all_valid(numerators@),
            crate::field::all_valid(denominators@),
            new_numerators.len() == i,
            new_denominators.len() == i,
            crate::field::all_valid(new_numerators@),
            crate::field::all_valid(new_denominators@),
            forall|x: int|
                0 <= x < i ==> #[trigger] new_numerators[x] == paired_numerators(
                    numerators@,
                    denominators@,
                )[x],
            forall|x: int|
                0 <= x < i ==> #[trigger] new_denominators[x] == paired_denominators(
                    numerators@,
                    denominators@,
                )[x],
        decreases new_n - i,
    {
        let (n0, n1) = (numerators[i], numerators[i + new_n]);
        let (d0, d1) = (denominators[i], denominators[i + new_n]);
        new_numerators.push(n0.field_mul(d1).field_add(n1.field_mul(d0)));
        new_denominators.push(d0.field_mul(d1));
        i = i + 1;
    }
    assert(new_numerators@ =~= paired_numerators(numerators@, denominators@));
    assert(new_denominators@ =~= paired_denominators(numerators@, denominators@));
    (new_numerators, new_denominators)
}

/// The layer behind a layer: its fractions added in pairs.
pub open spec fn summed<F: Field>(cols: Seq<Seq<F>>) -> Seq<Seq<F>> {
    let half = (cols.len() / 2) as int;
    Seq::new(
        cols.len(),
        |i: int|
            if i < half {
                paired_numerators(cols[i], cols[i + half])
            } else {
                paired_denominators(cols[i - half], cols[i])
            },
    )
}

/// Adds the fractions of a layer in pairs.
pub fn sum_quotients<F: Field>(cols: &[&[F]]) -> (r: Vec<Vec<F>>)
    requires
        cols.len() >= 2,
        cols.len() % 2 == 0,
        all_of_len(columns(cols@), cols[0].len() as nat),
        all_columns_valid(columns(cols@)),
    ensures
        owned_columns(r@) == summed(columns(cols@)),
        all_columns_valid(summed(columns(cols@))),
{
    let half: usize = cols.len() / 2;
    let ghost all = columns(cols@);
    let mut new_numerators: Vec<Vec<F>> = Vec::new();
    let mut new_denominators: Vec<Vec<F>> = Vec::new();
    let mut i: usize = 0;
    while i < half
        invariant
            i <= half,
            cols.len() == 2 * half,
            all == columns(cols@),
            all_of_len(all, cols[0].len() as nat),
            all_columns_valid(all),
            new_numerators.len() == i,
            new_denominators.len() == i,
            forall|c: int|
                0 <= c < i ==> (#[trigger] new_numerators[c])@ == paired_numerators(
                    all[c],
                    all[c + half],
                ) && crate::field::all_valid(new_numerators[c]@),
            forall|c: int|
                0 <= c < i ==> (#[trigger] new_denominators[c])@ == paired_denominators(
                    all[c],
                    all[c + half],
                ) && crate::field::all_valid(new_denominators[c]@),
        decreases half - i,
    {
        assert(all[i as int] == cols[i as int]@);
        assert(all[i + half] == cols[i + half]@);
        let (num, den) = sum_quotients_2_by_2(cols[i], cols[i + half]);
        new_numerators.push(num);
        new_denominators.push(den);
        i = i + 1;
    }
    let ghost (nums, dens) = (new_numerators@, new_denominators@);
    new_numerators.append(&mut new_denominators);
    assert(owned_columns(new_numerators@) =~= summed(all)) by {
        assert forall|c: int| 0 <= c < 2 * half implies (#[trigger] new_numerators[c])@ == summed(
            all,
        )[c] by {
            if c < half {
                assert(new_numerators[c] == nums[c]);
            } else {
                assert(new_numerators[c] == dens[c - half]);
            }
        }
    }
    assert forall|c: int| 0 <= c < summed(all).len() implies crate::field::all_valid(
        #[trigger] summed(all)[c],
    ) by {
        if c < half {
            assert(summed(all)[c] == nums[c]@);
        } else {
            assert(summed(all)[c] == dens[c - half]@);
        }
    }
    new_numerators
}

/// Layer `k` over fractions: the fractions in `groups / 2` columns, halved `k` times.
pub open spec fn layer<F: Field>(nums: Seq<F>, dens: Seq<F>, groups: nat, k: nat) -> Seq<Seq<F>>
    decreases k,
{
    if k == 0 {
        split(seq![nums, dens], groups / 2)
    } else {
        summed(layer(nums, dens, groups, (k - 1) as nat))
    }
}

/// The shape of a layer over `2^a` fractions in `2^b` columns.
pub(crate) proof fn lemma_layer_shape<F: Field>(nums: Seq<F>, dens: Seq<F>, a: nat, b: nat, k: nat)
    requires
        nums.len() == dens.len() == pow2(a),
        1 <= b <= a,
        k <= a - b + 1,
        crate::field::all_valid(nums),
        crate::field::all_valid(dens),
    ensures
        layer(nums, dens, pow2(b), k).len() == pow2(b),
        pow2(b) % 2 == 0,
        pow2(b) >= 2,
        all_of_len(layer(nums, dens, pow2(b), k), pow2((a - b + 1 - k) as nat)),
        all_columns_valid(layer(nums, dens, pow2(b), k)),
    decreases k,
{
    F::closed();
    lemma_pow2_unfold(b);
    lemma_pow2_pos((b - 1) as nat);
    let groups = pow2(b);
    if k == 0 {
        let half = pow2((b - 1) as nat);
        assert(groups / 2 == half);
        crate::log2::lemma_power_quotient(a, (b - 1) as nat);
        let first = layer(nums, dens, groups, 0);
        assert(first.len() == 2 * half);
        assert forall|i: int| 0 <= i < first.len() implies (#[trigger] first[i]).len() == pow2(
            (a - b + 1) as nat,
        ) && crate::field::all_valid(first[i]) by {
            let j = (i % (half as int)) as nat;
            lemma_split_index(i, half as int);
            lemma_chunk_bounds(pow2(a), half, j);
        }
    } else {
        lemma_layer_shape(nums, dens, a, b, (k - 1) as nat);
        lemma_pow2_unfold((a - b + 1 - k + 1) as nat);
        lemma_summed_valid(layer(nums, dens, groups, (k - 1) as nat));
    }
}

pub(crate) proof fn lemma_split_index(i: int, groups: int)
    requires
        0 <= i,
        groups > 0,
    ensures
        0 <= i / groups,
        0 <= i % groups < groups,
        i < 2 * groups ==> i / groups <= 1,
        i < groups ==> i / groups == 0 && i % groups == i,
        groups <= i < 2 * groups ==> i / groups == 1 && i % groups == i - groups,
{
    vstd::arithmetic::div_mod::lemma_fundamental_div_mod(i, groups);
    vstd::arithmetic::div_mod::lemma_mod_bound(i, groups);
    if i < groups {
        vstd::arithmetic::div_mod::lemma_fundamental_div_mod_converse(i, groups, 0, i);
    } else if i < 2 * groups {
        vstd::arithmetic::div_mod::lemma_fundamental_div_mod_converse(i, groups, 1, i - groups);
    }
    vstd::arithmetic::div_mod::lemma_div_pos_is_pos(i, groups);
}

pub(crate) proof fn lemma_summed_valid<F: Field>(cols: Seq<Seq<F>>)
    requires
        cols.len() >= 2,
        cols.len() % 2 == 0,
        all_of_len(cols, cols[0].len()),
        all_columns_valid(cols),
    ensures
        all_columns_valid(summed(cols)),
        all_of_len(summed(cols), cols[0].len() / 2),
{
    F::closed();
    let half = (cols.len() / 2) as int;
    assert forall|i: int| 0 <= i < cols.len() implies crate::field::all_valid(
        #[trigger] summed(cols)[i],
    ) && summed(cols)[i].len() == cols[0].len() / 2 by {
        if i < half {
            assert(cols[i].len() == cols[i + half].len());
            assert(crate::field::all_valid(cols[i]) && crate::field::all_valid(cols[i + half]));
        } else {
            assert(cols[i - half].len() == cols[i].len());
            assert(crate::field::all_valid(cols[i]));
        }
    }
}

/// Copies of columns.
fn copy_columns<F: Field>(cols: &[&[F]]) -> (r: Vec<Vec<F>>)
    ensures
        owned_columns(r@) == columns(cols@),
{
    let mut r: Vec<Vec<F>> = Vec::new();
    let mut i: usize = 0;
    while i < cols.len()
        invariant
            i <= cols.len(),
            r.len() == i,
            forall|c: int| 0 <= c < i ==> (#[trigger] r[c])@ == cols[c]@,
        decreases cols.len() - i,
    {
        r.push(copy_of(cols[i]));
        i = i + 1;
    }
    assert(owned_columns(r@) =~= columns(cols@));
    r
}

/// The columns of a layer, borrowed.
pub fn borrow_columns<F: Field>(cols: &Vec<Vec<F>>) -> (r: Vec<&[F]>)
    ensures
        columns(r@) == owned_columns(cols@),
{
    let mut r: Vec<&[F]> = Vec::new();
    let mut i: usize = 0;
    while i < cols.len()
        invariant
            i <= cols.len(),
            r.len() == i,
            forall|c: int| 0 <= c < i ==> (#[trigger] r[c])@ == cols[c]@,
        decreases cols.len() - i,
    {
        r.push(cols[i].as_slice());
        i = i + 1;
    }
    assert(columns(r@) =~= owned_columns(cols@));
    r
}

/// All layers over fractions, down to columns of two entries.
pub fn quotient_layers<F: Field>(numerators: &[F], denominators: &[F], n_groups: usize) -> (r: Vec<
    Vec<Vec<F>>,
>)
    requires
        numerators.len() == denominators.len(),
        crate::log2::is_power_of_two(numerators.len() as nat),
        crate::log2::is_power_of_two(n_groups as nat),
        2 <= n_groups <= numerators.len(),
        crate::field::all_valid(numerators@),
        crate::field::all_valid(denominators@),
    ensures
        pow2(r.len() as nat) * n_groups == 2 * numerators.len(),
        forall|k: int|
            0 <= k < r.len() ==> owned_columns((#[trigger] r[k])@) == layer(
                numerators@,
                denominators@,
                n_groups as nat,
                k as nat,
            ),
{
    let a: usize = log2_strict_usize(numerators.len());
    let b: usize = log2_strict_usize(n_groups);
    let ghost (nums, dens) = (numerators@, denominators@);
    proof {
        lemma2_to64();
        crate::log2::lemma_exponent_order(1, b as nat);
        crate::log2::lemma_exponent_order(b as nat, a as nat);
        lemma_layer_shape(nums, dens, a as nat, b as nat, 0);
        lemma_pow2_unfold(b as nat);
        lemma_pow2_adds((a - b + 1) as nat, b as nat);
        lemma_pow2_unfold((a + 1) as nat);
        let half = n_groups / 2;
        assert(half == pow2((b - 1) as nat));
    }
    let mut inputs: Vec<&[F]> = Vec::new();
    inputs.push(numerators);
    inputs.push(denominators);
    assert(columns(inputs@) =~= seq![nums, dens]);
    let first = split_chunks(inputs.as_slice(), n_groups / 2);
    let mut layers: Vec<Vec<Vec<F>>> = Vec::new();
    layers.push(copy_columns(first.as_slice()));
    while layers.len() < a - b + 1
        invariant
            nums == numerators@,
            dens == denominators@,
            nums.len() == dens.len() == pow2(a as nat),
            n_groups == pow2(b as nat),
            1 <= b <= a,
            a - b + 1 <= usize::MAX,
            crate::field::all_valid(nums),
            crate::field::all_valid(dens),
            1 <= layers.len() <= a - b + 1,
            forall|k: int|
                0 <= k < layers.len() ==> owned_columns((#[trigger] layers[k])@) == layer(
                    nums,
                    dens,
                    n_groups as nat,
                    k as nat,
                ),
        decreases a - b + 1 - layers.len(),
    {
        let ghost done = layers.len() as nat;
        proof {
            lemma_layer_shape(nums, dens, a as nat, b as nat, (done - 1) as nat);
        }
        let before = borrow_columns(&layers[layers.len() - 1]);
        assert(columns(before@)[0] == before[0]@);
        let next = sum_quotients(before.as_slice());
        layers.push(next);
    }
    layers
}

/// The sum of the fractions of one column.
pub open spec fn column_sum<F: Field>(nums: Seq<F>, dens: Seq<F>) -> F {
    crate::field::total(Seq::new(nums.len(), |x: int| crate::field::ratio(nums[x], dens[x])))
}

/// The sum of all fractions of a layer.
pub open spec fn fraction_sum<F: Field>(cols: Seq<Seq<F>>) -> F {
    let half = cols.len() / 2;
    crate::field::total(Seq::new(half, |i: int| column_sum(cols[i], cols[i + half])))
}

/// Whether every entry of a sequence has an inverse.
pub open spec fn all_invertible<F: Field>(s: Seq<F>) -> bool {
    forall|x: int| 0 <= x < s.len() ==> crate::field::invertible(#[trigger] s[x])
}

/// Whether every entry of a sequence has an inverse: none is 0.
pub fn all_nonzero<F: Field>(s: &[F]) -> (b: bool)
    requires
        crate::field::all_valid(s@),
    ensures
        b == all_invertible(s@),
        b == !s@.contains(F::nil()),
{
    let mut i: usize = 0;
    while i < s.len()
        invariant
            i <= s.len(),
            crate::field::all_valid(s@),
            forall|x: int|
                0 <= x < i ==> crate::field::invertible(#[trigger] s[x]) && s[x] != F::nil(),
        decreases s.len() - i,
    {
        match s[i].try_inverse() {
            None => {
                proof {
                    assert(s[i as int] == F::nil());
                    if crate::field::invertible(s[i as int]) {
                        crate::field::lemma_invertible_nonzero(s[i as int]);
                    }
                }
                return false;
            },
            Some(c) => {
                proof {
                    crate::field::lemma_inverse(s[i as int], c);
                }
            },
        }
        i = i + 1;
    }
    true
}

/// Whether every denominator of a layer has an inverse.
pub open spec fn denominators_invertible<F: Field>(cols: Seq<Seq<F>>) -> bool {
    forall|i: int| cols.len() / 2 <= i < cols.len() ==> all_invertible(#[trigger] cols[i])
}

pub(crate) proof fn lemma_ratios_valid<F: Field>(nums: Seq<F>, dens: Seq<F>)
    requires
        nums.len() == dens.len(),
        crate::field::all_valid(nums),
        all_invertible(dens),
    ensures
        crate::field::all_valid(
            Seq::new(nums.len(), |x: int| crate::field::ratio(nums[x], dens[x])),
        ),
{
    F::closed();
    assert forall|x: int| 0 <= x < nums.len() implies crate::field::ratio(
        nums[x],
        dens[x],
    ).valid() by {
        crate::field::lemma_invertible(dens[x]);
    }
}

/// Adding the fractions of a column in pairs keeps their sum.
proof fn lemma_paired_sum<F: Field>(nums: Seq<F>, dens: Seq<F>)
    requires
        nums.len() == dens.len(),
        nums.len() % 2 == 0,
        crate::field::all_valid(nums),
        all_invertible(dens),
    ensures
        all_invertible(paired_denominators(nums, dens)),
        column_sum(paired_numerators(nums, dens), paired_denominators(nums, dens)) == column_sum(
            nums,
            dens,
        ),
{
    F::closed();
    let half = nums.len() / 2;
    let terms = Seq::new(nums.len(), |x: int| crate::field::ratio(nums[x], dens[x]));
    let (pn, pd) = (paired_numerators(nums, dens), paired_denominators(nums, dens));
    let sums = Seq::new(pn.len(), |x: int| crate::field::ratio(pn[x], pd[x]));
    lemma_ratios_valid(nums, dens);
    let (low, high) = (terms.take(half as int), terms.skip(half as int));
    assert forall|x: int| 0 <= x < half implies #[trigger] sums[x] == low[x].plus(high[x])
        && crate::field::invertible(pd[x]) by {
        crate::field::lemma_sum_of_fractions(nums[x], dens[x], nums[x + half], dens[x + half]);
    }
    assert forall|x: int| 0 <= x < pd.len() implies crate::field::invertible(#[trigger] pd[x]) by {
        assert(sums[x] == low[x].plus(high[x]));
    }
    crate::field::lemma_total_plus(low, high, sums);
    assert(terms =~= low + high);
    crate::field::lemma_total_concat(low, high);
}

/// The sum of the fractions of a layer is kept by the layer behind it.
pub proof fn law_summed_keeps_sum<F: Field>(cols: Seq<Seq<F>>)
    requires
        cols.len() >= 2,
        cols.len() % 2 == 0,
        cols[0].len() % 2 == 0,
        all_of_len(cols, cols[0].len()),
        all_columns_valid(cols),
        denominators_invertible(cols),
    ensures
        denominators_invertible(summed(cols)),
        fraction_sum(summed(cols)) == fraction_sum(cols),
{
    let half = cols.len() / 2;
    let next = summed(cols);
    let before = Seq::new(half, |i: int| column_sum(cols[i], cols[i + half]));
    let after = Seq::new(half, |i: int| column_sum(next[i], next[i + half]));
    assert forall|i: int| 0 <= i < half implies before[i] == after[i] && all_invertible(
        #[trigger] next[i + half],
    ) by {
        assert(cols[i].len() == cols[i + half].len());
        assert(crate::field::all_valid(cols[i]));
        assert(all_invertible(cols[i + half]));
        lemma_paired_sum(cols[i], cols[i + half]);
    }
    assert forall|i: int| half <= i < next.len() implies all_invertible(#[trigger] next[i]) by {
        assert(all_invertible(next[(i - half) + half]));
    }
    assert(before =~= after) by {
        assert forall|i: int| 0 <= i < half implies before[i] == after[i] by {
            assert(all_invertible(next[i + half]));
        }
    }
}

pub(crate) proof fn lemma_pieces_sum<F: Field>(terms: Seq<F>, groups: nat, pieces: Seq<F>, j: nat)
    requires
        groups > 0,
        j <= groups == pieces.len(),
        terms.len() % groups == 0,
        crate::field::all_valid(terms),
        forall|i: int|
            0 <= i < groups ==> #[trigger] pieces[i] == crate::field::total(
                chunk(terms, groups, i as nat),
            ),
    ensures
        crate::field::total(pieces.take(j as int)) == crate::field::total(
            terms.take((j * (terms.len() / groups)) as int),
        ),
        0 <= j * (terms.len() / groups) <= terms.len(),
    decreases j,
{
    let width = terms.len() / groups;
    if j == 0 {
        assert(pieces.take(0) =~= Seq::<F>::empty());
        assert(0 * width == 0);
        assert(terms.take(0) =~= Seq::<F>::empty());
    } else {
        let d = (j - 1) as nat;
        lemma_pieces_sum(terms, groups, pieces, d);
        lemma_chunk_bounds(terms.len(), groups, d);
        assert(pieces.take(j as int).drop_last() =~= pieces.take(d as int));
        let start = (d * width) as int;
        let end = (j * width) as int;
        assert(terms.take(end) =~= terms.take(start) + chunk(terms, groups, d));
        crate::field::lemma_total_concat(terms.take(start), chunk(terms, groups, d));
        assert(pieces[d as int] == crate::field::total(chunk(terms, groups, d)));
    }
}

/// The first layer holds the fractions themselves.
proof fn lemma_first_layer_sum<F: Field>(nums: Seq<F>, dens: Seq<F>, a: nat, b: nat)
    requires
        nums.len() == dens.len() == pow2(a),
        1 <= b <= a,
        crate::field::all_valid(nums),
        all_invertible(dens),
    ensures
        denominators_invertible(layer(nums, dens, pow2(b), 0)),
        fraction_sum(layer(nums, dens, pow2(b), 0)) == column_sum(nums, dens),
{
    let half = pow2((b - 1) as nat);
    lemma_pow2_unfold(b);
    lemma_pow2_pos((b - 1) as nat);
    assert(pow2(b) / 2 == half);
    crate::log2::lemma_power_quotient(a, (b - 1) as nat);
    let width = pow2(a) / half;
    let first = layer(nums, dens, pow2(b), 0);
    let terms = Seq::new(nums.len(), |x: int| crate::field::ratio(nums[x], dens[x]));
    lemma_ratios_valid(nums, dens);
    let sums = Seq::new(half, |i: int| column_sum(first[i], first[i + half]));
    assert forall|i: int| 0 <= i < half implies #[trigger] sums[i] == crate::field::total(
        chunk(terms, half, i as nat),
    ) && all_invertible(first[i + half]) by {
        lemma_split_index(i, half as int);
        lemma_split_index(i + half, half as int);
        lemma_chunk_bounds(pow2(a), half, i as nat);
        assert(first[i] == chunk(nums, half, i as nat));
        assert(first[i + half] == chunk(dens, half, i as nat));
        assert(chunk(terms, half, i as nat) =~= Seq::new(
            first[i].len(),
            |x: int| crate::field::ratio(first[i][x], first[i + half][x]),
        ));
    }
    assert forall|i: int| half <= i < first.len() implies all_invertible(#[trigger] first[i]) by {
        assert(sums[i - half] == crate::field::total(chunk(terms, half, (i - half) as nat)));
        assert(all_invertible(first[(i - half) + half]));
    }
    assert(pow2(a) % half == 0) by {
        vstd::arithmetic::div_mod::lemma_fundamental_div_mod(pow2(a) as int, half as int);
    }
    lemma_pieces_sum(terms, half, sums, half);
    assert(half * width == pow2(a));
    assert(sums.take(half as int) =~= sums);
    assert(terms.take(pow2(a) as int) =~= terms);
    assert(fraction_sum(first) == crate::field::total(sums));
}

/// Every layer has the sum of the fractions that it was made from.
pub proof fn law_layers_keep_sum<F: Field>(nums: Seq<F>, dens: Seq<F>, a: nat, b: nat, k: nat)
    requires
        nums.len() == dens.len() == pow2(a),
        1 <= b <= a,
        k <= a - b + 1,
        crate::field::all_valid(nums),
        all_invertible(dens),
    ensures
        denominators_invertible(layer(nums, dens, pow2(b), k)),
        fraction_sum(layer(nums, dens, pow2(b), k)) == column_sum(nums, dens),
    decreases k,
{
    assert(crate::field::all_valid(dens)) by {
        assert forall|x: int| 0 <= x < dens.len() implies (#[trigger] dens[x]).valid() by {
            crate::field::lemma_invertible(dens[x]);
        }
    }
    if k == 0 {
        lemma_first_layer_sum(nums, dens, a, b);
    } else {
        law_layers_keep_sum(nums, dens, a, b, (k - 1) as nat);
        lemma_layer_shape(nums, dens, a, b, (k - 1) as nat);
        lemma_pow2_unfold((a - b + 1 - k + 1) as nat);
        law_summed_keeps_sum(layer(nums, dens, pow2(b), (k - 1) as nat));
    }
}

/// A sequence cut into equal pieces: entry `i` of piece `j` is the entry that far behind `j` whole
/// pieces. The pieces of columns stand column by column.
pub proof fn law_pieces<A>(cols: Seq<Seq<A>>, groups: nat, c: int, j: nat, i: int)
    requires
        0 <= c < cols.len(),
        j < groups,
        0 <= i < cols[c].len() / groups,
    ensures
        chunk(cols[c], groups, j).len() == cols[c].len() / groups,
        chunk(cols[c], groups, j)[i] == cols[c][j * (cols[c].len() / groups) + i],
        split(cols, groups).len() == cols.len() * groups,
        0 <= c * groups + j < split(cols, groups).len(),
        split(cols, groups)[c * groups + j] == chunk(cols[c], groups, j),
{
    lemma_chunk_bounds(cols[c].len(), groups, j);
    vstd::arithmetic::div_mod::lemma_fundamental_div_mod_converse(
        c * groups + j,
        groups as int,
        c,
        j as int,
    );
    assert(0 <= c * groups && c * groups + groups <= cols.len() * groups) by (nonlinear_arith)
        requires
            0 <= c < cols.len(),
    ;
}

/// Adding fractions in pairs adds them: each new fraction is the sum of the one at its place in the
/// first half and the one at its place in the second.
pub proof fn law_pair_adds<F: Field>(nums: Seq<F>, dens: Seq<F>, x: int)
    requires
        nums.len() == dens.len(),
        nums.len() % 2 == 0,
        0 <= x < nums.len() / 2,
        crate::field::all_valid(nums),
        all_invertible(dens),
    ensures
        paired_numerators(nums, dens).len() == nums.len() / 2,
        paired_denominators(nums, dens).len() == nums.len() / 2,
        crate::field::ratio(
            paired_numerators(nums, dens)[x],
            paired_denominators(nums, dens)[x],
        ) == crate::field::ratio(nums[x], dens[x]).plus(
            crate::field::ratio(nums[x + nums.len() / 2], dens[x + nums.len() / 2]),
        ),
{
    let half = nums.len() / 2;
    assert(crate::field::invertible(dens[x]));
    assert(crate::field::invertible(dens[x + half]));
    crate::field::lemma_sum_of_fractions(nums[x], dens[x], nums[x + half], dens[x + half]);
}

} // verus!
