//! Multilinear polynomials by their values on the cube, the first variable the most significant.

use vstd::prelude::*;
use vstd::arithmetic::power2::*;
use vstd::slice::slice_subrange;
use crate::field::Field;

verus! {

/// A point of several coordinates.
#[derive(Clone, Debug, PartialEq)]
pub struct MultilinearPoint<F>(pub Vec<F>);

/// The claim that a polynomial takes a value at a point.
#[derive(Clone, Debug, PartialEq)]
pub struct Evaluation<F> {
    pub point: MultilinearPoint<F>,
    pub value: F,
}

/// A claim as a mathematical value.
pub struct Claim<F> {
    pub point: Seq<F>,
    pub value: F,
}

impl<F> View for Evaluation<F> {
    type V = Claim<F>;

    open spec fn view(&self) -> Claim<F> {
        Claim { point: self.point.0@, value: self.value }
    }
}

impl<F> Evaluation<F> {
    /// The claim that a polynomial takes `value` at `point`.
    pub fn new(point: MultilinearPoint<F>, value: F) -> (e: Self)
        ensures
            e@.point == point.0@,
            e@.value == value,
    {
        Evaluation { point, value }
    }
}

/// A copy of a sequence of elements.
pub fn copy_of<F: Field>(s: &[F]) -> (v: Vec<F>)
    ensures
        v@ == s@,
{
    let mut v: Vec<F> = Vec::new();
    let mut i: usize = 0;
    while i < s.len()
        invariant
            i <= s.len(),
            v@ == s@.take(i as int),
        decreases s.len() - i,
    {
        v.push(s[i]);
        i = i + 1;
    }
    v
}

/// The value at `t` of the line through `a` at 0 and `b` at 1.
pub open spec fn line<F: Field>(a: F, b: F, t: F) -> F {
    a.plus(t.times(b.minus(a)))
}

/// The value at `t` of the line through `a` at 0 and `b` at 1.
pub fn line_at<F: Field>(a: F, b: F, t: F) -> (r: F)
    requires
        a.valid(),
        b.valid(),
        t.valid(),
    ensures
        r.valid(),
        r == line(a, b, t),
{
    a.field_add(t.field_mul(b.field_sub(a)))
}

/// The value at `point` of the multilinear polynomial whose values on the cube are `values`.
pub open spec fn mle<F: Field>(values: Seq<F>, point: Seq<F>) -> F
    decreases point.len(),
{
    if point.len() == 0 {
        values[0]
    } else {
        let half = (values.len() / 2) as int;
        let rest = point.drop_first();
        line(mle(values.take(half), rest), mle(values.skip(half), rest), point[0])
    }
}

/// The value at `point` of the multilinear polynomial whose values on the cube are `values`.
pub fn evaluate<F: Field>(values: &[F], point: &[F]) -> (r: F)
    requires
        values.len() == pow2(point.len() as nat),
        crate::field::all_valid(values@),
        crate::field::all_valid(point@),
    ensures
        r.valid(),
        r == mle(values@, point@),
    decreases point.len(),
{
    proof {
        lemma_pow2_pos(point.len() as nat);
    }
    if point.len() == 0 {
        values[0]
    } else {
        proof {
            lemma_pow2_unfold(point.len() as nat);
        }
        let half: usize = values.len() / 2;
        let rest = slice_subrange(point, 1, point.len());
        let low = slice_subrange(values, 0, half);
        let high = slice_subrange(values, half, values.len());
        assert(rest@ =~= point@.drop_first());
        assert(low@ =~= values@.take(half as int));
        assert(high@ =~= values@.skip(half as int));
        let a = evaluate(low, rest);
        let b = evaluate(high, rest);
        line_at(a, b, point[0])
    }
}

/// The products of a sequence with one element.
pub open spec fn scaled<F: Field>(s: Seq<F>, c: F) -> Seq<F> {
    Seq::new(s.len(), |i: int| s[i].times(c))
}

/// The weights of the corners of the cube at a point: `eq(point, x)` for every corner `x`.
pub open spec fn eq_table<F: Field>(point: Seq<F>) -> Seq<F>
    decreases point.len(),
{
    if point.len() == 0 {
        seq![F::unit()]
    } else {
        let rest = eq_table(point.drop_first());
        scaled(rest, F::unit().minus(point[0])) + scaled(rest, point[0])
    }
}

/// The weights of the corners of the cube at a point.
pub fn eval_eq<F: Field>(point: &[F]) -> (v: Vec<F>)
    requires
        pow2(point.len() as nat) <= usize::MAX,
        crate::field::all_valid(point@),
    ensures
        v@ == eq_table(point@),
        v.len() == pow2(point.len() as nat),
        crate::field::all_valid(v@),
    decreases point.len(),
{
    proof {
        lemma_eq_table(point@);
    }
    let mut v: Vec<F> = Vec::new();
    if point.len() == 0 {
        v.push(F::one());
        assert(v@ =~= eq_table(point@));
        return v;
    }
    proof {
        lemma_pow2_unfold(point.len() as nat);
    }
    let tail = slice_subrange(point, 1, point.len());
    assert(tail@ =~= point@.drop_first());
    let rest = eval_eq(tail);
    let first = point[0];
    let other = F::one().field_sub(first);
    let mut i: usize = 0;
    while i < rest.len()
        invariant
            i <= rest.len(),
            v.len() == i,
            crate::field::all_valid(rest@),
            other.valid(),
            forall|j: int| 0 <= j < i ==> #[trigger] v[j] == rest[j].times(other),
        decreases rest.len() - i,
    {
        v.push(rest[i].field_mul(other));
        i = i + 1;
    }
    assert(v@ =~= scaled(rest@, other));
    let ghost low = v@;
    let mut j: usize = 0;
    while j < rest.len()
        invariant
            j <= rest.len(),
            v.len() == low.len() + j,
            crate::field::all_valid(rest@),
            first.valid(),
            forall|l: int| 0 <= l < low.len() ==> #[trigger] v[l] == low[l],
            forall|l: int| 0 <= l < j ==> #[trigger] v[low.len() + l] == rest[l].times(first),
        decreases rest.len() - j,
    {
        v.push(rest[j].field_mul(first));
        j = j + 1;
    }
    proof {
        let high = scaled(rest@, first);
        assert forall|l: int| 0 <= l < v.len() implies v[l] == (low + high)[l] by {
            if l >= low.len() {
                assert(v[low.len() + (l - low.len())] == rest[l - low.len()].times(first));
            }
        }
        assert(v@ =~= eq_table(point@));
    }
    v
}

pub(crate) proof fn lemma_eq_table<F: Field>(point: Seq<F>)
    requires
        crate::field::all_valid(point),
    ensures
        eq_table(point).len() == pow2(point.len()),
        crate::field::all_valid(eq_table(point)),
    decreases point.len(),
{
    F::closed();
    lemma2_to64();
    if point.len() > 0 {
        lemma_eq_table(point.drop_first());
        lemma_pow2_unfold(point.len());
        let rest = eq_table(point.drop_first());
        assert(crate::field::all_valid(scaled(rest, F::unit().minus(point[0]))));
        assert(crate::field::all_valid(scaled(rest, point[0])));
    }
}

pub(crate) proof fn lemma_mle_valid<F: Field>(values: Seq<F>, point: Seq<F>)
    requires
        values.len() == pow2(point.len()),
        crate::field::all_valid(values),
        crate::field::all_valid(point),
    ensures
        mle(values, point).valid(),
    decreases point.len(),
{
    F::closed();
    lemma_pow2_pos(point.len());
    if point.len() > 0 {
        lemma_pow2_unfold(point.len());
        let half = (values.len() / 2) as int;
        lemma_mle_valid(values.take(half), point.drop_first());
        lemma_mle_valid(values.skip(half), point.drop_first());
    }
}

/// A line in weights: `a + t (b - a) == a (1 - t) + b t`.
pub proof fn lemma_line_weights<F: Field>(a: F, b: F, t: F)
    requires
        a.valid(),
        b.valid(),
        t.valid(),
    ensures
        line(a, b, t) == a.times(F::unit().minus(t)).plus(b.times(t)),
{
    F::closed();
    crate::field::lemma_distributes_minus(a, F::unit(), t);
    F::times_unit(a);
    crate::field::lemma_distributes_minus(t, b, a);
    F::times_commutes(t, b);
    F::times_commutes(t, a);
    let (at, bt) = (a.times(t), b.times(t));
    let d = bt.minus(at);
    let e = a.minus(at);
    F::minus_plus(bt, at);
    F::minus_plus(a, at);
    F::plus_commutes(d, at);
    F::plus_associates(e, at, d);
}

/// The value of a multilinear polynomial is the weighted sum of its values on the cube.
pub proof fn law_mle_weights<F: Field>(values: Seq<F>, point: Seq<F>)
    requires
        values.len() == pow2(point.len()),
        crate::field::all_valid(values),
        crate::field::all_valid(point),
    ensures
        mle(values, point) == crate::field::dot(values, eq_table(point)),
    decreases point.len(),
{
    F::closed();
    let table = eq_table(point);
    lemma_eq_table(point);
    if point.len() == 0 {
        lemma2_to64();
        let terms = crate::field::products(values, table);
        assert(terms.drop_last() =~= Seq::<F>::empty());
        assert(terms.last() == values[0].times(F::unit()));
        assert(crate::field::total(terms.drop_last()) == F::nil());
        F::times_unit(values[0]);
        crate::field::lemma_left_neutral(values[0]);
    } else {
        lemma_pow2_unfold(point.len());
        let half = (values.len() / 2) as int;
        let (low, high) = (values.take(half), values.skip(half));
        let rest = point.drop_first();
        let weights = eq_table(rest);
        let (t, u) = (point[0], F::unit().minus(point[0]));
        lemma_eq_table(rest);
        law_mle_weights(low, rest);
        law_mle_weights(high, rest);
        let (a, b) = (crate::field::products(low, weights), crate::field::products(high, weights));
        crate::field::lemma_products_valid(low, weights);
        crate::field::lemma_products_valid(high, weights);
        crate::field::lemma_total_valid(a);
        crate::field::lemma_total_valid(b);
        lemma_line_weights(crate::field::total(a), crate::field::total(b), t);
        let (left, right) = (
            crate::field::products(low, scaled(weights, u)),
            crate::field::products(high, scaled(weights, t)),
        );
        assert forall|i: int| 0 <= i < half implies #[trigger] left[i] == a[i].times(u) by {
            F::times_associates(low[i], weights[i], u);
        }
        assert forall|i: int| 0 <= i < half implies #[trigger] right[i] == b[i].times(t) by {
            F::times_associates(high[i], weights[i], t);
        }
        crate::field::lemma_total_scale(a, u, left);
        crate::field::lemma_total_scale(b, t, right);
        assert(crate::field::products(values, table) =~= left + right);
        crate::field::lemma_total_concat(left, right);
    }
}

/// `eq(p, q)`: 1 where two corners of the cube are equal and 0 where they differ, multilinear in
/// both points.
pub open spec fn eq_poly<F: Field>(p: Seq<F>, q: Seq<F>) -> F
    decreases p.len(),
{
    if p.len() == 0 {
        F::unit()
    } else {
        eq_poly(p.drop_first(), q.drop_first()).times(
            line(F::unit().minus(p[0]), p[0], q[0]),
        )
    }
}

/// `eq` at two points.
pub fn eq_poly_outside<F: Field>(p: &[F], q: &[F]) -> (r: F)
    requires
        p.len() == q.len(),
        crate::field::all_valid(p@),
        crate::field::all_valid(q@),
    ensures
        r.valid(),
        r == eq_poly(p@, q@),
{
    let mut r = F::one();
    let mut i: usize = p.len();
    assert(p@.skip(i as int) =~= Seq::<F>::empty());
    while i > 0
        invariant
            i <= p.len() == q.len(),
            crate::field::all_valid(p@),
            crate::field::all_valid(q@),
            r.valid(),
            r == eq_poly(p@.skip(i as int), q@.skip(i as int)),
        decreases i,
    {
        i = i - 1;
        proof {
            F::closed();
            assert(p@.skip(i as int).drop_first() =~= p@.skip(i + 1));
            assert(q@.skip(i as int).drop_first() =~= q@.skip(i + 1));
        }
        r = r.field_mul(line_at(F::one().field_sub(p[i]), p[i], q[i]));
    }
    assert(p@.skip(0) =~= p@);
    assert(q@.skip(0) =~= q@);
    r
}

/// Each factor of `eq` is `(1 - a)(1 - b) + a b`.
pub proof fn law_eq_factor<F: Field>(a: F, b: F)
    requires
        a.valid(),
        b.valid(),
    ensures
        line(F::unit().minus(a), a, b) == F::unit().minus(a).times(F::unit().minus(b)).plus(
            a.times(b),
        ),
{
    F::closed();
    lemma_line_weights(F::unit().minus(a), a, b);
}

pub(crate) proof fn lemma_mle_scaled<F: Field>(values: Seq<F>, c: F, point: Seq<F>)
    requires
        values.len() == pow2(point.len()),
        crate::field::all_valid(values),
        crate::field::all_valid(point),
        c.valid(),
    ensures
        mle(scaled(values, c), point) == mle(values, point).times(c),
    decreases point.len(),
{
    F::closed();
    lemma_pow2_pos(point.len());
    if point.len() > 0 {
        lemma_pow2_unfold(point.len());
        let half = (values.len() / 2) as int;
        let rest = point.drop_first();
        let (low, high) = (values.take(half), values.skip(half));
        lemma_mle_scaled(low, c, rest);
        lemma_mle_scaled(high, c, rest);
        assert(scaled(values, c).take(half) =~= scaled(low, c));
        assert(scaled(values, c).skip(half) =~= scaled(high, c));
        lemma_mle_valid(low, rest);
        lemma_mle_valid(high, rest);
        let (a, b, t) = (mle(low, rest), mle(high, rest), point[0]);
        crate::field::lemma_distributes_minus(c, b, a);
        F::times_associates(t, b.minus(a), c);
        crate::field::lemma_distributes_right(a, t.times(b.minus(a)), c);
    }
}

/// The weights at one point, taken as a multilinear polynomial, evaluate at another point to `eq`
/// of the two.
pub proof fn law_eq_table_evaluates_to_eq<F: Field>(p: Seq<F>, q: Seq<F>)
    requires
        p.len() == q.len(),
        crate::field::all_valid(p),
        crate::field::all_valid(q),
    ensures
        mle(eq_table(p), q) == eq_poly(p, q),
    decreases p.len(),
{
    F::closed();
    lemma_eq_table(p);
    if p.len() > 0 {
        let rest = eq_table(p.drop_first());
        let u = F::unit().minus(p[0]);
        lemma_eq_table(p.drop_first());
        lemma_pow2_unfold(p.len());
        law_eq_table_evaluates_to_eq(p.drop_first(), q.drop_first());
        let half = (eq_table(p).len() / 2) as int;
        assert(eq_table(p).take(half) =~= scaled(rest, u));
        assert(eq_table(p).skip(half) =~= scaled(rest, p[0]));
        lemma_mle_scaled(rest, u, q.drop_first());
        lemma_mle_scaled(rest, p[0], q.drop_first());
        lemma_mle_valid(rest, q.drop_first());
        let e = mle(rest, q.drop_first());
        let (a, t) = (p[0], q[0]);
        crate::field::lemma_distributes_minus(e, a, u);
        F::times_commutes(t, e.times(a.minus(u)));
        F::times_associates(e, a.minus(u), t);
        F::times_commutes(a.minus(u), t);
        F::distributes(e, u, t.times(a.minus(u)));
    }
}

/// A polynomial that is the same everywhere on the cube is the same everywhere.
pub proof fn law_mle_constant<F: Field>(values: Seq<F>, c: F, point: Seq<F>)
    requires
        values.len() == pow2(point.len()),
        c.valid(),
        crate::field::all_valid(point),
        forall|i: int| 0 <= i < values.len() ==> #[trigger] values[i] == c,
    ensures
        mle(values, point) == c,
    decreases point.len(),
{
    lemma_pow2_pos(point.len());
    if point.len() > 0 {
        lemma_pow2_unfold(point.len());
        let half = (values.len() / 2) as int;
        law_mle_constant(values.take(half), c, point.drop_first());
        law_mle_constant(values.skip(half), c, point.drop_first());
        crate::field::lemma_minus_self(c);
        crate::field::lemma_times_nil(point[0]);
        F::plus_nil(c);
    }
}

/// The polynomial of a sequence entry by entry the sum of two is the sum of their polynomials.
pub proof fn law_mle_plus<F: Field>(a: Seq<F>, b: Seq<F>, sum: Seq<F>, point: Seq<F>)
    requires
        a.len() == b.len() == sum.len() == pow2(point.len()),
        crate::field::all_valid(a),
        crate::field::all_valid(b),
        crate::field::all_valid(point),
        forall|i: int| 0 <= i < a.len() ==> #[trigger] sum[i] == a[i].plus(b[i]),
    ensures
        mle(sum, point) == mle(a, point).plus(mle(b, point)),
    decreases point.len(),
{
    F::closed();
    lemma_pow2_pos(point.len());
    if point.len() > 0 {
        lemma_pow2_unfold(point.len());
        let half = (a.len() / 2) as int;
        let rest = point.drop_first();
        let t = point[0];
        law_mle_plus(a.take(half), b.take(half), sum.take(half), rest);
        law_mle_plus(a.skip(half), b.skip(half), sum.skip(half), rest);
        lemma_mle_valid(a.take(half), rest);
        lemma_mle_valid(a.skip(half), rest);
        lemma_mle_valid(b.take(half), rest);
        lemma_mle_valid(b.skip(half), rest);
        let (a0, a1) = (mle(a.take(half), rest), mle(a.skip(half), rest));
        let (b0, b1) = (mle(b.take(half), rest), mle(b.skip(half), rest));
        crate::field::lemma_minus_of_sums(a1, b1, a0, b0);
        F::distributes(t, a1.minus(a0), b1.minus(b0));
        crate::field::lemma_exchange(a0, b0, t.times(a1.minus(a0)), t.times(b1.minus(b0)));
    }
}

/// `eq` is symmetric.
pub proof fn law_eq_symmetric<F: Field>(p: Seq<F>, q: Seq<F>)
    requires
        p.len() == q.len(),
        crate::field::all_valid(p),
        crate::field::all_valid(q),
    ensures
        eq_poly(p, q) == eq_poly(q, p),
    decreases p.len(),
{
    F::closed();
    if p.len() > 0 {
        law_eq_symmetric(p.drop_first(), q.drop_first());
        law_eq_factor(p[0], q[0]);
        law_eq_factor(q[0], p[0]);
        F::times_commutes(F::unit().minus(p[0]), F::unit().minus(q[0]));
        F::times_commutes(p[0], q[0]);
    }
}

pub(crate) proof fn lemma_eq_valid<F: Field>(p: Seq<F>, q: Seq<F>)
    requires
        p.len() == q.len(),
        crate::field::all_valid(p),
        crate::field::all_valid(q),
    ensures
        eq_poly(p, q).valid(),
    decreases p.len(),
{
    F::closed();
    if p.len() > 0 {
        lemma_eq_valid(p.drop_first(), q.drop_first());
    }
}

/// The polynomial of a constant less a sequence is the constant less the sequence's polynomial.
pub proof fn law_mle_shifted<F: Field>(values: Seq<F>, c: F, shifted: Seq<F>, point: Seq<F>)
    requires
        values.len() == shifted.len() == pow2(point.len()),
        crate::field::all_valid(values),
        crate::field::all_valid(point),
        c.valid(),
        forall|i: int| 0 <= i < values.len() ==> #[trigger] shifted[i] == c.minus(values[i]),
    ensures
        mle(shifted, point) == c.minus(mle(values, point)),
        c.minus(mle(shifted, point)) == mle(values, point),
{
    F::closed();
    let constant = Seq::new(values.len(), |i: int| c);
    assert forall|i: int| 0 <= i < values.len() implies #[trigger] constant[i] == shifted[i].plus(
        values[i],
    ) && shifted[i].valid() by {
        F::minus_plus(c, values[i]);
    }
    assert(crate::field::all_valid(shifted)) by {
        assert forall|i: int| 0 <= i < shifted.len() implies (#[trigger] shifted[i]).valid() by {
            assert(constant[i] == shifted[i].plus(values[i]));
        }
    }
    law_mle_plus(shifted, values, constant, point);
    law_mle_constant(constant, c, point);
    lemma_mle_valid(shifted, point);
    lemma_mle_valid(values, point);
    let (s, v) = (mle(shifted, point), mle(values, point));
    F::minus_plus(s, v);
    F::plus_commutes(s, v);
    F::minus_plus(v, s);
}

} // verus!
