//! Fields as the protocols see them, and finite sums over them.

use vstd::prelude::*;

verus! {

/// A field, with its operations as specification functions, the laws they obey, and the
/// executable operations that compute them.
///
/// A value of the type stands for an element where it is [`valid`](Field::valid): the laws speak of
/// such values, and every operation gives one.
pub trait Field: Copy {
    /// Whether the value stands for an element.
    spec fn valid(self) -> bool;

    /// The element 0.
    spec fn nil() -> Self;

    /// The element 1.
    spec fn unit() -> Self;

    /// The sum.
    spec fn plus(self, other: Self) -> Self;

    /// The difference.
    spec fn minus(self, other: Self) -> Self;

    /// The product.
    spec fn times(self, other: Self) -> Self;

    /// The sum of `n` ones.
    spec fn embed(n: nat) -> Self;

    /// Every operation gives an element.
    proof fn closed()
        ensures
            Self::nil().valid(),
            Self::unit().valid(),
            forall|a: Self, b: Self|
                a.valid() && b.valid() ==> (#[trigger] a.plus(b)).valid(),
            forall|a: Self, b: Self|
                a.valid() && b.valid() ==> (#[trigger] a.minus(b)).valid(),
            forall|a: Self, b: Self|
                a.valid() && b.valid() ==> (#[trigger] a.times(b)).valid(),
    ;

    /// The sum of no ones is 0, and one more is 1 more.
    proof fn embed_counts(n: nat)
        ensures
            Self::embed(0) == Self::nil(),
            Self::embed(n + 1) == Self::embed(n).plus(Self::unit()),
    ;

    /// 0 and 1 differ.
    proof fn nontrivial()
        ensures
            Self::nil() != Self::unit(),
    ;

    /// 0 is neutral for sums.
    proof fn plus_nil(a: Self)
        requires
            a.valid(),
        ensures
            a.plus(Self::nil()) == a,
    ;

    /// Sums commute.
    proof fn plus_commutes(a: Self, b: Self)
        requires
            a.valid(),
            b.valid(),
        ensures
            a.plus(b) == b.plus(a),
    ;

    /// Sums associate.
    proof fn plus_associates(a: Self, b: Self, c: Self)
        requires
            a.valid(),
            b.valid(),
            c.valid(),
        ensures
            a.plus(b).plus(c) == a.plus(b.plus(c)),
    ;

    /// A difference undoes a sum, and a sum a difference.
    proof fn minus_plus(a: Self, b: Self)
        requires
            a.valid(),
            b.valid(),
        ensures
            a.minus(b).plus(b) == a,
            a.plus(b).minus(b) == a,
    ;

    /// 1 is neutral for products.
    proof fn times_unit(a: Self)
        requires
            a.valid(),
        ensures
            a.times(Self::unit()) == a,
    ;

    /// Products commute.
    proof fn times_commutes(a: Self, b: Self)
        requires
            a.valid(),
            b.valid(),
        ensures
            a.times(b) == b.times(a),
    ;

    /// Products associate.
    proof fn times_associates(a: Self, b: Self, c: Self)
        requires
            a.valid(),
            b.valid(),
            c.valid(),
        ensures
            a.times(b).times(c) == a.times(b.times(c)),
    ;

    /// Products distribute over sums.
    proof fn distributes(a: Self, b: Self, c: Self)
        requires
            a.valid(),
            b.valid(),
            c.valid(),
        ensures
            a.times(b.plus(c)) == a.times(b).plus(a.times(c)),
    ;

    /// The element 0.
    fn zero() -> (r: Self)
        ensures
            r.valid(),
            r == Self::nil(),
    ;

    /// The element 1.
    fn one() -> (r: Self)
        ensures
            r.valid(),
            r == Self::unit(),
    ;

    /// The sum.
    fn field_add(self, other: Self) -> (r: Self)
        requires
            self.valid(),
            other.valid(),
        ensures
            r.valid(),
            r == self.plus(other),
    ;

    /// The difference.
    fn field_sub(self, other: Self) -> (r: Self)
        requires
            self.valid(),
            other.valid(),
        ensures
            r.valid(),
            r == self.minus(other),
    ;

    /// The product.
    fn field_mul(self, other: Self) -> (r: Self)
        requires
            self.valid(),
            other.valid(),
        ensures
            r.valid(),
            r == self.times(other),
    ;

    /// Whether two values stand for the same element.
    fn same(self, other: Self) -> (b: bool)
        requires
            self.valid(),
            other.valid(),
        ensures
            b == (self == other),
    ;

    /// The inverse, which every element but 0 has.
    fn try_inverse(self) -> (r: Option<Self>)
        requires
            self.valid(),
        ensures
            r is None <==> self == Self::nil(),
            r matches Some(c) ==> c.valid() && self.times(c) == Self::unit(),
    ;

    /// The sum of `n` ones.
    fn from_usize(n: usize) -> (r: Self)
        ensures
            r.valid(),
            r == Self::embed(n as nat),
    ;
}

/// A prime field, whose elements are the remainders of an integer division.
pub trait PrimeField: Field {
    /// The remainder that the element is.
    spec fn remainder(self) -> nat;

    /// The remainder that the element is.
    fn to_usize(self) -> (n: usize)
        requires
            self.valid(),
        ensures
            n == self.remainder(),
    ;
}

/// Whether every value of a sequence stands for an element.
pub open spec fn all_valid<F: Field>(s: Seq<F>) -> bool {
    forall|i: int| 0 <= i < s.len() ==> (#[trigger] s[i]).valid()
}

/// Whether `c` is an inverse of `a`.
pub open spec fn is_inverse<F: Field>(a: F, c: F) -> bool {
    c.valid() && a.times(c) == F::unit()
}

/// Whether an element has an inverse.
pub open spec fn invertible<F: Field>(a: F) -> bool {
    a.valid() && exists|c: F| is_inverse(a, c)
}

/// The inverse of an invertible element.
pub open spec fn inverse<F: Field>(a: F) -> F {
    choose|c: F| is_inverse(a, c)
}

/// The fraction of two elements, the second one invertible.
pub open spec fn ratio<F: Field>(n: F, d: F) -> F {
    n.times(inverse(d))
}

/// The sum of a sequence.
pub open spec fn total<F: Field>(s: Seq<F>) -> F
    decreases s.len(),
{
    if s.len() == 0 {
        F::nil()
    } else {
        total(s.drop_last()).plus(s.last())
    }
}

/// The products of two sequences, entry by entry.
pub open spec fn products<F: Field>(a: Seq<F>, b: Seq<F>) -> Seq<F> {
    Seq::new(a.len(), |i: int| a[i].times(b[i]))
}

/// The sum of the products of two sequences.
pub open spec fn dot<F: Field>(a: Seq<F>, b: Seq<F>) -> F {
    total(products(a, b))
}

/// The power of an element.
pub open spec fn power<F: Field>(a: F, k: nat) -> F
    decreases k,
{
    if k == 0 {
        F::unit()
    } else {
        power(a, (k - 1) as nat).times(a)
    }
}

/// The first `n` powers of an element, from its power 0 on.
pub open spec fn powers<F: Field>(a: F, n: nat) -> Seq<F> {
    Seq::new(n, |i: int| power(a, i as nat))
}

/// `a + b == b + a` and `a * b == b * a`, and 0 and 1 are neutral on the left too.
pub proof fn lemma_left_neutral<F: Field>(a: F)
    requires
        a.valid(),
    ensures
        F::nil().plus(a) == a,
        F::unit().times(a) == a,
{
    F::closed();
    F::plus_commutes(F::nil(), a);
    F::plus_nil(a);
    F::times_commutes(F::unit(), a);
    F::times_unit(a);
}

/// A sum has one way to be completed to a given total.
pub proof fn lemma_cancel<F: Field>(a: F, b: F, c: F)
    requires
        a.valid(),
        b.valid(),
        c.valid(),
        a.plus(c) == b.plus(c),
    ensures
        a == b,
{
    F::minus_plus(a, c);
    F::minus_plus(b, c);
}

/// A product with 0 is 0.
pub proof fn lemma_times_nil<F: Field>(a: F)
    requires
        a.valid(),
    ensures
        a.times(F::nil()) == F::nil(),
        F::nil().times(a) == F::nil(),
{
    F::closed();
    let z = a.times(F::nil());
    F::plus_nil(F::nil());
    F::distributes(a, F::nil(), F::nil());
    lemma_left_neutral(z);
    lemma_cancel(z, F::nil(), z);
    F::times_commutes(a, F::nil());
}

/// Products distribute over sums on the right.
pub proof fn lemma_distributes_right<F: Field>(a: F, b: F, c: F)
    requires
        a.valid(),
        b.valid(),
        c.valid(),
    ensures
        a.plus(b).times(c) == a.times(c).plus(b.times(c)),
{
    F::closed();
    F::times_commutes(a.plus(b), c);
    F::distributes(c, a, b);
    F::times_commutes(c, a);
    F::times_commutes(c, b);
}

/// Products distribute over differences.
pub proof fn lemma_distributes_minus<F: Field>(a: F, b: F, c: F)
    requires
        a.valid(),
        b.valid(),
        c.valid(),
    ensures
        a.times(b.minus(c)) == a.times(b).minus(a.times(c)),
        b.minus(c).times(a) == b.times(a).minus(c.times(a)),
{
    F::closed();
    let d = b.minus(c);
    F::minus_plus(b, c);
    F::distributes(a, d, c);
    F::minus_plus(a.times(d), a.times(c));
    F::times_commutes(a, d);
    F::times_commutes(a, b);
    F::times_commutes(a, c);
}

/// The middle terms of a sum of sums can be exchanged.
pub proof fn lemma_exchange<F: Field>(a: F, b: F, c: F, d: F)
    requires
        a.valid(),
        b.valid(),
        c.valid(),
        d.valid(),
    ensures
        a.plus(b).plus(c.plus(d)) == a.plus(c).plus(b.plus(d)),
{
    F::closed();
    F::plus_associates(a, b, c.plus(d));
    F::plus_associates(b, c, d);
    F::plus_commutes(b, c);
    F::plus_associates(c, b, d);
    F::plus_associates(a, c, b.plus(d));
}

/// The middle factors of a product of products can be exchanged.
pub proof fn lemma_exchange_times<F: Field>(a: F, b: F, c: F, d: F)
    requires
        a.valid(),
        b.valid(),
        c.valid(),
        d.valid(),
    ensures
        a.times(b).times(c.times(d)) == a.times(c).times(b.times(d)),
{
    F::closed();
    F::times_associates(a, b, c.times(d));
    F::times_associates(b, c, d);
    F::times_commutes(b, c);
    F::times_associates(c, b, d);
    F::times_associates(a, c, b.times(d));
}

/// Differences of sums are sums of differences.
pub proof fn lemma_minus_of_sums<F: Field>(a: F, b: F, c: F, d: F)
    requires
        a.valid(),
        b.valid(),
        c.valid(),
        d.valid(),
    ensures
        a.plus(b).minus(c.plus(d)) == a.minus(c).plus(b.minus(d)),
{
    F::closed();
    F::minus_plus(a, c);
    F::minus_plus(b, d);
    lemma_exchange(a.minus(c), b.minus(d), c, d);
    F::minus_plus(a.minus(c).plus(b.minus(d)), c.plus(d));
}

/// An element less itself is 0, and an element less 0 is itself.
pub proof fn lemma_minus_self<F: Field>(a: F)
    requires
        a.valid(),
    ensures
        a.minus(a) == F::nil(),
        a.minus(F::nil()) == a,
{
    F::closed();
    lemma_left_neutral(a);
    F::minus_plus(F::nil(), a);
    F::minus_plus(a, F::nil());
    F::plus_nil(a);
}

/// What an inverse is, and that there is only one.
pub proof fn lemma_inverse<F: Field>(a: F, c: F)
    requires
        a.valid(),
        is_inverse(a, c),
    ensures
        invertible(a),
        inverse(a) == c,
{
    F::closed();
    let d = inverse(a);
    assert(is_inverse(a, d));
    F::times_commutes(d, a);
    F::times_associates(d, a, c);
    lemma_left_neutral(c);
    F::times_unit(d);
}

/// Invertible elements are elements, and their inverses too.
pub proof fn lemma_invertible<F: Field>(a: F)
    requires
        invertible(a),
    ensures
        a.valid(),
        is_inverse(a, inverse(a)),
{
}

/// 0 has no inverse.
pub proof fn lemma_invertible_nonzero<F: Field>(a: F)
    requires
        invertible(a),
    ensures
        a != F::nil(),
{
    lemma_invertible(a);
    if a == F::nil() {
        lemma_times_nil(inverse(a));
        F::nontrivial();
    }
}

/// A product of invertible elements is invertible, by the product of the inverses.
pub proof fn lemma_invertible_product<F: Field>(a: F, b: F)
    requires
        invertible(a),
        invertible(b),
    ensures
        invertible(a.times(b)),
        inverse(a.times(b)) == inverse(a).times(inverse(b)),
{
    F::closed();
    lemma_invertible(a);
    lemma_invertible(b);
    lemma_exchange_times(a, b, inverse(a), inverse(b));
    F::times_unit(F::unit());
    lemma_inverse(a.times(b), inverse(a).times(inverse(b)));
}

/// The sum of two fractions over the product of their denominators:
/// `n0/d0 + n1/d1 == (n0 d1 + n1 d0) / (d0 d1)`.
pub proof fn lemma_sum_of_fractions<F: Field>(n0: F, d0: F, n1: F, d1: F)
    requires
        n0.valid(),
        n1.valid(),
        invertible(d0),
        invertible(d1),
    ensures
        invertible(d0.times(d1)),
        ratio(n0.times(d1).plus(n1.times(d0)), d0.times(d1)) == ratio(n0, d0).plus(ratio(n1, d1)),
{
    F::closed();
    lemma_invertible(d0);
    lemma_invertible(d1);
    lemma_invertible_product(d0, d1);
    let (i0, i1) = (inverse(d0), inverse(d1));
    let i = i0.times(i1);
    lemma_distributes_right(n0.times(d1), n1.times(d0), i);
    lemma_exchange_times(n0, d1, i0, i1);
    F::times_unit(n0.times(i0));
    F::times_commutes(i0, i1);
    lemma_exchange_times(n1, d0, i1, i0);
    F::times_unit(n1.times(i1));
}

/// The sum of elements is an element.
pub proof fn lemma_total_valid<F: Field>(s: Seq<F>)
    requires
        all_valid(s),
    ensures
        total(s).valid(),
    decreases s.len(),
{
    F::closed();
    if s.len() > 0 {
        lemma_total_valid(s.drop_last());
    }
}

/// The sum of a sequence made of two is the sum of both sums.
pub proof fn lemma_total_concat<F: Field>(s: Seq<F>, t: Seq<F>)
    requires
        all_valid(s),
        all_valid(t),
    ensures
        total(s + t) == total(s).plus(total(t)),
    decreases t.len(),
{
    F::closed();
    lemma_total_valid(s);
    if t.len() == 0 {
        assert(s + t =~= s);
        F::plus_nil(total(s));
    } else {
        assert((s + t).drop_last() =~= s + t.drop_last());
        lemma_total_concat(s, t.drop_last());
        lemma_total_valid(t.drop_last());
        F::plus_associates(total(s), total(t.drop_last()), t.last());
    }
}

/// Sums add up entry by entry.
pub proof fn lemma_total_plus<F: Field>(s: Seq<F>, t: Seq<F>, u: Seq<F>)
    requires
        all_valid(s),
        all_valid(t),
        s.len() == t.len() == u.len(),
        forall|i: int| 0 <= i < s.len() ==> #[trigger] u[i] == s[i].plus(t[i]),
    ensures
        total(u) == total(s).plus(total(t)),
    decreases s.len(),
{
    F::closed();
    if s.len() == 0 {
        F::plus_nil(F::nil());
    } else {
        lemma_total_plus(s.drop_last(), t.drop_last(), u.drop_last());
        lemma_total_valid(s.drop_last());
        lemma_total_valid(t.drop_last());
        lemma_exchange(total(s.drop_last()), total(t.drop_last()), s.last(), t.last());
    }
}

/// A common factor comes out of a sum.
pub proof fn lemma_total_scale<F: Field>(s: Seq<F>, c: F, u: Seq<F>)
    requires
        all_valid(s),
        c.valid(),
        s.len() == u.len(),
        forall|i: int| 0 <= i < s.len() ==> #[trigger] u[i] == s[i].times(c),
    ensures
        total(u) == total(s).times(c),
    decreases s.len(),
{
    F::closed();
    if s.len() == 0 {
        lemma_times_nil(c);
    } else {
        lemma_total_scale(s.drop_last(), c, u.drop_last());
        lemma_total_valid(s.drop_last());
        lemma_distributes_right(total(s.drop_last()), s.last(), c);
    }
}

/// The row sums of a table.
pub open spec fn row_sums<F: Field>(f: spec_fn(int, int) -> F, rows: nat, cols: nat) -> Seq<F> {
    Seq::new(rows, |i: int| total(Seq::new(cols, |j: int| f(i, j))))
}

/// The column sums of a table.
pub open spec fn column_sums<F: Field>(f: spec_fn(int, int) -> F, rows: nat, cols: nat) -> Seq<F> {
    Seq::new(cols, |j: int| total(Seq::new(rows, |i: int| f(i, j))))
}

/// A table has one sum, by rows or by columns.
pub proof fn lemma_total_exchange<F: Field>(f: spec_fn(int, int) -> F, rows: nat, cols: nat)
    requires
        forall|i: int, j: int| 0 <= i < rows && 0 <= j < cols ==> (#[trigger] f(i, j)).valid(),
    ensures
        total(row_sums(f, rows, cols)) == total(column_sums(f, rows, cols)),
    decreases rows,
{
    F::closed();
    let by_rows = row_sums(f, rows, cols);
    let by_cols = column_sums(f, rows, cols);
    if rows == 0 {
        assert forall|j: int| 0 <= j < cols implies #[trigger] by_cols[j] == F::nil() by {
            assert(Seq::new(0, |i: int| f(i, j)) =~= Seq::<F>::empty());
        }
        lemma_total_nil(by_cols);
    } else {
        let last = rows - 1;
        let fewer = column_sums(f, last as nat, cols);
        let row = Seq::new(cols, |j: int| f(last, j));
        lemma_total_exchange(f, last as nat, cols);
        assert(by_rows.drop_last() =~= row_sums(f, last as nat, cols));
        assert forall|j: int| 0 <= j < cols implies #[trigger] by_cols[j] == fewer[j].plus(row[j])
            && fewer[j].valid() by {
            let column = Seq::new(rows, |i: int| f(i, j));
            let above = Seq::new(last as nat, |i: int| f(i, j));
            assert(column.drop_last() =~= above);
            lemma_total_valid(above);
        }
        assert(all_valid(fewer)) by {
            assert forall|j: int| 0 <= j < cols implies (#[trigger] fewer[j]).valid() by {
                assert(by_cols[j] == fewer[j].plus(row[j]));
            }
        }
        lemma_total_plus(fewer, row, by_cols);
    }
}

/// A sum of zeros is 0.
pub proof fn lemma_total_nil<F: Field>(s: Seq<F>)
    requires
        forall|i: int| 0 <= i < s.len() ==> #[trigger] s[i] == F::nil(),
    ensures
        total(s) == F::nil(),
    decreases s.len(),
{
    F::closed();
    if s.len() > 0 {
        lemma_total_nil(s.drop_last());
        F::plus_nil(F::nil());
    }
}

/// The products of elements are elements.
pub proof fn lemma_products_valid<F: Field>(a: Seq<F>, b: Seq<F>)
    requires
        all_valid(a),
        all_valid(b),
        a.len() <= b.len(),
    ensures
        all_valid(products(a, b)),
{
    F::closed();
}

/// The powers of an element are elements.
pub proof fn lemma_power_valid<F: Field>(a: F, k: nat)
    requires
        a.valid(),
    ensures
        power(a, k).valid(),
    decreases k,
{
    F::closed();
    if k > 0 {
        lemma_power_valid(a, (k - 1) as nat);
    }
}

/// The sum of ones is an element.
pub proof fn lemma_embed_valid<F: Field>(n: nat)
    ensures
        F::embed(n).valid(),
    decreases n,
{
    F::closed();
    F::embed_counts(0);
    if n > 0 {
        F::embed_counts((n - 1) as nat);
        lemma_embed_valid::<F>((n - 1) as nat);
    }
}

/// The first `n` powers of `a`.
pub fn first_powers<F: Field>(a: F, n: usize) -> (v: Vec<F>)
    requires
        a.valid(),
    ensures
        v@ == powers(a, n as nat),
        all_valid(v@),
{
    let mut v: Vec<F> = Vec::new();
    let mut next = F::one();
    while v.len() < n
        invariant
            a.valid(),
            next.valid(),
            next == power(a, v.len() as nat),
            v.len() <= n,
            all_valid(v@),
            forall|i: int| 0 <= i < v.len() ==> #[trigger] v[i] == power(a, i as nat),
        decreases n - v.len(),
    {
        let ghost k = v.len() as nat;
        v.push(next);
        next = next.field_mul(a);
        assert(power(a, k + 1) == power(a, k).times(a));
    }
    assert(v@ =~= powers(a, n as nat));
    v
}

/// The sum of the products of two sequences, up to the shorter one's end.
pub fn dot_product<F: Field>(a: &[F], b: &[F]) -> (r: F)
    requires
        a.len() <= b.len(),
        all_valid(a@),
        all_valid(b@),
    ensures
        r.valid(),
        r == dot(a@, b@),
{
    let mut sum = F::zero();
    let mut i: usize = 0;
    while i < a.len()
        invariant
            i <= a.len() <= b.len(),
            all_valid(a@),
            all_valid(b@),
            sum.valid(),
            sum == total(products(a@, b@).take(i as int)),
        decreases a.len() - i,
    {
        assert(products(a@, b@).take(i + 1).drop_last() =~= products(a@, b@).take(i as int));
        sum = sum.field_add(a[i].field_mul(b[i]));
        i = i + 1;
    }
    assert(products(a@, b@).take(i as int) =~= products(a@, b@));
    sum
}

} // verus!
