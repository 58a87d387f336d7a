//! That sums count every term, and that multilinear polynomials take their values at the corners
//! of the cube.

use vstd::prelude::*;
use vstd::arithmetic::div_mod::*;
use vstd::arithmetic::power2::*;
use crate::field::Field;

verus! {

/// Every term counts in a sum, and once: another term in its place changes the sum by the
/// difference.
pub proof fn law_total_counts<F: Field>(s: Seq<F>, i: int, x: F)
    requires
        crate::field::all_valid(s),
        x.valid(),
        0 <= i < s.len(),
    ensures
        crate::field::total(s.update(i, x)).plus(s[i]) == crate::field::total(s).plus(x),
    decreases s.len(),
{
    F::closed();
    let t = s.update(i, x);
    let front = crate::field::total(s.drop_last());
    crate::field::lemma_total_valid(s.drop_last());
    if i == s.len() - 1 {
        assert(t.drop_last() =~= s.drop_last());
        F::plus_associates(front, x, s[i]);
        F::plus_commutes(x, s[i]);
        F::plus_associates(front, s[i], x);
    } else {
        law_total_counts(s.drop_last(), i, x);
        assert(t.drop_last() =~= s.drop_last().update(i, x));
        let changed = crate::field::total(t.drop_last());
        crate::field::lemma_total_valid(t.drop_last());
        let last = s.last();
        F::plus_associates(changed, last, s[i]);
        F::plus_commutes(last, s[i]);
        F::plus_associates(changed, s[i], last);
        F::plus_associates(front, last, x);
        F::plus_commutes(last, x);
        F::plus_associates(front, x, last);
    }
}

/// Every pair counts in a sum of products.
pub proof fn law_dot_counts<F: Field>(a: Seq<F>, b: Seq<F>, i: int, x: F)
    requires
        crate::field::all_valid(a),
        crate::field::all_valid(b),
        a.len() <= b.len(),
        x.valid(),
        0 <= i < a.len(),
    ensures
        crate::field::dot(a.update(i, x), b).plus(a[i].times(b[i])) == crate::field::dot(a, b).plus(
            x.times(b[i]),
        ),
{
    F::closed();
    let terms = crate::field::products(a, b);
    crate::field::lemma_products_valid(a, b);
    assert(crate::field::products(a.update(i, x), b) =~= terms.update(i, x.times(b[i])));
    law_total_counts(terms, i, x.times(b[i]));
}

/// Powers multiply by adding their exponents.
pub proof fn law_power<F: Field>(a: F, j: nat, k: nat)
    requires
        a.valid(),
    ensures
        crate::field::power(a, 0) == F::unit(),
        crate::field::power(a, 1) == a,
        crate::field::power(a, j + k) == crate::field::power(a, j).times(
            crate::field::power(a, k),
        ),
    decreases k,
{
    F::closed();
    crate::field::lemma_left_neutral(a);
    crate::field::lemma_power_valid(a, j);
    assert(crate::field::power(a, 1) == crate::field::power(a, 0).times(a));
    if k == 0 {
        F::times_unit(crate::field::power(a, j));
    } else {
        let l = (k - 1) as nat;
        law_power(a, j, l);
        crate::field::lemma_power_valid(a, l);
        assert((j + k - 1) as nat == j + l);
        F::times_associates(crate::field::power(a, j), crate::field::power(a, l), a);
    }
}

/// The corner of the cube of `n` variables that stands for the number `x`, the first variable the
/// most significant bit.
pub open spec fn corner_point<F: Field>(x: nat, n: nat) -> Seq<F> {
    Seq::new(
        n,
        |i: int|
            if x / pow2((n - 1 - i) as nat) % 2 == 1 {
                F::unit()
            } else {
                F::nil()
            },
    )
}

proof fn lemma_corner_step<F: Field>(x: nat, n: nat)
    requires
        n > 0,
        x < pow2(n),
    ensures
        corner_point::<F>(x, n)[0] == if x < pow2((n - 1) as nat) {
            F::nil()
        } else {
            F::unit()
        },
        corner_point::<F>(x, n).drop_first() == corner_point::<F>(
            if x < pow2((n - 1) as nat) {
                x
            } else {
                (x - pow2((n - 1) as nat)) as nat
            },
            (n - 1) as nat,
        ),
{
    let half = pow2((n - 1) as nat);
    lemma_pow2_unfold(n);
    lemma_pow2_pos((n - 1) as nat);
    if x < half {
        lemma_basic_div(x as int, half as int);
    } else {
        lemma_fundamental_div_mod_converse(x as int, half as int, 1, x - half);
    }
    let y = if x < half {
        x
    } else {
        (x - half) as nat
    };
    assert forall|i: int| 0 <= i < n - 1 implies x / pow2((n - 2 - i) as nat) % 2 == #[trigger] (y
        / pow2((n - 2 - i) as nat)) % 2 by {
        let d = pow2((n - 2 - i) as nat);
        lemma_pow2_pos((n - 2 - i) as nat);
        if x >= half {
            lemma_pow2_adds((n - 2 - i) as nat, (i + 1) as nat);
            lemma_pow2_unfold((i + 1) as nat);
            let p = pow2(i as nat) as int;
            assert(x == d * (2 * p) + y);
            lemma_hoist_over_denominator(y as int, 2 * p, d);
            assert(d * (2 * p) == 2 * p * d) by (nonlinear_arith);
            lemma_mod_multiples_vanish(p, y as int / d as int, 2);
        }
    }
    assert(corner_point::<F>(x, n).drop_first() =~= corner_point::<F>(y, (n - 1) as nat)) by {
        assert forall|i: int| 0 <= i < n - 1 implies corner_point::<F>(x, n).drop_first()[i]
            == corner_point::<F>(y, (n - 1) as nat)[i] by {
            assert(corner_point::<F>(x, n).drop_first()[i] == corner_point::<F>(x, n)[i + 1]);
            assert((n - 1 - (i + 1)) as nat == (n - 2 - i) as nat);
            assert(((n - 1) as nat - 1 - i) as nat == (n - 2 - i) as nat);
            assert((y / pow2((n - 2 - i) as nat)) % 2 == x / pow2((n - 2 - i) as nat) % 2);
        }
    }
}

/// A line goes through its ends.
pub proof fn law_line_ends<F: Field>(a: F, b: F)
    requires
        a.valid(),
        b.valid(),
    ensures
        crate::multilinear::line(a, b, F::nil()) == a,
        crate::multilinear::line(a, b, F::unit()) == b,
{
    F::closed();
    let d = b.minus(a);
    crate::field::lemma_times_nil(d);
    F::times_commutes(F::nil(), d);
    F::plus_nil(a);
    crate::field::lemma_left_neutral(d);
    F::plus_commutes(a, d);
    F::minus_plus(b, a);
}

/// A corner of the cube is a point.
proof fn lemma_corner_valid<F: Field>(x: nat, n: nat)
    ensures
        crate::field::all_valid(corner_point::<F>(x, n)),
{
    F::closed();
}

/// The multilinear polynomial of values on the cube takes them there: at the corner that stands for
/// `x`, the first variable the most significant, it is the entry at position `x`.
pub proof fn law_mle_at_corner<F: Field>(values: Seq<F>, x: nat, n: nat)
    requires
        values.len() == pow2(n),
        crate::field::all_valid(values),
        x < pow2(n),
    ensures
        crate::multilinear::mle(values, corner_point(x, n)) == values[x as int],
    decreases n,
{
    lemma2_to64();
    let point = corner_point::<F>(x, n);
    if n > 0 {
        let half = pow2((n - 1) as nat);
        lemma_pow2_unfold(n);
        lemma_corner_step::<F>(x, n);
        lemma_corner_valid::<F>(x, n);
        let (low, high) = (values.take(half as int), values.skip(half as int));
        let rest = point.drop_first();
        lemma_corner_valid::<F>(
            if x < half {
                x
            } else {
                (x - half) as nat
            },
            (n - 1) as nat,
        );
        crate::multilinear::lemma_mle_valid(low, rest);
        crate::multilinear::lemma_mle_valid(high, rest);
        law_line_ends(
            crate::multilinear::mle(low, rest),
            crate::multilinear::mle(high, rest),
        );
        if x < half {
            law_mle_at_corner(low, x, (n - 1) as nat);
        } else {
            law_mle_at_corner(high, (x - half) as nat, (n - 1) as nat);
        }
    }
}

/// The weights of the corners at a point are `eq` of the point and the corner.
pub proof fn law_weight_at_corner<F: Field>(point: Seq<F>, x: nat)
    requires
        crate::field::all_valid(point),
        x < pow2(point.len()),
    ensures
        crate::multilinear::eq_table(point)[x as int] == crate::multilinear::eq_poly(
            point,
            corner_point(x, point.len()),
        ),
{
    let n = point.len();
    crate::multilinear::lemma_eq_table(point);
    lemma_corner_valid::<F>(x, n);
    crate::multilinear::law_eq_table_evaluates_to_eq(point, corner_point(x, n));
    law_mle_at_corner(crate::multilinear::eq_table(point), x, n);
}

/// `eq` is a product over all coordinates: one more coordinate of each point is one more factor
/// `(1 - a)(1 - b) + a b`.
pub proof fn law_eq_product<F: Field>(p: Seq<F>, q: Seq<F>, a: F, b: F)
    requires
        p.len() == q.len(),
        crate::field::all_valid(p),
        crate::field::all_valid(q),
        a.valid(),
        b.valid(),
    ensures
        crate::multilinear::eq_poly(Seq::<F>::empty(), Seq::<F>::empty()) == F::unit(),
        crate::multilinear::eq_poly(p.push(a), q.push(b)) == crate::multilinear::eq_poly(
            p,
            q,
        ).times(F::unit().minus(a).times(F::unit().minus(b)).plus(a.times(b))),
    decreases p.len(),
{
    F::closed();
    let factor = F::unit().minus(a).times(F::unit().minus(b)).plus(a.times(b));
    let (pa, qb) = (p.push(a), q.push(b));
    if p.len() == 0 {
        assert(pa.drop_first() =~= Seq::<F>::empty());
        assert(qb.drop_first() =~= Seq::<F>::empty());
        crate::multilinear::law_eq_factor(a, b);
    } else {
        let (pr, qr) = (p.drop_first(), q.drop_first());
        law_eq_product(pr, qr, a, b);
        assert(pa.drop_first() =~= pr.push(a));
        assert(qb.drop_first() =~= qr.push(b));
        let first = crate::multilinear::line(F::unit().minus(p[0]), p[0], q[0]);
        let rest = crate::multilinear::eq_poly(pr, qr);
        crate::multilinear::lemma_eq_valid(pr, qr);
        F::times_associates(rest, factor, first);
        F::times_commutes(factor, first);
        F::times_associates(rest, first, factor);
    }
}

/// At two corners `eq` is 1 where they are the same and 0 where they differ.
pub proof fn law_eq_of_corners<F: Field>(x: nat, y: nat, n: nat)
    requires
        x < pow2(n),
        y < pow2(n),
    ensures
        crate::multilinear::eq_poly(corner_point::<F>(x, n), corner_point::<F>(y, n)) == if x == y {
            F::unit()
        } else {
            F::nil()
        },
    decreases n,
{
    F::closed();
    lemma2_to64();
    if n > 0 {
        let half = pow2((n - 1) as nat);
        lemma_pow2_unfold(n);
        lemma_corner_step::<F>(x, n);
        lemma_corner_step::<F>(y, n);
        let (p, q) = (corner_point::<F>(x, n), corner_point::<F>(y, n));
        let (xr, yr) = (
            if x < half {
                x
            } else {
                (x - half) as nat
            },
            if y < half {
                y
            } else {
                (y - half) as nat
            },
        );
        law_eq_of_corners::<F>(xr, yr, (n - 1) as nat);
        let rest = crate::multilinear::eq_poly(p.drop_first(), q.drop_first());
        law_line_ends(F::unit().minus(p[0]), p[0]);
        crate::field::lemma_minus_self(F::unit());
        F::minus_plus(F::unit(), F::nil());
        F::plus_nil(F::unit().minus(F::nil()));
        crate::field::lemma_times_nil(rest);
        F::times_unit(rest);
        crate::field::lemma_left_neutral(F::nil());
    }
}

} // verus!
