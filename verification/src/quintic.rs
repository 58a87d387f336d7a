//! The extension of degree 5 of the prime field, by the polynomial `X^5 + X^2 - 1`.

use vstd::prelude::*;
use vstd::arithmetic::div_mod::*;
use vstd::arithmetic::mul::*;
use crate::field::{Field, PrimeField};
use crate::koala_bear::{KoalaBear, ORDER};

verus! {

/// A polynomial of degree at most 4 with integer coefficients.
pub struct Poly {
    pub a: int,
    pub b: int,
    pub c: int,
    pub d: int,
    pub e: int,
}

/// The sum of two polynomials.
pub open spec fn poly_plus(p: Poly, q: Poly) -> Poly {
    Poly { a: p.a + q.a, b: p.b + q.b, c: p.c + q.c, d: p.d + q.d, e: p.e + q.e }
}

/// A multiple of a polynomial.
pub open spec fn poly_scale(s: int, p: Poly) -> Poly {
    Poly { a: s * p.a, b: s * p.b, c: s * p.c, d: s * p.d, e: s * p.e }
}

/// A polynomial times `X`.
pub open spec fn poly_shift(p: Poly) -> Poly {
    Poly { a: p.e, b: p.a, c: p.b - p.e, d: p.c, e: p.d }
}

/// The product of two polynomials, reduced by `X^5 = 1 - X^2`.
pub open spec fn poly_times(p: Poly, q: Poly) -> Poly {
    let d5 = p.b * q.e + p.c * q.d + p.d * q.c + p.e * q.b;
    let d6 = p.c * q.e + p.d * q.d + p.e * q.c;
    let d7 = p.d * q.e + p.e * q.d;
    let d8 = p.e * q.e;
    Poly {
        a: p.a * q.a + d5 - d8,
        b: p.a * q.b + p.b * q.a + d6,
        c: p.a * q.c + p.b * q.b + p.c * q.a - d5 + d7 + d8,
        d: p.a * q.d + p.b * q.c + p.c * q.b + p.d * q.a - d6 + d8,
        e: p.a * q.e + p.b * q.d + p.c * q.c + p.d * q.b + p.e * q.a - d7,
    }
}

proof fn lemma_poly_commutes(p: Poly, q: Poly)
    ensures
        poly_times(p, q) == poly_times(q, p),
{
    lemma_mul_is_commutative(p.a, q.a);
    lemma_mul_is_commutative(p.a, q.b);
    lemma_mul_is_commutative(p.a, q.c);
    lemma_mul_is_commutative(p.a, q.d);
    lemma_mul_is_commutative(p.a, q.e);
    lemma_mul_is_commutative(p.b, q.a);
    lemma_mul_is_commutative(p.b, q.b);
    lemma_mul_is_commutative(p.b, q.c);
    lemma_mul_is_commutative(p.b, q.d);
    lemma_mul_is_commutative(p.b, q.e);
    lemma_mul_is_commutative(p.c, q.a);
    lemma_mul_is_commutative(p.c, q.b);
    lemma_mul_is_commutative(p.c, q.c);
    lemma_mul_is_commutative(p.c, q.d);
    lemma_mul_is_commutative(p.c, q.e);
    lemma_mul_is_commutative(p.d, q.a);
    lemma_mul_is_commutative(p.d, q.b);
    lemma_mul_is_commutative(p.d, q.c);
    lemma_mul_is_commutative(p.d, q.d);
    lemma_mul_is_commutative(p.d, q.e);
    lemma_mul_is_commutative(p.e, q.a);
    lemma_mul_is_commutative(p.e, q.b);
    lemma_mul_is_commutative(p.e, q.c);
    lemma_mul_is_commutative(p.e, q.d);
    lemma_mul_is_commutative(p.e, q.e);
}

proof fn lemma_poly_plus_left(p: Poly, q: Poly, r: Poly)
    ensures
        poly_times(poly_plus(p, q), r) == poly_plus(poly_times(p, r), poly_times(q, r)),
{
    lemma_mul_is_distributive_add_other_way(r.a, p.a, q.a);
    lemma_mul_is_distributive_add_other_way(r.b, p.a, q.a);
    lemma_mul_is_distributive_add_other_way(r.c, p.a, q.a);
    lemma_mul_is_distributive_add_other_way(r.d, p.a, q.a);
    lemma_mul_is_distributive_add_other_way(r.e, p.a, q.a);
    lemma_mul_is_distributive_add_other_way(r.a, p.b, q.b);
    lemma_mul_is_distributive_add_other_way(r.b, p.b, q.b);
    lemma_mul_is_distributive_add_other_way(r.c, p.b, q.b);
    lemma_mul_is_distributive_add_other_way(r.d, p.b, q.b);
    lemma_mul_is_distributive_add_other_way(r.e, p.b, q.b);
    lemma_mul_is_distributive_add_other_way(r.a, p.c, q.c);
    lemma_mul_is_distributive_add_other_way(r.b, p.c, q.c);
    lemma_mul_is_distributive_add_other_way(r.c, p.c, q.c);
    lemma_mul_is_distributive_add_other_way(r.d, p.c, q.c);
    lemma_mul_is_distributive_add_other_way(r.e, p.c, q.c);
    lemma_mul_is_distributive_add_other_way(r.a, p.d, q.d);
    lemma_mul_is_distributive_add_other_way(r.b, p.d, q.d);
    lemma_mul_is_distributive_add_other_way(r.c, p.d, q.d);
    lemma_mul_is_distributive_add_other_way(r.d, p.d, q.d);
    lemma_mul_is_distributive_add_other_way(r.e, p.d, q.d);
    lemma_mul_is_distributive_add_other_way(r.a, p.e, q.e);
    lemma_mul_is_distributive_add_other_way(r.b, p.e, q.e);
    lemma_mul_is_distributive_add_other_way(r.c, p.e, q.e);
    lemma_mul_is_distributive_add_other_way(r.d, p.e, q.e);
    lemma_mul_is_distributive_add_other_way(r.e, p.e, q.e);
}

proof fn lemma_poly_scale_left(s: int, p: Poly, r: Poly)
    ensures
        poly_times(poly_scale(s, p), r) == poly_scale(s, poly_times(p, r)),
{
    lemma_mul_is_associative(s, p.a, r.a);
    lemma_mul_is_associative(s, p.a, r.b);
    lemma_mul_is_associative(s, p.a, r.c);
    lemma_mul_is_associative(s, p.a, r.d);
    lemma_mul_is_associative(s, p.a, r.e);
    lemma_mul_is_associative(s, p.b, r.a);
    lemma_mul_is_associative(s, p.b, r.b);
    lemma_mul_is_associative(s, p.b, r.c);
    lemma_mul_is_associative(s, p.b, r.d);
    lemma_mul_is_associative(s, p.b, r.e);
    lemma_mul_is_associative(s, p.c, r.a);
    lemma_mul_is_associative(s, p.c, r.b);
    lemma_mul_is_associative(s, p.c, r.c);
    lemma_mul_is_associative(s, p.c, r.d);
    lemma_mul_is_associative(s, p.c, r.e);
    lemma_mul_is_associative(s, p.d, r.a);
    lemma_mul_is_associative(s, p.d, r.b);
    lemma_mul_is_associative(s, p.d, r.c);
    lemma_mul_is_associative(s, p.d, r.d);
    lemma_mul_is_associative(s, p.d, r.e);
    lemma_mul_is_associative(s, p.e, r.a);
    lemma_mul_is_associative(s, p.e, r.b);
    lemma_mul_is_associative(s, p.e, r.c);
    lemma_mul_is_associative(s, p.e, r.d);
    lemma_mul_is_associative(s, p.e, r.e);
    let d5 = (p.b * r.e, p.c * r.d, p.d * r.c, p.e * r.b);
    let d6 = (p.c * r.e, p.d * r.d, p.e * r.c);
    let d7 = (p.d * r.e, p.e * r.d);
    let d8 = p.e * r.e;
    lemma_scale_sum(s, p.a * r.a, d5.0, d5.1, d5.2, d5.3, -d8, 0, 0, 0);
    lemma_scale_sum(s, p.a * r.b, p.b * r.a, d6.0, d6.1, d6.2, 0, 0, 0, 0);
    lemma_scale_sum(
        s,
        p.a * r.c + p.b * r.b,
        p.c * r.a,
        -d5.0,
        -d5.1,
        -d5.2,
        -d5.3,
        d7.0,
        d7.1,
        d8,
    );
    lemma_mul_is_distributive_add(s, p.a * r.c, p.b * r.b);
    lemma_scale_sum(s, p.a * r.d, p.b * r.c, p.c * r.b, p.d * r.a, -d6.0, -d6.1, -d6.2, d8, 0);
    lemma_scale_sum(
        s,
        p.a * r.e,
        p.b * r.d,
        p.c * r.c,
        p.d * r.b,
        p.e * r.a,
        -d7.0,
        -d7.1,
        0,
        0,
    );
    lemma_scale_negative(s, d5.0);
    lemma_scale_negative(s, d5.1);
    lemma_scale_negative(s, d5.2);
    lemma_scale_negative(s, d5.3);
    lemma_scale_negative(s, d6.0);
    lemma_scale_negative(s, d6.1);
    lemma_scale_negative(s, d6.2);
    lemma_scale_negative(s, d7.0);
    lemma_scale_negative(s, d7.1);
    lemma_scale_negative(s, d8);
}

proof fn lemma_scale_negative(s: int, x: int)
    ensures
        s * (-x) == -(s * x),
{
    assert(s * (-x) == -(s * x)) by (nonlinear_arith);
}

proof fn lemma_scale_sum(
    s: int,
    x0: int,
    x1: int,
    x2: int,
    x3: int,
    x4: int,
    x5: int,
    x6: int,
    x7: int,
    x8: int,
)
    ensures
        s * (x0 + x1 + x2 + x3 + x4 + x5 + x6 + x7 + x8) == s * x0 + s * x1 + s * x2 + s * x3 + s
            * x4 + s * x5 + s * x6 + s * x7 + s * x8,
{
    lemma_mul_is_distributive_add(s, x0 + x1 + x2 + x3 + x4 + x5 + x6 + x7, x8);
    lemma_mul_is_distributive_add(s, x0 + x1 + x2 + x3 + x4 + x5 + x6, x7);
    lemma_mul_is_distributive_add(s, x0 + x1 + x2 + x3 + x4 + x5, x6);
    lemma_mul_is_distributive_add(s, x0 + x1 + x2 + x3 + x4, x5);
    lemma_mul_is_distributive_add(s, x0 + x1 + x2 + x3, x4);
    lemma_mul_is_distributive_add(s, x0 + x1 + x2, x3);
    lemma_mul_is_distributive_add(s, x0 + x1, x2);
    lemma_mul_is_distributive_add(s, x0, x1);
}

proof fn lemma_poly_shift_left(q: Poly, r: Poly)
    ensures
        poly_times(poly_shift(q), r) == poly_shift(poly_times(q, r)),
{
    lemma_mul_is_distributive_sub_other_way(r.a, q.b, q.e);
    lemma_mul_is_distributive_sub_other_way(r.b, q.b, q.e);
    lemma_mul_is_distributive_sub_other_way(r.c, q.b, q.e);
    lemma_mul_is_distributive_sub_other_way(r.d, q.b, q.e);
    lemma_mul_is_distributive_sub_other_way(r.e, q.b, q.e);
}

/// A product by the coefficients of its first factor.
pub open spec fn poly_horner(p: Poly, q: Poly) -> Poly {
    let x1 = poly_shift(q);
    let x2 = poly_shift(x1);
    let x3 = poly_shift(x2);
    let x4 = poly_shift(x3);
    poly_plus(
        poly_scale(p.a, q),
        poly_plus(
            poly_scale(p.b, x1),
            poly_plus(
                poly_scale(p.c, x2),
                poly_plus(poly_scale(p.d, x3), poly_scale(p.e, x4)),
            ),
        ),
    )
}

proof fn lemma_poly_horner(p: Poly, q: Poly)
    ensures
        poly_times(p, q) == poly_horner(p, q),
{
    lemma_mul_is_distributive_sub(p.b, q.b, q.e);
    lemma_mul_is_distributive_sub(p.b, q.a, q.d);
    lemma_mul_is_distributive_sub(p.c, q.a, q.d);
    lemma_mul_is_distributive_sub(p.c, q.b, q.e);
    lemma_mul_is_distributive_sub(p.d, q.b, q.e);
    lemma_mul_is_distributive_sub(p.d, q.a, q.d);
    lemma_mul_is_distributive_sub(p.d, q.e, q.c);
    lemma_mul_is_distributive_sub(p.e, q.b, q.e);
    lemma_mul_is_distributive_sub(p.e, q.a, q.d);
    lemma_mul_is_distributive_sub(p.e, q.e, q.c);
    lemma_mul_is_distributive_sub(p.e, q.d, q.b - q.e);
}

/// Products of polynomials associate.
proof fn lemma_poly_associates(p: Poly, q: Poly, r: Poly)
    ensures
        poly_times(poly_times(p, q), r) == poly_times(p, poly_times(q, r)),
{
    let x1 = poly_shift(q);
    let x2 = poly_shift(x1);
    let x3 = poly_shift(x2);
    let x4 = poly_shift(x3);
    lemma_poly_horner(p, q);
    lemma_poly_horner(p, poly_times(q, r));
    lemma_poly_shift_left(q, r);
    lemma_poly_shift_left(x1, r);
    lemma_poly_shift_left(x2, r);
    lemma_poly_shift_left(x3, r);
    let s4 = poly_scale(p.e, x4);
    let s3 = poly_plus(poly_scale(p.d, x3), s4);
    let s2 = poly_plus(poly_scale(p.c, x2), s3);
    let s1 = poly_plus(poly_scale(p.b, x1), s2);
    lemma_poly_plus_left(poly_scale(p.a, q), s1, r);
    lemma_poly_plus_left(poly_scale(p.b, x1), s2, r);
    lemma_poly_plus_left(poly_scale(p.c, x2), s3, r);
    lemma_poly_plus_left(poly_scale(p.d, x3), s4, r);
    lemma_poly_scale_left(p.a, q, r);
    lemma_poly_scale_left(p.b, x1, r);
    lemma_poly_scale_left(p.c, x2, r);
    lemma_poly_scale_left(p.d, x3, r);
    lemma_poly_scale_left(p.e, x4, r);
}

/// An element, by its coefficients: `c0 + c1 X + c2 X^2 + c3 X^3 + c4 X^4`.
#[derive(Clone, Copy, Debug, Eq, PartialEq, Structural)]
pub struct Quintic {
    pub c0: KoalaBear,
    pub c1: KoalaBear,
    pub c2: KoalaBear,
    pub c3: KoalaBear,
    pub c4: KoalaBear,
}

impl Quintic {
    /// The polynomial of the coefficients' representatives.
    pub open spec fn poly(self) -> Poly {
        Poly {
            a: self.c0.canonical() as int,
            b: self.c1.canonical() as int,
            c: self.c2.canonical() as int,
            d: self.c3.canonical() as int,
            e: self.c4.canonical() as int,
        }
    }

    /// The element that a polynomial stands for.
    pub open spec fn of(p: Poly) -> Quintic {
        Quintic {
            c0: KoalaBear::of(p.a),
            c1: KoalaBear::of(p.b),
            c2: KoalaBear::of(p.c),
            c3: KoalaBear::of(p.d),
            c4: KoalaBear::of(p.e),
        }
    }

    proof fn lemma_of_poly(self)
        requires
            self.valid(),
        ensures
            Quintic::of(self.poly()) == self,
    {
        self.c0.lemma_canonical();
        self.c1.lemma_canonical();
        self.c2.lemma_canonical();
        self.c3.lemma_canonical();
        self.c4.lemma_canonical();
    }
}

/// The coefficients of a polynomial divided by the order.
spec fn quotients(p: Poly) -> Poly {
    let m = ORDER as int;
    Poly { a: p.a / m, b: p.b / m, c: p.c / m, d: p.d / m, e: p.e / m }
}

/// A polynomial is its remainder plus a multiple of the order.
proof fn lemma_remainder(p: Poly)
    ensures
        p == poly_plus(Quintic::of(p).poly(), poly_scale(ORDER as int, quotients(p))),
        Quintic::of(p).valid(),
{
    let m = ORDER as int;
    KoalaBear::lemma_of(p.a);
    KoalaBear::lemma_of(p.b);
    KoalaBear::lemma_of(p.c);
    KoalaBear::lemma_of(p.d);
    KoalaBear::lemma_of(p.e);
    lemma_fundamental_div_mod(p.a, m);
    lemma_fundamental_div_mod(p.b, m);
    lemma_fundamental_div_mod(p.c, m);
    lemma_fundamental_div_mod(p.d, m);
    lemma_fundamental_div_mod(p.e, m);
}

proof fn lemma_shifted(p: Poly, q: Poly)
    ensures
        Quintic::of(poly_plus(p, poly_scale(ORDER as int, q))) == Quintic::of(p),
{
    KoalaBear::lemma_of_shifted(p.a, q.a);
    KoalaBear::lemma_of_shifted(p.b, q.b);
    KoalaBear::lemma_of_shifted(p.c, q.c);
    KoalaBear::lemma_of_shifted(p.d, q.d);
    KoalaBear::lemma_of_shifted(p.e, q.e);
}

/// A factor may be reduced before a product.
proof fn lemma_reduced_factor(p: Poly, q: Poly)
    ensures
        Quintic::of(poly_times(Quintic::of(p).poly(), q)) == Quintic::of(poly_times(p, q)),
        Quintic::of(poly_times(q, Quintic::of(p).poly())) == Quintic::of(poly_times(q, p)),
{
    let r = Quintic::of(p).poly();
    let k = quotients(p);
    let m = ORDER as int;
    lemma_remainder(p);
    lemma_poly_plus_left(r, poly_scale(m, k), q);
    lemma_poly_scale_left(m, k, q);
    lemma_shifted(poly_times(r, q), poly_times(k, q));
    lemma_poly_commutes(q, r);
    lemma_poly_commutes(q, p);
}

/// A term may be reduced before a sum.
proof fn lemma_reduced_term(p: Poly, q: Poly)
    ensures
        Quintic::of(poly_plus(Quintic::of(p).poly(), q)) == Quintic::of(poly_plus(p, q)),
{
    let r = Quintic::of(p).poly();
    let k = poly_scale(ORDER as int, quotients(p));
    lemma_remainder(p);
    assert(poly_plus(poly_plus(r, q), k) == poly_plus(poly_plus(r, k), q));
    lemma_shifted(poly_plus(r, q), quotients(p));
}

/// `p3_field::Field::try_inverse` on an element of
/// `p3_field::extension::QuinticTrinomialExtensionField` over `p3_koala_bear::KoalaBear`, by the
/// representatives of its coefficients: the inverse of every element but 0, and nothing for 0.
#[verifier::external_body]
fn extension_inverse(c: [u32; 5]) -> (r: Option<[u32; 5]>)
    requires
        c[0] < ORDER && c[1] < ORDER && c[2] < ORDER && c[3] < ORDER && c[4] < ORDER,
    ensures
        r is None <==> (c[0] == 0 && c[1] == 0 && c[2] == 0 && c[3] == 0 && c[4] == 0),
        r matches Some(i) ==> {
            let p = Poly {
                a: c[0] as int,
                b: c[1] as int,
                c: c[2] as int,
                d: c[3] as int,
                e: c[4] as int,
            };
            let q = Poly {
                a: i[0] as int,
                b: i[1] as int,
                c: i[2] as int,
                d: i[3] as int,
                e: i[4] as int,
            };
            let one = poly_times(p, q);
            &&& i[0] < ORDER && i[1] < ORDER && i[2] < ORDER && i[3] < ORDER && i[4] < ORDER
            &&& one.a % (ORDER as int) == 1
            &&& one.b % (ORDER as int) == 0
            &&& one.c % (ORDER as int) == 0
            &&& one.d % (ORDER as int) == 0
            &&& one.e % (ORDER as int) == 0
        },
{
    let x = p3_field::extension::QuinticTrinomialExtensionField::<p3_koala_bear::KoalaBear>::new(
        c.map(p3_koala_bear::KoalaBear::new),
    );
    let y = p3_field::Field::try_inverse(&x)?;
    let s: &[p3_koala_bear::KoalaBear] = p3_field::BasedVectorSpace::as_basis_coefficients_slice(&y);
    Some(
        [
            p3_field::PrimeField32::as_canonical_u32(&s[0]),
            p3_field::PrimeField32::as_canonical_u32(&s[1]),
            p3_field::PrimeField32::as_canonical_u32(&s[2]),
            p3_field::PrimeField32::as_canonical_u32(&s[3]),
            p3_field::PrimeField32::as_canonical_u32(&s[4]),
        ],
    )
}

/// The element that a number stands for, made positive by a multiple of the order.
fn reduce(n: u128, Ghost(wanted): Ghost<int>, Ghost(k): Ghost<int>) -> (r: KoalaBear)
    requires
        n == wanted + ORDER * k,
    ensures
        r.valid(),
        r == KoalaBear::of(wanted),
{
    let small: u32 = (n % ORDER as u128) as u32;
    proof {
        let m = ORDER as int;
        lemma_mod_bound(n as int, m);
        lemma_fundamental_div_mod(n as int, m);
        KoalaBear::lemma_of_shifted(small as int, n as int / m);
        KoalaBear::lemma_of_shifted(wanted, k);
    }
    KoalaBear::new(small)
}

/// A product of representatives.
fn term(x: KoalaBear, y: KoalaBear) -> (r: u128)
    requires
        x.valid(),
        y.valid(),
    ensures
        r == x.canonical() * y.canonical(),
        r <= 4_539_909_899_366_170_624,
{
    let (n, m) = (x.to_usize(), y.to_usize());
    proof {
        x.lemma_remainder();
        y.lemma_remainder();
        assert(0 <= n * m <= 4_539_909_899_366_170_624) by (nonlinear_arith)
            requires
                0 <= n <= 2_130_706_432,
                0 <= m <= 2_130_706_432,
        ;
    }
    n as u128 * m as u128
}

/// Four times the square of the order, which no sum of four products exceeds.
const MARGIN: u128 = 18_159_639_614_510_333_956;

impl Field for Quintic {
    open spec fn valid(self) -> bool {
        self.c0.valid() && self.c1.valid() && self.c2.valid() && self.c3.valid() && self.c4.valid()
    }

    open spec fn nil() -> Self {
        Quintic::of(Poly { a: 0, b: 0, c: 0, d: 0, e: 0 })
    }

    open spec fn unit() -> Self {
        Quintic::of(Poly { a: 1, b: 0, c: 0, d: 0, e: 0 })
    }

    open spec fn plus(self, other: Self) -> Self {
        Quintic {
            c0: self.c0.plus(other.c0),
            c1: self.c1.plus(other.c1),
            c2: self.c2.plus(other.c2),
            c3: self.c3.plus(other.c3),
            c4: self.c4.plus(other.c4),
        }
    }

    open spec fn minus(self, other: Self) -> Self {
        Quintic {
            c0: self.c0.minus(other.c0),
            c1: self.c1.minus(other.c1),
            c2: self.c2.minus(other.c2),
            c3: self.c3.minus(other.c3),
            c4: self.c4.minus(other.c4),
        }
    }

    open spec fn times(self, other: Self) -> Self {
        Quintic::of(poly_times(self.poly(), other.poly()))
    }

    open spec fn embed(n: nat) -> Self {
        Quintic::of(Poly { a: n as int, b: 0, c: 0, d: 0, e: 0 })
    }

    proof fn closed() {
        KoalaBear::closed();
        assert forall|p: Poly| (#[trigger] Quintic::of(p)).valid() by {
            lemma_remainder(p);
        }
    }

    proof fn embed_counts(n: nat) {
        KoalaBear::embed_counts(n);
        let zero = KoalaBear::of(0);
        KoalaBear::lemma_of(0);
        zero.lemma_operations(zero);
        KoalaBear::plus_nil(zero);
        let (count, one) = (KoalaBear::of(n as int), KoalaBear::of(1));
        KoalaBear::lemma_of(n as int);
        KoalaBear::lemma_of(1);
        count.lemma_operations(one);
        lemma_small_mod(1, ORDER as nat);
        let q = n as int / (ORDER as int);
        lemma_fundamental_div_mod(n as int, ORDER as int);
        KoalaBear::lemma_of_shifted(count.canonical() as int + 1, q);
    }

    proof fn nontrivial() {
        KoalaBear::lemma_of(0);
        KoalaBear::lemma_of(1);
        lemma_small_mod(0, ORDER as nat);
        lemma_small_mod(1, ORDER as nat);
    }

    proof fn plus_nil(a: Self) {
        a.c0.lemma_operations(a.c0);
        KoalaBear::plus_nil(a.c0);
        KoalaBear::plus_nil(a.c1);
        KoalaBear::plus_nil(a.c2);
        KoalaBear::plus_nil(a.c3);
        KoalaBear::plus_nil(a.c4);
    }

    proof fn plus_commutes(a: Self, b: Self) {
        KoalaBear::plus_commutes(a.c0, b.c0);
        KoalaBear::plus_commutes(a.c1, b.c1);
        KoalaBear::plus_commutes(a.c2, b.c2);
        KoalaBear::plus_commutes(a.c3, b.c3);
        KoalaBear::plus_commutes(a.c4, b.c4);
    }

    proof fn plus_associates(a: Self, b: Self, c: Self) {
        KoalaBear::plus_associates(a.c0, b.c0, c.c0);
        KoalaBear::plus_associates(a.c1, b.c1, c.c1);
        KoalaBear::plus_associates(a.c2, b.c2, c.c2);
        KoalaBear::plus_associates(a.c3, b.c3, c.c3);
        KoalaBear::plus_associates(a.c4, b.c4, c.c4);
    }

    proof fn minus_plus(a: Self, b: Self) {
        KoalaBear::minus_plus(a.c0, b.c0);
        KoalaBear::minus_plus(a.c1, b.c1);
        KoalaBear::minus_plus(a.c2, b.c2);
        KoalaBear::minus_plus(a.c3, b.c3);
        KoalaBear::minus_plus(a.c4, b.c4);
    }

    proof fn times_unit(a: Self) {
        let one = Poly { a: 1, b: 0, c: 0, d: 0, e: 0 };
        lemma_reduced_factor(one, a.poly());
        assert(poly_times(a.poly(), one) == a.poly());
        a.lemma_of_poly();
    }

    proof fn times_commutes(a: Self, b: Self) {
        lemma_poly_commutes(a.poly(), b.poly());
    }

    proof fn times_associates(a: Self, b: Self, c: Self) {
        let (p, q, r) = (a.poly(), b.poly(), c.poly());
        lemma_reduced_factor(poly_times(p, q), r);
        lemma_reduced_factor(poly_times(q, r), p);
        lemma_poly_associates(p, q, r);
    }

    proof fn distributes(a: Self, b: Self, c: Self) {
        let (p, q, r) = (a.poly(), b.poly(), c.poly());
        lemma_sum(b, c);
        lemma_reduced_factor(poly_plus(q, r), p);
        lemma_poly_commutes(p, poly_plus(q, r));
        lemma_poly_plus_left(q, r, p);
        lemma_poly_commutes(p, q);
        lemma_poly_commutes(p, r);
        let (x, y) = (poly_times(p, q), poly_times(p, r));
        lemma_sum(Quintic::of(x), Quintic::of(y));
        lemma_reduced_term(x, Quintic::of(y).poly());
        assert(poly_plus(x, Quintic::of(y).poly()) == poly_plus(Quintic::of(y).poly(), x));
        lemma_reduced_term(y, x);
        assert(poly_plus(y, x) == poly_plus(x, y));
    }

    fn zero() -> (r: Self) {
        proof {
            Self::closed();
        }
        Quintic {
            c0: KoalaBear::new(0),
            c1: KoalaBear::new(0),
            c2: KoalaBear::new(0),
            c3: KoalaBear::new(0),
            c4: KoalaBear::new(0),
        }
    }

    fn one() -> (r: Self) {
        proof {
            Self::closed();
        }
        Quintic {
            c0: KoalaBear::new(1),
            c1: KoalaBear::new(0),
            c2: KoalaBear::new(0),
            c3: KoalaBear::new(0),
            c4: KoalaBear::new(0),
        }
    }

    fn field_add(self, other: Self) -> (r: Self) {
        Quintic {
            c0: self.c0.field_add(other.c0),
            c1: self.c1.field_add(other.c1),
            c2: self.c2.field_add(other.c2),
            c3: self.c3.field_add(other.c3),
            c4: self.c4.field_add(other.c4),
        }
    }

    fn field_sub(self, other: Self) -> (r: Self) {
        Quintic {
            c0: self.c0.field_sub(other.c0),
            c1: self.c1.field_sub(other.c1),
            c2: self.c2.field_sub(other.c2),
            c3: self.c3.field_sub(other.c3),
            c4: self.c4.field_sub(other.c4),
        }
    }

    fn field_mul(self, other: Self) -> (r: Self) {
        let (p, q) = (self, other);
        let ghost w = poly_times(p.poly(), q.poly());
        let d5: u128 = term(p.c1, q.c4) + term(p.c2, q.c3) + term(p.c3, q.c2) + term(p.c4, q.c1);
        let d6: u128 = term(p.c2, q.c4) + term(p.c3, q.c3) + term(p.c4, q.c2);
        let d7: u128 = term(p.c3, q.c4) + term(p.c4, q.c3);
        let d8: u128 = term(p.c4, q.c4);
        let n0: u128 = term(p.c0, q.c0) + d5 + MARGIN - d8;
        let n1: u128 = term(p.c0, q.c1) + term(p.c1, q.c0) + d6;
        let n2: u128 = term(p.c0, q.c2) + term(p.c1, q.c1) + term(p.c2, q.c0) + d7 + d8 + MARGIN
            - d5;
        let n3: u128 = term(p.c0, q.c3) + term(p.c1, q.c2) + term(p.c2, q.c1) + term(p.c3, q.c0)
            + d8 + MARGIN - d6;
        let n4: u128 = term(p.c0, q.c4) + term(p.c1, q.c3) + term(p.c2, q.c2) + term(p.c3, q.c1)
            + term(p.c4, q.c0) + MARGIN - d7;
        let ghost k = 4 * ORDER as int;
        assert(ORDER * k == MARGIN) by (nonlinear_arith)
            requires
                k == 4 * 2_130_706_433,
                ORDER == 2_130_706_433,
                MARGIN == 18_159_639_614_510_333_956,
        ;
        Quintic {
            c0: reduce(n0, Ghost(w.a), Ghost(k)),
            c1: reduce(n1, Ghost(w.b), Ghost(0)),
            c2: reduce(n2, Ghost(w.c), Ghost(k)),
            c3: reduce(n3, Ghost(w.d), Ghost(k)),
            c4: reduce(n4, Ghost(w.e), Ghost(k)),
        }
    }

    fn same(self, other: Self) -> (b: bool) {
        self.c0.same(other.c0) && self.c1.same(other.c1) && self.c2.same(other.c2) && self.c3.same(
            other.c3,
        ) && self.c4.same(other.c4)
    }

    fn try_inverse(self) -> (r: Option<Self>) {
        proof {
            self.c0.lemma_remainder();
            self.c1.lemma_remainder();
            self.c2.lemma_remainder();
            self.c3.lemma_remainder();
            self.c4.lemma_remainder();
            self.lemma_of_poly();
            KoalaBear::lemma_of(0);
            KoalaBear::lemma_of(1);
            lemma_small_mod(0, ORDER as nat);
        }
        let c: [u32; 5] = [
            self.c0.to_usize() as u32,
            self.c1.to_usize() as u32,
            self.c2.to_usize() as u32,
            self.c3.to_usize() as u32,
            self.c4.to_usize() as u32,
        ];
        match extension_inverse(c) {
            None => None,
            Some(i) => {
                let inverse = Quintic {
                    c0: KoalaBear::new(i[0]),
                    c1: KoalaBear::new(i[1]),
                    c2: KoalaBear::new(i[2]),
                    c3: KoalaBear::new(i[3]),
                    c4: KoalaBear::new(i[4]),
                };
                proof {
                    KoalaBear::lemma_of(i[0] as int);
                    KoalaBear::lemma_of(i[1] as int);
                    KoalaBear::lemma_of(i[2] as int);
                    KoalaBear::lemma_of(i[3] as int);
                    KoalaBear::lemma_of(i[4] as int);
                    lemma_small_mod(i[0] as nat, ORDER as nat);
                    lemma_small_mod(i[1] as nat, ORDER as nat);
                    lemma_small_mod(i[2] as nat, ORDER as nat);
                    lemma_small_mod(i[3] as nat, ORDER as nat);
                    lemma_small_mod(i[4] as nat, ORDER as nat);
                    let one = poly_times(self.poly(), inverse.poly());
                    lemma_same_remainder(one.a, 1);
                    lemma_same_remainder(one.b, 0);
                    lemma_same_remainder(one.c, 0);
                    lemma_same_remainder(one.d, 0);
                    lemma_same_remainder(one.e, 0);
                }
                Some(inverse)
            },
        }
    }

    fn from_usize(n: usize) -> (r: Self) {
        proof {
            Self::closed();
            lemma_mod_bound(n as int, ORDER as int);
            lemma_fundamental_div_mod(n as int, ORDER as int);
            KoalaBear::lemma_of_shifted(n as int % (ORDER as int), n as int / (ORDER as int));
        }
        Quintic {
            c0: KoalaBear::new((n as u64 % ORDER as u64) as u32),
            c1: KoalaBear::new(0),
            c2: KoalaBear::new(0),
            c3: KoalaBear::new(0),
            c4: KoalaBear::new(0),
        }
    }
}

/// A sum by polynomials.
proof fn lemma_sum(a: Quintic, b: Quintic)
    ensures
        a.plus(b) == Quintic::of(poly_plus(a.poly(), b.poly())),
{
    a.c0.lemma_operations(b.c0);
    a.c1.lemma_operations(b.c1);
    a.c2.lemma_operations(b.c2);
    a.c3.lemma_operations(b.c3);
    a.c4.lemma_operations(b.c4);
}

/// Integers of one remainder stand for the same element.
proof fn lemma_same_remainder(n: int, r: int)
    requires
        n % (ORDER as int) == r,
    ensures
        KoalaBear::of(n) == KoalaBear::of(r),
{
    lemma_fundamental_div_mod(n, ORDER as int);
    KoalaBear::lemma_of_shifted(r, n / (ORDER as int));
}

/// Multiplication by `X` moves the coefficients up by one, and `X^4` to `X^5 = 1 - X^2`.
pub proof fn law_times_generator(q: Quintic)
    requires
        q.valid(),
    ensures
        ({
            let (zero, one) = (KoalaBear::nil(), KoalaBear::unit());
            let x = Quintic { c0: zero, c1: one, c2: zero, c3: zero, c4: zero };
            x.times(q) == Quintic {
                c0: q.c4,
                c1: q.c0,
                c2: q.c1.minus(q.c4),
                c3: q.c2,
                c4: q.c3,
            }
        }),
{
    let r = q.poly();
    q.c1.lemma_operations(q.c4);
    let p = Poly { a: 0, b: 1, c: 0, d: 0, e: 0 };
    assert(poly_times(p, r) == Poly { a: r.e, b: r.a, c: r.b - r.e, d: r.c, e: r.d });
    q.c0.lemma_canonical();
    q.c2.lemma_canonical();
    q.c3.lemma_canonical();
    q.c4.lemma_canonical();
}

/// Multiplication by an element of the prime field multiplies each coefficient.
pub proof fn law_times_constant(s: KoalaBear, q: Quintic)
    requires
        s.valid(),
        q.valid(),
    ensures
        ({
            let zero = KoalaBear::nil();
            let c = Quintic { c0: s, c1: zero, c2: zero, c3: zero, c4: zero };
            c.times(q) == Quintic {
                c0: s.times(q.c0),
                c1: s.times(q.c1),
                c2: s.times(q.c2),
                c3: s.times(q.c3),
                c4: s.times(q.c4),
            }
        }),
{
    let r = q.poly();
    let k = s.canonical() as int;
    let p = Poly { a: k, b: 0, c: 0, d: 0, e: 0 };
    assert(poly_times(p, r) == poly_scale(k, r));
    s.lemma_operations(q.c0);
    s.lemma_operations(q.c1);
    s.lemma_operations(q.c2);
    s.lemma_operations(q.c3);
    s.lemma_operations(q.c4);
}

/// The sum of `n` ones is the one of the prime field, and 0 and 1 have no other coefficient.
pub proof fn law_embedding(n: nat)
    ensures
        Quintic::embed(n) == (Quintic {
            c0: KoalaBear::embed(n),
            c1: KoalaBear::nil(),
            c2: KoalaBear::nil(),
            c3: KoalaBear::nil(),
            c4: KoalaBear::nil(),
        }),
        Quintic::nil().c0 == KoalaBear::nil(),
        Quintic::unit().c0 == KoalaBear::unit(),
{
    KoalaBear::nil().lemma_operations(KoalaBear::nil());
}

} // verus!
