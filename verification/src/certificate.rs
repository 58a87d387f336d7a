//! Interpolation certificates behind the capacity bound on mutual correlated agreement (MCA), and
//! the Johnson bound on list sizes.

use vstd::prelude::*;
use vstd::arithmetic::div_mod::*;
use vstd::arithmetic::mul::*;
use vstd::arithmetic::power2::*;
use crate::arith::{checked_product2, checked_product3, checked_product4, checked_product5};
use crate::code::reduced_rate;
use crate::text::with_number;

verus! {

/// `1 + 2 + ... + k`.
pub open spec fn triangle(k: nat) -> nat {
    k * (k + 1) / 2
}

/// `1^2 + 2^2 + ... + k^2`.
pub open spec fn square_sum(k: nat) -> nat {
    k * (k + 1) * (2 * k + 1) / 6
}

/// The largest jet degree that an interpolation of multiplicity `m` at agreement `a` admits.
pub open spec fn jet_limit(degree: nat, a: nat, m: nat) -> int {
    (m * a - 1) / degree as int
}

/// The jet degree up to which the interpolation equations are independent.
pub open spec fn equation_cutoff(m: nat, b: nat) -> nat {
    if b <= m - 1 {
        b
    } else {
        (m - 1) as nat
    }
}

/// Interpolation unknowns per unit of height.
pub open spec fn variables_slope(degree: nat, a: nat, m: nat, b: nat) -> int {
    (b + 1) * m * a - degree * triangle(b)
}

/// What the jet degrees take away from the interpolation unknowns.
pub open spec fn variables_moment(degree: nat, a: nat, m: nat, b: nat) -> int {
    m * a * triangle(b) - degree * square_sum(b)
}

/// Interpolation equations per position and unit of height.
pub open spec fn equations_slope(m: nat, b: nat) -> int {
    (equation_cutoff(m, b) + 1) * m - triangle(equation_cutoff(m, b))
}

/// What the jet degrees take away from the equations of one position.
pub open spec fn equations_moment(m: nat, b: nat) -> int {
    m * triangle(equation_cutoff(m, b)) - square_sum(equation_cutoff(m, b))
}

/// By how much the unknowns outgrow the equations per unit of height.
pub open spec fn surplus_slope(n: nat, degree: nat, a: nat, m: nat, b: nat) -> int {
    variables_slope(degree, a, m, b) - n * equations_slope(m, b)
}

/// The least height at which the unknowns outnumber the equations.
pub open spec fn required_height(n: nat, degree: nat, a: nat, m: nat, b: nat) -> int {
    let excess = variables_moment(degree, a, m, b) - n * equations_moment(m, b);
    let by_moment = if excess > 0 {
        excess / surplus_slope(n, degree, a, m, b)
    } else {
        0
    };
    if by_moment > b {
        by_moment
    } else {
        b as int
    }
}

/// Whether the parameters describe an interpolation at all.
pub open spec fn parameters_valid(n: nat, degree: nat, a: nat, m: nat, b: nat) -> bool {
    0 < degree < a <= n && 0 < m && 0 < b
}

/// How the check of an interpolation certificate ends: the first condition that fails, or success.
pub open spec fn support_outcome(
    n: nat,
    degree: nat,
    a: nat,
    m: nat,
    b: nat,
    height: nat,
) -> Result<(), Seq<char>> {
    if !parameters_valid(n, degree, a, m, b) {
        Err("invalid capacity MCA interpolation parameters"@)
    } else if b > jet_limit(degree, a, m) {
        Err(
            "capacity MCA jet degree "@ + crate::text::decimal(b)
                + " exceeds interpolation limit "@ + crate::text::decimal(
                jet_limit(degree, a, m) as nat,
            ),
        )
    } else if b * (b + 1) * (2 * b + 1) > u128::MAX {
        Err(crate::arith::overflow_text("jet square sum"@))
    } else if (b + 1) * m * a > u128::MAX {
        Err(crate::arith::overflow_text("variable slope"@))
    } else if m * a * triangle(b) > u128::MAX {
        Err(crate::arith::overflow_text("variable moment"@))
    } else if n * equations_slope(m, b) > u128::MAX {
        Err(crate::arith::overflow_text("interpolation slope"@))
    } else if surplus_slope(n, degree, a, m, b) <= 0 {
        Err("capacity MCA interpolation has no positive slope surplus"@)
    } else if n * equations_moment(m, b) > u128::MAX {
        Err(crate::arith::overflow_text("interpolation moment"@))
    } else if height < required_height(n, degree, a, m, b) {
        Err(
            "capacity MCA height "@ + crate::text::decimal(height)
                + " is below the certified minimum "@ + crate::text::decimal(
                required_height(n, degree, a, m, b) as nat,
            ),
        )
    } else {
        Ok(())
    }
}

proof fn lemma_triangle(k: nat)
    ensures
        2 * triangle(k) == k * (k + 1),
        k <= triangle(k),
{
    let j = k / 2;
    if k % 2 == 0 {
        assert(k * (k + 1) == 2 * (j * (k + 1))) by (nonlinear_arith)
            requires
                k == 2 * j,
        ;
    } else {
        assert(k * (k + 1) == 2 * (k * (j + 1))) by (nonlinear_arith)
            requires
                k == 2 * j + 1,
        ;
    }
    assert(2 * k <= k * (k + 1) || k == 0) by (nonlinear_arith);
}

proof fn lemma_triangle_monotone(k: nat, l: nat)
    requires
        k <= l,
    ensures
        triangle(k) <= triangle(l),
        k * (k + 1) * (2 * k + 1) <= l * (l + 1) * (2 * l + 1),
{
    assert(k * (k + 1) <= l * (l + 1)) by (nonlinear_arith)
        requires
            k <= l,
    ;
    assert(k * (k + 1) * (2 * k + 1) <= l * (l + 1) * (2 * l + 1)) by (nonlinear_arith)
        requires
            k * (k + 1) <= l * (l + 1),
            k <= l,
    ;
}

/// What the equations leave is never negative.
pub(crate) proof fn lemma_equations(m: nat, b: nat)
    requires
        0 < m,
        0 < b,
    ensures
        0 <= triangle(equation_cutoff(m, b)) <= (equation_cutoff(m, b) + 1) * m <= m * m,
        0 <= square_sum(equation_cutoff(m, b)) <= m * triangle(equation_cutoff(m, b)) <= m
            * triangle(b),
{
    let u = equation_cutoff(m, b);
    lemma_triangle(u);
    lemma_triangle_monotone(u, b);
    assert(u * (u + 1) <= 2 * ((u + 1) * m)) by (nonlinear_arith)
        requires
            u < m,
    ;
    assert((u + 1) * m <= m * m) by (nonlinear_arith)
        requires
            u < m,
    ;
    assert(u * (u + 1) * (2 * u + 1) <= 3 * m * (u * (u + 1))) by (nonlinear_arith)
        requires
            u < m,
    ;
    assert(3 * m * (2 * triangle(u)) == 6 * (m * triangle(u))) by (nonlinear_arith);
    assert(m * triangle(u) <= m * triangle(b)) by (nonlinear_arith)
        requires
            triangle(u) <= triangle(b),
    ;
}

/// What the unknowns leave is never negative, below the jet limit.
proof fn lemma_variables(degree: nat, a: nat, m: nat, b: nat)
    requires
        0 < degree < a,
        0 < m,
        0 < b <= jet_limit(degree, a, m),
    ensures
        0 <= degree * triangle(b) <= (b + 1) * m * a,
        0 <= degree * square_sum(b) <= m * a * triangle(b),
        0 < m * a,
{
    let x = m * a;
    assert(0 < x) by (nonlinear_arith)
        requires
            0 < m,
            0 < a,
            x == m * a,
    ;
    assert(degree * b <= x) by {
        lemma_fundamental_div_mod(x - 1, degree as int);
        lemma_mul_inequality(b as int, jet_limit(degree, a, m), degree as int);
        lemma_mul_is_commutative(b as int, degree as int);
        lemma_mul_is_commutative(jet_limit(degree, a, m), degree as int);
    }
    lemma_triangle(b);
    let t = triangle(b);
    let s = square_sum(b);
    assert((b + 1) * m * a == (b + 1) * x) by {
        lemma_mul_is_associative((b + 1) as int, m as int, a as int);
    }
    assert(2 * (degree * t) == (degree * b) * (b + 1)) by (nonlinear_arith)
        requires
            2 * t == b * (b + 1),
    ;
    assert((degree * b) * (b + 1) <= x * (b + 1)) by (nonlinear_arith)
        requires
            degree * b <= x,
    ;
    assert(0 <= x * (b + 1) && x * (b + 1) == (b + 1) * x) by (nonlinear_arith)
        requires
            x > 0,
    ;
    assert(0 <= degree * t) by (nonlinear_arith);
    assert(6 * s <= b * (b + 1) * (2 * b + 1));
    assert(6 * (degree * s) <= (degree * b) * ((b + 1) * (2 * b + 1))) by (nonlinear_arith)
        requires
            6 * s <= b * (b + 1) * (2 * b + 1),
    ;
    assert((degree * b) * ((b + 1) * (2 * b + 1)) <= x * ((b + 1) * (2 * b + 1)))
        by (nonlinear_arith)
        requires
            degree * b <= x,
    ;
    assert((b + 1) * (2 * b + 1) <= 6 * t) by (nonlinear_arith)
        requires
            2 * t == b * (b + 1),
            0 < b,
    ;
    assert(x * ((b + 1) * (2 * b + 1)) <= x * (6 * t)) by (nonlinear_arith)
        requires
            (b + 1) * (2 * b + 1) <= 6 * t,
            x > 0,
    ;
    assert(x * (6 * t) == 6 * (x * t)) by (nonlinear_arith);
    assert(0 <= degree * s) by (nonlinear_arith);
}

pub(crate) proof fn lemma_usize_products(x: usize, y: usize)
    ensures
        0 <= x * (y + 1) <= u128::MAX,
        0 <= x * y <= u128::MAX,
{
    assert(0 <= x * (y + 1) <= 0xffff_ffff_ffff_ffff * 0x1_0000_0000_0000_0000)
        by (nonlinear_arith)
        requires
            0 <= x <= 0xffff_ffff_ffff_ffff,
            0 <= y <= 0xffff_ffff_ffff_ffff,
    ;
    assert(0 <= x * y <= x * (y + 1)) by (nonlinear_arith)
        requires
            0 <= x,
            0 <= y,
    ;
}

/// Checks the interpolation surplus certificate behind the capacity MCA bound: at this
/// multiplicity, jet degree and height, the unknowns outnumber the equations.
pub fn validate_interpolation_support(
    n: usize,
    degree: usize,
    agreement: usize,
    interpolation_m: usize,
    jet_degree: usize,
    height: usize,
) -> (r: Result<(), String>)
    ensures
        crate::text::outcome(r) == support_outcome(
            n as nat,
            degree as nat,
            agreement as nat,
            interpolation_m as nat,
            jet_degree as nat,
            height as nat,
        ),
{
    if degree == 0 || agreement <= degree || agreement > n || interpolation_m == 0 || jet_degree
        == 0 {
        return Err("invalid capacity MCA interpolation parameters".to_owned());
    }
    let ghost (gn, gd, ga, gm, gb) = (
        n as nat,
        degree as nat,
        agreement as nat,
        interpolation_m as nat,
        jet_degree as nat,
    );
    let n: u128 = n as u128;
    let degree: u128 = degree as u128;
    let a: u128 = agreement as u128;
    let m: u128 = interpolation_m as u128;
    let b: u128 = jet_degree as u128;
    let height: u128 = height as u128;

    proof {
        lemma_usize_products(interpolation_m, agreement);
        lemma_mul_strictly_positive(m as int, a as int);
    }
    let max_jet_degree: u128 = (checked_product2(m, a, "interpolation support")? - 1) / degree;
    if b > max_jet_degree {
        return Err(
            with_number(
                with_number("capacity MCA jet degree ".to_owned(), b).concat(
                    " exceeds interpolation limit ",
                ),
                max_jet_degree,
            ),
        );
    }
    proof {
        lemma_variables(gd, ga, gm, gb);
        lemma_equations(gm, gb);
        lemma_triangle(gb);
        lemma_usize_products(jet_degree, jet_degree);
        lemma_usize_products(interpolation_m, interpolation_m);
    }
    let u: u128 = if b <= m - 1 {
        b
    } else {
        m - 1
    };
    let ghost gu = equation_cutoff(gm, gb);
    assert(u == gu);
    proof {
        lemma_triangle(gu);
        lemma_triangle_monotone(gu, gb);
    }
    let jet_triangle: u128 = checked_product2(b, b + 1, "jet triangle")? / 2;
    let jet_square_sum: u128 = checked_product3(b, b + 1, 2 * b + 1, "jet square sum")? / 6;
    let u_triangle: u128 = checked_product2(u, u + 1, "equation triangle")? / 2;
    let u_square_sum: u128 = checked_product3(u, u + 1, 2 * u + 1, "equation square sum")? / 6;

    proof {
        assert((b + 1) * m <= (b + 1) * m * a) by (nonlinear_arith)
            requires
                a >= 1,
                b >= 0,
                m >= 0,
        ;
        assert(m * a <= m * a * triangle(gb)) by (nonlinear_arith)
            requires
                triangle(gb) >= 1,
                m >= 0,
                a >= 0,
        ;
        assert(m * triangle(gb) <= m * a * triangle(gb)) by (nonlinear_arith)
            requires
                a >= 1,
                m >= 0,
        ;
    }
    let variables_slope: u128 = checked_product3(b + 1, m, a, "variable slope")?
        - checked_product2(degree, jet_triangle, "variable slope")?;
    let variables_moment: u128 = checked_product3(m, a, jet_triangle, "variable moment")?
        - checked_product2(degree, jet_square_sum, "variable moment")?;
    let equations_slope: u128 = checked_product2(u + 1, m, "equation slope")? - u_triangle;
    let equations_moment: u128 = checked_product2(m, u_triangle, "equation moment")?
        - u_square_sum;
    let slope_rhs: u128 = checked_product2(n, equations_slope, "interpolation slope")?;
    if variables_slope <= slope_rhs {
        return Err("capacity MCA interpolation has no positive slope surplus".to_owned());
    }
    let surplus_slope: u128 = variables_slope - slope_rhs;
    let moment_rhs: u128 = checked_product2(n, equations_moment, "interpolation moment")?;
    let required_by_moment: u128 = variables_moment.saturating_sub(moment_rhs) / surplus_slope;
    let required_height: u128 = if b >= required_by_moment {
        b
    } else {
        required_by_moment
    };
    if height < required_height {
        return Err(
            with_number(
                with_number("capacity MCA height ".to_owned(), height).concat(
                    " is below the certified minimum ",
                ),
                required_height,
            ),
        );
    }
    Ok(())
}

/// The Johnson bound on the list of codewords that agree with a word on `a` of `n` positions, cut
/// at the jet degree.
pub open spec fn list_bound(n: nat, degree: nat, a: nat, b: nat) -> int {
    let pairwise = n * (a - degree) / (a * a - n * degree);
    if pairwise <= b {
        pairwise
    } else {
        b as int
    }
}

/// The Johnson list bound of an agreement beyond the Johnson radius.
pub fn johnson_list_bound(n: usize, degree: usize, agreement: usize, jet_degree: usize) -> (r:
    Result<usize, String>)
    requires
        agreement * agreement > n * degree ==> agreement >= degree,
    ensures
        agreement * agreement <= n * degree ==> crate::text::outcome(r) == Err::<usize, Seq<char>>(
            "agreement threshold is not beyond the Johnson radius"@,
        ),
        agreement * agreement > n * degree ==> (r matches Ok(list) && list == list_bound(
            n as nat,
            degree as nat,
            agreement as nat,
            jet_degree as nat,
        )),
{
    proof {
        lemma_usize_products(agreement, agreement);
        lemma_usize_products(n, degree);
    }
    let a: u128 = agreement as u128;
    let square: u128 = checked_product2(a, a, "Johnson list denominator")?;
    let radius: u128 = checked_product2(n as u128, degree as u128, "Johnson list denominator")?;
    if square <= radius {
        return Err("agreement threshold is not beyond the Johnson radius".to_owned());
    }
    let distance: usize = agreement - degree;
    proof {
        lemma_usize_products(n, distance);
    }
    let numerator: u128 = checked_product2(n as u128, distance as u128, "Johnson list numerator")?;
    let pairwise: u128 = numerator / (square - radius);
    if pairwise <= jet_degree as u128 {
        Ok(pairwise as usize)
    } else {
        Ok(jet_degree)
    }
}

/// Where the parameters of an interpolation certificate come from.
#[derive(Clone, Copy, Debug, Eq, PartialEq, Structural)]
pub enum JohnsonCertificateVariant {
    /// The closed parameter choice, good in every characteristic.
    Closed,
    /// A finite parameter choice, checked directly from the interpolation surplus.
    Finite,
}

/// The parameters of one interpolation certificate, with the list bound that goes with them.
#[derive(Clone, Copy, Debug)]
pub struct CapacityMcaCertificate {
    pub agreement: usize,
    pub interpolation_m: usize,
    pub jet_degree: usize,
    pub interpolation_height: usize,
    pub list_bound: usize,
    pub variant: JohnsonCertificateVariant,
}

/// Whether multiplicity `m` is large enough for the closed parameter choice:
/// `2 m a >= (2 m + 1) sqrt(degree n)`, without roots.
pub open spec fn closed_multiplicity_holds(n: nat, degree: nat, a: nat, m: nat) -> bool {
    4 * m * m * a * a >= (2 * m + 1) * (2 * m + 1) * degree * n
}

/// Whether `m` is the least multiplicity, from 3 on, that is large enough.
pub open spec fn is_closed_multiplicity(n: nat, degree: nat, a: nat, m: nat) -> bool {
    &&& m >= 3
    &&& closed_multiplicity_holds(n, degree, a, m)
    &&& m > 3 ==> !closed_multiplicity_holds(n, degree, a, (m - 1) as nat)
}

/// The least multiplicity, from 3 on, that is large enough for the closed parameter choice.
pub open spec fn closed_multiplicity(n: nat, degree: nat, a: nat) -> nat {
    choose|m: nat| is_closed_multiplicity(n, degree, a, m)
}

/// The bound that jet degrees stay below: `(2 m + 1)^2 n`.
pub open spec fn jet_bound(n: nat, m: nat) -> nat {
    (2 * m + 1) * (2 * m + 1) * n
}

/// Whether `b` is the largest jet degree with `4 b^2 degree < (2 m + 1)^2 n`.
pub open spec fn is_closed_jet_degree(n: nat, degree: nat, m: nat, b: nat) -> bool {
    4 * b * b * degree < jet_bound(n, m) <= 4 * (b + 1) * (b + 1) * degree
}

/// The largest jet degree with `4 b^2 degree < (2 m + 1)^2 n`.
pub open spec fn closed_jet_degree(n: nat, degree: nat, m: nat) -> nat {
    choose|b: nat| is_closed_jet_degree(n, degree, m, b)
}

/// The height of the closed parameter choice.
pub open spec fn closed_height(n: nat, degree: nat, m: nat) -> int {
    (jet_bound(n, m) - 1) / (12 * degree as int)
}

/// The certificate of the closed parameter choice for a code of length `n` and degree `degree` at
/// agreement `a`, or what keeps it from being made.
pub open spec fn closed_outcome(n: nat, degree: nat, a: nat) -> Result<
    CapacityMcaCertificate,
    Seq<char>,
> {
    let m = closed_multiplicity(n, degree, a);
    let b = closed_jet_degree(n, degree, m);
    let height = closed_height(n, degree, m);
    if (degree > 0 && a * a <= degree * n) || 4 * m * m * a * a > u128::MAX || m > usize::MAX {
        Err(crate::arith::overflow_text("closed MCA multiplicity"@))
    } else if jet_bound(n, m) > u128::MAX || degree == 0 || 4 * (b + 1) * (b + 1) * degree
        > u128::MAX || b + 1 > usize::MAX {
        Err(crate::arith::overflow_text("closed MCA jet degree"@))
    } else if height > usize::MAX {
        Err("closed MCA height does not fit usize"@)
    } else {
        match support_outcome(n, degree, a, m, b, height as nat) {
            Err(e) => Err(e),
            Ok(_) => Ok(
                CapacityMcaCertificate {
                    agreement: a as usize,
                    interpolation_m: m as usize,
                    jet_degree: b as usize,
                    interpolation_height: height as usize,
                    list_bound: list_bound(n, degree, a, b) as usize,
                    variant: JohnsonCertificateVariant::Closed,
                },
            ),
        }
    }
}

proof fn lemma_multiplicity_monotone(n: nat, degree: nat, a: nat, m: nat, l: nat)
    requires
        1 <= m <= l,
        closed_multiplicity_holds(n, degree, a, m),
    ensures
        closed_multiplicity_holds(n, degree, a, l),
{
    let q = (degree * n) as int;
    let aa = (a * a) as int;
    assert(4 * m * m * a * a == (4 * m * m) * aa) by (nonlinear_arith)
        requires
            aa == a * a,
    ;
    assert(4 * l * l * a * a == (4 * l * l) * aa) by (nonlinear_arith)
        requires
            aa == a * a,
    ;
    assert((2 * m + 1) * (2 * m + 1) * degree * n == ((2 * m + 1) * (2 * m + 1)) * q)
        by (nonlinear_arith)
        requires
            q == degree * n,
    ;
    assert((2 * l + 1) * (2 * l + 1) * degree * n == ((2 * l + 1) * (2 * l + 1)) * q)
        by (nonlinear_arith)
        requires
            q == degree * n,
    ;
    let x = (l * (2 * m + 1)) as int;
    let y = (m * (2 * l + 1)) as int;
    assert(0 <= y <= x) by (nonlinear_arith)
        requires
            x == l * (2 * m + 1),
            y == m * (2 * l + 1),
            m <= l,
    ;
    assert(y * y <= x * x) by (nonlinear_arith)
        requires
            0 <= y <= x,
    ;
    assert(0 <= q) by (nonlinear_arith)
        requires
            q == degree * n,
    ;
    assert((y * y) * q <= (x * x) * q) by (nonlinear_arith)
        requires
            y * y <= x * x,
            0 <= q,
    ;
    let left = (4 * l * l) * aa;
    let right = ((2 * l + 1) * (2 * l + 1)) * q;
    assert((m * m) * right == (y * y) * q) by (nonlinear_arith)
        requires
            right == ((2 * l + 1) * (2 * l + 1)) * q,
            y == m * (2 * l + 1),
    ;
    assert((m * m) * left == (l * l) * ((4 * m * m) * aa)) by (nonlinear_arith)
        requires
            left == (4 * l * l) * aa,
    ;
    assert((l * l) * ((4 * m * m) * aa) >= (l * l) * (((2 * m + 1) * (2 * m + 1)) * q))
        by (nonlinear_arith)
        requires
            (4 * m * m) * aa >= ((2 * m + 1) * (2 * m + 1)) * q,
    ;
    assert((l * l) * (((2 * m + 1) * (2 * m + 1)) * q) == (x * x) * q) by (nonlinear_arith)
        requires
            x == l * (2 * m + 1),
    ;
    assert(left >= right) by (nonlinear_arith)
        requires
            (m * m) * left >= (m * m) * right,
            m >= 1,
    ;
}

/// The closed multiplicity is the only one of its kind.
pub proof fn law_closed_multiplicity_unique(n: nat, degree: nat, a: nat, m: nat)
    requires
        is_closed_multiplicity(n, degree, a, m),
    ensures
        closed_multiplicity(n, degree, a) == m,
{
    let k = closed_multiplicity(n, degree, a);
    assert(is_closed_multiplicity(n, degree, a, k));
    if k < m {
        lemma_multiplicity_monotone(n, degree, a, k, (m - 1) as nat);
    } else if m < k {
        lemma_multiplicity_monotone(n, degree, a, m, (k - 1) as nat);
    }
}

/// Below a multiplicity that is large enough there is a least one.
proof fn lemma_multiplicity_descends(n: nat, degree: nat, a: nat, m: nat)
    requires
        m >= 3,
        closed_multiplicity_holds(n, degree, a, m),
    ensures
        exists|k: nat| k <= m && is_closed_multiplicity(n, degree, a, k),
    decreases m,
{
    if m > 3 && closed_multiplicity_holds(n, degree, a, (m - 1) as nat) {
        lemma_multiplicity_descends(n, degree, a, (m - 1) as nat);
        let k = choose|k: nat| k <= m - 1 && is_closed_multiplicity(n, degree, a, k);
        assert(k <= m && is_closed_multiplicity(n, degree, a, k));
    } else {
        assert(is_closed_multiplicity(n, degree, a, m));
    }
}

/// Beyond the Johnson radius some multiplicity is large enough, and nowhere else.
proof fn lemma_multiplicity_exists(n: nat, degree: nat, a: nat)
    requires
        degree == 0 || a * a > degree * n,
    ensures
        is_closed_multiplicity(n, degree, a, closed_multiplicity(n, degree, a)),
{
    let q = (degree * n) as int;
    let m: nat = if degree == 0 {
        3
    } else {
        (2 * q + 3) as nat
    };
    if degree == 0 {
        assert(7 * 7 * 0 * n == 0) by (nonlinear_arith);
        assert(4 * m * m * a * a >= 0) by (nonlinear_arith);
        assert(closed_multiplicity_holds(n, degree, a, m)) by (nonlinear_arith)
            requires
                degree == 0,
        ;
    } else {
        let aa = (a * a) as int;
        assert(0 <= q) by (nonlinear_arith)
            requires
                q == degree * n,
        ;
        assert(4 * m * m * a * a == (4 * m * m) * aa) by (nonlinear_arith)
            requires
                aa == a * a,
        ;
        assert((2 * m + 1) * (2 * m + 1) * degree * n == ((2 * m + 1) * (2 * m + 1)) * q)
            by (nonlinear_arith)
            requires
                q == degree * n,
        ;
        assert((4 * m * m) * aa >= (4 * m * m) * (q + 1)) by (nonlinear_arith)
            requires
                aa >= q + 1,
        ;
        assert((4 * m * m) * (q + 1) >= ((2 * m + 1) * (2 * m + 1)) * q) by (nonlinear_arith)
            requires
                m == 2 * q + 3,
                q >= 0,
        {
            assert((4 * m * m) * (q + 1) == (4 * m * m) * q + 4 * m * m);
            assert((2 * m + 1) * (2 * m + 1) == 4 * m * m + 4 * m + 1);
            assert((4 * m * m + 4 * m + 1) * q == (4 * m * m) * q + (4 * m + 1) * q);
            assert(4 * m * m >= (4 * m + 1) * q) by {
                assert((4 * m + 1) * q <= 5 * m * q);
                assert(5 * m * q <= 4 * m * m) by {
                    assert(5 * q <= 4 * m);
                }
            }
        }
    }
    lemma_multiplicity_descends(n, degree, a, m);
}

/// Where a multiplicity is large enough, the agreement lies beyond the Johnson radius.
proof fn lemma_multiplicity_beyond_johnson(n: nat, degree: nat, a: nat, m: nat)
    requires
        closed_multiplicity_holds(n, degree, a, m),
        degree > 0,
        n > 0,
    ensures
        a * a > degree * n,
{
    let q = (degree * n) as int;
    let aa = (a * a) as int;
    assert(0 < q) by (nonlinear_arith)
        requires
            q == degree * n,
            degree > 0,
            n > 0,
    ;
    assert(4 * m * m * a * a == (4 * m * m) * aa) by (nonlinear_arith)
        requires
            aa == a * a,
    ;
    assert((2 * m + 1) * (2 * m + 1) * degree * n == ((2 * m + 1) * (2 * m + 1)) * q)
        by (nonlinear_arith)
        requires
            q == degree * n,
    ;
    if aa <= q {
        assert((4 * m * m) * aa <= (4 * m * m) * q) by (nonlinear_arith)
            requires
                aa <= q,
        ;
        assert(((2 * m + 1) * (2 * m + 1)) * q > (4 * m * m) * q) by (nonlinear_arith)
            requires
                q > 0,
        ;
    }
}

/// Whether both sides of the multiplicity condition, and what leads up to them, fit in `u128`.
spec fn multiplicity_fits(n: nat, degree: nat, a: nat, m: nat) -> bool {
    &&& 4 * m * m <= u128::MAX
    &&& 4 * m * m * a <= u128::MAX
    &&& 4 * m * m * a * a <= u128::MAX
    &&& (2 * m + 1) * (2 * m + 1) <= u128::MAX
    &&& (2 * m + 1) * (2 * m + 1) * degree <= u128::MAX
    &&& (2 * m + 1) * (2 * m + 1) * degree * n <= u128::MAX
}

/// Decides the multiplicity condition.
fn closed_m_holds(n: usize, degree: usize, agreement: usize, m: usize) -> (r: Result<bool, String>)
    ensures
        r is Ok <==> multiplicity_fits(n as nat, degree as nat, agreement as nat, m as nat),
        r matches Ok(holds) ==> holds == closed_multiplicity_holds(
            n as nat,
            degree as nat,
            agreement as nat,
            m as nat,
        ),
        r matches Err(e) ==> e@ == crate::arith::overflow_text("closed MCA multiplicity"@),
{
    let wide_m: u128 = m as u128;
    let a: u128 = agreement as u128;
    let lhs: u128 = checked_product5(4, wide_m, wide_m, a, a, "closed MCA multiplicity")?;
    let twice_m_plus_one: u128 = 2 * wide_m + 1;
    let rhs: u128 = checked_product4(
        twice_m_plus_one,
        twice_m_plus_one,
        degree as u128,
        n as u128,
        "closed MCA multiplicity",
    )?;
    Ok(lhs >= rhs)
}

/// A multiplicity that leaves `u128`, with none large enough below it, proves that the least one
/// leaves `u128` too.
proof fn lemma_multiplicity_overflows(n: nat, degree: nat, a: nat, m: nat)
    requires
        n > 0,
        m >= 3,
        !multiplicity_fits(n, degree, a, m),
        m > 3 ==> !closed_multiplicity_holds(n, degree, a, (m - 1) as nat),
        degree == 0 || a * a > degree * n,
    ensures
        ({
            let k = closed_multiplicity(n, degree, a);
            4 * k * k * a * a > u128::MAX
        }),
{
    let k = closed_multiplicity(n, degree, a);
    lemma_multiplicity_exists(n, degree, a);
    if k < m {
        lemma_multiplicity_monotone(n, degree, a, k, (m - 1) as nat);
    }
    assert(m <= k);
    if degree == 0 {
        assert((2 * 3 + 1) * (2 * 3 + 1) * 0 * n == 0) by (nonlinear_arith);
        assert(4 * 3 * 3 * a * a >= 0) by (nonlinear_arith);
        assert(is_closed_multiplicity(n, degree, a, 3));
        law_closed_multiplicity_unique(n, degree, a, 3);
        assert(k == 3 && m == 3);
        assert((2 * m + 1) * (2 * m + 1) == 49 && (2 * m + 1) * (2 * m + 1) * degree == 0 && (2 * m
            + 1) * (2 * m + 1) * degree * n == 0) by (nonlinear_arith)
            requires
                m == 3,
                degree == 0,
        ;
        assert(4 * m * m == 36);
        if a == 0 {
            assert(36 * a == 0 && 36 * a * a == 0) by (nonlinear_arith)
                requires
                    a == 0,
            ;
        } else {
            assert(36 * a <= 36 * a * a) by (nonlinear_arith)
                requires
                    a >= 1,
            ;
        }
    } else {
        assert(a >= 1) by (nonlinear_arith)
            requires
                a * a > degree * n,
        ;
        let mm = 4 * m * m;
        let kk = 4 * k * k;
        assert(mm <= kk) by (nonlinear_arith)
            requires
                m <= k,
                mm == 4 * m * m,
                kk == 4 * k * k,
        ;
        assert(mm <= mm * a <= mm * a * a) by (nonlinear_arith)
            requires
                a >= 1,
                mm >= 0,
        ;
        assert(mm * a * a <= kk * a * a) by (nonlinear_arith)
            requires
                mm <= kk,
                a >= 0,
        ;
        let mr = (2 * m + 1) * (2 * m + 1);
        let kr = (2 * k + 1) * (2 * k + 1);
        assert(0 <= mr <= kr) by (nonlinear_arith)
            requires
                m <= k,
                mr == (2 * m + 1) * (2 * m + 1),
                kr == (2 * k + 1) * (2 * k + 1),
        ;
        assert(mr <= mr * degree <= mr * degree * n) by (nonlinear_arith)
            requires
                mr >= 0,
                degree >= 1,
                n >= 1,
        ;
        assert(mr * degree * n <= kr * degree * n) by (nonlinear_arith)
            requires
                mr <= kr,
        ;
    }
}

/// Finds the least multiplicity for the closed parameter choice.
fn closed_multiplicity_search(n: usize, degree: usize, agreement: usize) -> (r: Result<
    usize,
    String,
>)
    requires
        n > 0,
    ensures
        match r {
            Ok(m) => {
                &&& is_closed_multiplicity(n as nat, degree as nat, agreement as nat, m as nat)
                &&& 4 * m * m * agreement * agreement <= u128::MAX
            },
            Err(e) => {
                let m = closed_multiplicity(n as nat, degree as nat, agreement as nat);
                &&& e@ == crate::arith::overflow_text("closed MCA multiplicity"@)
                &&& (degree > 0 && agreement * agreement <= degree * n) || 4 * m * m * agreement
                    * agreement > u128::MAX || m > usize::MAX
            },
        },
{
    let ghost (gn, gd, ga) = (n as nat, degree as nat, agreement as nat);
    let mut low: usize = 2;
    let mut high: usize = 3;
    loop
        invariant_except_break
            gn == n,
            gd == degree,
            ga == agreement,
            n > 0,
            3 <= high,
        invariant
            gn == n,
            gd == degree,
            ga == agreement,
            2 <= low < high,
            low > 2 ==> !closed_multiplicity_holds(gn, gd, ga, low as nat),
        ensures
            !multiplicity_fits(gn, gd, ga, high as nat) || closed_multiplicity_holds(
                gn,
                gd,
                ga,
                high as nat,
            ),
        decreases usize::MAX - high,
    {
        match closed_m_holds(n, degree, agreement, high) {
            Ok(false) => {},
            _ => {
                break;
            },
        }
        if high == usize::MAX {
            proof {
                if degree == 0 || agreement * agreement > degree * n {
                    let m = closed_multiplicity(gn, gd, ga);
                    lemma_multiplicity_exists(gn, gd, ga);
                    if m <= high {
                        lemma_multiplicity_monotone(gn, gd, ga, m, high as nat);
                    }
                }
            }
            return Err("closed MCA multiplicity".to_owned().concat(": integer overflow"));
        }
        low = high;
        high = if high > usize::MAX / 2 {
            usize::MAX
        } else {
            2 * high
        };
    }
    while low + 1 < high
        invariant
            gn == n,
            gd == degree,
            ga == agreement,
            2 <= low < high,
            low > 2 ==> !closed_multiplicity_holds(gn, gd, ga, low as nat),
            !multiplicity_fits(gn, gd, ga, high as nat) || closed_multiplicity_holds(
                gn,
                gd,
                ga,
                high as nat,
            ),
        decreases high - low,
    {
        let middle: usize = low + (high - low) / 2;
        match closed_m_holds(n, degree, agreement, middle) {
            Ok(false) => {
                low = middle;
            },
            _ => {
                high = middle;
            },
        }
    }
    match closed_m_holds(n, degree, agreement, high) {
        Ok(_) => Ok(high),
        Err(e) => {
            proof {
                if degree == 0 || agreement * agreement > degree * n {
                    lemma_multiplicity_overflows(gn, gd, ga, high as nat);
                }
            }
            Err(e)
        },
    }
}

/// Whether `b` is the largest number with `4 b^2 degree` below `bound`.
spec fn is_last_below(bound: nat, degree: nat, b: nat) -> bool {
    4 * b * b * degree < bound <= 4 * (b + 1) * (b + 1) * degree
}

proof fn lemma_quadruple_square_monotone(degree: nat, b: nat, c: nat)
    requires
        b <= c,
    ensures
        4 * b * b * degree <= 4 * c * c * degree,
        4 * b * b <= 4 * c * c,
        degree > 0 ==> 4 * b * b <= 4 * b * b * degree,
{
    let x = 4 * b * b;
    let y = 4 * c * c;
    assert(x <= y) by (nonlinear_arith)
        requires
            b <= c,
            x == 4 * b * b,
            y == 4 * c * c,
    ;
    assert(x * degree <= y * degree) by (nonlinear_arith)
        requires
            x <= y,
    ;
    if degree > 0 {
        assert(x <= x * degree) by (nonlinear_arith)
            requires
                x >= 0,
                degree >= 1,
        ;
    }
}

proof fn lemma_last_below_unique(bound: nat, degree: nat, b: nat, c: nat)
    requires
        is_last_below(bound, degree, b),
        is_last_below(bound, degree, c),
    ensures
        b == c,
{
    if b < c {
        lemma_quadruple_square_monotone(degree, b + 1, c);
    } else if c < b {
        lemma_quadruple_square_monotone(degree, c + 1, b);
    }
}

proof fn lemma_last_below_exists(bound: nat, degree: nat, k: nat)
    requires
        0 < bound <= 4 * (k + 1) * (k + 1) * degree,
    ensures
        exists|b: nat| is_last_below(bound, degree, b),
    decreases k,
{
    if 4 * k * k * degree < bound {
        assert(is_last_below(bound, degree, k));
    } else {
        assert(k > 0) by {
            assert(4 * 0 * 0 * degree == 0) by (nonlinear_arith);
        }
        assert((k - 1) + 1 == k);
        lemma_last_below_exists(bound, degree, (k - 1) as nat);
    }
}

proof fn lemma_jet_degree_exists(n: nat, degree: nat, m: nat)
    requires
        n > 0,
        degree > 0,
    ensures
        is_closed_jet_degree(n, degree, m, closed_jet_degree(n, degree, m)),
{
    let bound = jet_bound(n, m);
    assert(bound > 0) by (nonlinear_arith)
        requires
            bound == (2 * m + 1) * (2 * m + 1) * n,
            n > 0,
    ;
    assert(bound <= 4 * (bound + 1) * (bound + 1) * degree) by (nonlinear_arith)
        requires
            degree >= 1,
            bound > 0,
    ;
    lemma_last_below_exists(bound, degree, bound);
    let b = choose|b: nat| is_last_below(bound, degree, b);
    assert(is_closed_jet_degree(n, degree, m, b));
}

/// The closed jet degree is the only one of its kind.
pub proof fn law_closed_jet_degree_unique(n: nat, degree: nat, m: nat, b: nat)
    requires
        is_closed_jet_degree(n, degree, m, b),
    ensures
        closed_jet_degree(n, degree, m) == b,
{
    let c = closed_jet_degree(n, degree, m);
    assert(is_closed_jet_degree(n, degree, m, c));
    lemma_last_below_unique(jet_bound(n, m), degree, b, c);
}

/// Decides `4 b^2 degree < bound`.
fn jet_holds(bound: u128, degree: usize, b: usize) -> (r: Result<bool, String>)
    ensures
        r is Ok <==> 4 * b * b <= u128::MAX && 4 * b * b * degree <= u128::MAX,
        r matches Ok(holds) ==> holds == (4 * b * b * degree < bound),
        r matches Err(e) ==> e@ == crate::arith::overflow_text("closed MCA jet degree"@),
{
    let wide_b: u128 = b as u128;
    Ok(checked_product4(4, wide_b, wide_b, degree as u128, "closed MCA jet degree")? < bound)
}

/// Finds the largest `b` with `4 b^2 degree < bound`.
fn closed_jet_search(bound: u128, degree: usize) -> (r: Result<usize, String>)
    requires
        bound > 0,
    ensures
        match r {
            Ok(b) => {
                &&& degree > 0
                &&& is_last_below(bound as nat, degree as nat, b as nat)
                &&& 4 * (b + 1) * (b + 1) * degree <= u128::MAX
                &&& b + 1 <= usize::MAX
            },
            Err(e) => {
                &&& e@ == crate::arith::overflow_text("closed MCA jet degree"@)
                &&& degree == 0 || forall|b: nat|
                    #![trigger is_last_below(bound as nat, degree as nat, b)]
                    is_last_below(bound as nat, degree as nat, b) ==> 4 * (b + 1) * (b + 1) * degree
                        > u128::MAX || b + 1 > usize::MAX
            },
        },
{
    let mut low: usize = 0;
    let mut high: usize = 1;
    loop
        invariant
            bound > 0,
            low < high,
            4 * low * low * degree < bound,
        ensures
            4 * high * high > u128::MAX || 4 * high * high * degree >= bound,
        decreases usize::MAX - high,
    {
        match jet_holds(bound, degree, high) {
            Ok(true) => {},
            _ => {
                break;
            },
        }
        if high == usize::MAX {
            proof {
                assert forall|b: nat|
                    #![trigger is_last_below(bound as nat, degree as nat, b)]
                    is_last_below(bound as nat, degree as nat, b) implies 4 * (b + 1) * (b + 1)
                    * degree > u128::MAX || b + 1 > usize::MAX by {
                    if b + 1 <= high {
                        lemma_quadruple_square_monotone(degree as nat, b + 1, high as nat);
                    }
                }
            }
            return Err("closed MCA jet degree".to_owned().concat(": integer overflow"));
        }
        low = high;
        high = if high > usize::MAX / 2 {
            usize::MAX
        } else {
            2 * high
        };
    }
    while low + 1 < high
        invariant
            low < high,
            4 * low * low * degree < bound,
            4 * high * high > u128::MAX || 4 * high * high * degree >= bound,
        decreases high - low,
    {
        let middle: usize = low + (high - low) / 2;
        match jet_holds(bound, degree, middle) {
            Ok(true) => {
                low = middle;
            },
            _ => {
                high = middle;
            },
        }
    }
    match jet_holds(bound, degree, high) {
        Ok(_) => {
            proof {
                assert(4 * (low + 1) * (low + 1) * degree >= bound);
                assert(degree > 0) by {
                    if degree == 0 {
                        assert(4 * high * high * 0 == 0);
                    }
                }
            }
            Ok(low)
        },
        Err(e) => {
            proof {
                assert forall|b: nat|
                    #![trigger is_last_below(bound as nat, degree as nat, b)]
                    degree > 0 && is_last_below(bound as nat, degree as nat, b) implies 4 * (b + 1)
                    * (b + 1) * degree > u128::MAX || b + 1 > usize::MAX by {
                    lemma_quadruple_square_monotone(degree as nat, high as nat, high as nat);
                    assert(is_last_below(bound as nat, degree as nat, low as nat));
                    lemma_last_below_unique(bound as nat, degree as nat, b, low as nat);
                }
            }
            Err(e)
        },
    }
}

/// The certificate of the closed parameter choice at one rate, message dimension and agreement.
pub fn closed_capacity_certificate(
    log_inv_rate: usize,
    log_msg_cols: usize,
    agreement: usize,
) -> (r: Result<CapacityMcaCertificate, String>)
    requires
        log_msg_cols + log_inv_rate < usize::BITS,
    ensures
        crate::text::outcome(r) == closed_outcome(
            crate::code::block_length(log_inv_rate as nat, log_msg_cols as nat),
            crate::code::max_degree(log_msg_cols as nat),
            agreement as nat,
        ),
{
    let (degree, n) = reduced_rate(log_inv_rate, log_msg_cols);
    let ghost (gn, gd, ga) = (n as nat, degree as nat, agreement as nat);
    let interpolation_m: usize = closed_multiplicity_search(n, degree, agreement)?;
    let ghost gm = interpolation_m as nat;
    proof {
        law_closed_multiplicity_unique(gn, gd, ga, gm);
        if degree > 0 {
            lemma_multiplicity_beyond_johnson(gn, gd, ga, gm);
        }
    }
    let twice_m_plus_one: u128 = 2 * interpolation_m as u128 + 1;
    proof {
        assert((2 * gm + 1) * (2 * gm + 1) <= jet_bound(gn, gm)) by (nonlinear_arith)
            requires
                jet_bound(gn, gm) == (2 * gm + 1) * (2 * gm + 1) * gn,
                gn >= 1,
        ;
        assert((2 * gm + 1) * (2 * gm + 1) > 0) by (nonlinear_arith);
    }
    let jet_rhs: u128 = checked_product3(
        twice_m_plus_one,
        twice_m_plus_one,
        n as u128,
        "closed MCA jet degree",
    )?;
    proof {
        if degree > 0 {
            lemma_jet_degree_exists(gn, gd, gm);
            assert(is_last_below(jet_rhs as nat, gd, closed_jet_degree(gn, gd, gm)));
        }
    }
    let jet_degree: usize = closed_jet_search(jet_rhs, degree)?;
    proof {
        lemma_last_below_unique(
            jet_rhs as nat,
            gd,
            jet_degree as nat,
            closed_jet_degree(gn, gd, gm),
        );
    }
    let height: u128 = (jet_rhs - 1) / checked_product2(12, degree as u128, "closed MCA height")?;
    if height > usize::MAX as u128 {
        return Err("closed MCA height does not fit usize".to_owned());
    }
    let interpolation_height: usize = height as usize;
    proof {
        assert(ga >= gd) by (nonlinear_arith)
            requires
                ga * ga > gd * gn,
                gd < gn,
        ;
        lemma_mul_is_commutative(gd as int, gn as int);
    }
    let list_bound: usize = johnson_list_bound(n, degree, agreement, jet_degree)?;
    validate_interpolation_support(
        n,
        degree,
        agreement,
        interpolation_m,
        jet_degree,
        interpolation_height,
    )?;
    Ok(
        CapacityMcaCertificate {
            agreement,
            interpolation_m,
            jet_degree,
            interpolation_height,
            list_bound,
            variant: JohnsonCertificateVariant::Closed,
        },
    )
}

/// The finite certificates: multiplicity, jet degree and height for one code, agreement and query
/// count.
pub open spec fn finite_support(n: nat, degree: nat, a: nat, queries: nat) -> Option<
    (usize, usize, usize),
> {
    if n == 131_072 && degree == 65_535 && a == 92_682 && queries == 222 {
        Some((24_954, 35_290, 606_738_001))
    } else {
        None
    }
}

/// A finite certificate that reaches the query-only Johnson floor, where there is one. Its
/// parameters are checked like those of the closed choice before they are used.
pub fn finite_capacity_support(n: usize, degree: usize, agreement: usize, queries: usize) -> (r:
    Option<(usize, usize, usize)>)
    ensures
        r == finite_support(n as nat, degree as nat, agreement as nat, queries as nat),
{
    if n == 131_072 && degree == 65_535 && agreement == 92_682 && queries == 222 {
        Some((24_954, 35_290, 606_738_001))
    } else {
        None
    }
}

/// The certificate for one code, agreement and query count: the finite one where there is one,
/// else the closed one.
pub open spec fn capacity_outcome(n: nat, degree: nat, a: nat, queries: nat) -> Result<
    CapacityMcaCertificate,
    Seq<char>,
> {
    match closed_outcome(n, degree, a) {
        Err(e) => Err(e),
        Ok(closed) => match finite_support(n, degree, a, queries) {
            None => Ok(closed),
            Some((m, b, height)) => match support_outcome(
                n,
                degree,
                a,
                m as nat,
                b as nat,
                height as nat,
            ) {
                Err(e) => Err(e),
                Ok(_) => Ok(
                    CapacityMcaCertificate {
                        agreement: a as usize,
                        interpolation_m: m,
                        jet_degree: b,
                        interpolation_height: height,
                        list_bound: list_bound(n, degree, a, b as nat) as usize,
                        variant: JohnsonCertificateVariant::Finite,
                    },
                ),
            },
        },
    }
}

/// The certificate for one rate, message dimension, agreement and query count.
pub fn capacity_certificate(
    log_inv_rate: usize,
    log_msg_cols: usize,
    agreement: usize,
    queries: usize,
) -> (r: Result<CapacityMcaCertificate, String>)
    requires
        log_msg_cols + log_inv_rate < usize::BITS,
    ensures
        crate::text::outcome(r) == capacity_outcome(
            crate::code::block_length(log_inv_rate as nat, log_msg_cols as nat),
            crate::code::max_degree(log_msg_cols as nat),
            agreement as nat,
            queries as nat,
        ),
{
    let mut certificate = closed_capacity_certificate(log_inv_rate, log_msg_cols, agreement)?;
    let (degree, n) = reduced_rate(log_inv_rate, log_msg_cols);
    if let Some((interpolation_m, jet_degree, interpolation_height)) = finite_capacity_support(
        n,
        degree,
        agreement,
        queries,
    ) {
        validate_interpolation_support(
            n,
            degree,
            agreement,
            interpolation_m,
            jet_degree,
            interpolation_height,
        )?;
        certificate.interpolation_m = interpolation_m;
        certificate.jet_degree = jet_degree;
        certificate.interpolation_height = interpolation_height;
        certificate.list_bound = johnson_list_bound(n, degree, agreement, jet_degree)?;
        certificate.variant = JohnsonCertificateVariant::Finite;
    }
    Ok(certificate)
}

proof fn lemma_height_nonnegative(n: nat, degree: nat, m: nat)
    requires
        n >= 1,
        degree >= 1,
    ensures
        closed_height(n, degree, m) >= 0,
{
    let top = jet_bound(n, m) - 1;
    assert(jet_bound(n, m) >= 1) by (nonlinear_arith)
        requires
            jet_bound(n, m) == (2 * m + 1) * (2 * m + 1) * n,
            n >= 1,
    ;
    assert(top / (12 * degree as int) >= 0) by (nonlinear_arith)
        requires
            top >= 0,
            degree > 0,
    ;
}

/// A certificate that is handed out stands: its agreement is the one asked for and lies beyond the
/// Johnson radius, its parameters pass the interpolation check, and its list bound is that of its
/// jet degree and never exceeds it.
pub proof fn law_certificate_stands(n: nat, degree: nat, a: nat, queries: nat)
    requires
        a <= usize::MAX,
    ensures
        capacity_outcome(n, degree, a, queries) matches Ok(certificate) ==> {
            &&& certificate.agreement == a
            &&& a * a > n * degree
            &&& 0 < degree < a <= n
            &&& support_outcome(
                n,
                degree,
                a,
                certificate.interpolation_m as nat,
                certificate.jet_degree as nat,
                certificate.interpolation_height as nat,
            ) == Ok::<(), Seq<char>>(())
            &&& certificate.list_bound == list_bound(n, degree, a, certificate.jet_degree as nat)
            &&& certificate.list_bound <= certificate.jet_degree
            &&& certificate.jet_degree > 0
        },
{
    if let Ok(certificate) = capacity_outcome(n, degree, a, queries) {
        let m = closed_multiplicity(n, degree, a);
        assert(n * degree == degree * n) by (nonlinear_arith);
        assert(support_outcome(
            n,
            degree,
            a,
            m,
            closed_jet_degree(n, degree, m),
            closed_height(n, degree, m) as nat,
        ) is Ok);
        let numerator = n * (a - degree);
        let denominator = a * a - n * degree;
        assert(numerator >= 0) by (nonlinear_arith)
            requires
                numerator == n * (a - degree),
                a >= degree,
        ;
        assert(numerator / denominator >= 0) by (nonlinear_arith)
            requires
                numerator >= 0,
                denominator > 0,
        ;
        lemma_height_nonnegative(n, degree, m);
    }
}

/// What the closed parameter choice chooses: the least multiplicity, from 3 on, that is large
/// enough, the greatest jet degree below the bound of that multiplicity, the height that goes with
/// it, and the Johnson list bound at that jet degree.
pub proof fn law_closed_choice(n: nat, degree: nat, a: nat)
    requires
        a <= usize::MAX,
    ensures
        closed_outcome(n, degree, a) matches Ok(certificate) ==> {
            let m = certificate.interpolation_m as nat;
            let b = certificate.jet_degree as nat;
            &&& certificate.agreement == a
            &&& certificate.variant == JohnsonCertificateVariant::Closed
            &&& is_closed_multiplicity(n, degree, a, m)
            &&& forall|k: nat|
                3 <= k < m ==> !#[trigger] closed_multiplicity_holds(n, degree, a, k)
            &&& is_closed_jet_degree(n, degree, m, b)
            &&& forall|c: nat| b < c ==> #[trigger] (4 * c * c * degree) >= jet_bound(n, m)
            &&& certificate.interpolation_height == closed_height(n, degree, m)
            &&& certificate.list_bound == list_bound(n, degree, a, b)
        },
{
    if let Ok(certificate) = closed_outcome(n, degree, a) {
        let m = closed_multiplicity(n, degree, a);
        let b = closed_jet_degree(n, degree, m);
        // A query count for which there is no finite certificate.
        law_certificate_stands(n, degree, a, 0);
        lemma_multiplicity_exists(n, degree, a);
        lemma_jet_degree_exists(n, degree, m);
        assert forall|k: nat| 3 <= k < m implies !#[trigger] closed_multiplicity_holds(
            n,
            degree,
            a,
            k,
        ) by {
            if closed_multiplicity_holds(n, degree, a, k) {
                lemma_multiplicity_monotone(n, degree, a, k, (m - 1) as nat);
            }
        }
        assert forall|c: nat| b < c implies #[trigger] (4 * c * c * degree) >= jet_bound(n, m) by {
            lemma_quadruple_square_monotone(degree, b + 1, c);
        }
        lemma_height_nonnegative(n, degree, m);
    }
}

/// One code, agreement and query count alone has a finite certificate; everywhere else the
/// certificate is the closed one, errors included, and the query count has no influence.
pub proof fn law_certificate_choice(log_inv_rate: nat, log_msg_cols: nat, a: nat, queries: nat)
    ensures
        ({
            let n = crate::code::block_length(log_inv_rate, log_msg_cols);
            let degree = crate::code::max_degree(log_msg_cols);
            let outcome = capacity_outcome(n, degree, a, queries);
            if log_inv_rate == 1 && log_msg_cols == 16 && a == 92_682 && queries == 222 {
                outcome matches Ok(certificate) ==> certificate.variant
                    == JohnsonCertificateVariant::Finite
            } else {
                &&& outcome == closed_outcome(n, degree, a)
                &&& outcome matches Ok(certificate) ==> certificate.variant
                    == JohnsonCertificateVariant::Closed
            }
        }),
{
    lemma2_to64();
    lemma_pow2_pos(log_msg_cols);
    if log_msg_cols < 16 {
        lemma_pow2_strictly_increases(log_msg_cols, 16);
    } else if log_msg_cols > 16 {
        lemma_pow2_strictly_increases(16, log_msg_cols);
    }
    let log_n = log_msg_cols + log_inv_rate;
    if log_n < 17 {
        lemma_pow2_strictly_increases(log_n, 17);
    } else if log_n > 17 {
        lemma_pow2_strictly_increases(17, log_n);
    }
}

} // verus!
