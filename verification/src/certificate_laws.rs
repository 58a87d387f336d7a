//! What interpolation certificates certify, counted out: more unknowns than equations, the extreme
//! parameters of the closed choice, and the Johnson bound on lists.

use vstd::prelude::*;
use vstd::arithmetic::div_mod::*;
use vstd::arithmetic::mul::*;
use crate::certificate::JohnsonCertificateVariant;

verus! {

/// `c + (c - d) + (c - 2 d) + ... + (c - k d)`.
pub open spec fn falling_sum(c: int, d: int, k: nat) -> int
    decreases k,
{
    if k == 0 {
        c
    } else {
        falling_sum(c, d, (k - 1) as nat) + (c - d * k)
    }
}

/// `c h + (c - d) (h - 1) + ... + (c - k d) (h - k)`.
pub open spec fn falling_products(c: int, d: int, h: int, k: nat) -> int
    decreases k,
{
    if k == 0 {
        c * h
    } else {
        falling_products(c, d, h, (k - 1) as nat) + (c - d * k) * (h - k)
    }
}

/// The unknowns of an interpolation of multiplicity `m` up to jet degree `b` and height `h`: jet
/// `j` has coefficients of degree below `m a - D j` in one variable, and `h + 1 - j` in the other.
pub open spec fn unknowns(degree: nat, a: nat, m: nat, b: nat, height: nat) -> int {
    falling_products((m * a) as int, degree as int, (height + 1) as int, b)
}

/// The equations that one position puts on it: jet `j` vanishes to order `m - j`, at each of
/// `h + 1 - j` places.
pub open spec fn equations(m: nat, b: nat, height: nat) -> int {
    falling_products(
        m as int,
        1,
        (height + 1) as int,
        if b < m {
            b
        } else {
            (m - 1) as nat
        },
    )
}

/// Triangular numbers and sums of squares, each from the one before.
proof fn lemma_sums_step(k: nat)
    ensures
        crate::certificate::triangle(0) == 0,
        crate::certificate::square_sum(0) == 0,
        crate::certificate::triangle(k + 1) == crate::certificate::triangle(k) + (k + 1),
        crate::certificate::square_sum(k + 1) == crate::certificate::square_sum(k) + (k + 1) * (k + 1),
{
    assert((k + 1) * (k + 1 + 1) == k * (k + 1) + 2 * (k + 1)) by (nonlinear_arith);
    let below = k * (k + 1) * (2 * k + 1);
    let square = (k + 1) * (k + 1);
    assert((k + 1) * (k + 1 + 1) * (2 * (k + 1) + 1) == below + 6 * square) by (nonlinear_arith)
        requires
            below == k * (k + 1) * (2 * k + 1),
            square == (k + 1) * (k + 1),
    ;
    assert(0 * (0 + 1) * (2 * 0 + 1) == 0);
}

/// Both sums in closed form.
proof fn lemma_falling(c: int, d: int, h: int, k: nat)
    ensures
        falling_sum(c, d, k) == (k + 1) * c - d * crate::certificate::triangle(k),
        falling_products(c, d, h, k) == h * ((k + 1) * c - d * crate::certificate::triangle(k)) - (c * crate::certificate::triangle(k) - d
            * crate::certificate::square_sum(k)),
    decreases k,
{
    if k == 0 {
        lemma_sums_step(0);
        assert((0 + 1) * c - d * 0 == c && c * 0 - d * 0 == 0) by (nonlinear_arith);
        assert(h * c == c * h) by (nonlinear_arith);
    } else {
        let l = (k - 1) as nat;
        lemma_falling(c, d, h, l);
        lemma_sums_step(l);
        let (x, u, w) = (k as int, crate::certificate::triangle(l) as int, crate::certificate::square_sum(l) as int);
        let (t, s) = (u + x, w + x * x);
        assert(t == crate::certificate::triangle(k) && s == crate::certificate::square_sum(k));
        let before = x * c - d * u;
        let here = c - d * x;
        assert((x + 1) * c - d * t == before + here) by (nonlinear_arith)
            requires
                t == u + x,
                before == x * c - d * u,
                here == c - d * x,
        ;
        assert(h * (before + here) == h * before + h * here) by (nonlinear_arith);
        assert(c * t - d * s == (c * u - d * w) + here * x) by (nonlinear_arith)
            requires
                t == u + x,
                s == w + x * x,
                here == c - d * x,
        ;
        assert(here * (h - x) == h * here - here * x) by (nonlinear_arith);
    }
}

/// The counts of an interpolation in closed form.
proof fn lemma_interpolation_counts(degree: nat, a: nat, m: nat, b: nat, height: nat)
    requires
        m > 0,
    ensures
        unknowns(degree, a, m, b, height) == (height + 1) * crate::certificate::variables_slope(degree, a, m, b)
            - crate::certificate::variables_moment(degree, a, m, b),
        equations(m, b, height) == (height + 1) * crate::certificate::equations_slope(m, b) - crate::certificate::equations_moment(m, b),
        falling_sum((m * a) as int, degree as int, b) == crate::certificate::variables_slope(degree, a, m, b),
        falling_sum(m as int, 1, crate::certificate::equation_cutoff(m, b)) == crate::certificate::equations_slope(m, b),
{
    let h = (height + 1) as int;
    lemma_falling((m * a) as int, degree as int, h, b);
    lemma_falling(m as int, 1, h, crate::certificate::equation_cutoff(m, b));
    assert((b + 1) * m * a == (b + 1) * (m * a)) by (nonlinear_arith);
}

/// An interpolation certificate that passes stands on a count: at its height, and at every larger
/// one, the unknowns outnumber the equations of all `n` positions. Its jet degree stays below what
/// the agreements allow, and its height is no smaller than its jet degree.
pub proof fn law_interpolation_supported(
    n: nat,
    degree: nat,
    a: nat,
    m: nat,
    b: nat,
    height: nat,
    larger: nat,
)
    requires
        crate::certificate::support_outcome(n, degree, a, m, b, height) == Ok::<(), Seq<char>>(()),
        height <= larger,
    ensures
        0 < degree < a <= n,
        0 < m,
        0 < b <= height,
        b * degree < m * a,
        falling_sum((m * a) as int, degree as int, b) > n * falling_sum(
            m as int,
            1,
            if b < m {
                b
            } else {
                (m - 1) as nat
            },
        ),
        unknowns(degree, a, m, b, height) > n * equations(m, b, height),
        unknowns(degree, a, m, b, larger) > n * equations(m, b, larger),
{
    lemma_interpolation_counts(degree, a, m, b, height);
    lemma_interpolation_counts(degree, a, m, b, larger);
    lemma_jet_below(degree, a, m, b);
    lemma_count_decides(n, degree, a, m, b, height);
    lemma_count_decides(n, degree, a, m, b, larger);
}

/// A jet degree is within the limit if and only if its agreements allow it.
proof fn lemma_jet_below(degree: nat, a: nat, m: nat, b: nat)
    requires
        degree > 0,
    ensures
        b <= crate::certificate::jet_limit(degree, a, m) <==> b * degree < m * a,
{
    let x = m * a - 1;
    let q = crate::certificate::jet_limit(degree, a, m);
    lemma_fundamental_div_mod(x, degree as int);
    lemma_mod_bound(x, degree as int);
    if b <= q {
        assert(b * degree <= degree * q) by (nonlinear_arith)
            requires
                b <= q,
                degree > 0,
        ;
    } else {
        assert(b * degree >= degree * q + degree) by (nonlinear_arith)
            requires
                b >= q + 1,
                degree > 0,
        ;
    }
}

/// With a positive surplus per unit of height, a height is large enough by its moments if and only
/// if the unknowns outnumber the equations.
proof fn lemma_count_decides(n: nat, degree: nat, a: nat, m: nat, b: nat, height: nat)
    requires
        m > 0,
        crate::certificate::surplus_slope(n, degree, a, m, b) > 0,
    ensures
        height >= crate::certificate::required_height(n, degree, a, m, b) <==> height >= b
            && unknowns(degree, a, m, b, height) > n * equations(m, b, height),
{
    let slope = crate::certificate::surplus_slope(n, degree, a, m, b);
    let (vs, vm) = (
        crate::certificate::variables_slope(degree, a, m, b),
        crate::certificate::variables_moment(degree, a, m, b),
    );
    let (es, em) = (
        crate::certificate::equations_slope(m, b),
        crate::certificate::equations_moment(m, b),
    );
    let excess = vm - n * em;
    let h = (height + 1) as int;
    lemma_interpolation_counts(degree, a, m, b, height);
    assert(n * (h * es - em) == h * (n * es) - n * em) by (nonlinear_arith);
    assert(h * vs - h * (n * es) == h * slope) by (nonlinear_arith)
        requires
            slope == vs - n * es,
    ;
    assert(unknowns(degree, a, m, b, height) - n * equations(m, b, height) == h * slope - excess);
    if excess > 0 {
        lemma_fundamental_div_mod(excess, slope);
        lemma_mod_bound(excess, slope);
        let q = excess / slope;
        if height >= q {
            assert(h * slope >= slope * q + slope) by (nonlinear_arith)
                requires
                    h >= q + 1,
                    slope > 0,
            ;
        } else {
            assert(h * slope <= slope * q) by (nonlinear_arith)
                requires
                    h <= q,
                    slope > 0,
            ;
        }
    } else {
        assert(h * slope > 0) by (nonlinear_arith)
            requires
                h > 0,
                slope > 0,
        ;
    }
}

/// The count is all that an interpolation certificate has to pass: wherever the products that
/// decide it fit their type, valid parameters whose unknowns outnumber the equations, at every
/// unit of height and in all, pass; others do not.
pub proof fn law_interpolation_decided(n: nat, degree: nat, a: nat, m: nat, b: nat, height: nat)
    requires
        b * (b + 1) * (2 * b + 1) <= u128::MAX,
        (b + 1) * m * a <= u128::MAX,
        m * a * (b * (b + 1) / 2) <= u128::MAX,
        n * (m * m) <= u128::MAX,
        n * (m * (b * (b + 1) / 2)) <= u128::MAX,
    ensures
        crate::certificate::support_outcome(n, degree, a, m, b, height) is Ok <==> {
            &&& 0 < degree < a <= n
            &&& 0 < m
            &&& 0 < b <= height
            &&& b * degree < m * a
            &&& falling_sum((m * a) as int, degree as int, b) > n * falling_sum(
                m as int,
                1,
                if b < m {
                    b
                } else {
                    (m - 1) as nat
                },
            )
            &&& unknowns(degree, a, m, b, height) > n * equations(m, b, height)
        },
{
    if 0 < degree < a <= n && 0 < m && 0 < b {
        lemma_jet_below(degree, a, m, b);
        lemma_interpolation_counts(degree, a, m, b, height);
        crate::certificate::lemma_equations(m, b);
        let es = crate::certificate::equations_slope(m, b);
        let em = crate::certificate::equations_moment(m, b);
        let t = crate::certificate::triangle(b) as int;
        assert(n * es <= n * (m * m)) by (nonlinear_arith)
            requires
                es <= m * m,
                n >= 0,
        ;
        assert(n * em <= n * (m * t)) by (nonlinear_arith)
            requires
                em <= m * t,
                n >= 0,
        ;
        if crate::certificate::surplus_slope(n, degree, a, m, b) > 0 {
            lemma_count_decides(n, degree, a, m, b, height);
        }
    }
}

/// What the closed parameter choice chooses, each choice by what it is extreme for: the least
/// multiplicity `m` from 3 on with `2 m a >= (2 m + 1) sqrt(D n)`, the greatest jet degree `b` with
/// `2 b sqrt(D) < (2 m + 1) sqrt(n)`, the greatest height with `12 D h < (2 m + 1)^2 n`, and the
/// greatest list that both the jet degree and the pairwise agreements allow.
pub proof fn law_closed_parameters(n: nat, degree: nat, a: nat)
    requires
        a <= usize::MAX,
    ensures
        crate::certificate::closed_outcome(n, degree, a) matches Ok(certificate) ==> {
            let m = certificate.interpolation_m as nat;
            let b = certificate.jet_degree as nat;
            let h = certificate.interpolation_height as nat;
            let list = certificate.list_bound as nat;
            &&& certificate.agreement == a
            &&& certificate.variant == JohnsonCertificateVariant::Closed
            &&& 0 < degree < a <= n
            &&& a * a > n * degree
            &&& m >= 3
            &&& 4 * m * m * a * a >= (2 * m + 1) * (2 * m + 1) * degree * n
            &&& forall|k: nat|
                3 <= k < m ==> #[trigger] (4 * k * k * a * a) < (2 * k + 1) * (2 * k + 1) * degree
                    * n
            &&& 4 * b * b * degree < (2 * m + 1) * (2 * m + 1) * n <= 4 * (b + 1) * (b + 1) * degree
            &&& h * (12 * degree) < (2 * m + 1) * (2 * m + 1) * n <= (h + 1) * (12 * degree)
            &&& 0 < b <= h
            &&& b * degree < m * a
            &&& unknowns(degree, a, m, b, h) > n * equations(m, b, h)
            &&& list <= b
            &&& list * (a * a - n * degree) <= n * (a - degree)
            &&& list < b ==> (list + 1) * (a * a - n * degree) > n * (a - degree)
        },
{
    if let Ok(certificate) = crate::certificate::closed_outcome(n, degree, a) {
        let m = certificate.interpolation_m as nat;
        let b = certificate.jet_degree as nat;
        let h = certificate.interpolation_height as nat;
        crate::certificate::law_closed_choice(n, degree, a);
        // A query count for which there is no finite certificate.
        crate::certificate::law_certificate_stands(n, degree, a, 0);
        law_interpolation_supported(n, degree, a, m, b, h, h);
        lemma_quotient((2 * m + 1) * (2 * m + 1) * n - 1, 12 * degree as int);
        assert forall|k: nat| 3 <= k < m implies #[trigger] (4 * k * k * a * a) < (2 * k + 1) * (2
            * k + 1) * degree * n by {
            assert(!crate::certificate::closed_multiplicity_holds(n, degree, a, k));
        }
        law_list_bound(n, degree, a, b);
    }
}

/// What a quotient is.
proof fn lemma_quotient(x: int, d: int)
    requires
        d > 0,
    ensures
        (x / d) * d <= x < (x / d + 1) * d,
{
    let q = x / d;
    lemma_fundamental_div_mod(x, d);
    lemma_mod_bound(x, d);
    assert(q * d == d * q && (q + 1) * d == d * q + d) by (nonlinear_arith);
}

/// The list bound is the greatest list that is no longer than the jet degree and whose pairwise
/// agreements fit: `l (a^2 - n D) <= n (a - D)`.
pub proof fn law_list_bound(n: nat, degree: nat, a: nat, b: nat)
    requires
        degree <= a,
        a * a > n * degree,
    ensures
        ({
            let list = crate::certificate::list_bound(n, degree, a, b);
            &&& 0 <= list <= b
            &&& list * (a * a - n * degree) <= n * (a - degree)
            &&& list < b ==> (list + 1) * (a * a - n * degree) > n * (a - degree)
        }),
{
    let top = n * (a - degree);
    let d = a * a - n * degree;
    let list = crate::certificate::list_bound(n, degree, a, b);
    lemma_quotient(top, d);
    assert(top >= 0) by (nonlinear_arith)
        requires
            top == n * (a - degree),
            degree <= a,
    ;
    let q = top / d;
    assert(q >= 0) by (nonlinear_arith)
        requires
            q == top / d,
            top >= 0,
            d > 0,
    ;
    assert(list * d <= q * d) by (nonlinear_arith)
        requires
            list <= q,
            d > 0,
    ;
}

/// When the closed choice gives a certificate: wherever its extreme parameters stand, that is
/// their unknowns outnumber the equations, and what decides them fits its type.
pub proof fn law_closed_given(n: nat, degree: nat, a: nat, m: nat, b: nat, h: nat)
    requires
        0 < degree,
        a * a > n * degree,
        m >= 3,
        4 * m * m * a * a >= (2 * m + 1) * (2 * m + 1) * degree * n,
        m > 3 ==> 4 * (m - 1) * (m - 1) * a * a < (2 * (m - 1) + 1) * (2 * (m - 1) + 1) * degree
            * n,
        4 * b * b * degree < (2 * m + 1) * (2 * m + 1) * n <= 4 * (b + 1) * (b + 1) * degree,
        h * (12 * degree) < (2 * m + 1) * (2 * m + 1) * n <= (h + 1) * (12 * degree),
        m <= usize::MAX,
        b < usize::MAX,
        h <= usize::MAX,
        4 * m * m * a * a <= u128::MAX,
        4 * (b + 1) * (b + 1) * degree <= u128::MAX,
        crate::certificate::support_outcome(n, degree, a, m, b, h) is Ok,
    ensures
        crate::certificate::closed_outcome(n, degree, a) matches Ok(certificate) && {
            &&& certificate.interpolation_m == m
            &&& certificate.jet_degree == b
            &&& certificate.interpolation_height == h
        },
{
    assert(n * degree == degree * n) by (nonlinear_arith);
    assert(crate::certificate::is_closed_multiplicity(n, degree, a, m));
    crate::certificate::law_closed_multiplicity_unique(n, degree, a, m);
    assert(crate::certificate::is_closed_jet_degree(n, degree, m, b));
    crate::certificate::law_closed_jet_degree_unique(n, degree, m, b);
    let top = (2 * m + 1) * (2 * m + 1) * n - 1;
    let d = 12 * degree as int;
    lemma_quotient(top, d);
    let q = top / d;
    if q < h {
        assert((q + 1) * d <= h * d) by (nonlinear_arith)
            requires
                q + 1 <= h,
                d > 0,
        ;
    }
    if q > h {
        assert((h + 1) * d <= q * d) by (nonlinear_arith)
            requires
                h + 1 <= q,
                d > 0,
        ;
    }
    assert(h == crate::certificate::closed_height(n, degree, m));
}

/// The certificate of a code, agreement and query count: where no finite one is listed it is the
/// closed one; where one is listed, its parameters are taken once the closed one is made and they
/// pass the interpolation check themselves, with the list bound of their own jet degree.
pub proof fn law_finite_choice(n: nat, degree: nat, a: nat, queries: nat)
    requires
        a <= usize::MAX,
    ensures
        ({
            let closed = crate::certificate::closed_outcome(n, degree, a);
            let outcome = crate::certificate::capacity_outcome(n, degree, a, queries);
            &&& closed is Err ==> outcome == closed
            &&& closed is Ok ==> match crate::certificate::finite_support(n, degree, a, queries) {
                None => outcome == closed,
                Some((m, b, h)) => {
                    &&& outcome is Ok <==> crate::certificate::support_outcome(
                        n,
                        degree,
                        a,
                        m as nat,
                        b as nat,
                        h as nat,
                    ) is Ok
                    &&& outcome matches Ok(certificate) ==> {
                        let list = certificate.list_bound as int;
                        &&& certificate.agreement == a
                        &&& certificate.interpolation_m == m
                        &&& certificate.jet_degree == b
                        &&& certificate.interpolation_height == h
                        &&& certificate.variant == JohnsonCertificateVariant::Finite
                        &&& 0 <= list <= b
                        &&& list * (a * a - n * degree) <= n * (a - degree)
                        &&& list < b ==> (list + 1) * (a * a - n * degree) > n * (a - degree)
                    }
                },
            }
        }),
{
    crate::certificate::law_certificate_stands(n, degree, a, queries);
    if let Ok(certificate) = crate::certificate::capacity_outcome(n, degree, a, queries) {
        law_list_bound(n, degree, a, certificate.jet_degree as nat);
    }
}

/// A finite certificate is listed only where it earns its place: its agreement is the least beyond
/// the Johnson radius, its jet degree the greatest that its multiplicity admits, and its height the
/// least at which its unknowns outnumber the equations.
pub proof fn law_finite_is_least(n: nat, degree: nat, a: nat, queries: nat)
    ensures
        crate::certificate::finite_support(n, degree, a, queries) matches Some((m, b, h)) ==> {
            &&& a * a > n * degree
            &&& (a - 1) * (a - 1) <= n * degree
            &&& b * degree < m * a <= (b + 1) * degree
            &&& crate::certificate::support_outcome(n, degree, a, m as nat, b as nat, h as nat)
                is Ok
            &&& b < h
            &&& unknowns(degree, a, m as nat, b as nat, (h - 1) as nat) <= n * equations(
                m as nat,
                b as nat,
                (h - 1) as nat,
            )
        },
{
    if let Some((m, b, h)) = crate::certificate::finite_support(n, degree, a, queries) {
        let (gm, gb) = (m as nat, b as nat);
        assert(n == 131_072 && degree == 65_535 && a == 92_682);
        assert(gm == 24_954 && gb == 35_290 && h == 606_738_001);
        assert(crate::certificate::triangle(35_290) == 622_709_695);
        assert(35_290 * (35_290 + 1) * (2 * 35_290 + 1) == 87_902_945_965_590int) by (nonlinear_arith);
        assert(24_953 * (24_953 + 1) * (2 * 24_953 + 1) == 31_075_949_123_934int) by (nonlinear_arith);
        assert(87_902_945_965_590int / 6 == 14_650_490_994_265);
        assert(31_075_949_123_934int / 6 == 5_179_324_853_989);
        assert(crate::certificate::square_sum(35_290) == 14_650_490_994_265);
        assert(crate::certificate::equation_cutoff(gm, gb) == 24_953);
        assert(crate::certificate::triangle(24_953) == 311_338_581);
        assert(crate::certificate::square_sum(24_953) == 5_179_324_853_989);
        assert(gm * a == 2_312_786_628);
        assert((gb + 1) * gm * a == 35_291 * 2_312_786_628) by (nonlinear_arith)
            requires
                gb == 35_290,
                gm == 24_954,
                a == 92_682,
        ;
        assert(crate::certificate::variables_slope(degree, a, gm, gb) == 40_811_273_026_923);
        assert(crate::certificate::equations_slope(gm, gb) == 311_363_535);
        assert(crate::certificate::surplus_slope(n, degree, a, gm, gb) == 231_767_403);
        lemma_jet_below(degree, a, gm, gb);
        assert(crate::certificate::variables_moment(degree, a, gm, gb) == 480_074_728_412_801_685);
        assert(crate::certificate::equations_moment(gm, gb) == 2_589_818_096_285);
        assert(crate::certificate::required_height(n, degree, a, gm, gb) == 606_738_001);
        lemma_count_decides(n, degree, a, gm, gb, (h - 1) as nat);
    }
}

} // verus!
