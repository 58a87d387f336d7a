//! Query counts in the unique-decoding regime.

use vstd::prelude::*;
use vstd::arithmetic::power::*;
use vstd::arithmetic::power2::*;
use crate::arith::pow2_usize;
use crate::bigint::{big_from, big_le, big_pow, big_shl};

verus! {

/// Soundness, in bits, that the query phase closes on its own in the unique-decoding regime.
pub const UDR_TARGET_BITS: usize = 100;

/// Whether `queries` queries close the target at rate `2^-log_inv_rate`: each query misses a word
/// at half the distance with probability `1 - (1 - rate)/2 = (2^r + 1) / 2^(r + 1)`.
pub open spec fn udr_row_holds(log_inv_rate: nat, queries: nat) -> bool {
    crate::query::query_row_holds(
        pow2(log_inv_rate + 1),
        pow2(log_inv_rate) + 1,
        queries,
        UDR_TARGET_BITS as nat,
    )
}

/// Whether `queries` is the least number of queries that closes the target.
pub open spec fn is_udr_count(log_inv_rate: nat, queries: nat) -> bool {
    &&& udr_row_holds(log_inv_rate, queries)
    &&& queries > 0 ==> !udr_row_holds(log_inv_rate, (queries - 1) as nat)
}

/// The least number of queries that closes the target at rate `2^-log_inv_rate`.
pub open spec fn udr_count(log_inv_rate: nat) -> nat {
    choose|queries: nat| is_udr_count(log_inv_rate, queries)
}

pub(crate) proof fn lemma_udr_row_monotone(log_inv_rate: nat, fewer: nat, more: nat)
    requires
        fewer <= more,
        udr_row_holds(log_inv_rate, fewer),
    ensures
        udr_row_holds(log_inv_rate, more),
    decreases more - fewer,
{
    if fewer < more {
        lemma_pow2_unfold(log_inv_rate + 1);
        lemma_pow2_pos(log_inv_rate);
        crate::query::lemma_query_row_step(
            pow2(log_inv_rate + 1),
            pow2(log_inv_rate) + 1,
            fewer,
            UDR_TARGET_BITS as nat,
        );
        lemma_udr_row_monotone(log_inv_rate, fewer + 1, more);
    }
}

/// The query count is the only one of its kind.
pub proof fn law_udr_count_unique(log_inv_rate: nat, queries: nat)
    requires
        is_udr_count(log_inv_rate, queries),
    ensures
        udr_count(log_inv_rate) == queries,
{
    let q = udr_count(log_inv_rate);
    assert(is_udr_count(log_inv_rate, q));
    if q < queries {
        lemma_udr_row_monotone(log_inv_rate, q, (queries - 1) as nat);
    } else if queries < q {
        lemma_udr_row_monotone(log_inv_rate, queries, (q - 1) as nat);
    }
}

/// Where the miss probability is at most 3/4, three queries close one bit.
proof fn lemma_three_queries_per_bit(n: nat, a: nat, bits: nat)
    requires
        4 * a <= 3 * n,
    ensures
        crate::query::query_row_holds(n, a, 3 * bits, bits),
    decreases bits,
{
    if bits == 0 {
        lemma_pow0(a as int);
        lemma_pow0(n as int);
        lemma2_to64();
    } else {
        let less = (bits - 1) as nat;
        lemma_three_queries_per_bit(n, a, less);
        lemma_pow_adds(a as int, 3, 3 * less);
        lemma_pow_adds(n as int, 3, 3 * less);
        lemma_pow2_unfold(bits);
        let pa = pow(a as int, 3 * less);
        let pn = pow(n as int, 3 * less);
        let t = pow2(less) as int;
        let ca = pow(a as int, 3);
        let cn = pow(n as int, 3);
        assert(ca == a * a * a && cn == n * n * n) by {
            reveal_with_fuel(pow, 4);
            assert(a * (a * (a * 1)) == a * a * a) by (nonlinear_arith);
            assert(n * (n * (n * 1)) == n * n * n) by (nonlinear_arith);
        }
        assert(2 * ca <= cn) by (nonlinear_arith)
            requires
                ca == a * a * a,
                cn == n * n * n,
                4 * a <= 3 * n,
        {
            assert((4 * a) * (4 * a) <= (3 * n) * (3 * n));
            assert((4 * a) * (4 * a) * (4 * a) <= (3 * n) * (3 * n) * (3 * n));
            assert((4 * a) * (4 * a) * (4 * a) == 64 * (a * a * a));
            assert((3 * n) * (3 * n) * (3 * n) == 27 * (n * n * n));
            assert(n * n * n >= 0);
        }
        crate::query::lemma_pow_base_monotone(0, a, 3);
        crate::query::lemma_pow_base_monotone(0, a, 3 * less);
        crate::query::lemma_pow_base_monotone(0, n, 3 * less);
        lemma_pow2_pos(less);
        assert((ca * pa) * (2 * t) == (2 * ca) * (pa * t)) by (nonlinear_arith);
        assert((2 * ca) * (pa * t) <= cn * pn) by (nonlinear_arith)
            requires
                0 <= 2 * ca <= cn,
                0 <= pa * t <= pn,
        ;
        assert(0 <= pa * t) by (nonlinear_arith)
            requires
                0 <= pa,
                0 <= t,
        ;
        assert(3 + 3 * less == 3 * bits);
    }
}

/// `(x + 1)^k (x - k) <= x^(k + 1)`.
proof fn lemma_power_of_successor(x: nat, k: nat)
    requires
        k <= x,
    ensures
        pow(x as int + 1, k) * (x - k) <= pow(x as int, k) * x,
    decreases k,
{
    lemma_pow0(x as int + 1);
    lemma_pow0(x as int);
    if k > 0 {
        reveal(pow);
        let l = (k - 1) as nat;
        lemma_power_of_successor(x, l);
        let p = pow(x as int + 1, l);
        let q = pow(x as int, l);
        crate::query::lemma_pow_base_monotone(0, x + 1, l);
        assert(((x + 1) * p) * (x - k) <= (x * q) * x) by (nonlinear_arith)
            requires
                p * (x - l) <= q * x,
                l == k - 1,
                0 <= p,
                0 <= x,
                1 <= k,
        {
            assert(((x + 1) * p) * (x - k) == p * ((x + 1) * (x - k)));
            assert((x + 1) * (x - k) <= x * (x - l)) by {
                assert((x + 1) * (x - k) == x * x - k * x + x - k);
                assert(x * (x - l) == x * x - (k - 1) * x);
                assert((k - 1) * x == k * x - x);
            }
            assert(p * ((x + 1) * (x - k)) <= p * (x * (x - l)));
            assert(p * (x * (x - l)) == x * (p * (x - l)));
            assert(x * (p * (x - l)) <= x * (q * x));
            assert(x * (q * x) == (x * q) * x);
        }
    }
}

/// From rate 1/256 down, one query above the target suffices and the target itself does not.
proof fn lemma_slim_rates(log_inv_rate: nat)
    requires
        log_inv_rate >= 8,
    ensures
        is_udr_count(log_inv_rate, 101),
{
    let x = pow2(log_inv_rate);
    assert(x >= 256) by {
        lemma2_to64();
        if log_inv_rate > 8 {
            lemma_pow2_strictly_increases(8, log_inv_rate);
        }
    }
    lemma_pow2_unfold(log_inv_rate + 1);
    assert(pow2(log_inv_rate + 1) == 2 * x);
    lemma_pow_distributes(2, x as int, 100);
    lemma_pow_distributes(2, x as int, 101);
    lemma_pow2(100);
    lemma_pow2(101);
    lemma_pow2_unfold(101);
    let two = pow2(100) as int;
    lemma_pow2_pos(100);
    assert(pow(2 * x as int, 100) == two * pow(x as int, 100));
    assert(pow(2 * x as int, 101) == 2 * two * pow(x as int, 101));
    // The target itself: (x + 1)^100 > x^100.
    assert(pow(x as int + 1, 100) > pow(x as int, 100)) by {
        reveal(pow);
        crate::query::lemma_pow_base_monotone(x, x + 1, 99);
        lemma_pow_positive(x as int, 99);
        let p = pow(x as int + 1, 99);
        let q = pow(x as int, 99);
        assert((x + 1) * p > x * q) by (nonlinear_arith)
            requires
                p >= q > 0,
                x >= 0,
        ;
    }
    let over = pow(x as int + 1, 100);
    let under = pow(x as int, 100);
    assert(over * two > two * under) by (nonlinear_arith)
        requires
            over > under,
            two > 0,
    ;
    // One above: (x + 1)^101 <= 2 x^101.
    lemma_power_of_successor(x, 101);
    lemma_pow_positive(x as int, 101);
    let p = pow(x as int + 1, 101);
    let q = pow(x as int, 101);
    assert(p <= 2 * q) by (nonlinear_arith)
        requires
            p * (x - 101) <= q * x,
            x >= 256,
            q > 0,
    {
        if p > 2 * q {
            assert(p * (x - 101) >= (2 * q + 1) * (x - 101));
            assert((2 * q + 1) * (x - 101) > 2 * q * (x - 101));
            assert(2 * q * (x - 101) == 2 * (q * x) - 202 * q);
            assert(q * x >= 256 * q);
        }
    }
    assert(p * two <= 2 * two * q) by (nonlinear_arith)
        requires
            p <= 2 * q,
            two > 0,
    ;
}

/// The least number of queries for 100-bit soundness in the unique-decoding regime at rate
/// `2^-log_inv_rate`.
///
/// Within the unique-decoding radius there is no list and no union bound: queries close the full
/// target by themselves. One query is worth less than one bit, so slimmer codes bottom out near
/// [`UDR_TARGET_BITS`] queries: 241 at rate 1/2, 148 at 1/4, 121 at 1/8, 110 at 1/16, 105 at 1/32.
pub fn udr_queries(log_inv_rate: usize) -> (queries: usize)
    requires
        log_inv_rate > 0,
    ensures
        is_udr_count(log_inv_rate as nat, queries as nat),
        queries == udr_count(log_inv_rate as nat),
        UDR_TARGET_BITS < queries <= 300,
{
    proof {
        law_udr_bounds(log_inv_rate as nat);
    }
    if log_inv_rate >= 8 {
        proof {
            lemma_slim_rates(log_inv_rate as nat);
            law_udr_count_unique(log_inv_rate as nat, 101);
        }
        return 101;
    }
    let ghost r = log_inv_rate as nat;
    let n = big_from(pow2_usize(log_inv_rate + 1));
    proof {
        lemma_pow2_unfold(r + 1);
        lemma_usize_small(log_inv_rate);
    }
    let a = big_from(pow2_usize(log_inv_rate) + 1);
    let mut queries: usize = 0;
    proof {
        lemma_pow0(pow2(r + 1) as int);
        lemma_pow0(pow2(r) as int + 1);
        lemma_pow2_strictly_increases(0, 100);
        lemma2_to64();
        assert(!udr_row_holds(r, 0));
    }
    loop
        invariant_except_break
            !udr_row_holds(r, queries as nat),
            queries < 300,
        invariant
            r == log_inv_rate,
            crate::bigint::big_value(n) == pow2(r + 1),
            crate::bigint::big_value(a) == pow2(r) + 1,
            udr_row_holds(r, 300),
        ensures
            is_udr_count(r, queries as nat),
        decreases 300 - queries,
    {
        queries = queries + 1;
        let lhs = big_shl(big_pow(&a, queries as u32), UDR_TARGET_BITS);
        let rhs = big_pow(&n, queries as u32);
        if big_le(&lhs, &rhs) {
            break;
        }
    }
    proof {
        law_udr_count_unique(r, queries as nat);
    }
    queries
}

proof fn lemma_usize_small(k: usize)
    requires
        k < 8,
    ensures
        pow2(k as nat) <= 128,
{
    lemma2_to64();
}

/// Every rate below one needs more queries than the target has bits, and no rate needs more than
/// three per bit.
pub proof fn law_udr_bounds(log_inv_rate: nat)
    requires
        log_inv_rate > 0,
    ensures
        is_udr_count(log_inv_rate, udr_count(log_inv_rate)),
        udr_row_holds(log_inv_rate, 300),
        UDR_TARGET_BITS < udr_count(log_inv_rate) <= 3 * UDR_TARGET_BITS,
        log_inv_rate >= 8 ==> udr_count(log_inv_rate) == UDR_TARGET_BITS + 1,
{
    let x = pow2(log_inv_rate);
    lemma2_to64();
    assert(x >= 2) by {
        if log_inv_rate > 1 {
            lemma_pow2_strictly_increases(1, log_inv_rate);
        }
    }
    lemma_pow2_unfold(log_inv_rate + 1);
    lemma_three_queries_per_bit(pow2(log_inv_rate + 1), x + 1, 100);
    assert(udr_row_holds(log_inv_rate, 300));
    lemma_udr_count_exists(log_inv_rate, 300);
    let q = choose|q: nat| q <= 300 && is_udr_count(log_inv_rate, q);
    law_udr_count_unique(log_inv_rate, q);
    if q <= 100 {
        lemma_udr_row_monotone(log_inv_rate, q, 100);
        lemma_pow_distributes(2, x as int, 100);
        lemma_pow2(100);
        lemma_pow2_pos(100);
        let two = pow2(100) as int;
        reveal(pow);
        crate::query::lemma_pow_base_monotone(x, x + 1, 99);
        lemma_pow_positive(x as int, 99);
        let p = pow(x as int + 1, 99);
        let s = pow(x as int, 99);
        assert((x + 1) * p > x * s) by (nonlinear_arith)
            requires
                p >= s > 0,
                x >= 0,
        ;
        let over = pow(x as int + 1, 100);
        let under = pow(x as int, 100);
        assert(over > under);
        assert(over * two > two * under) by (nonlinear_arith)
            requires
                over > under,
                two > 0,
        ;
        assert(false);
    }
    if log_inv_rate >= 8 {
        lemma_slim_rates(log_inv_rate);
        law_udr_count_unique(log_inv_rate, 101);
    }
}

proof fn lemma_udr_count_exists(log_inv_rate: nat, queries: nat)
    requires
        udr_row_holds(log_inv_rate, queries),
    ensures
        exists|q: nat| q <= queries && is_udr_count(log_inv_rate, q),
    decreases queries,
{
    if queries > 0 && udr_row_holds(log_inv_rate, (queries - 1) as nat) {
        lemma_udr_count_exists(log_inv_rate, (queries - 1) as nat);
        let q = choose|q: nat| q <= queries - 1 && is_udr_count(log_inv_rate, q);
        assert(q <= queries && is_udr_count(log_inv_rate, q));
    } else {
        assert(is_udr_count(log_inv_rate, queries));
    }
}

/// A slimmer code never needs more queries.
pub proof fn law_udr_nonincreasing(log_inv_rate: nat)
    requires
        log_inv_rate > 0,
    ensures
        udr_count(log_inv_rate + 1) <= udr_count(log_inv_rate),
{
    law_udr_bounds(log_inv_rate);
    law_udr_bounds(log_inv_rate + 1);
    let q = udr_count(log_inv_rate);
    let x = pow2(log_inv_rate);
    lemma_pow2_unfold(log_inv_rate + 1);
    lemma_pow2_unfold(log_inv_rate + 2);
    lemma_pow2_pos(log_inv_rate);
    // (2 x + 1)^q 2^100 <= (2 x + 2)^q 2^100 = 2^q (x + 1)^q 2^100 <= 2^q (2 x)^q = (4 x)^q
    crate::query::lemma_pow_base_monotone(2 * x + 1, 2 * (x + 1), q);
    lemma_pow_distributes(2, x as int + 1, q);
    lemma_pow_distributes(2, 2 * x as int, q);
    lemma_pow_positive(2, q);
    let t = pow2(100) as int;
    lemma_pow2_pos(100);
    let w = pow(2, q);
    let p = pow(x as int + 1, q);
    let n = pow(2 * x as int, q);
    let y = pow(2 * x as int + 1, q);
    assert(y * t <= w * n) by (nonlinear_arith)
        requires
            y <= w * p,
            p * t <= n,
            w > 0,
            t > 0,
    {
        assert(y * t <= (w * p) * t);
        assert((w * p) * t == w * (p * t));
        assert(w * (p * t) <= w * n);
    }
    assert(2 * (2 * x as int) == pow2(log_inv_rate + 2));
    assert(udr_row_holds(log_inv_rate + 1, q));
    if udr_count(log_inv_rate + 1) > q {
        lemma_udr_row_monotone(
            log_inv_rate + 1,
            q,
            (udr_count(log_inv_rate + 1) - 1) as nat,
        );
    }
}

} // verus!
