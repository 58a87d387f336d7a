//! The exact query row: which agreement a query count leaves undetected.

use vstd::prelude::*;
use vstd::arithmetic::mul::*;
use vstd::arithmetic::power::*;
use vstd::arithmetic::power2::*;
use crate::bigint::{big_from, big_le, big_pow, big_shl};

verus! {

/// Whether `queries` queries miss a word that agrees on `a` of `n` positions with probability at
/// most 2 to the power of `-query_bits`: `(a/n)^queries <= 2^-query_bits`, without fractions.
pub open spec fn query_row_holds(n: nat, a: nat, queries: nat, query_bits: nat) -> bool {
    pow(a as int, queries) * pow2(query_bits) <= pow(n as int, queries)
}

/// The largest `a` below `bound` for which the query row holds, or 0 where there is none.
pub open spec fn safe_agreement(bound: nat, n: nat, queries: nat, query_bits: nat) -> nat
    decreases bound,
{
    if bound <= 1 {
        0
    } else if query_row_holds(n, (bound - 1) as nat, queries, query_bits) {
        (bound - 1) as nat
    } else {
        safe_agreement((bound - 1) as nat, n, queries, query_bits)
    }
}

/// The agreement threshold of `queries` queries on a code of length `n`: one above the largest
/// agreement, of at most all `n` positions, for which the query row holds.
pub open spec fn query_agreement(n: nat, queries: nat, query_bits: nat) -> nat {
    safe_agreement(n + 1, n, queries, query_bits) + 1
}

/// What [`exact_query_agreement`] returns: the threshold, unless it or the query count is too large
/// for its type.
pub open spec fn query_agreement_outcome(n: nat, queries: nat, query_bits: nat) -> Result<
    nat,
    Seq<char>,
> {
    if queries > u32::MAX {
        Err("query count does not fit u32"@)
    } else if query_agreement(n, queries, query_bits) > usize::MAX {
        Err("query agreement threshold overflow"@)
    } else {
        Ok(query_agreement(n, queries, query_bits))
    }
}

proof fn lemma_safe_agreement(bound: nat, n: nat, queries: nat, query_bits: nat)
    ensures
        ({
            let a = safe_agreement(bound, n, queries, query_bits);
            &&& a < bound || a == 0
            &&& a == 0 || query_row_holds(n, a, queries, query_bits)
            &&& forall|b: nat| a < b < bound ==> !query_row_holds(n, b, queries, query_bits)
        }),
    decreases bound,
{
    if bound > 1 && !query_row_holds(n, (bound - 1) as nat, queries, query_bits) {
        lemma_safe_agreement((bound - 1) as nat, n, queries, query_bits);
    }
}

pub(crate) proof fn lemma_pow_base_monotone(a: nat, b: nat, e: nat)
    requires
        a <= b,
    ensures
        0 <= pow(a as int, e) <= pow(b as int, e),
    decreases e,
{
    reveal(pow);
    if e > 0 {
        let d = (e - 1) as nat;
        lemma_pow_base_monotone(a, b, d);
        assert(0 <= a * pow(a as int, d) <= b * pow(b as int, d)) by (nonlinear_arith)
            requires
                0 <= a <= b,
                0 <= pow(a as int, d) <= pow(b as int, d),
        ;
    }
}

proof fn lemma_query_row_monotone(n: nat, a: nat, b: nat, queries: nat, query_bits: nat)
    requires
        a <= b,
        query_row_holds(n, b, queries, query_bits),
    ensures
        query_row_holds(n, a, queries, query_bits),
{
    lemma_pow_base_monotone(a, b, queries);
    lemma_pow2_pos(query_bits);
    lemma_mul_inequality(
        pow(a as int, queries),
        pow(b as int, queries),
        pow2(query_bits) as int,
    );
}

/// The agreement threshold that `queries` queries give: outside the list of threshold `A`, a word
/// agrees with every codeword on at most `A - 1` positions. Decided in exact integer arithmetic.
pub fn exact_query_agreement(n: usize, queries: usize, query_bits: usize) -> (r: Result<
    usize,
    String,
>)
    ensures
        match r {
            Ok(agreement) => query_agreement_outcome(
                n as nat,
                queries as nat,
                query_bits as nat,
            ) == Ok::<nat, Seq<char>>(agreement as nat),
            Err(e) => query_agreement_outcome(
                n as nat,
                queries as nat,
                query_bits as nat,
            ) == Err::<nat, Seq<char>>(e@),
        },
{
    if queries > u32::MAX as usize {
        return Err("query count does not fit u32".to_owned());
    }
    let exponent: u32 = queries as u32;
    let rhs = big_pow(&big_from(n), exponent);
    let mut safe: usize = 0;
    let mut most: usize = n;
    while safe < most
        invariant
            exponent == queries,
            crate::bigint::big_value(rhs) == pow(n as int, queries as nat),
            safe <= most <= n,
            safe == 0 || query_row_holds(n as nat, safe as nat, queries as nat, query_bits as nat),
            most == n || !query_row_holds(
                n as nat,
                (most + 1) as nat,
                queries as nat,
                query_bits as nat,
            ),
        decreases most - safe,
    {
        let candidate: usize = most - (most - safe) / 2;
        let lhs = big_shl(big_pow(&big_from(candidate), exponent), query_bits);
        if big_le(&lhs, &rhs) {
            safe = candidate;
        } else {
            most = candidate - 1;
        }
    }
    proof {
        let a = safe_agreement((n + 1) as nat, n as nat, queries as nat, query_bits as nat);
        lemma_safe_agreement((n + 1) as nat, n as nat, queries as nat, query_bits as nat);
        if a > safe {
            lemma_query_row_monotone(
                n as nat,
                (safe + 1) as nat,
                a,
                queries as nat,
                query_bits as nat,
            );
        }
    }
    match safe.checked_add(1) {
        Some(agreement) => Ok(agreement),
        None => Err("query agreement threshold overflow".to_owned()),
    }
}

/// The threshold lies between 1 and one above the whole length; one bit to reach keeps it within
/// the length.
pub proof fn law_query_agreement_bounds(n: nat, queries: nat, query_bits: nat)
    ensures
        1 <= query_agreement(n, queries, query_bits) <= n + 1,
        n >= 1 && query_bits >= 1 ==> query_agreement(n, queries, query_bits) <= n,
{
    lemma_safe_agreement(n + 1, n, queries, query_bits);
    if n >= 1 && query_bits >= 1 {
        lemma_pow2_unfold(query_bits);
        lemma_pow2_pos((query_bits - 1) as nat);
        lemma_pow_positive(n as int, queries);
        assert(!query_row_holds(n, n, queries, query_bits)) by (nonlinear_arith)
            requires
                pow(n as int, queries) > 0,
                pow2(query_bits) >= 2,
        ;
    }
}

/// The threshold is exact: with at least one query, the agreements `a` of which all queries hit
/// one with probability at most `2^-query_bits`, `(a/n)^queries <= 2^-query_bits`, are those below
/// it.
pub proof fn law_query_agreement_exact(n: nat, queries: nat, query_bits: nat, a: nat)
    requires
        queries >= 1,
    ensures
        pow(a as int, queries) * pow2(query_bits) <= pow(n as int, queries) <==> a
            < query_agreement(n, queries, query_bits),
        query_row_holds(n, a, queries, query_bits) <==> a < query_agreement(
            n,
            queries,
            query_bits,
        ),
{
    let safe = safe_agreement(n + 1, n, queries, query_bits);
    lemma_safe_agreement(n + 1, n, queries, query_bits);
    lemma_pow2_pos(query_bits);
    if a <= safe {
        if safe == 0 {
            lemma_pow_base_monotone(0, n, queries);
            lemma0_pow(queries);
            lemma_mul_basics(pow2(query_bits) as int);
            assert(query_row_holds(n, 0, queries, query_bits));
        } else {
            lemma_query_row_monotone(n, a, safe, queries, query_bits);
        }
    } else if a > n {
        let fewer = (queries - 1) as nat;
        reveal(pow);
        lemma_pow_base_monotone(n, a, fewer);
        lemma_pow_positive(a as int, fewer);
        let (pa, pn, t) = (pow(a as int, fewer), pow(n as int, fewer), pow2(query_bits) as int);
        assert((a * pa) * t > n * pn) by (nonlinear_arith)
            requires
                0 <= n < a,
                0 <= pn <= pa,
                0 < pa,
                1 <= t,
        {
            assert(n * pn <= n * pa);
            assert(n * pa < a * pa);
            assert(a * pa <= (a * pa) * t);
        }
        assert(pow(a as int, queries) == a * pa);
        assert(pow(n as int, queries) == n * pn);
        assert(!query_row_holds(n, a, queries, query_bits));
    }
    assert(query_row_holds(n, a, queries, query_bits) <==> a < query_agreement(
        n,
        queries,
        query_bits,
    ));
}

/// One query more keeps every agreement safe that was safe before.
pub(crate) proof fn lemma_query_row_step(n: nat, a: nat, queries: nat, query_bits: nat)
    requires
        a <= n,
        query_row_holds(n, a, queries, query_bits),
    ensures
        query_row_holds(n, a, queries + 1, query_bits),
{
    reveal(pow);
    lemma_pow_base_monotone(a, n, queries);
    let pa = pow(a as int, queries);
    let pn = pow(n as int, queries);
    let t = pow2(query_bits) as int;
    assert((a * pa) * t <= n * pn) by (nonlinear_arith)
        requires
            0 <= a <= n,
            0 <= pa * t <= pn,
    {
        assert((a * pa) * t == a * (pa * t));
    }
    assert(pow(a as int, queries + 1) == a * pa);
    assert(pow(n as int, queries + 1) == n * pn);
}

/// More queries never lower the agreement threshold.
pub proof fn law_query_agreement_monotone(n: nat, fewer: nat, more: nat, query_bits: nat)
    requires
        fewer <= more,
    ensures
        query_agreement(n, fewer, query_bits) <= query_agreement(n, more, query_bits),
    decreases more - fewer,
{
    if fewer < more {
        let a = safe_agreement(n + 1, n, fewer, query_bits);
        lemma_safe_agreement(n + 1, n, fewer, query_bits);
        lemma_safe_agreement(n + 1, n, fewer + 1, query_bits);
        if a > 0 {
            lemma_query_row_step(n, a, fewer, query_bits);
        }
        law_query_agreement_monotone(n, fewer + 1, more, query_bits);
    }
}

/// When the threshold is given: for every query count that fits `u32`, unless the threshold is past
/// the largest `usize`.
pub proof fn law_query_agreement_given(n: nat, queries: nat, query_bits: nat)
    requires
        n < usize::MAX,
    ensures
        match query_agreement_outcome(n, queries, query_bits) {
            Ok(threshold) => queries <= u32::MAX && threshold == query_agreement(
                n,
                queries,
                query_bits,
            ),
            Err(e) => queries > u32::MAX && e == "query count does not fit u32"@,
        },
{
    law_query_agreement_bounds(n, queries, query_bits);
}

/// Without queries the threshold is all positions where no bit is asked for, and 1 where any is.
pub proof fn law_no_query(n: nat, query_bits: nat)
    ensures
        query_bits == 0 ==> query_agreement(n, 0, 0) == n + 1,
        query_bits > 0 ==> query_agreement(n, 0, query_bits) == 1,
{
    lemma_safe_agreement(n + 1, n, 0, query_bits);
    let safe = safe_agreement(n + 1, n, 0, query_bits);
    lemma_pow0(safe as int);
    lemma_pow0(n as int);
    if query_bits == 0 {
        lemma2_to64();
        if safe < n {
            lemma_pow0((safe + 1) as int);
            assert(query_row_holds(n, (safe + 1) as nat, 0, 0));
        }
    } else {
        lemma_pow2_unfold(query_bits);
        lemma_pow2_pos((query_bits - 1) as nat);
    }
}

} // verus!
