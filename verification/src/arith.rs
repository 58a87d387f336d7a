//! Checked products of `u128` numbers and powers of two in `usize`.

use vstd::prelude::*;
use vstd::arithmetic::power2::*;
use vstd::bits::*;

verus! {

/// The product of `values`; 1 for no values.
pub open spec fn product(values: Seq<u128>) -> nat
    decreases values.len(),
{
    if values.len() == 0 {
        1
    } else {
        product(values.drop_last()) * values.last() as nat
    }
}

/// Whether every product of a prefix of `values` fits in `u128`.
pub open spec fn prefixes_fit(values: Seq<u128>) -> bool {
    forall|k: int| 0 <= k <= values.len() ==> #[trigger] product(values.take(k)) <= u128::MAX
}

/// The error text of a product that leaves `u128`.
pub open spec fn overflow_text(context: Seq<char>) -> Seq<char> {
    context + ": integer overflow"@
}

/// The product of `values`, multiplied from the first to the last; an error as soon as a partial
/// product leaves `u128`.
pub fn checked_product(values: &[u128], context: &str) -> (r: Result<u128, String>)
    ensures
        r is Ok <==> prefixes_fit(values@),
        r matches Ok(p) ==> p == product(values@),
        r matches Err(e) ==> e@ == overflow_text(context@),
{
    let mut p: u128 = 1;
    let mut i: usize = 0;
    assert(values@.take(0) =~= Seq::empty());
    while i < values.len()
        invariant
            i <= values.len(),
            p == product(values@.take(i as int)),
            forall|k: int| 0 <= k <= i ==> #[trigger] product(values@.take(k)) <= u128::MAX,
        decreases values.len() - i,
    {
        let ghost next = values@.take(i + 1);
        assert(next.drop_last() =~= values@.take(i as int));
        assert(product(next) == p * values[i as int]);
        match p.checked_mul(values[i]) {
            Some(q) => {
                p = q;
            },
            None => {
                assert(product(values@.take(i + 1)) > u128::MAX);
                return Err(context.to_owned().concat(": integer overflow"));
            },
        }
        i = i + 1;
    }
    assert(values@.take(i as int) =~= values@);
    Ok(p)
}

proof fn lemma_product_push(values: Seq<u128>, v: u128)
    ensures
        product(values.push(v)) == product(values) * v,
        prefixes_fit(values.push(v)) <==> prefixes_fit(values) && product(values) * v <= u128::MAX,
{
    let longer = values.push(v);
    assert(longer.drop_last() =~= values);
    assert(longer.take(longer.len() as int) =~= longer);
    assert forall|k: int| 0 <= k <= values.len() implies #[trigger] longer.take(k) == values.take(
        k,
    ) by {
        assert(longer.take(k) =~= values.take(k));
    }
    if prefixes_fit(longer) {
        assert(product(longer.take(longer.len() as int)) <= u128::MAX);
        assert forall|k: int| 0 <= k <= values.len() implies #[trigger] product(values.take(k))
            <= u128::MAX by {
            assert(product(longer.take(k)) <= u128::MAX);
        }
    }
    if prefixes_fit(values) && product(values) * v <= u128::MAX {
        assert forall|k: int| 0 <= k <= longer.len() implies #[trigger] product(longer.take(k))
            <= u128::MAX by {
            if k <= values.len() {
                assert(product(values.take(k)) <= u128::MAX);
            }
        }
    }
}

proof fn lemma_product_none()
    ensures
        product(Seq::<u128>::empty()) == 1,
        prefixes_fit(Seq::<u128>::empty()),
{
    let none = Seq::<u128>::empty();
    assert forall|k: int| 0 <= k <= none.len() implies #[trigger] product(none.take(k))
        <= u128::MAX by {
        assert(none.take(k) =~= none);
    }
}

/// `a * b`, by [`checked_product`].
pub fn checked_product2(a: u128, b: u128, context: &str) -> (r: Result<u128, String>)
    ensures
        r is Ok <==> a * b <= u128::MAX,
        r matches Ok(p) ==> p == a * b,
        r matches Err(e) ==> e@ == overflow_text(context@),
{
    let factors = [a, b];
    proof {
        let none = Seq::<u128>::empty();
        lemma_product_none();
        lemma_product_push(none, a);
        lemma_product_push(none.push(a), b);
        assert(factors@ =~= none.push(a).push(b));
        assert(1 * a == a);
    }
    checked_product(&factors, context)
}

/// `a * b * c`, by [`checked_product`].
pub fn checked_product3(a: u128, b: u128, c: u128, context: &str) -> (r: Result<u128, String>)
    ensures
        r is Ok <==> a * b <= u128::MAX && a * b * c <= u128::MAX,
        r matches Ok(p) ==> p == a * b * c,
        r matches Err(e) ==> e@ == overflow_text(context@),
{
    let factors = [a, b, c];
    proof {
        let none = Seq::<u128>::empty();
        lemma_product_none();
        lemma_product_push(none, a);
        lemma_product_push(none.push(a), b);
        lemma_product_push(none.push(a).push(b), c);
        assert(factors@ =~= none.push(a).push(b).push(c));
        assert(1 * a == a);
    }
    checked_product(&factors, context)
}

/// `a * b * c * d`, by [`checked_product`].
pub fn checked_product4(a: u128, b: u128, c: u128, d: u128, context: &str) -> (r: Result<
    u128,
    String,
>)
    ensures
        r is Ok <==> a * b <= u128::MAX && a * b * c <= u128::MAX && a * b * c * d <= u128::MAX,
        r matches Ok(p) ==> p == a * b * c * d,
        r matches Err(e) ==> e@ == overflow_text(context@),
{
    let factors = [a, b, c, d];
    proof {
        let none = Seq::<u128>::empty();
        lemma_product_none();
        lemma_product_push(none, a);
        lemma_product_push(none.push(a), b);
        lemma_product_push(none.push(a).push(b), c);
        lemma_product_push(none.push(a).push(b).push(c), d);
        assert(factors@ =~= none.push(a).push(b).push(c).push(d));
        assert(1 * a == a);
    }
    checked_product(&factors, context)
}

/// `a * b * c * d * e`, by [`checked_product`].
pub fn checked_product5(a: u128, b: u128, c: u128, d: u128, e: u128, context: &str) -> (r: Result<
    u128,
    String,
>)
    ensures
        r is Ok <==> a * b <= u128::MAX && a * b * c <= u128::MAX && a * b * c * d <= u128::MAX && a
            * b * c * d * e <= u128::MAX,
        r matches Ok(p) ==> p == a * b * c * d * e,
        r matches Err(t) ==> t@ == overflow_text(context@),
{
    let factors = [a, b, c, d, e];
    proof {
        let none = Seq::<u128>::empty();
        lemma_product_none();
        lemma_product_push(none, a);
        lemma_product_push(none.push(a), b);
        lemma_product_push(none.push(a).push(b), c);
        lemma_product_push(none.push(a).push(b).push(c), d);
        lemma_product_push(none.push(a).push(b).push(c).push(d), e);
        assert(factors@ =~= none.push(a).push(b).push(c).push(d).push(e));
        assert(1 * a == a);
    }
    checked_product(&factors, context)
}

/// 2 to the power of `k`.
pub fn pow2_usize(k: usize) -> (r: usize)
    requires
        k < usize::BITS,
    ensures
        r == pow2(k as nat),
        r > 0,
{
    proof {
        lemma_usize_pow2_no_overflow(k as nat);
        lemma_usize_shl_is_mul(1, k);
    }
    1usize << k
}

pub(crate) proof fn lemma_pow2_u128(k: nat)
    requires
        k < 128,
    ensures
        0 < pow2(k) <= 0x8000_0000_0000_0000_0000_0000_0000_0000,
{
    lemma_pow2_pos(k);
    lemma2_to64();
    lemma_pow2_unfold(64);
    lemma_pow2_adds(64, 63);
    if k < 127 {
        lemma_pow2_strictly_increases(k, 127);
    }
}

/// 2 to the power of `k`.
pub fn pow2_u128(k: usize) -> (r: u128)
    requires
        k < 128,
    ensures
        r == pow2(k as nat),
        r > 0,
{
    let mut p: u128 = 1;
    let mut i: usize = 0;
    proof {
        lemma2_to64();
    }
    while i < k
        invariant
            i <= k < 128,
            p == pow2(i as nat),
        decreases k - i,
    {
        proof {
            lemma_pow2_u128((i + 1) as nat);
            lemma_pow2_unfold((i + 1) as nat);
        }
        p = 2 * p;
        i = i + 1;
    }
    proof {
        lemma_pow2_pos(k as nat);
    }
    p
}

/// The product of no values is 1, of one value that value, and of two sequences the product of both
/// products.
pub proof fn law_product(s: Seq<u128>, t: Seq<u128>, x: u128)
    ensures
        product(Seq::<u128>::empty()) == 1,
        product(seq![x]) == x,
        product(s + t) == product(s) * product(t),
    decreases t.len(),
{
    let one = seq![x];
    assert(one.drop_last() =~= Seq::<u128>::empty());
    assert(product(one) == product(one.drop_last()) * x as nat);
    assert(1 * (x as nat) == x as nat && product(s) * 1 == product(s));
    if t.len() == 0 {
        assert(s + t =~= s);
    } else {
        assert((s + t).drop_last() =~= s + t.drop_last());
        law_product(s, t.drop_last(), x);
        let (p, q, l) = (product(s), product(t.drop_last()), t.last() as nat);
        assert((p * q) * l == p * (q * l)) by (nonlinear_arith);
    }
}

/// A product that does not fit, or whose factors do not fit on the way, is not computed: without a
/// factor 0 the whole product fitting is enough.
pub proof fn law_prefixes_fit(values: Seq<u128>)
    requires
        forall|i: int| 0 <= i < values.len() ==> #[trigger] values[i] > 0,
    ensures
        prefixes_fit(values) <==> product(values) <= u128::MAX,
    decreases values.len(),
{
    assert(values.take(values.len() as int) =~= values);
    if values.len() > 0 {
        let front = values.drop_last();
        assert forall|i: int| 0 <= i < front.len() implies #[trigger] front[i] > 0 by {
            assert(values[i] > 0);
        }
        law_prefixes_fit(front);
        let (p, l) = (product(front), values.last() as nat);
        assert(p * l >= p) by (nonlinear_arith)
            requires
                l >= 1,
        ;
        if product(values) <= u128::MAX {
            assert forall|k: int| 0 <= k <= values.len() implies #[trigger] product(values.take(k))
                <= u128::MAX by {
                if k < values.len() {
                    assert(values.take(k) =~= front.take(k));
                }
            }
        }
        if prefixes_fit(values) {
            assert(product(values.take(values.len() as int)) <= u128::MAX);
        }
    } else {
        assert forall|k: int| 0 <= k <= values.len() implies #[trigger] product(values.take(k))
            <= u128::MAX by {
            assert(values.take(k) =~= values);
        }
    }
}

} // verus!
