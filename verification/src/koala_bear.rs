//! The prime field of `2^31 - 2^24 + 1` elements.

use vstd::prelude::*;
use vstd::arithmetic::div_mod::*;
use crate::field::{Field, PrimeField};

verus! {

/// The field's order.
pub const ORDER: u32 = 2_130_706_433;

/// An element, by its representative below the order.
#[derive(Clone, Copy, Debug, Eq, PartialEq, Structural)]
pub struct KoalaBear {
    value: u32,
}

impl KoalaBear {
    /// The representative below the order.
    pub closed spec fn canonical(self) -> nat {
        self.value as nat
    }

    /// The element that an integer stands for.
    pub closed spec fn of(n: int) -> KoalaBear {
        KoalaBear { value: (n % (ORDER as int)) as u32 }
    }

    /// An element is its representative.
    pub proof fn lemma_canonical(self)
        requires
            self.valid(),
        ensures
            self.canonical() < ORDER,
            KoalaBear::of(self.canonical() as int) == self,
    {
        lemma_small_mod(self.value as nat, ORDER as nat);
    }

    /// What an integer stands for is an element, by the integer's remainder.
    pub proof fn lemma_of(n: int)
        ensures
            KoalaBear::of(n).valid(),
            KoalaBear::of(n).canonical() == n % (ORDER as int),
    {
        lemma_mod_bound(n, ORDER as int);
    }

    /// The element that `value` stands for.
    pub fn new(value: u32) -> (r: KoalaBear)
        ensures
            r.valid(),
            r == KoalaBear::of(value as int),
    {
        KoalaBear { value: value % ORDER }
    }
}

/// `p3_field::Field::try_inverse` on an element of `p3_koala_bear::KoalaBear`, by representatives:
/// the inverse of every element but 0, and nothing for 0.
#[verifier::external_body]
fn prime_inverse(value: u32) -> (r: Option<u32>)
    requires
        value < ORDER,
    ensures
        r is None <==> value == 0,
        r matches Some(c) ==> c < ORDER && (value * c) % (ORDER as int) == 1,
{
    p3_field::Field::try_inverse(&p3_koala_bear::KoalaBear::new(value)).map(
        |c| p3_field::PrimeField32::as_canonical_u32(&c),
    )
}

impl Field for KoalaBear {
    closed spec fn valid(self) -> bool {
        self.value < ORDER
    }

    closed spec fn nil() -> Self {
        KoalaBear { value: 0 }
    }

    closed spec fn unit() -> Self {
        KoalaBear { value: 1 }
    }

    closed spec fn plus(self, other: Self) -> Self {
        KoalaBear::of(self.value + other.value)
    }

    closed spec fn minus(self, other: Self) -> Self {
        KoalaBear::of(self.value - other.value)
    }

    closed spec fn times(self, other: Self) -> Self {
        KoalaBear::of(self.value * other.value)
    }

    closed spec fn embed(n: nat) -> Self {
        KoalaBear::of(n as int)
    }

    proof fn closed() {
        assert forall|n: int| (#[trigger] KoalaBear::of(n)).valid() by {
            lemma_mod_bound(n, ORDER as int);
        }
    }

    proof fn embed_counts(n: nat) {
        let p = ORDER as int;
        lemma_mod_bound(n as int, p);
        lemma_add_mod_noop(n as int, 1, p);
        lemma_small_mod(1, p as nat);
        lemma_small_mod(0, p as nat);
    }

    proof fn nontrivial() {
    }

    proof fn plus_nil(a: Self) {
        lemma_small_mod(a.value as nat, ORDER as nat);
    }

    proof fn plus_commutes(a: Self, b: Self) {
    }

    proof fn plus_associates(a: Self, b: Self, c: Self) {
        let p = ORDER as int;
        let (x, y, z) = (a.value as int, b.value as int, c.value as int);
        lemma_mod_bound(x + y, p);
        lemma_mod_bound(y + z, p);
        lemma_add_mod_noop(x + y, z, p);
        lemma_add_mod_noop((x + y) % p, z, p);
        lemma_mod_twice(x + y, p);
        lemma_add_mod_noop(x, y + z, p);
        lemma_add_mod_noop(x, (y + z) % p, p);
        lemma_mod_twice(y + z, p);
    }

    proof fn minus_plus(a: Self, b: Self) {
        let p = ORDER as int;
        let (x, y) = (a.value as int, b.value as int);
        lemma_mod_bound(x - y, p);
        lemma_mod_bound(x + y, p);
        lemma_add_mod_noop(x - y, y, p);
        lemma_add_mod_noop((x - y) % p, y, p);
        lemma_mod_twice(x - y, p);
        lemma_sub_mod_noop(x + y, y, p);
        lemma_sub_mod_noop((x + y) % p, y, p);
        lemma_mod_twice(x + y, p);
        lemma_small_mod(x as nat, p as nat);
    }

    proof fn times_unit(a: Self) {
        lemma_small_mod(a.value as nat, ORDER as nat);
    }

    proof fn times_commutes(a: Self, b: Self) {
        assert(a.value * b.value == b.value * a.value) by (nonlinear_arith);
    }

    proof fn times_associates(a: Self, b: Self, c: Self) {
        let p = ORDER as int;
        let (x, y, z) = (a.value as int, b.value as int, c.value as int);
        lemma_mod_bound(x * y, p);
        lemma_mod_bound(y * z, p);
        lemma_mul_mod_noop_left(x * y, z, p);
        lemma_mul_mod_noop_right(x, y * z, p);
        assert((x * y) * z == x * (y * z)) by (nonlinear_arith);
    }

    proof fn distributes(a: Self, b: Self, c: Self) {
        let p = ORDER as int;
        let (x, y, z) = (a.value as int, b.value as int, c.value as int);
        lemma_mod_bound(y + z, p);
        lemma_mod_bound(x * y, p);
        lemma_mod_bound(x * z, p);
        lemma_mul_mod_noop_right(x, y + z, p);
        lemma_add_mod_noop(x * y, x * z, p);
        assert(x * (y + z) == x * y + x * z) by (nonlinear_arith);
    }

    fn zero() -> (r: Self) {
        KoalaBear { value: 0 }
    }

    fn one() -> (r: Self) {
        KoalaBear { value: 1 }
    }

    fn field_add(self, other: Self) -> (r: Self) {
        proof {
            Self::closed();
            lemma_mod_bound(self.value + other.value, ORDER as int);
        }
        KoalaBear { value: ((self.value as u64 + other.value as u64) % ORDER as u64) as u32 }
    }

    fn field_sub(self, other: Self) -> (r: Self) {
        let raised: u64 = self.value as u64 + ORDER as u64 - other.value as u64;
        proof {
            Self::closed();
            lemma_mod_bound(raised as int, ORDER as int);
            lemma_mod_add_multiples_vanish(self.value - other.value, ORDER as int);
        }
        KoalaBear { value: (raised % ORDER as u64) as u32 }
    }

    fn field_mul(self, other: Self) -> (r: Self) {
        proof {
            Self::closed();
            let (x, y) = (self.value as int, other.value as int);
            assert(0 <= x * y <= u64::MAX) by (nonlinear_arith)
                requires
                    0 <= x <= 0xffff_ffff,
                    0 <= y <= 0xffff_ffff,
            ;
            lemma_mod_bound(x * y, ORDER as int);
        }
        KoalaBear { value: (self.value as u64 * other.value as u64 % ORDER as u64) as u32 }
    }

    fn same(self, other: Self) -> (b: bool) {
        self.value == other.value
    }

    fn try_inverse(self) -> (r: Option<Self>) {
        match prime_inverse(self.value) {
            None => None,
            Some(value) => Some(KoalaBear { value }),
        }
    }

    fn from_usize(n: usize) -> (r: Self) {
        proof {
            Self::closed();
            lemma_mod_bound(n as int, ORDER as int);
        }
        KoalaBear { value: (n as u64 % ORDER as u64) as u32 }
    }
}

impl PrimeField for KoalaBear {
    closed spec fn remainder(self) -> nat {
        self.value as nat
    }

    fn to_usize(self) -> (n: usize) {
        self.value as usize
    }
}

impl KoalaBear {
    /// The remainder of an element is its representative, below the order.
    pub proof fn lemma_remainder(self)
        requires
            self.valid(),
        ensures
            self.remainder() == self.canonical() < ORDER,
            KoalaBear::embed(self.remainder()) == self,
    {
        self.lemma_canonical();
    }
}

impl KoalaBear {
    /// The operations are those of integers, up to multiples of the order.
    pub proof fn lemma_operations(self, other: Self)
        ensures
            self.plus(other) == KoalaBear::of(
                self.canonical() as int + other.canonical() as int,
            ),
            self.minus(other) == KoalaBear::of(self.canonical() - other.canonical()),
            self.times(other) == KoalaBear::of(self.canonical() * other.canonical() as int),
            forall|n: nat| #[trigger] KoalaBear::embed(n) == KoalaBear::of(n as int),
            KoalaBear::nil().canonical() == 0,
            KoalaBear::unit().canonical() == 1,
            KoalaBear::nil() == KoalaBear::of(0),
            KoalaBear::unit() == KoalaBear::of(1),
    {
        lemma_small_mod(0, ORDER as nat);
        lemma_small_mod(1, ORDER as nat);
    }

    /// An integer stands for the same element as any other that differs by a multiple of the order.
    pub proof fn lemma_of_shifted(n: int, k: int)
        ensures
            KoalaBear::of(n + ORDER * k) == KoalaBear::of(n),
    {
        lemma_mod_multiples_vanish(k, n, ORDER as int);
        assert(k * (ORDER as int) == ORDER * k) by (nonlinear_arith);
    }
}

/// The order is `2^31 - 2^24 + 1`.
pub proof fn law_order()
    ensures
        ORDER == vstd::arithmetic::power2::pow2(31) - vstd::arithmetic::power2::pow2(24) + 1,
{
    vstd::arithmetic::power2::lemma2_to64();
}

} // verus!
