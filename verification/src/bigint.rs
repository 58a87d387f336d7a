//! Integers of any size, by `num_bigint::BigUint`.

use vstd::prelude::*;
use vstd::arithmetic::power::*;
use vstd::arithmetic::power2::*;
use num_bigint::BigUint;

verus! {

/// `num_bigint::BigUint`: a natural number of any size. Nothing inside it is visible here.
#[verifier::external_type_specification]
#[verifier::external_body]
pub struct ExBigUint(BigUint);

/// The digits that a `BigUint` holds, in base 2^32, the least significant first.
pub uninterp spec fn big_digits(b: BigUint) -> Seq<u32>;

/// The number whose base-2^32 digits are `digits`, the least significant first.
pub open spec fn digits_value(digits: Seq<u32>) -> nat
    decreases digits.len(),
{
    if digits.len() == 0 {
        0
    } else {
        digits[0] as nat + 0x1_0000_0000 * digits_value(digits.subrange(1, digits.len() as int))
    }
}

/// The natural number that a `BigUint` stands for.
pub open spec fn big_value(b: BigUint) -> nat {
    digits_value(big_digits(b))
}

/// Calls `BigUint::from` on a `usize`. The contract claims that the result stands for the same
/// number.
#[verifier::external_body]
pub(crate) fn big_from(n: usize) -> (b: BigUint)
    ensures
        digits_value(big_digits(b)) == n,
{
    BigUint::from(n)
}

/// Calls `BigUint::pow`. The contract claims that the result stands for the base's number raised
/// to `exponent`, where the zeroth power is 1.
#[verifier::external_body]
pub(crate) fn big_pow(base: &BigUint, exponent: u32) -> (b: BigUint)
    ensures
        digits_value(big_digits(b)) == pow(digits_value(big_digits(*base)) as int, exponent as nat),
{
    base.pow(exponent)
}

/// Calls the `<<` of `BigUint`. The contract claims that the result stands for the number times
/// 2 to the power of `bits`.
#[verifier::external_body]
pub(crate) fn big_shl(n: BigUint, bits: usize) -> (b: BigUint)
    ensures
        digits_value(big_digits(b)) == digits_value(big_digits(n)) * pow2(bits as nat),
{
    n << bits
}

/// Calls the `<=` of `BigUint`. The contract claims that it orders by the numbers.
#[verifier::external_body]
pub(crate) fn big_le(a: &BigUint, b: &BigUint) -> (r: bool)
    ensures
        r == (digits_value(big_digits(*a)) <= digits_value(big_digits(*b))),
{
    a <= b
}

} // verus!
