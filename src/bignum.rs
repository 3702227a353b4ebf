//! Arbitrary-precision natural numbers, as provided by `num_bigint`.
//!
//! `BigUint` is opaque to the verifier: `big_value` names the natural number
//! that a value holds, and each operation used by the library is a small
//! wrapper whose contract is stated over that number.
use num_bigint::BigUint;
use num_traits::{Pow, ToPrimitive, Zero};
use vstd::prelude::*;

verus! {

#[verifier::external_type_specification]
#[verifier::external_body]
pub struct ExBigUint(BigUint);

/// The natural number held by a `BigUint`.
pub uninterp spec fn big_value(b: BigUint) -> nat;

/// The numbers held by a sequence of `BigUint`s.
pub open spec fn big_values(s: Seq<BigUint>) -> Seq<nat> {
    s.map_values(|b: BigUint| big_value(b))
}

/// Relies on `BigUint::zero` (num_traits::Zero): the number zero.
#[verifier::external_body]
pub(crate) fn big_zero() -> (r: BigUint)
    ensures
        big_value(r) == 0,
{
    BigUint::zero()
}

/// Relies on `BigUint::is_zero` (num_traits::Zero): whether the number is zero.
#[verifier::external_body]
pub(crate) fn big_is_zero(a: &BigUint) -> (r: bool)
    ensures
        r == (big_value(*a) == 0),
{
    a.is_zero()
}

/// Relies on `From<u128> for BigUint`: the same number.
#[verifier::external_body]
pub(crate) fn big_from_u128(v: u128) -> (r: BigUint)
    ensures
        big_value(r) == v as nat,
{
    BigUint::from(v)
}

/// Relies on `Clone for BigUint`: the same number.
#[verifier::external_body]
pub(crate) fn big_clone(a: &BigUint) -> (r: BigUint)
    ensures
        big_value(r) == big_value(*a),
{
    a.clone()
}

/// Relies on `Add<u32> for BigUint`: exact sum.
#[verifier::external_body]
pub(crate) fn big_add_small(a: BigUint, b: u32) -> (r: BigUint)
    ensures
        big_value(r) == big_value(a) + b as nat,
{
    a + b
}

/// Relies on `Sub<u32> for BigUint`: exact difference; it panics when the
/// difference would be negative.
#[verifier::external_body]
pub(crate) fn big_sub_small(a: BigUint, b: u32) -> (r: BigUint)
    requires
        big_value(a) >= b as nat,
    ensures
        big_value(r) == big_value(a) - b as nat,
{
    a - b
}

/// Relies on `Mul<&BigUint> for u32`: exact product.
#[verifier::external_body]
pub(crate) fn big_mul_small(a: u32, b: &BigUint) -> (r: BigUint)
    ensures
        big_value(r) == a as nat * big_value(*b),
{
    a * b
}

/// Relies on `Mul<BigUint> for BigUint`: exact product.
#[verifier::external_body]
pub(crate) fn big_mul(a: BigUint, b: BigUint) -> (r: BigUint)
    ensures
        big_value(r) == big_value(a) * big_value(b),
{
    a * b
}

/// Relies on `Div<u32> for BigUint`: truncating division; it panics on a
/// zero divisor.
#[verifier::external_body]
pub(crate) fn big_div_small(a: BigUint, d: u32) -> (r: BigUint)
    requires
        d > 0,
    ensures
        big_value(r) == big_value(a) / (d as nat),
{
    a / d
}

/// Relies on `Rem<u32> for &BigUint`: the remainder; it panics on a zero
/// divisor.
#[verifier::external_body]
pub(crate) fn big_rem_small(a: &BigUint, d: u32) -> (r: BigUint)
    requires
        d > 0,
    ensures
        big_value(r) == big_value(*a) % (d as nat),
{
    a % d
}

/// Relies on `Pow<&BigUint> for BigUint` (num_traits::Pow): exact power. It
/// panics when the base is at least two and the exponent is not below 2^128.
#[verifier::external_body]
pub(crate) fn big_pow(a: BigUint, e: &BigUint) -> (r: BigUint)
    requires
        big_value(*e) <= u128::MAX as nat,
    ensures
        big_value(r) == vstd::arithmetic::power::pow(big_value(a) as int, big_value(*e)),
{
    a.pow(e)
}

/// Relies on `ToPrimitive::to_u64` for `BigUint`: the number when it fits.
#[verifier::external_body]
pub(crate) fn big_to_u64(a: &BigUint) -> (r: Option<u64>)
    ensures
        match r {
            Some(v) => big_value(*a) == v as nat,
            None => big_value(*a) > u64::MAX as nat,
        },
{
    a.to_u64()
}

/// Relies on `ToPrimitive::to_usize` for `BigUint`: the number when it fits.
#[verifier::external_body]
pub(crate) fn big_to_usize(a: &BigUint) -> (r: Option<usize>)
    ensures
        match r {
            Some(v) => big_value(*a) == v as nat,
            None => big_value(*a) > usize::MAX as nat,
        },
{
    a.to_usize()
}

} // verus!
