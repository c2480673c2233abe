//! Trusted interface to `num_bigint::BigUint`, the arbitrary-precision
//! unsigned integer the crate computes with.
//!
//! `big_value` names the natural number a `BigUint` holds; every wrapper
//! below states the documented behaviour of one `num_bigint` operation over
//! that name, and all verified arithmetic in the crate is proved from these
//! contracts.

use vstd::prelude::*;
use num_bigint::BigUint;
use crate::arith::{bitlen, min_be_bytes};
use vstd::arithmetic::power2::pow2;

verus! {

#[verifier::external_type_specification]
#[verifier::external_body]
pub struct ExBigUint(BigUint);

/// The natural number a `BigUint` holds.
pub uninterp spec fn big_value(b: BigUint) -> nat;

/// Relies on `<BigUint as From<u64>>::from`: the result holds exactly `x`.
#[verifier::external_body]
pub fn big_from_u64(x: u64) -> (r: BigUint)
    ensures
        big_value(r) == x as nat,
{
    BigUint::from(x)
}

/// Relies on `<&BigUint as Mul<u64>>::mul`: exact multiplication.
#[verifier::external_body]
pub fn big_mul_u64(a: &BigUint, x: u64) -> (r: BigUint)
    ensures
        big_value(r) == big_value(*a) * x as nat,
{
    a * x
}

/// Relies on `<&BigUint as Add<u64>>::add`: exact addition.
#[verifier::external_body]
pub fn big_add_u64(a: &BigUint, x: u64) -> (r: BigUint)
    ensures
        big_value(r) == big_value(*a) + x as nat,
{
    a + x
}

/// Relies on `<BigUint as Clone>::clone`: the copy holds the same value.
#[verifier::external_body]
pub fn big_clone(a: &BigUint) -> (r: BigUint)
    ensures
        big_value(r) == big_value(*a),
{
    a.clone()
}

/// Relies on `BigUint::bits`: the fewest bits necessary to express the
/// value, which is 0 for the value 0.
#[verifier::external_body]
pub fn big_bits(a: &BigUint) -> (r: u64)
    ensures
        r as nat == bitlen(big_value(*a)),
{
    a.bits()
}

/// Relies on `<&BigUint as Div<&BigUint>>::div`: exact floor division.
/// Division by zero panics, so the divisor must be nonzero.
#[verifier::external_body]
pub fn big_div(a: &BigUint, d: &BigUint) -> (r: BigUint)
    requires
        big_value(*d) > 0,
    ensures
        big_value(r) == big_value(*a) / big_value(*d),
{
    a / d
}

/// Relies on `<&BigUint as Rem<&BigUint>>::rem`: exact remainder.
/// Division by zero panics, so the divisor must be nonzero.
#[verifier::external_body]
pub fn big_rem(a: &BigUint, d: &BigUint) -> (r: BigUint)
    requires
        big_value(*d) > 0,
    ensures
        big_value(r) == big_value(*a) % big_value(*d),
{
    a % d
}

/// Relies on `<BigUint as Shl<u64>>::shl`: shifting 1 left by `k` yields
/// 2^k.
#[verifier::external_body]
pub fn big_pow2(k: u64) -> (r: BigUint)
    ensures
        big_value(r) == pow2(k as nat),
{
    BigUint::from(1u64) << k
}

/// Relies on `BigUint::to_bytes_be`: the minimal big-endian byte
/// representation of the value, a single zero byte for the value 0.
#[verifier::external_body]
pub fn big_to_bytes_be(a: &BigUint) -> (r: Vec<u8>)
    ensures
        r@ == min_be_bytes(big_value(*a)),
{
    a.to_bytes_be()
}

} // verus!
