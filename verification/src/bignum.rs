//! Trusted interface to the arbitrary-precision integers of the
//! `num_bigint` crate.
//!
//! A `BigInt` is opaque to verification; `big_value` names the integer it
//! holds, and each wrapper states, over that name, what the crate's own
//! code does.

use vstd::prelude::*;
use vstd::arithmetic::power2::pow2;
use core::cmp::Ordering;
use crate::double::{is_nan, val_scaled};

verus! {

#[verifier::external_type_specification]
#[verifier::external_body]
pub struct ExBigInt(num_bigint::BigInt);

/// The integer that a `BigInt` holds.
pub uninterp spec fn big_value(b: num_bigint::BigInt) -> int;

/// The bit pattern of the double that `num_bigint`'s widening conversion
/// produces for the integer `v`; it depends on the integer alone.
pub uninterp spec fn f64_bits_of_int(v: int) -> u64;

/// Relies on `Ord for BigInt`: comparison by sign, then by magnitude, is
/// exactly comparison of the held integers.
#[verifier::external_body]
pub fn big_cmp(a: &num_bigint::BigInt, b: &num_bigint::BigInt) -> (r: Ordering)
    ensures
        (r == Ordering::Less <==> big_value(*a) < big_value(*b)),
        (r == Ordering::Equal <==> big_value(*a) == big_value(*b)),
        (r == Ordering::Greater <==> big_value(*a) > big_value(*b)),
{
    a.cmp(b)
}

/// Relies on `BigInt::sign`: the sign is `Minus` exactly for negative
/// values.
#[verifier::external_body]
pub fn big_is_negative(b: &num_bigint::BigInt) -> (r: bool)
    ensures
        r == (big_value(*b) < 0),
{
    match b.sign() {
        num_bigint::Sign::Minus => true,
        num_bigint::Sign::NoSign => false,
        num_bigint::Sign::Plus => false,
    }
}

/// Relies on `ToPrimitive::to_i32` for `BigInt`: the exact value when it
/// fits in 32 bits, and `None` otherwise.
#[verifier::external_body]
pub fn big_to_i32(b: &num_bigint::BigInt) -> (r: Option<i32>)
    ensures
        match r {
            Option::Some(i) => big_value(*b) == i as int,
            Option::None => !crate::in_i32_range(big_value(*b)),
        },
{
    num_traits::ToPrimitive::to_i32(b)
}

/// Relies on `ToPrimitive::to_f64` for `BigInt` (which never returns
/// `None`): the value widened to a double, possibly losing precision, as a
/// function of the integer alone.  The conversion keeps the top bits of the
/// magnitude and applies the sign, so it never produces a NaN, and a value
/// beyond the 32-bit range widens to a double beyond that range.
#[verifier::external_body]
pub fn big_to_f64_bits(b: &num_bigint::BigInt) -> (r: u64)
    ensures
        r == f64_bits_of_int(big_value(*b)),
        !is_nan(r),
        big_value(*b) > 0x7fff_ffff ==> val_scaled(r) > 0x7fff_ffff * pow2(1074),
        big_value(*b) < -0x8000_0000 ==> val_scaled(r) < (-0x8000_0000) * pow2(1074),
{
    num_traits::ToPrimitive::to_f64(b).unwrap().to_bits()
}

/// Relies on `From<i64> for BigInt`: an exact conversion.
#[verifier::external_body]
pub fn big_from_i64(x: i64) -> (r: num_bigint::BigInt)
    ensures
        big_value(r) == x as int,
{
    num_bigint::BigInt::from(x)
}

} // verus!
