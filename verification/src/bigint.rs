//! Trusted interface to the arbitrary-precision unsigned integers of the
//! `num_bigint` crate.
//!
//! Norm values leave the library as `BigUint`s so that they never overflow,
//! whatever the modulus and degree of the concrete ring. The library only
//! needs to build such a value from a machine word and to add two of them;
//! everything else it proves about the number the value holds.

use vstd::prelude::*;
use num_bigint::BigUint;

verus! {

#[verifier::external_type_specification]
#[verifier::external_body]
pub struct ExBigUint(BigUint);

/// The natural number that a `BigUint` holds.
pub uninterp spec fn biguint_value(b: BigUint) -> nat;

/// Relies on `<BigUint as From<u128>>::from`: the constructed big integer
/// holds exactly the given value.
#[verifier::external_body]
pub fn biguint_from_u128(v: u128) -> (r: BigUint)
    ensures
        biguint_value(r) == v as nat,
{
    BigUint::from(v)
}

/// Relies on `Add` for `&BigUint`: big-integer addition is exact.
#[verifier::external_body]
pub fn biguint_add(a: &BigUint, b: &BigUint) -> (r: BigUint)
    ensures
        biguint_value(r) == biguint_value(*a) + biguint_value(*b),
{
    a + b
}

} // verus!
