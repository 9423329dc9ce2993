//! The arbitrary-precision arithmetic that this crate takes from `num-bigint`,
//! `rand` and `num-primes`.
//!
//! Every function here hands byte strings to the outside crate and takes a
//! byte string or a flag back. Their contracts are stated, not proved: each
//! doc comment says what is taken on trust.

use vstd::prelude::*;
use vstd::arithmetic::power::pow;
use crate::encoding::be_value;
use num_bigint::{BigUint, RandBigInt};

verus! {

/// Addition of `num_bigint::BigUint` (`Add`): the result denotes the sum of the
/// two numbers.
#[verifier::external_body]
pub(crate) fn add_bytes(a: &[u8], b: &[u8]) -> (out: Vec<u8>)
    ensures
        be_value(out@) == be_value(a@) + be_value(b@),
{
    (BigUint::from_bytes_be(a) + BigUint::from_bytes_be(b)).to_bytes_be()
}

/// Subtraction of `num_bigint::BigUint` (`Sub`), which panics when the
/// subtrahend is the larger number: that case is excluded. The result denotes
/// the difference.
#[verifier::external_body]
pub(crate) fn sub_bytes(a: &[u8], b: &[u8]) -> (out: Vec<u8>)
    requires
        be_value(a@) >= be_value(b@),
    ensures
        be_value(out@) == be_value(a@) - be_value(b@),
{
    (BigUint::from_bytes_be(a) - BigUint::from_bytes_be(b)).to_bytes_be()
}

/// Multiplication of `num_bigint::BigUint` (`Mul`): the result denotes the
/// product.
#[verifier::external_body]
pub(crate) fn mul_bytes(a: &[u8], b: &[u8]) -> (out: Vec<u8>)
    ensures
        be_value(out@) == be_value(a@) * be_value(b@),
{
    (BigUint::from_bytes_be(a) * BigUint::from_bytes_be(b)).to_bytes_be()
}

/// Division of `num_bigint::BigUint` (`Div`), which panics on a zero divisor:
/// that case is excluded. The result denotes the quotient, rounded down.
#[verifier::external_body]
pub(crate) fn div_bytes(a: &[u8], b: &[u8]) -> (out: Vec<u8>)
    requires
        be_value(b@) > 0,
    ensures
        be_value(out@) == be_value(a@) / be_value(b@),
{
    (BigUint::from_bytes_be(a) / BigUint::from_bytes_be(b)).to_bytes_be()
}

/// Remainder of `num_bigint::BigUint` (`Rem`), which panics on a zero divisor:
/// that case is excluded. The result denotes the remainder of the division.
#[verifier::external_body]
pub(crate) fn rem_bytes(a: &[u8], b: &[u8]) -> (out: Vec<u8>)
    requires
        be_value(b@) > 0,
    ensures
        be_value(out@) == be_value(a@) % be_value(b@),
{
    (BigUint::from_bytes_be(a) % BigUint::from_bytes_be(b)).to_bytes_be()
}

/// `num_bigint::BigUint::modpow`, documented as `(self ^ exponent) % modulus`
/// and as panicking on a zero modulus: that case is excluded. The result
/// denotes the power reduced by the modulus.
#[verifier::external_body]
pub(crate) fn modpow_bytes(base: &[u8], exponent: &[u8], modulus: &[u8]) -> (out: Vec<u8>)
    requires
        be_value(modulus@) > 0,
    ensures
        be_value(out@) == pow(be_value(base@) as int, be_value(exponent@)) % (be_value(
            modulus@,
        ) as int),
{
    let b = BigUint::from_bytes_be(base);
    let e = BigUint::from_bytes_be(exponent);
    let m = BigUint::from_bytes_be(modulus);
    b.modpow(&e, &m).to_bytes_be()
}

/// `num_bigint::RandBigInt::gen_biguint_range` on `rand::thread_rng()`: a
/// random number from `low` (inclusive) up to `high` (exclusive). It fails on an
/// empty range, which is excluded. Nothing but the range is known of the
/// outcome.
#[verifier::external_body]
pub(crate) fn random_range_bytes(low: &[u8], high: &[u8]) -> (out: Vec<u8>)
    requires
        be_value(low@) < be_value(high@),
    ensures
        be_value(low@) <= be_value(out@) < be_value(high@),
{
    let lo = BigUint::from_bytes_be(low);
    let hi = BigUint::from_bytes_be(high);
    rand::thread_rng().gen_biguint_range(&lo, &hi).to_bytes_be()
}

/// `num_primes::Verification::is_prime`: trial division, a Fermat test and
/// eight rounds of Miller-Rabin on random bases. The answer depends on the
/// bases drawn, so the one thing claimed of it is what holds before any base
/// is drawn: every even number but 2 is rejected. On 3 the test asks for a
/// base from an empty range and fails; numbers below 4 are excluded.
#[verifier::external_body]
pub(crate) fn probable_prime_bytes(n: &[u8]) -> (probably_prime: bool)
    requires
        be_value(n@) >= 4,
    ensures
        be_value(n@) % 2 == 0 ==> !probably_prime,
{
    num_primes::Verification::is_prime(&num_primes::BigUint::from_bytes_be(n))
}

} // verus!
