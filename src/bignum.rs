//! Arbitrary-precision naturals carried as big-endian byte strings.
//!
//! The arithmetic is performed by `num_bigint::BigUint`; each wrapper below
//! converts its arguments from bytes, makes one call, and converts back.

use vstd::prelude::*;
use vstd::arithmetic::power::pow;
use num_bigint::{BigUint, RandBigInt};

verus! {

/// The natural number that a big-endian byte string denotes (an empty
/// string denotes zero, and leading zero bytes do not count).
pub open spec fn be_value(b: Seq<u8>) -> nat
    decreases b.len(),
{
    if b.len() == 0 {
        0
    } else {
        be_value(b.drop_last()) * 256 + b.last() as nat
    }
}

/// `(base ^ exp) % modulus` over the naturals.
pub open spec fn mod_pow_spec(base: nat, exp: nat, modulus: nat) -> nat
    recommends
        modulus > 0,
{
    (pow(base as int, exp) % (modulus as int)) as nat
}

/// Relies on `BigUint::modpow`: returns `(self ^ exponent) % modulus`,
/// and panics only on a zero modulus.
#[verifier::external_body]
pub(crate) fn big_mod_pow(base: &[u8], exp: &[u8], modulus: &[u8]) -> (r: Vec<u8>)
    requires
        be_value(modulus@) > 0,
    ensures
        be_value(r@) == mod_pow_spec(be_value(base@), be_value(exp@), be_value(modulus@)),
{
    let m = BigUint::from_bytes_be(modulus);
    BigUint::from_bytes_be(base).modpow(&BigUint::from_bytes_be(exp), &m).to_bytes_be()
}

/// `v % modulus`, computed as `v ^ 1 % modulus`.
pub(crate) fn mod_reduce(v: &[u8], modulus: &[u8]) -> (r: Vec<u8>)
    requires
        be_value(modulus@) > 0,
    ensures
        be_value(r@) == be_value(v@) % be_value(modulus@),
{
    let one: Vec<u8> = vec![1u8];
    proof {
        reveal_with_fuel(be_value, 2);
        assert(be_value(one@) == 1);
        vstd::arithmetic::power::lemma_pow1(be_value(v@) as int);
    }
    big_mod_pow(v, one.as_slice(), modulus)
}

/// Relies on `Mul` for `BigUint`: the exact product.
#[verifier::external_body]
pub(crate) fn big_mul(a: &[u8], b: &[u8]) -> (r: Vec<u8>)
    ensures
        be_value(r@) == be_value(a@) * be_value(b@),
{
    (BigUint::from_bytes_be(a) * BigUint::from_bytes_be(b)).to_bytes_be()
}

/// Relies on `Sub` for `BigUint`: the exact difference, which panics when
/// it would be negative.
#[verifier::external_body]
pub(crate) fn big_sub(a: &[u8], b: &[u8]) -> (r: Vec<u8>)
    requires
        be_value(a@) >= be_value(b@),
    ensures
        be_value(r@) == be_value(a@) - be_value(b@),
{
    (BigUint::from_bytes_be(a) - BigUint::from_bytes_be(b)).to_bytes_be()
}

/// Relies on `PartialOrd::ge` for `BigUint`, which compares the values.
#[verifier::external_body]
pub(crate) fn big_ge(a: &[u8], b: &[u8]) -> (r: bool)
    ensures
        r == (be_value(a@) >= be_value(b@)),
{
    BigUint::from_bytes_be(a) >= BigUint::from_bytes_be(b)
}

/// Relies on `PartialEq::eq` for `BigUint`, which compares the values.
#[verifier::external_body]
pub(crate) fn big_eq(a: &[u8], b: &[u8]) -> (r: bool)
    ensures
        r == (be_value(a@) == be_value(b@)),
{
    BigUint::from_bytes_be(a) == BigUint::from_bytes_be(b)
}

/// Relies on `RandBigInt::gen_biguint_below` with the thread-local
/// cryptographically secure generator: a value below the bound, which
/// panics on a zero bound.
#[verifier::external_body]
pub(crate) fn big_random_below(bound: &[u8]) -> (r: Vec<u8>)
    requires
        be_value(bound@) > 0,
    ensures
        be_value(r@) < be_value(bound@),
{
    rand::thread_rng().gen_biguint_below(&BigUint::from_bytes_be(bound)).to_bytes_be()
}

} // verus!
