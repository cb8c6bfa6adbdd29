//! The calls into `num-bigint`, each behind a contract over the value of the
//! big-endian byte strings that go in and come out.
//!
//! Nothing in this file is proved: every contract below restates what the
//! documentation of the called function promises.

use crate::encoding::be_value;
use crate::hexstr::hex_bytes;
use crate::hexstr::is_hex_string;
use crate::random::is_alphanumeric_byte;
use num_bigint::BigUint;
use num_bigint::RandBigInt;
use rand::Rng;
use vstd::arithmetic::power::pow;
use vstd::prelude::*;

verus! {

/// `BigUint::modpow`: the result is `base ^ exponent` reduced modulo
/// `modulus`.  The call panics on a zero modulus, which the precondition
/// leaves out.  `BigUint::from_bytes_be` and `BigUint::to_bytes_be` read and
/// write the operands in big-endian byte order.
#[verifier::external_body]
pub(crate) fn modpow_bytes(base: &[u8], exponent: &[u8], modulus: &[u8]) -> (out: Vec<u8>)
    requires
        be_value(modulus@) > 0,
    ensures
        be_value(out@) == pow(be_value(base@) as int, be_value(exponent@)) % (be_value(
            modulus@,
        ) as int),
{
    let b = BigUint::from_bytes_be(base);
    let e = BigUint::from_bytes_be(exponent);
    let m = BigUint::from_bytes_be(modulus);
    b.modpow(&e, &m).to_bytes_be()
}

/// `BigUint` multiplication (`Mul`): the product of the two operands.
#[verifier::external_body]
pub(crate) fn mul_bytes(lhs: &[u8], rhs: &[u8]) -> (out: Vec<u8>)
    ensures
        be_value(out@) == be_value(lhs@) * be_value(rhs@),
{
    (BigUint::from_bytes_be(lhs) * BigUint::from_bytes_be(rhs)).to_bytes_be()
}

/// `BigUint` subtraction (`Sub`): the difference of the two operands.  The
/// call panics when the result would be negative, which the precondition
/// leaves out.
#[verifier::external_body]
pub(crate) fn sub_bytes(lhs: &[u8], rhs: &[u8]) -> (out: Vec<u8>)
    requires
        be_value(lhs@) >= be_value(rhs@),
    ensures
        be_value(out@) == be_value(lhs@) - be_value(rhs@),
{
    (BigUint::from_bytes_be(lhs) - BigUint::from_bytes_be(rhs)).to_bytes_be()
}

/// `BigUint` division (`Div`): the quotient of the first operand by the
/// second, rounded down.  The call panics on a zero divisor, which the
/// precondition leaves out.
#[verifier::external_body]
pub(crate) fn div_bytes(lhs: &[u8], rhs: &[u8]) -> (out: Vec<u8>)
    requires
        be_value(rhs@) > 0,
    ensures
        be_value(out@) == be_value(lhs@) / be_value(rhs@),
{
    (BigUint::from_bytes_be(lhs) / BigUint::from_bytes_be(rhs)).to_bytes_be()
}

/// `BigUint` remainder (`Rem`): what is left of the first operand after
/// division by the second.  The call panics on a zero divisor, which the
/// precondition leaves out.
#[verifier::external_body]
pub(crate) fn rem_bytes(lhs: &[u8], rhs: &[u8]) -> (out: Vec<u8>)
    requires
        be_value(rhs@) > 0,
    ensures
        be_value(out@) == be_value(lhs@) % be_value(rhs@),
{
    (BigUint::from_bytes_be(lhs) % BigUint::from_bytes_be(rhs)).to_bytes_be()
}

/// `BigUint` ordering (`PartialOrd::ge`): numbers are ordered by value.
#[verifier::external_body]
pub(crate) fn ge_bytes(lhs: &[u8], rhs: &[u8]) -> (out: bool)
    ensures
        out == (be_value(lhs@) >= be_value(rhs@)),
{
    BigUint::from_bytes_be(lhs) >= BigUint::from_bytes_be(rhs)
}

/// `BigUint` equality (`PartialEq::eq`): two numbers are equal when their
/// values are.
#[verifier::external_body]
pub(crate) fn eq_bytes(lhs: &[u8], rhs: &[u8]) -> (out: bool)
    ensures
        out == (be_value(lhs@) == be_value(rhs@)),
{
    BigUint::from_bytes_be(lhs) == BigUint::from_bytes_be(rhs)
}

/// `RandBigInt::gen_biguint_below` on `rand::thread_rng()`: a number drawn
/// below `bound`.  Only the range is stated; which number comes out is left
/// open.  The call panics on a zero bound, which the precondition leaves out.
#[verifier::external_body]
pub(crate) fn random_below_bytes(bound: &[u8]) -> (out: Vec<u8>)
    requires
        be_value(bound@) > 0,
    ensures
        be_value(out@) < be_value(bound@),
{
    rand::thread_rng().gen_biguint_below(&BigUint::from_bytes_be(bound)).to_bytes_be()
}

/// `Rng::sample` of `rand::distributions::Alphanumeric` on
/// `rand::thread_rng()`: one byte out of `A-Z`, `a-z`, `0-9`.  Which one is
/// left open.
#[verifier::external_body]
pub(crate) fn random_alphanumeric() -> (out: u8)
    ensures
        is_alphanumeric_byte(out),
{
    rand::thread_rng().sample(rand::distributions::Alphanumeric)
}

/// `String::push`: the character is appended at the end.
#[verifier::external_body]
pub(crate) fn push_char(text: &mut String, c: char)
    ensures
        final(text)@ == old(text)@.push(c),
{
    text.push(c)
}

/// `hex::decode`: text made of an even number of hexadecimal digits, in
/// either case, gives one byte for each pair of digits; any other text is
/// refused.
#[verifier::external_body]
pub(crate) fn hex_decode(text: &str) -> (out: Option<Vec<u8>>)
    ensures
        out is Some <==> is_hex_string(text@),
        out is Some ==> out->Some_0@ == hex_bytes(text@),
{
    hex::decode(text).ok()
}

} // verus!
