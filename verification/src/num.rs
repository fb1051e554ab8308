//! Numbers and the trusted floating-point primitives.
//!
//! The language has a single value type: an IEEE-754 double.  The verified
//! code stores every value as its 64-bit encoding (`u64`) and never computes
//! with floats directly.  Each primitive operation is an uninterpreted
//! function of the operand encodings, implemented by `rustc_apfloat`'s
//! software implementation of IEEE-754 double arithmetic.

use rustc_apfloat::Float;
use vstd::prelude::*;
use vstd::string::StringExecFns;

verus! {

/// The encoding of `0.0`, the neutral value of the language.
pub const ZERO_BITS: u64 = 0;

/// The encoding of `1.0`, the value a true comparison evaluates to.
pub const ONE_BITS: u64 = 0x3FF0_0000_0000_0000;

/// The double produced by adding the doubles encoded by `a` and `b`.
pub uninterp spec fn add_bits(a: u64, b: u64) -> u64;

/// The double produced by subtracting the double encoded by `b` from the one encoded by `a`.
pub uninterp spec fn sub_bits(a: u64, b: u64) -> u64;

/// The double produced by multiplying the doubles encoded by `a` and `b`.
pub uninterp spec fn mul_bits(a: u64, b: u64) -> u64;

/// The double produced by dividing the double encoded by `a` by the one encoded by `b`.
pub uninterp spec fn div_bits(a: u64, b: u64) -> u64;

/// The remainder (C `fmod`) of the doubles encoded by `a` and `b`.
pub uninterp spec fn fmod_bits(a: u64, b: u64) -> u64;

/// Whether the double encoded by `a` is strictly less than the one encoded by `b`.
pub uninterp spec fn lt_bits(a: u64, b: u64) -> bool;

/// Whether the double encoded by `a` is strictly greater than the one encoded by `b`.
pub uninterp spec fn gt_bits(a: u64, b: u64) -> bool;

/// Whether the doubles encoded by `a` and `b` compare equal (IEEE equality,
/// so `-0.0 == 0.0` and a NaN is equal to nothing).
pub uninterp spec fn eq_bits(a: u64, b: u64) -> bool;

/// The double denoted by the decimal token `s`, or `None` where `s` is not a
/// number.  A function of the characters of `s` alone.
pub uninterp spec fn parse_bits(s: Seq<char>) -> Option<u64>;

/// Relies on `rustc_apfloat::ieee::Double`: `from_bits`, `Add::add`
/// (round-to-nearest-even, the IEEE default) and `to_bits`.
#[verifier::external_body]
pub(crate) fn f64_add(a: u64, b: u64) -> (r: u64)
    ensures
        r == add_bits(a, b),
{
    let x = rustc_apfloat::ieee::Double::from_bits(a as u128);
    let y = rustc_apfloat::ieee::Double::from_bits(b as u128);
    (x + y).value.to_bits() as u64
}

/// Relies on `rustc_apfloat::ieee::Double`: `from_bits`, `Sub::sub` and `to_bits`.
#[verifier::external_body]
pub(crate) fn f64_sub(a: u64, b: u64) -> (r: u64)
    ensures
        r == sub_bits(a, b),
{
    let x = rustc_apfloat::ieee::Double::from_bits(a as u128);
    let y = rustc_apfloat::ieee::Double::from_bits(b as u128);
    (x - y).value.to_bits() as u64
}

/// Relies on `rustc_apfloat::ieee::Double`: `from_bits`, `Mul::mul` and `to_bits`.
#[verifier::external_body]
pub(crate) fn f64_mul(a: u64, b: u64) -> (r: u64)
    ensures
        r == mul_bits(a, b),
{
    let x = rustc_apfloat::ieee::Double::from_bits(a as u128);
    let y = rustc_apfloat::ieee::Double::from_bits(b as u128);
    (x * y).value.to_bits() as u64
}

/// Relies on `rustc_apfloat::ieee::Double`: `from_bits`, `Div::div` and `to_bits`.
/// Division by zero follows IEEE-754 (an infinity or a NaN), it is not an error.
#[verifier::external_body]
pub(crate) fn f64_div(a: u64, b: u64) -> (r: u64)
    ensures
        r == div_bits(a, b),
{
    let x = rustc_apfloat::ieee::Double::from_bits(a as u128);
    let y = rustc_apfloat::ieee::Double::from_bits(b as u128);
    (x / y).value.to_bits() as u64
}

/// Relies on `rustc_apfloat::ieee::Double`: `from_bits`, `Float::c_fmod`
/// (C `fmod`, LLVM `frem`) and `to_bits`.
#[verifier::external_body]
pub(crate) fn f64_fmod(a: u64, b: u64) -> (r: u64)
    ensures
        r == fmod_bits(a, b),
{
    let x = rustc_apfloat::ieee::Double::from_bits(a as u128);
    let y = rustc_apfloat::ieee::Double::from_bits(b as u128);
    x.c_fmod(y).value.to_bits() as u64
}

/// Relies on `rustc_apfloat::ieee::Double`: `from_bits` and `PartialOrd::lt`
/// (IEEE ordered less-than; false whenever an operand is a NaN).
#[verifier::external_body]
pub(crate) fn f64_lt(a: u64, b: u64) -> (r: bool)
    ensures
        r == lt_bits(a, b),
{
    let x = rustc_apfloat::ieee::Double::from_bits(a as u128);
    let y = rustc_apfloat::ieee::Double::from_bits(b as u128);
    x < y
}

/// Relies on `rustc_apfloat::ieee::Double`: `from_bits` and `PartialOrd::gt`
/// (IEEE ordered greater-than; false whenever an operand is a NaN).
#[verifier::external_body]
pub(crate) fn f64_gt(a: u64, b: u64) -> (r: bool)
    ensures
        r == gt_bits(a, b),
{
    let x = rustc_apfloat::ieee::Double::from_bits(a as u128);
    let y = rustc_apfloat::ieee::Double::from_bits(b as u128);
    x > y
}

/// Relies on `rustc_apfloat::ieee::Double`: `from_bits` and `PartialEq::eq`
/// (IEEE equality; `-0.0 == 0.0`, and false whenever an operand is a NaN).
#[verifier::external_body]
pub(crate) fn f64_eq(a: u64, b: u64) -> (r: bool)
    ensures
        r == eq_bits(a, b),
{
    let x = rustc_apfloat::ieee::Double::from_bits(a as u128);
    let y = rustc_apfloat::ieee::Double::from_bits(b as u128);
    x == y
}

/// Relies on `rustc_apfloat::ieee::Double`: `FromStr::from_str` (decimal or
/// hexadecimal float syntax, round-to-nearest-even; `Err` on anything else)
/// and `to_bits`.
#[verifier::external_body]
pub(crate) fn f64_parse(s: &str) -> (r: Option<u64>)
    ensures
        r == parse_bits(s@),
{
    match <rustc_apfloat::ieee::Double as core::str::FromStr>::from_str(s) {
        Ok(d) => Some(d.to_bits() as u64),
        Err(_) => None,
    }
}

/// A number of the language: the 64-bit encoding of an IEEE-754 double.
#[derive(Debug, Clone, Copy, PartialEq, Eq, Structural)]
pub struct Number(pub u64);

impl Number {
    /// Create a number from a token.  Returns an error exactly when the token
    /// does not denote a double.
    pub fn new(s: &str) -> (r: Result<Self, String>)
        ensures
            match r {
                Ok(n) => parse_bits(s@) == Some(n.0),
                Err(m) => parse_bits(s@) is None && m@ == "Invalid number: "@ + s@,
            },
    {
        match f64_parse(s) {
            Some(bits) => Ok(Number(bits)),
            None => {
                let mut m = String::new();
                m.append("Invalid number: ");
                m.append(s);
                proof {
                    assert(m@ =~= "Invalid number: "@ + s@);
                }
                Err(m)
            },
        }
    }
}

} // verus!
