//! Numeric values of the language: IEEE-754 binary64 numbers, held as their bit
//! patterns. Arithmetic and decimal conversion are done by a software
//! implementation of IEEE-754 (`rustc_apfloat`), rounding to nearest, ties to even.
use rustc_apfloat::ieee::Double;
use rustc_apfloat::Float;
use vstd::prelude::*;

verus! {

/// The sign bit of a binary64 bit pattern.
pub const SIGN_BIT: u64 = 0x8000_0000_0000_0000;

/// A 64-bit floating-point value, stored as its IEEE-754 bit pattern.
#[derive(Clone, Copy, PartialEq, Eq, Debug, Structural)]
pub struct Num {
    pub bits: u64,
}

/// The bit pattern of the IEEE-754 sum `a + b`.
pub uninterp spec fn f64_sum(a: u64, b: u64) -> u64;

/// The bit pattern of the IEEE-754 difference `a - b`.
pub uninterp spec fn f64_difference(a: u64, b: u64) -> u64;

/// The bit pattern of the IEEE-754 product `a * b`.
pub uninterp spec fn f64_product(a: u64, b: u64) -> u64;

/// The bit pattern of the IEEE-754 quotient `a / b`.
pub uninterp spec fn f64_quotient(a: u64, b: u64) -> u64;

/// The bit pattern of the binary64 value nearest to a decimal literal.
pub uninterp spec fn decimal_value(text: Seq<char>) -> u64;

pub open spec fn is_digit(c: char) -> bool {
    '0' <= c && c <= '9'
}

/// Digits with at most one `.`, starting with a digit: `42`, `123.45`.
pub open spec fn is_decimal_literal(t: Seq<char>) -> bool {
    &&& t.len() > 0
    &&& is_digit(t[0])
    &&& forall|i: int| 0 <= i < t.len() ==> is_digit(#[trigger] t[i]) || t[i] == '.'
    &&& forall|i: int, m: int|
        0 <= i < t.len() && 0 <= m < t.len() && #[trigger] t[i] == '.' && #[trigger] t[m] == '.'
            ==> i == m
}

/// Negation flips the sign bit, as IEEE-754 `negate` does.
pub open spec fn neg_bits(b: u64) -> u64 {
    if b >= SIGN_BIT {
        (b - SIGN_BIT) as u64
    } else {
        (b + SIGN_BIT) as u64
    }
}

/// Positive and negative zero compare equal to `0.0`; nothing else does.
pub open spec fn is_zero_bits(b: u64) -> bool {
    b == 0 || b == SIGN_BIT
}

/// Relies on `rustc_apfloat`'s `Add` for `Double`: the IEEE sum, a function of its operands.
#[verifier::external_body]
fn f64_add(a: u64, b: u64) -> (r: u64)
    ensures
        r == f64_sum(a, b),
{
    (Double::from_bits(a as u128) + Double::from_bits(b as u128)).value.to_bits() as u64
}

/// Relies on `rustc_apfloat`'s `Sub` for `Double`: the IEEE difference, a function of its operands.
#[verifier::external_body]
fn f64_sub(a: u64, b: u64) -> (r: u64)
    ensures
        r == f64_difference(a, b),
{
    (Double::from_bits(a as u128) - Double::from_bits(b as u128)).value.to_bits() as u64
}

/// Relies on `rustc_apfloat`'s `Mul` for `Double`: the IEEE product, a function of its operands.
#[verifier::external_body]
fn f64_mul(a: u64, b: u64) -> (r: u64)
    ensures
        r == f64_product(a, b),
{
    (Double::from_bits(a as u128) * Double::from_bits(b as u128)).value.to_bits() as u64
}

/// Relies on `rustc_apfloat`'s `Div` for `Double`: the IEEE quotient, a function of its operands.
#[verifier::external_body]
fn f64_div(a: u64, b: u64) -> (r: u64)
    ensures
        r == f64_quotient(a, b),
{
    (Double::from_bits(a as u128) / Double::from_bits(b as u128)).value.to_bits() as u64
}

/// Relies on `rustc_apfloat`'s `FromStr` for `Double` (`from_str_r`, ties to even), which
/// accepts every string of digits with an optional fractional part.
#[verifier::external_body]
fn parse_decimal(text: &str) -> (r: u64)
    requires
        is_decimal_literal(text@),
    ensures
        r == decimal_value(text@),
{
    match text.parse::<Double>() {
        Ok(d) => d.to_bits() as u64,
        Err(_) => 0,
    }
}

impl Num {
    pub fn from_bits(bits: u64) -> (r: Num)
        ensures
            r.bits == bits,
    {
        Num { bits }
    }

    pub fn to_bits(self) -> (r: u64)
        ensures
            r == self.bits,
    {
        self.bits
    }

    /// Positive zero.
    pub fn zero() -> (r: Num)
        ensures
            r.bits == 0,
    {
        Num { bits: 0 }
    }

    pub fn is_zero(self) -> (r: bool)
        ensures
            r == is_zero_bits(self.bits),
    {
        self.bits == 0 || self.bits == SIGN_BIT
    }

    pub fn neg(self) -> (r: Num)
        ensures
            r.bits == neg_bits(self.bits),
    {
        if self.bits >= SIGN_BIT {
            Num { bits: self.bits - SIGN_BIT }
        } else {
            Num { bits: self.bits + SIGN_BIT }
        }
    }

    pub fn add(self, o: Num) -> (r: Num)
        ensures
            r.bits == f64_sum(self.bits, o.bits),
    {
        Num { bits: f64_add(self.bits, o.bits) }
    }

    pub fn sub(self, o: Num) -> (r: Num)
        ensures
            r.bits == f64_difference(self.bits, o.bits),
    {
        Num { bits: f64_sub(self.bits, o.bits) }
    }

    pub fn mul(self, o: Num) -> (r: Num)
        ensures
            r.bits == f64_product(self.bits, o.bits),
    {
        Num { bits: f64_mul(self.bits, o.bits) }
    }

    pub fn div(self, o: Num) -> (r: Num)
        ensures
            r.bits == f64_quotient(self.bits, o.bits),
    {
        Num { bits: f64_div(self.bits, o.bits) }
    }

    /// The value of a decimal literal such as `42` or `123.45`.
    pub fn from_decimal(text: &str) -> (r: Num)
        requires
            is_decimal_literal(text@),
        ensures
            r.bits == decimal_value(text@),
    {
        Num { bits: parse_decimal(text) }
    }
}

} // verus!
