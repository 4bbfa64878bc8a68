//! Runtime values.
//!
//! A number is a double, held as its IEEE-754 binary64 bit pattern. Order
//! and equality of numbers are decided on the bit patterns; arithmetic on
//! them is left to the host of the virtual machine.

use vstd::prelude::*;
use crate::interner::StrId;
use crate::object::{ClosureId, FunId};

verus! {

#[derive(Debug, Clone, Copy, PartialEq, Eq, Structural)]
pub enum Value {
    Nil,
    /// A double, as its bit pattern.
    Number(u64),
    Bool(bool),
    String(StrId),
    Function(FunId),
    Closure(ClosureId),
}

/// Two to the power 63: the weight of a double's sign bit.
pub const SIGN_WEIGHT: u64 = 0x8000_0000_0000_0000;

/// The magnitude bits of positive infinity. Every larger magnitude is a NaN.
pub const INFINITY_MAGNITUDE: u64 = 0x7FF0_0000_0000_0000;

/// Two to the power 52: the weight of the lowest exponent bit.
pub const EXPONENT_WEIGHT: u64 = 0x0010_0000_0000_0000;

/// The bit pattern of the double 0.
pub const NUMBER_ZERO: u64 = 0;

/// The bit pattern of the double 1.
pub const NUMBER_ONE: u64 = 0x3FF0_0000_0000_0000;

/// The exponent and fraction bits of a double, without its sign.
pub open spec fn number_magnitude(bits: u64) -> int {
    bits as int % (SIGN_WEIGHT as int)
}

pub open spec fn number_is_negative(bits: u64) -> bool {
    bits >= SIGN_WEIGHT
}

pub open spec fn number_is_nan(bits: u64) -> bool {
    number_magnitude(bits) > INFINITY_MAGNITUDE as int
}

/// An integer that orders the doubles which are no NaN as their values are
/// ordered: both zeros have rank 0.
pub open spec fn number_rank(bits: u64) -> int {
    if number_is_negative(bits) {
        -number_magnitude(bits)
    } else {
        number_magnitude(bits)
    }
}

/// Equality of doubles: a NaN equals nothing, the two zeros are equal.
pub open spec fn number_equal(a: u64, b: u64) -> bool {
    !number_is_nan(a) && !number_is_nan(b) && number_rank(a) == number_rank(b)
}

/// Strict order of doubles: a NaN is neither below nor above anything.
pub open spec fn number_less(a: u64, b: u64) -> bool {
    !number_is_nan(a) && !number_is_nan(b) && number_rank(a) < number_rank(b)
}

/// The value of a double truncated toward zero and clamped to `0..=255`;
/// a NaN gives 0.
pub open spec fn number_count(bits: u64) -> int {
    let magnitude = number_magnitude(bits);
    let exponent = magnitude / (EXPONENT_WEIGHT as int);
    let significand = EXPONENT_WEIGHT as int + magnitude % (EXPONENT_WEIGHT as int);
    if number_is_nan(bits) || number_is_negative(bits) || exponent < 1023 {
        0
    } else if exponent >= 1031 {
        255
    } else {
        significand / vstd::arithmetic::power2::pow2((1075 - exponent) as nat) as int
    }
}

/// Equality of values: by content for nil, booleans, numbers and strings,
/// by identity for functions and closures.
pub open spec fn values_equal(a: Value, b: Value) -> bool {
    match (a, b) {
        (Value::Nil, Value::Nil) => true,
        (Value::Number(x), Value::Number(y)) => number_equal(x, y),
        (Value::Bool(x), Value::Bool(y)) => x == y,
        (Value::String(x), Value::String(y)) => x == y,
        (Value::Function(x), Value::Function(y)) => x == y,
        (Value::Closure(x), Value::Closure(y)) => x == y,
        _ => false,
    }
}

/// Order of values: only a number is below another number.
pub open spec fn value_less(a: Value, b: Value) -> bool {
    match (a, b) {
        (Value::Number(x), Value::Number(y)) => number_less(x, y),
        _ => false,
    }
}

/// Only the boolean false is falsy.
pub open spec fn falsy(value: Value) -> bool {
    value == Value::Bool(false)
}

pub open spec fn callable(value: Value) -> bool {
    value is Function || value is Closure
}

fn magnitude_of(bits: u64) -> (m: u64)
    ensures
        m == number_magnitude(bits),
{
    bits % SIGN_WEIGHT
}

fn is_nan(bits: u64) -> (r: bool)
    ensures
        r == number_is_nan(bits),
{
    magnitude_of(bits) > INFINITY_MAGNITUDE
}

pub fn number_eq(a: u64, b: u64) -> (r: bool)
    ensures
        r == number_equal(a, b),
{
    if is_nan(a) || is_nan(b) {
        return false;
    }
    let ma: u64 = magnitude_of(a);
    let mb: u64 = magnitude_of(b);
    if ma == 0 && mb == 0 {
        true
    } else {
        a == b
    }
}

pub fn number_lt(a: u64, b: u64) -> (r: bool)
    ensures
        r == number_less(a, b),
{
    if is_nan(a) || is_nan(b) {
        return false;
    }
    let ma: u64 = magnitude_of(a);
    let mb: u64 = magnitude_of(b);
    let a_negative: bool = a >= SIGN_WEIGHT;
    let b_negative: bool = b >= SIGN_WEIGHT;
    if a_negative {
        if b_negative {
            mb < ma
        } else {
            ma != 0 || mb != 0
        }
    } else {
        if b_negative {
            false
        } else {
            ma < mb
        }
    }
}

/// The count that a number literal stands for in a declaration.
pub fn number_to_count(bits: u64) -> (count: u8)
    ensures
        count == number_count(bits),
{
    if is_nan(bits) || bits >= SIGN_WEIGHT {
        return 0;
    }
    let magnitude: u64 = magnitude_of(bits);
    let exponent: u64 = magnitude / EXPONENT_WEIGHT;
    let significand: u64 = EXPONENT_WEIGHT + magnitude % EXPONENT_WEIGHT;
    if exponent < 1023 {
        return 0;
    }
    if exponent >= 1031 {
        return 255;
    }
    proof {
        vstd::arithmetic::power2::lemma2_to64();
        vstd::arithmetic::power2::lemma2_to64_rest();
    }
    let divisor: u64 = if exponent == 1023 {
        0x0010_0000_0000_0000
    } else if exponent == 1024 {
        0x0008_0000_0000_0000
    } else if exponent == 1025 {
        0x0004_0000_0000_0000
    } else if exponent == 1026 {
        0x0002_0000_0000_0000
    } else if exponent == 1027 {
        0x0001_0000_0000_0000
    } else if exponent == 1028 {
        0x0000_8000_0000_0000
    } else if exponent == 1029 {
        0x0000_4000_0000_0000
    } else {
        0x0000_2000_0000_0000
    };
    assert(divisor as int == vstd::arithmetic::power2::pow2((1075 - exponent) as nat));
    (significand / divisor) as u8
}

pub fn value_equal(a: Value, b: Value) -> (r: bool)
    ensures
        r == values_equal(a, b),
{
    match (a, b) {
        (Value::Nil, Value::Nil) => true,
        (Value::Number(x), Value::Number(y)) => number_eq(x, y),
        (Value::Bool(x), Value::Bool(y)) => x == y,
        (Value::String(x), Value::String(y)) => x.0 == y.0,
        (Value::Function(x), Value::Function(y)) => x == y,
        (Value::Closure(x), Value::Closure(y)) => x == y,
        _ => false,
    }
}

pub fn is_less(a: Value, b: Value) -> (r: bool)
    ensures
        r == value_less(a, b),
{
    match (a, b) {
        (Value::Number(x), Value::Number(y)) => number_lt(x, y),
        _ => false,
    }
}

pub fn is_falsy(value: &Value) -> (r: bool)
    ensures
        r == falsy(*value),
{
    match value {
        Value::Bool(false) => true,
        _ => false,
    }
}

pub fn is_function_or_closure(value: &Value) -> (r: bool)
    ensures
        r == callable(*value),
{
    match value {
        Value::Function(_) | Value::Closure(_) => true,
        _ => false,
    }
}

} // verus!
