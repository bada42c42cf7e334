//! Binary64 numbers as bit patterns: order, equality and negation.

use vstd::prelude::*;

verus! {

/// The sign bit of a binary64 bit pattern.
pub const SIGN_BIT: u64 = 0x8000_0000_0000_0000;

/// The bit pattern of positive infinity: every exponent bit set, no fraction
/// bit set.
pub const INFINITY: u64 = 0x7ff0_0000_0000_0000;

/// The four arithmetic operations that the caller's arithmetic function
/// carries out on two bit patterns.
#[derive(Debug, Clone, Copy, PartialEq, Eq, Structural)]
pub enum Arithmetic {
    Add,
    Subtract,
    Multiply,
    Divide,
}

/// The pattern without its sign bit.
pub open spec fn magnitude(bits: u64) -> int {
    if bits >= SIGN_BIT {
        bits - SIGN_BIT
    } else {
        bits as int
    }
}

/// Not a number: the magnitude lies above that of infinity.
pub open spec fn is_nan(bits: u64) -> bool {
    magnitude(bits) > INFINITY
}

/// The place of a pattern on the number line, as a signed integer: among
/// patterns that are numbers, a greater place is a greater number, and both
/// zeros share place 0.
pub open spec fn place(bits: u64) -> int {
    if bits >= SIGN_BIT {
        -magnitude(bits)
    } else {
        magnitude(bits)
    }
}

/// IEEE-754 `<`: false when either side is not a number.
pub open spec fn less(a: u64, b: u64) -> bool {
    !is_nan(a) && !is_nan(b) && place(a) < place(b)
}

/// IEEE-754 `==`: false when either side is not a number; the two zeros are
/// equal.
pub open spec fn equal(a: u64, b: u64) -> bool {
    !is_nan(a) && !is_nan(b) && place(a) == place(b)
}

/// IEEE-754 negation: the same pattern with the sign bit flipped.
pub open spec fn negated(bits: u64) -> u64 {
    if bits >= SIGN_BIT {
        (bits - SIGN_BIT) as u64
    } else {
        (bits + SIGN_BIT) as u64
    }
}

pub fn number_is_nan(bits: u64) -> (r: bool)
    ensures
        r == is_nan(bits),
{
    let m: u64 = if bits >= SIGN_BIT {
        bits - SIGN_BIT
    } else {
        bits
    };
    m > INFINITY
}

pub fn number_less(a: u64, b: u64) -> (r: bool)
    ensures
        r == less(a, b),
{
    if number_is_nan(a) || number_is_nan(b) {
        return false;
    }
    if a >= SIGN_BIT {
        // a is at or below zero: it is smaller when b is above zero, or when
        // b is negative with the smaller magnitude
        if b >= SIGN_BIT {
            b < a
        } else {
            a > SIGN_BIT || b > 0
        }
    } else {
        b < SIGN_BIT && a < b
    }
}

pub fn number_equal(a: u64, b: u64) -> (r: bool)
    ensures
        r == equal(a, b),
{
    if number_is_nan(a) || number_is_nan(b) {
        return false;
    }
    let a_zero: bool = a == 0 || a == SIGN_BIT;
    let b_zero: bool = b == 0 || b == SIGN_BIT;
    a == b || (a_zero && b_zero)
}

pub fn number_less_equal(a: u64, b: u64) -> (r: bool)
    ensures
        r == (less(a, b) || equal(a, b)),
{
    number_less(a, b) || number_equal(a, b)
}

pub fn number_negate(bits: u64) -> (r: u64)
    ensures
        r == negated(bits),
{
    if bits >= SIGN_BIT {
        bits - SIGN_BIT
    } else {
        bits + SIGN_BIT
    }
}

} // verus!
