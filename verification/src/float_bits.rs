//! Comparisons of IEEE 754 double-precision numbers, done on their 64-bit patterns.
//!
//! A pattern with the sign bit clear orders like the number it encodes, as long as it is
//! not a NaN, which is what the comparisons below rely on.
use vstd::prelude::*;

verus! {

/// The sign bit of a double-precision pattern.
pub const SIGN_BIT: u64 = 0x8000_0000_0000_0000;

/// The pattern of positive infinity; every larger pattern without the sign bit is a NaN.
pub const POSITIVE_INFINITY: u64 = 0x7FF0_0000_0000_0000;

/// The pattern of the number one.
pub const ONE: u64 = 0x3FF0_0000_0000_0000;

/// The pattern encodes a NaN (either sign).
pub open spec fn spec_is_nan(b: u64) -> bool {
    if b >= SIGN_BIT {
        b - SIGN_BIT > POSITIVE_INFINITY
    } else {
        b > POSITIVE_INFINITY
    }
}

/// The pattern encodes a finite number above zero.
pub open spec fn spec_positive_finite(b: u64) -> bool {
    0 < b && b < POSITIVE_INFINITY
}

/// For `p` encoding a finite number above zero: the number of `p` is at least that of
/// `l` (false when `l` is a NaN; true when `l` is negative or a zero).
pub open spec fn spec_at_least(p: u64, l: u64) -> bool {
    if spec_is_nan(l) {
        false
    } else if l >= SIGN_BIT {
        true
    } else {
        p >= l
    }
}

/// For `p` encoding a finite number above zero: the number of `p` is at most that of
/// `h` (false when `h` is a NaN, negative or a negative zero).
pub open spec fn spec_at_most(p: u64, h: u64) -> bool {
    if spec_is_nan(h) {
        false
    } else if h >= SIGN_BIT {
        false
    } else {
        p <= h
    }
}

/// Whether the pattern encodes a NaN.
pub fn is_nan(b: u64) -> (r: bool)
    ensures
        r == spec_is_nan(b),
{
    if b >= SIGN_BIT {
        b - SIGN_BIT > POSITIVE_INFINITY
    } else {
        b > POSITIVE_INFINITY
    }
}

/// Whether the pattern encodes a finite number above zero.
pub fn positive_finite(b: u64) -> (r: bool)
    ensures
        r == spec_positive_finite(b),
{
    0 < b && b < POSITIVE_INFINITY
}

/// For `p` encoding a finite number above zero: whether its number is at least `l`'s.
pub fn at_least(p: u64, l: u64) -> (r: bool)
    ensures
        r == spec_at_least(p, l),
{
    if is_nan(l) {
        false
    } else if l >= SIGN_BIT {
        true
    } else {
        p >= l
    }
}

/// For `p` encoding a finite number above zero: whether its number is at most `h`'s.
pub fn at_most(p: u64, h: u64) -> (r: bool)
    ensures
        r == spec_at_most(p, h),
{
    if is_nan(h) {
        false
    } else if h >= SIGN_BIT {
        false
    } else {
        p <= h
    }
}

} // verus!
