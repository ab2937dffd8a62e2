//! Single-precision numbers by their bits: they are kept and compared as integers here, and turned
//! into numbers by the program that draws with them.

use vstd::prelude::*;

verus! {

/// The bits of a single-precision number.
pub type Single = u32;

/// Whether the bits are those of a number that is not a number.
pub open spec fn is_nan(r: Single) -> bool {
    0x7f80_0000 < r < 0x8000_0000 || 0xff80_0000 < r
}

/// A number brought between two positive bounds. Non-negative numbers are ordered as their bits
/// are; everything negative is too small.
pub open spec fn clamped(r: Single, low: Single, high: Single) -> Single {
    if is_nan(r) {
        r
    } else if r >= 0x8000_0000 || r < low {
        low
    } else if r > high {
        high
    } else {
        r
    }
}

/// Bring a number between two positive bounds.
pub fn clamp(r: Single, low: Single, high: Single) -> (c: Single)
    ensures
        c == clamped(r, low, high),
{
    if (0x7f80_0000 < r && r < 0x8000_0000) || 0xff80_0000 < r {
        r
    } else if r >= 0x8000_0000 || r < low {
        low
    } else if r > high {
        high
    } else {
        r
    }
}

/// Whether two numbers are equal. What is not a number equals nothing, and the two zeros are one.
pub open spec fn equal_numbers(a: Single, b: Single) -> bool {
    !is_nan(a) && !is_nan(b) && (a == b || (is_zero(a) && is_zero(b)))
}

/// Either zero.
pub open spec fn is_zero(r: Single) -> bool {
    r == 0 || r == 0x8000_0000
}

/// Compare two numbers for equality.
pub fn same_number(a: Single, b: Single) -> (e: bool)
    ensures
        e == equal_numbers(a, b),
{
    if (0x7f80_0000 < a && a < 0x8000_0000) || 0xff80_0000 < a {
        false
    } else if (0x7f80_0000 < b && b < 0x8000_0000) || 0xff80_0000 < b {
        false
    } else {
        a == b || ((a == 0 || a == 0x8000_0000) && (b == 0 || b == 0x8000_0000))
    }
}

} // verus!
