//! Ordering of timestamps and values as they are stored: IEEE-754 binary64
//! bit patterns carried in `u64` fields. The comparisons below give exactly
//! the IEEE-754 `<` and `<=` of the encoded numbers, computed on the bit
//! patterns: NaN compares false with everything, and the two zero encodings
//! are equal.

use vstd::prelude::*;

verus! {

/// The magnitude part of a binary64 bit pattern: everything below the sign
/// bit.
pub open spec fn ts_mag(a: u64) -> int {
    (a % 0x8000_0000_0000_0000) as int
}

/// Whether the sign bit of the pattern is set.
pub open spec fn ts_sign(a: u64) -> bool {
    a >= 0x8000_0000_0000_0000
}

/// Whether the pattern encodes a NaN: exponent all ones and mantissa
/// nonzero, which is every magnitude above the infinity encoding.
pub open spec fn ts_is_nan(a: u64) -> bool {
    ts_mag(a) > 0x7FF0_0000_0000_0000
}

/// A signed key that orders non-NaN binary64 patterns exactly as IEEE-754
/// orders the numbers they encode: for a set sign bit the magnitude counts
/// negatively, so both zero encodings share the key 0.
pub open spec fn ts_key(a: u64) -> int {
    if ts_sign(a) {
        -ts_mag(a)
    } else {
        ts_mag(a)
    }
}

/// IEEE-754 `a <= b` over stored bit patterns; false when either is NaN.
pub open spec fn ts_le(a: u64, b: u64) -> bool {
    &&& !ts_is_nan(a)
    &&& !ts_is_nan(b)
    &&& ts_key(a) <= ts_key(b)
}

/// IEEE-754 `a < b` over stored bit patterns; false when either is NaN.
pub open spec fn ts_lt(a: u64, b: u64) -> bool {
    &&& !ts_is_nan(a)
    &&& !ts_is_nan(b)
    &&& ts_key(a) < ts_key(b)
}

/// Computes `ts_le` on stored bit patterns.
pub fn le_bits(a: u64, b: u64) -> (r: bool)
    ensures
        r == ts_le(a, b),
{
    let ma = a % 0x8000_0000_0000_0000;
    let mb = b % 0x8000_0000_0000_0000;
    if ma > 0x7FF0_0000_0000_0000 || mb > 0x7FF0_0000_0000_0000 {
        false
    } else {
        let sa = a >= 0x8000_0000_0000_0000;
        let sb = b >= 0x8000_0000_0000_0000;
        if sa && sb {
            mb <= ma
        } else if sa {
            true
        } else if sb {
            ma == 0 && mb == 0
        } else {
            ma <= mb
        }
    }
}

/// Computes `ts_lt` on stored bit patterns.
pub fn lt_bits(a: u64, b: u64) -> (r: bool)
    ensures
        r == ts_lt(a, b),
{
    let ma = a % 0x8000_0000_0000_0000;
    let mb = b % 0x8000_0000_0000_0000;
    if ma > 0x7FF0_0000_0000_0000 || mb > 0x7FF0_0000_0000_0000 {
        false
    } else {
        let sa = a >= 0x8000_0000_0000_0000;
        let sb = b >= 0x8000_0000_0000_0000;
        if sa && sb {
            mb < ma
        } else if sa {
            ma != 0 || mb != 0
        } else if sb {
            false
        } else {
            ma < mb
        }
    }
}

} // verus!
