//! Binary64 floating-point values held by their IEEE 754 bit pattern.
//!
//! The mirror records carry a few measurements that are binary64 numbers
//! (completion percentage, durations, score). The library never computes with
//! them; it only orders and compares them. Both comparisons it needs are
//! functions of the bit pattern alone, so a value is kept as its 64 bits.
use std::cmp::Ordering;
use vstd::prelude::*;

verus! {

/// A binary64 value, held as its IEEE 754 bit pattern.
#[derive(Clone, Copy, Debug, PartialEq, Eq, Structural)]
pub struct FloatBits {
    pub bits: u64,
}

/// Order of two mathematical integers.
pub open spec fn int_order(a: int, b: int) -> Ordering {
    if a < b {
        Ordering::Less
    } else if a == b {
        Ordering::Equal
    } else {
        Ordering::Greater
    }
}

/// 2^63: the sign bit.
pub open spec fn sign_bit() -> int {
    0x8000_0000_0000_0000
}

/// The bits without the sign bit (exponent and mantissa).
pub open spec fn magnitude(bits: u64) -> int {
    if bits < sign_bit() {
        bits as int
    } else {
        bits - sign_bit()
    }
}

/// Exponent field all ones and a non-zero mantissa.
pub open spec fn is_nan(bits: u64) -> bool {
    magnitude(bits) > 0x7ff0_0000_0000_0000
}

/// Positive or negative zero.
pub open spec fn is_zero(bits: u64) -> bool {
    magnitude(bits) == 0
}

/// The key whose integer order is the IEEE 754 totalOrder predicate: the bit
/// pattern read as a two's-complement integer, with every bit but the sign
/// flipped when the sign bit is set.
pub open spec fn total_key(bits: u64) -> int {
    if bits < sign_bit() {
        bits as int
    } else {
        -1 - magnitude(bits)
    }
}

/// The IEEE 754 totalOrder of two values.
pub open spec fn total_order(a: u64, b: u64) -> Ordering {
    int_order(total_key(a), total_key(b))
}

/// Numeric comparison: undefined when either side is NaN; the two zeros are
/// equal; otherwise numeric order agrees with totalOrder.
pub open spec fn numeric_order(a: u64, b: u64) -> Option<Ordering> {
    if is_nan(a) || is_nan(b) {
        None
    } else if is_zero(a) && is_zero(b) {
        Some(Ordering::Equal)
    } else {
        Some(total_order(a, b))
    }
}

impl FloatBits {
    /// The totalOrder key of this value.
    pub fn total_key(self) -> (k: i64)
        ensures
            k == total_key(self.bits),
    {
        if self.bits < 0x8000_0000_0000_0000 {
            self.bits as i64
        } else {
            let m: u64 = self.bits - 0x8000_0000_0000_0000;
            -1 - (m as i64)
        }
    }

    /// Whether this value is a NaN.
    pub fn is_nan(self) -> (r: bool)
        ensures
            r == is_nan(self.bits),
    {
        let m: u64 = if self.bits < 0x8000_0000_0000_0000 {
            self.bits
        } else {
            self.bits - 0x8000_0000_0000_0000
        };
        m > 0x7ff0_0000_0000_0000
    }

    /// Whether this value is positive or negative zero.
    pub fn is_zero(self) -> (r: bool)
        ensures
            r == is_zero(self.bits),
    {
        self.bits == 0 || self.bits == 0x8000_0000_0000_0000
    }
}

} // verus!
