//! Prices as IEEE-754 single-precision bit patterns.
//!
//! The wire formats carry a price as the four little-endian bytes of a
//! single-precision value. This crate stores that value as its raw 32-bit
//! pattern and defines the numeric order on patterns directly: a pattern
//! maps to an unsigned key that is monotone in the numeric value (positive
//! values keep their bit order above the midpoint, negative values reverse
//! theirs below it, and the two zeros share one key), and a comparison
//! against a not-a-number pattern is false, as the numeric order has it.

use vstd::prelude::*;

verus! {

/// A price per mebibyte, held as the bit pattern of an IEEE-754
/// single-precision value.
#[derive(Clone, Copy, Debug, PartialEq, Eq, Structural)]
pub struct Price {
    pub bits: u32,
}

/// Whether a single-precision bit pattern denotes not-a-number: an
/// all-ones exponent together with a non-zero fraction.
pub open spec fn spec_is_nan(bits: u32) -> bool {
    (bits >> 23) & 0xff == 0xff && bits & 0x7fffff != 0
}

/// The order key of a non-NaN single-precision bit pattern: monotone in
/// the numeric value, with the two zero patterns mapped to the same key.
pub open spec fn spec_order_key(bits: u32) -> u32 {
    if bits == 0x8000_0000 {
        0x8000_0000
    } else if bits < 0x8000_0000 {
        (bits + 0x8000_0000) as u32
    } else {
        (0xffff_ffff - bits) as u32
    }
}

/// Numeric `<=` on single-precision bit patterns: false whenever either
/// side is not-a-number, the order of the keys otherwise.
pub open spec fn spec_price_le(a: u32, b: u32) -> bool {
    !spec_is_nan(a) && !spec_is_nan(b) && spec_order_key(a) <= spec_order_key(b)
}

impl Price {
    /// Wraps a raw single-precision bit pattern.
    pub fn from_bits(bits: u32) -> (r: Price)
        ensures
            r.bits == bits,
    {
        Price { bits }
    }

    /// Whether this price denotes not-a-number.
    pub fn is_nan(&self) -> (r: bool)
        ensures
            r == spec_is_nan(self.bits),
    {
        (self.bits >> 23) & 0xff == 0xff && self.bits & 0x7fffff != 0
    }

    /// Whether this price is at most `other` in the numeric order.
    pub fn le(&self, other: &Price) -> (r: bool)
        ensures
            r == spec_price_le(self.bits, other.bits),
    {
        if self.is_nan() || other.is_nan() {
            false
        } else {
            order_key(self.bits) <= order_key(other.bits)
        }
    }
}

/// Computes `spec_order_key`.
fn order_key(bits: u32) -> (r: u32)
    ensures
        r == spec_order_key(bits),
{
    if bits == 0x8000_0000 {
        0x8000_0000
    } else if bits < 0x8000_0000 {
        bits + 0x8000_0000
    } else {
        0xffff_ffff - bits
    }
}

} // verus!
