//! Double-precision numbers as bit patterns.

use vstd::prelude::*;

verus! {

/// A double-precision number, held as its IEEE 754 binary64 bit pattern.
///
/// The library never computes with these values. It keeps them on the operand
/// stack, hands them out as the operands of the operations to be computed,
/// and tells whether one of them is a zero. Two of them are equal when their
/// bits are, so the two zeros differ and a NaN equals itself.
#[derive(Clone, Copy, Debug, PartialEq, Eq, Structural)]
pub struct Double {
    pub bits: u64,
}

/// The bit that holds the sign; every other bit of a zero is clear.
pub const SIGN_BIT: u64 = 0x8000_0000_0000_0000;

impl Double {
    /// Whether the pattern is one of the two zeros, positive or negative.
    pub open spec fn spec_is_zero(&self) -> bool {
        self.bits == 0 || self.bits == SIGN_BIT
    }

    /// Positive zero.
    pub open spec fn spec_zero() -> Double {
        Double { bits: 0 }
    }

    /// Positive zero.
    #[verifier::when_used_as_spec(spec_zero)]
    pub fn zero() -> (d: Double)
        ensures
            d == Double::spec_zero(),
    {
        Double { bits: 0 }
    }

    /// The number with the given bit pattern.
    pub fn from_bits(bits: u64) -> (d: Double)
        ensures
            d.bits == bits,
    {
        Double { bits }
    }

    /// The bit pattern of the number.
    pub fn to_bits(&self) -> (bits: u64)
        ensures
            bits == self.bits,
    {
        self.bits
    }

    /// Whether the number is a zero, positive or negative: what a division
    /// must not have on its right.
    #[verifier::when_used_as_spec(spec_is_zero)]
    pub fn is_zero(&self) -> (zero: bool)
        ensures
            zero == self.spec_is_zero(),
    {
        self.bits == 0 || self.bits == SIGN_BIT
    }
}

} // verus!
