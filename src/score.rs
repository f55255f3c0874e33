//! Relevance scores, held as the bit pattern of an IEEE-754 binary32 value.
use vstd::prelude::*;

verus! {

/// Bit pattern of `1.0`.
pub const ONE_BITS: u32 = 0x3f80_0000;

/// Sign bit of a binary32 value.
pub const SIGN_BIT: u32 = 0x8000_0000;

/// Bit pattern of positive infinity: every magnitude above it is a NaN.
pub const INFINITY_BITS: u32 = 0x7f80_0000;

/// A relevance score: the bit pattern of a single-precision float.
///
/// Two scores are `==` when their bit patterns are identical; the order
/// that the traversals use is the one of floating-point `>` (see
/// [`Score::is_greater_than`]).
#[derive(Clone, Copy, Debug, PartialEq, Eq, Structural)]
pub struct Score {
    pub bits: u32,
}

/// Whether the sign bit is set.
pub open spec fn sign_negative(bits: u32) -> bool {
    bits >= SIGN_BIT
}

/// The bits below the sign bit: exponent and mantissa.
pub open spec fn magnitude(bits: u32) -> u32 {
    if sign_negative(bits) {
        (bits - SIGN_BIT) as u32
    } else {
        bits
    }
}

/// Whether the pattern is a NaN: all exponent bits set and a non-zero mantissa.
pub open spec fn is_nan_bits(bits: u32) -> bool {
    magnitude(bits) > INFINITY_BITS
}

/// Floating-point `a > b` on bit patterns.
///
/// Among values that are not NaN, magnitudes order as their patterns do;
/// `+0` and `-0` are equal, and any comparison with a NaN is false.
pub open spec fn greater_bits(a: u32, b: u32) -> bool {
    &&& !is_nan_bits(a)
    &&& !is_nan_bits(b)
    &&& if !sign_negative(a) && !sign_negative(b) {
        magnitude(a) > magnitude(b)
    } else if !sign_negative(a) && sign_negative(b) {
        magnitude(a) != 0 || magnitude(b) != 0
    } else if sign_negative(a) && !sign_negative(b) {
        false
    } else {
        magnitude(a) < magnitude(b)
    }
}

impl Score {
    /// Floating-point `self > other`.
    pub open spec fn gt_spec(self, other: Score) -> bool {
        greater_bits(self.bits, other.bits)
    }

    /// The score whose bit pattern is `bits`.
    pub fn from_bits(bits: u32) -> (r: Score)
        ensures
            r.bits == bits,
    {
        Score { bits }
    }

    /// The bit pattern of this score.
    pub fn to_bits(&self) -> (r: u32)
        ensures
            r == self.bits,
    {
        self.bits
    }

    /// The score `1.0`, the neutral boost.
    pub fn one() -> (r: Score)
        ensures
            r.bits == ONE_BITS,
    {
        Score { bits: ONE_BITS }
    }

    /// Whether this is a NaN.
    pub fn is_nan(&self) -> (r: bool)
        ensures
            r == is_nan_bits(self.bits),
    {
        Self::magnitude_of(self.bits) > INFINITY_BITS
    }

    fn magnitude_of(bits: u32) -> (r: u32)
        ensures
            r == magnitude(bits),
    {
        if bits >= SIGN_BIT {
            bits - SIGN_BIT
        } else {
            bits
        }
    }

    /// Floating-point `self > other`: false when either side is a NaN, and
    /// false between `+0` and `-0`.
    pub fn is_greater_than(&self, other: &Score) -> (r: bool)
        ensures
            r == self.gt_spec(*other),
    {
        if self.is_nan() || other.is_nan() {
            return false;
        }
        let a = Self::magnitude_of(self.bits);
        let b = Self::magnitude_of(other.bits);
        let a_negative = self.bits >= SIGN_BIT;
        let b_negative = other.bits >= SIGN_BIT;
        if !a_negative && !b_negative {
            a > b
        } else if !a_negative && b_negative {
            a != 0 || b != 0
        } else if a_negative && !b_negative {
            false
        } else {
            a < b
        }
    }
}

} // verus!
