//! Double-precision numbers as bit patterns, and their order.

use vstd::prelude::*;

verus! {

/// Pattern whose only set bit is the sign.
pub const SIGN_BIT: u64 = 0x8000_0000_0000_0000;

/// Pattern of positive infinity: exponent field full, fraction empty.
pub const INFINITY_BITS: u64 = 0x7FF0_0000_0000_0000;

/// Pattern of the largest finite double.
pub const MAX_BITS: u64 = 0x7FEF_FFFF_FFFF_FFFF;

/// Pattern of the double one.
pub const ONE_BITS: u64 = 0x3FF0_0000_0000_0000;

/// Pattern of the largest power of two that is a finite double.
pub const TOP_POWER_BITS: u64 = 0x7FE0_0000_0000_0000;

/// Number of patterns from one power of two up to the next.
pub const BINADE: u64 = 0x0010_0000_0000_0000;

/// Rank of every NaN pattern: one above the rank of positive infinity.
pub const NAN_RANK: i64 = 0x7FF0_0000_0000_0001;

/// A double-precision number, held as the 64 bits of its IEEE 754 encoding.
///
/// Two patterns may stand for the same number (the two zeros) or for no number
/// at all (the NaNs), so equality of scalars as numbers goes by [`Scalar::rank`],
/// not by `==`, which compares patterns.
#[derive(Clone, Copy, Debug, PartialEq, Eq, Structural)]
pub struct Scalar {
    pub bits: u64,
}

impl Scalar {
    /// The pattern with its sign bit cleared.
    pub open spec fn magnitude(self) -> int {
        if self.bits >= SIGN_BIT {
            self.bits - SIGN_BIT
        } else {
            self.bits as int
        }
    }

    /// The pattern encodes no number.
    pub open spec fn spec_is_nan(&self) -> bool {
        self.magnitude() > INFINITY_BITS
    }

    /// The pattern encodes a number other than the two infinities.
    pub open spec fn spec_is_finite(&self) -> bool {
        self.magnitude() < INFINITY_BITS
    }

    /// The pattern encodes one of the two zeros.
    pub open spec fn spec_is_zero(&self) -> bool {
        self.magnitude() == 0
    }

    /// Position of the scalar in the total order of doubles.
    ///
    /// Patterns that encode numbers are ranked as the numbers compare: the sign
    /// bit splits them, and on each side the magnitude orders them, so both zeros
    /// have rank 0 (`value::lemma_rank_orders_numbers` is the proof). Every NaN
    /// has the one rank above positive infinity, which makes NaN the greatest
    /// element and equal to itself.
    pub open spec fn rank(self) -> int {
        if self.spec_is_nan() {
            NAN_RANK as int
        } else if self.bits >= SIGN_BIT {
            -self.magnitude()
        } else {
            self.magnitude()
        }
    }

    /// The scalar can be a distance or a radius: a finite number, not below zero.
    pub open spec fn spec_is_distance(&self) -> bool {
        0 <= self.rank() <= MAX_BITS
    }

    /// The scalar with the given pattern.
    pub fn from_bits(bits: u64) -> (s: Scalar)
        ensures
            s.bits == bits,
    {
        Scalar { bits }
    }

    /// The pattern of the scalar.
    pub fn to_bits(&self) -> (bits: u64)
        ensures
            bits == self.bits,
    {
        self.bits
    }

    /// Positive zero.
    pub fn zero() -> (s: Scalar)
        ensures
            s.bits == 0,
            s.rank() == 0,
    {
        Scalar { bits: 0 }
    }

    /// The largest finite double.
    pub fn max_finite() -> (s: Scalar)
        ensures
            s.bits == MAX_BITS,
            s.rank() == MAX_BITS,
    {
        Scalar { bits: MAX_BITS }
    }

    /// The rank of the scalar, as a machine integer.
    pub fn key(&self) -> (k: i64)
        ensures
            k == self.rank(),
    {
        if self.bits >= SIGN_BIT {
            let magnitude: u64 = self.bits - SIGN_BIT;
            if magnitude > INFINITY_BITS {
                NAN_RANK
            } else {
                -(magnitude as i64)
            }
        } else if self.bits > INFINITY_BITS {
            NAN_RANK
        } else {
            self.bits as i64
        }
    }

    #[verifier::when_used_as_spec(spec_is_nan)]
    pub fn is_nan(&self) -> (b: bool)
        ensures
            b == self.spec_is_nan(),
    {
        self.key() == NAN_RANK
    }

    #[verifier::when_used_as_spec(spec_is_finite)]
    pub fn is_finite(&self) -> (b: bool)
        ensures
            b == self.spec_is_finite(),
    {
        let k: i64 = self.key();
        -(INFINITY_BITS as i64) < k && k < INFINITY_BITS as i64
    }

    #[verifier::when_used_as_spec(spec_is_zero)]
    pub fn is_zero(&self) -> (b: bool)
        ensures
            b == self.spec_is_zero(),
    {
        self.key() == 0
    }

    #[verifier::when_used_as_spec(spec_is_distance)]
    pub fn is_distance(&self) -> (b: bool)
        ensures
            b == self.spec_is_distance(),
    {
        let k: i64 = self.key();
        0 <= k && k <= MAX_BITS as i64
    }
}

} // verus!
