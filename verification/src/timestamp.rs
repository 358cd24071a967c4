//! Arrival times, held as the bit patterns of IEEE 754 doubles.

use vstd::prelude::*;

verus! {

/// The bit that is set in the patterns of negative values.
pub const SIGN_BIT: u64 = 0x8000_0000_0000_0000;

/// The pattern of positive infinity. With the sign bit cleared, the patterns
/// below it are the finite values.
pub const INFINITY_BITS: u64 = 0x7FF0_0000_0000_0000;

/// A time in milliseconds.
#[derive(Clone, Copy, Debug, PartialEq, Eq, Structural)]
pub struct Timestamp {
    pub bits: u64,
}

impl Timestamp {
    /// The pattern with the sign bit cleared.
    pub open spec fn magnitude(self) -> int {
        if self.bits >= SIGN_BIT {
            self.bits - SIGN_BIT
        } else {
            self.bits as int
        }
    }

    pub open spec fn finite(self) -> bool {
        self.magnitude() < INFINITY_BITS
    }

    /// An integer by which finite times compare as the doubles do. The two
    /// zeros are equal.
    pub open spec fn order(self) -> int {
        if self.bits >= SIGN_BIT {
            -self.magnitude()
        } else {
            self.magnitude()
        }
    }

    pub fn from_bits(bits: u64) -> (time: Self)
        ensures
            time.bits == bits,
    {
        Timestamp { bits }
    }

    pub fn is_finite(&self) -> (r: bool)
        ensures
            r == self.finite(),
    {
        if self.bits >= SIGN_BIT {
            self.bits - SIGN_BIT < INFINITY_BITS
        } else {
            self.bits < INFINITY_BITS
        }
    }

    pub fn is_before(&self, other: &Timestamp) -> (r: bool)
        ensures
            r == (self.order() < other.order()),
    {
        if self.bits >= SIGN_BIT {
            if other.bits >= SIGN_BIT {
                self.bits > other.bits
            } else {
                self.bits > SIGN_BIT || other.bits > 0
            }
        } else {
            other.bits < SIGN_BIT && self.bits < other.bits
        }
    }
}

} // verus!
