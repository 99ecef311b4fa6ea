//! Real numbers as they travel through the pipeline.
//!
//! The pipeline never does arithmetic on a coordinate: it draws, stores,
//! orders and hands on. A `Scalar` therefore carries an IEEE 754
//! double-precision number as its 64-bit pattern, which is exact, comparable
//! and needs no rounding rules.
use vstd::prelude::*;

verus! {

/// The bit pattern of positive infinity; every larger pattern with a clear
/// sign bit is a NaN.
pub const POSITIVE_INFINITY_BITS: u64 = 0x7FF0_0000_0000_0000;

/// A double-precision number, held as its bit pattern.
#[derive(Clone, Copy, Debug, PartialEq, Eq, Structural)]
pub struct Scalar {
    pub bits: u64,
}

impl Scalar {
    /// Positive zero.
    pub open spec fn spec_zero() -> Scalar {
        Scalar { bits: 0 }
    }

    /// Whether the number is strictly greater than zero and finite: the sign
    /// bit is clear, the exponent is not all ones, and some bit is set.
    pub open spec fn spec_is_positive_finite(self) -> bool {
        0 < self.bits < POSITIVE_INFINITY_BITS
    }

    /// The number with the given bit pattern.
    pub fn from_bits(bits: u64) -> (s: Scalar)
        ensures
            s.bits == bits,
    {
        Scalar { bits }
    }

    /// The bit pattern of the number.
    pub fn to_bits(self) -> (bits: u64)
        ensures
            bits == self.bits,
    {
        self.bits
    }

    /// Positive zero.
    #[verifier::when_used_as_spec(spec_zero)]
    pub fn zero() -> (s: Scalar)
        ensures
            s == Scalar::spec_zero(),
    {
        Scalar { bits: 0 }
    }

    /// Whether the number is strictly greater than zero and finite.
    #[verifier::when_used_as_spec(spec_is_positive_finite)]
    pub fn is_positive_finite(self) -> (b: bool)
        ensures
            b == self.spec_is_positive_finite(),
    {
        0 < self.bits && self.bits < POSITIVE_INFINITY_BITS
    }
}

} // verus!
