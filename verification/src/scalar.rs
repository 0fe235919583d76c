//! Metric scalars, carried as IEEE-754 binary64 bit patterns.
//!
//! The library never computes with floating-point numbers: a scalar is held
//! as the 64 bits of its IEEE-754 encoding, and every question the metrics
//! rules ask of a value (is it finite, is it negative, how do two values
//! order) is answered by integer logic on those bits.  Callers that hold a
//! native floating-point value convert it with `to_bits` / `from_bits` at the
//! boundary.

use vstd::prelude::*;

verus! {

/// Mask of the sign bit of a binary64 encoding.
pub const SIGN_MASK: u64 = 0x8000_0000_0000_0000;

/// Mask of the eleven exponent bits of a binary64 encoding.
pub const EXPONENT_MASK: u64 = 0x7FF0_0000_0000_0000;

/// Mask of the 52 fraction bits of a binary64 encoding.
pub const FRACTION_MASK: u64 = 0x000F_FFFF_FFFF_FFFF;

/// Bit pattern of the value one.
pub const ONE_BITS: u64 = 0x3FF0_0000_0000_0000;

/// Bit pattern of positive infinity.
pub const POS_INFINITY_BITS: u64 = 0x7FF0_0000_0000_0000;

/// Bit pattern of positive zero.
pub const ZERO_BITS: u64 = 0;

/// The encoded value is a NaN: exponent all ones, fraction non-zero.
pub open spec fn spec_is_nan(b: u64) -> bool {
    b & EXPONENT_MASK == EXPONENT_MASK && b & FRACTION_MASK != 0
}

/// The encoded value is finite: exponent not all ones.
pub open spec fn spec_is_finite(b: u64) -> bool {
    b & EXPONENT_MASK != EXPONENT_MASK
}

/// The encoded value compares strictly below zero.  Negative zero and NaN do
/// not; negative infinity does.
pub open spec fn spec_is_negative(b: u64) -> bool {
    b & SIGN_MASK != 0 && b != SIGN_MASK && !spec_is_nan(b)
}

/// The encoded value compares strictly above one.  NaN does not; positive
/// infinity does.
pub open spec fn spec_is_above_one(b: u64) -> bool {
    !spec_is_nan(b) && b & SIGN_MASK == 0 && b > ONE_BITS
}

/// The encoded value compares strictly above zero.
pub open spec fn spec_is_above_zero(b: u64) -> bool {
    !spec_is_nan(b) && b & SIGN_MASK == 0 && b != 0
}

/// Negative zero collapsed onto positive zero; other patterns unchanged.
pub open spec fn spec_canonical(b: u64) -> u64 {
    if b == SIGN_MASK {
        0
    } else {
        b
    }
}

/// A key that is monotone in the encoded numeric value: for bit patterns `a`
/// and `b` that are not NaN, the values order as `spec_order_key(a)` and
/// `spec_order_key(b)` order, and are equal exactly when the keys are equal.
/// This is the usual total-order trick for IEEE-754 encodings: negative
/// patterns are complemented, non-negative ones are offset past them.
pub open spec fn spec_order_key(b: u64) -> u64 {
    let c = spec_canonical(b);
    if c & SIGN_MASK != 0 {
        !c
    } else {
        c | SIGN_MASK
    }
}

/// The numeric order on encoded values, both sides not NaN.
pub open spec fn spec_lt(a: u64, b: u64) -> bool {
    spec_order_key(a) < spec_order_key(b)
}

/// Numeric equality of encoded values: bit equality up to the two zeros.
pub open spec fn spec_same_value(a: u64, b: u64) -> bool {
    spec_canonical(a) == spec_canonical(b)
}

/// A numeric value for metrics: an IEEE-754 binary64 encoding, handled only
/// through its bits.  Equality of `Scalar`s is equality of bit patterns, so
/// it distinguishes negative from positive zero and equates only identical
/// NaN encodings.
#[derive(Clone, Copy, PartialEq, Eq, Structural, Debug, Hash)]
pub struct Scalar {
    bits: u64,
}

impl Scalar {
    /// The bit pattern this scalar carries.
    pub closed spec fn spec_bits(&self) -> u64 {
        self.bits
    }

    /// Wrap a binary64 bit pattern.
    pub fn from_bits(bits: u64) -> (s: Scalar)
        ensures
            s.spec_bits() == bits,
    {
        Scalar { bits }
    }

    /// The bit pattern this scalar carries.
    pub fn to_bits(&self) -> (b: u64)
        ensures
            b == self.spec_bits(),
    {
        self.bits
    }

    /// The scalar zero.
    pub fn zero() -> (s: Scalar)
        ensures
            s.spec_bits() == ZERO_BITS,
    {
        Scalar { bits: ZERO_BITS }
    }

    /// The scalar one.
    pub fn one() -> (s: Scalar)
        ensures
            s.spec_bits() == ONE_BITS,
    {
        Scalar { bits: ONE_BITS }
    }

    /// The scalar positive infinity.
    pub fn pos_infinity() -> (s: Scalar)
        ensures
            s.spec_bits() == POS_INFINITY_BITS,
    {
        Scalar { bits: POS_INFINITY_BITS }
    }

    /// Whether the encoded value is finite.
    pub fn is_finite(&self) -> (r: bool)
        ensures
            r == spec_is_finite(self.spec_bits()),
    {
        self.bits & EXPONENT_MASK != EXPONENT_MASK
    }

    /// Whether the encoded value is a NaN.
    pub fn is_nan(&self) -> (r: bool)
        ensures
            r == spec_is_nan(self.spec_bits()),
    {
        self.bits & EXPONENT_MASK == EXPONENT_MASK && self.bits & FRACTION_MASK != 0
    }

    /// Whether the encoded value compares strictly below zero.
    pub fn is_negative(&self) -> (r: bool)
        ensures
            r == spec_is_negative(self.spec_bits()),
    {
        self.bits & SIGN_MASK != 0 && self.bits != SIGN_MASK && !self.is_nan()
    }

    /// Whether the encoded value compares strictly above one.
    pub fn is_above_one(&self) -> (r: bool)
        ensures
            r == spec_is_above_one(self.spec_bits()),
    {
        !self.is_nan() && self.bits & SIGN_MASK == 0 && self.bits > ONE_BITS
    }

    /// Whether the encoded value compares strictly above zero.
    pub fn is_above_zero(&self) -> (r: bool)
        ensures
            r == spec_is_above_zero(self.spec_bits()),
    {
        !self.is_nan() && self.bits & SIGN_MASK == 0 && self.bits != 0
    }

    /// Whether this value orders strictly below `other`, both not NaN.
    pub fn lt(&self, other: &Scalar) -> (r: bool)
        ensures
            r == spec_lt(self.spec_bits(), other.spec_bits()),
    {
        let a = order_key(self.bits);
        let b = order_key(other.bits);
        a < b
    }

    /// Whether this and `other` encode the same numeric value, both not NaN:
    /// bit equality up to the two zeros.
    pub fn same_value(&self, other: &Scalar) -> (r: bool)
        ensures
            r == spec_same_value(self.spec_bits(), other.spec_bits()),
    {
        canonical(self.bits) == canonical(other.bits)
    }

    /// The value clamped to the closed interval from zero to one, as the
    /// clamp of the IEEE-754 comparisons has it: values below zero become
    /// zero, values above one become one, everything else (negative zero and
    /// NaN included) stays as it is.
    pub fn clamp_unit(&self) -> (r: Scalar)
        ensures
            spec_is_negative(self.spec_bits()) ==> r.spec_bits() == ZERO_BITS,
            spec_is_above_one(self.spec_bits()) ==> r.spec_bits() == ONE_BITS,
            !spec_is_negative(self.spec_bits()) && !spec_is_above_one(self.spec_bits())
                ==> r.spec_bits() == self.spec_bits(),
    {
        if self.is_negative() {
            Scalar { bits: ZERO_BITS }
        } else if self.is_above_one() {
            Scalar { bits: ONE_BITS }
        } else {
            *self
        }
    }
}

/// Exec counterpart of `spec_canonical`.
fn canonical(b: u64) -> (c: u64)
    ensures
        c == spec_canonical(b),
{
    if b == SIGN_MASK {
        0
    } else {
        b
    }
}

/// Exec counterpart of `spec_order_key`.
fn order_key(b: u64) -> (k: u64)
    ensures
        k == spec_order_key(b),
{
    let c = canonical(b);
    if c & SIGN_MASK != 0 {
        !c
    } else {
        c | SIGN_MASK
    }
}

} // verus!
