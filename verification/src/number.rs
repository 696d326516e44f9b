//! Binary floating-point numbers held as their IEEE 754 bit patterns.
//!
//! Geometry is computed by the callers; here numbers are only stored, tested and compared, which
//! needs nothing but their bits.

use vstd::prelude::*;

verus! {

/// A single-precision number.
#[derive(Clone, Copy, Debug, PartialEq, Eq, Structural)]
pub struct Single {
    pub bits: u32,
}

/// A double-precision number.
#[derive(Clone, Copy, Debug, PartialEq, Eq, Structural)]
pub struct Double {
    pub bits: u64,
}

/// The bits of zero.
pub const ZERO: u32 = 0;

/// The bits of one.
pub const ONE: u32 = 0x3f80_0000;

impl Single {
    /// The bits without the sign.
    pub open spec fn magnitude(self) -> int {
        (self.bits % 0x8000_0000) as int
    }

    /// Whether the number is neither infinite nor NaN.
    pub open spec fn finite(self) -> bool {
        self.magnitude() < 0x7f80_0000
    }

    /// Whether the pattern stands for no number.
    pub open spec fn nan(self) -> bool {
        self.magnitude() > 0x7f80_0000
    }

    /// A number that grows with the value: numbers that are not NaN compare as their ranks do, and
    /// the two zeros have the same rank.
    pub open spec fn rank(self) -> int {
        if self.bits < 0x8000_0000 {
            self.magnitude()
        } else {
            -self.magnitude()
        }
    }

    /// Whether the first number is less than the second.
    pub open spec fn less(self, other: Single) -> bool {
        !self.nan() && !other.nan() && self.rank() < other.rank()
    }

    /// Whether the two numbers compare as equal.
    pub open spec fn equal(self, other: Single) -> bool {
        !self.nan() && !other.nan() && self.rank() == other.rank()
    }

    /// The number, moved to the nearer of the two bounds where it lies outside of them. NaN stays
    /// NaN.
    pub open spec fn clamped(self, low: Single, high: Single) -> Single {
        if self.less(low) {
            low
        } else if high.less(self) {
            high
        } else {
            self
        }
    }

    /// Tells whether the number is finite and greater than zero.
    pub fn is_finite_positive(self) -> (r: bool)
        ensures
            r == (self.finite() && (Single { bits: ZERO }).less(self)),
    {
        0 < self.bits && self.bits < 0x7f80_0000
    }

    /// Tells whether the pattern stands for no number.
    pub fn is_nan(self) -> (r: bool)
        ensures
            r == self.nan(),
    {
        self.bits % 0x8000_0000 > 0x7f80_0000
    }

    /// Tells whether the number is neither infinite nor NaN.
    pub fn is_finite(self) -> (r: bool)
        ensures
            r == self.finite(),
    {
        self.bits % 0x8000_0000 < 0x7f80_0000
    }

    fn order(self) -> (r: i64)
        ensures
            r == self.rank(),
    {
        let magnitude: i64 = (self.bits % 0x8000_0000) as i64;
        if self.bits < 0x8000_0000 {
            magnitude
        } else {
            -magnitude
        }
    }

    /// Tells whether the first number is less than the second.
    pub fn is_less(self, other: Single) -> (r: bool)
        ensures
            r == self.less(other),
    {
        !self.is_nan() && !other.is_nan() && self.order() < other.order()
    }

    /// Tells whether the two numbers compare as equal.
    pub fn is_equal(self, other: Single) -> (r: bool)
        ensures
            r == self.equal(other),
    {
        !self.is_nan() && !other.is_nan() && self.order() == other.order()
    }

    /// Moves the number between the two bounds.
    pub fn clamp_to(self, low: Single, high: Single) -> (r: Single)
        ensures
            r == self.clamped(low, high),
    {
        if self.is_less(low) {
            low
        } else if high.is_less(self) {
            high
        } else {
            self
        }
    }
}

impl Double {
    /// Whether the number is neither infinite nor NaN.
    pub open spec fn finite(self) -> bool {
        self.bits % 0x8000_0000_0000_0000 < 0x7ff0_0000_0000_0000
    }

    /// Tells whether the number is neither infinite nor NaN.
    pub fn is_finite(self) -> (r: bool)
        ensures
            r == self.finite(),
    {
        self.bits % 0x8000_0000_0000_0000 < 0x7ff0_0000_0000_0000
    }
}

/// A clamped number lies between the bounds, unless it is NaN.
pub proof fn clamped_lies_between(x: Single, low: Single, high: Single)
    requires
        !x.nan(),
        !low.nan(),
        !high.nan(),
        !high.less(low),
    ensures
        !x.clamped(low, high).less(low),
        !high.less(x.clamped(low, high)),
{
}

/// Clamping a second time to the same bounds changes nothing.
pub proof fn clamping_twice_is_clamping(x: Single, low: Single, high: Single)
    requires
        !high.less(low),
    ensures
        x.clamped(low, high).clamped(low, high) == x.clamped(low, high),
{
}

/// Numbers without a sign compare as their bits do, numbers with one the other way round, and one
/// with a sign is less than one without, unless both are zero. What is no number compares with
/// nothing.
pub proof fn numbers_compare_by_their_bits(a: Single, b: Single)
    ensures
        a.bits <= 0x7f80_0000 && b.bits <= 0x7f80_0000 ==> a.less(b) == (a.bits < b.bits)
            && a.equal(b) == (a.bits == b.bits),
        0x8000_0000 <= a.bits <= 0xff80_0000 && 0x8000_0000 <= b.bits <= 0xff80_0000 ==> a.less(b)
            == (b.bits < a.bits) && a.equal(b) == (a.bits == b.bits),
        0x8000_0000 <= a.bits <= 0xff80_0000 && b.bits <= 0x7f80_0000 ==> {
            let zeros = a.bits == 0x8000_0000 && b.bits == 0;
            a.equal(b) == zeros && b.equal(a) == zeros && a.less(b) == !zeros && !b.less(a)
        },
        0x7f80_0000 < a.bits < 0x8000_0000 || 0xff80_0000 < a.bits ==> !a.equal(b) && !b.equal(a)
            && !a.less(b) && !b.less(a),
{
}

/// A number that lies between the bounds is left as it is, and any other becomes the bound that it
/// lies beyond.
pub proof fn clamping_moves_to_the_nearer_bound(x: Single, low: Single, high: Single)
    requires
        !x.nan(),
        !low.nan(),
        !high.nan(),
        !high.less(low),
    ensures
        !x.less(low) && !high.less(x) ==> x.clamped(low, high) == x,
        x.less(low) ==> x.clamped(low, high) == low,
        high.less(x) ==> x.clamped(low, high) == high,
{
}

/// A number is finite where its exponent is not the largest one.
pub proof fn finite_numbers_lie_below_infinity(x: Single, y: Double)
    ensures
        x.finite() <==> x.bits < 0x7f80_0000 || 0x8000_0000 <= x.bits < 0xff80_0000,
        x.nan() <==> 0x7f80_0000 < x.bits < 0x8000_0000 || 0xff80_0000 < x.bits,
        y.finite() <==> y.bits < 0x7ff0_0000_0000_0000 || 0x8000_0000_0000_0000 <= y.bits
            < 0xfff0_0000_0000_0000,
{
}

} // verus!
