//! Single-precision numbers, held by their bits and compared without computing
//! with them.

use vstd::prelude::*;

verus! {

/// The bits below the sign.
pub const MAGNITUDE_BITS: u32 = 0x8000_0000;
/// The magnitude of an infinity; what lies above is no number.
pub const INFINITE_MAGNITUDE: u32 = 0x7f80_0000;

/// The bits of zero.
pub const ZERO: u32 = 0;
/// The bits of one.
pub const ONE: u32 = 0x3f80_0000;

/// A single-precision number of IEEE 754 by its bits.
#[derive(Clone, Copy, Debug)]
pub struct Number {
    pub bits: u32,
}

impl Number {
    pub open spec fn spec_magnitude(self) -> int {
        self.bits as int % (MAGNITUDE_BITS as int)
    }

    /// Whether this is no number at all.
    pub open spec fn nan(self) -> bool {
        self.spec_magnitude() > INFINITE_MAGNITUDE
    }

    /// Whether this is a number, and no infinity.
    pub open spec fn finite(self) -> bool {
        self.spec_magnitude() < INFINITE_MAGNITUDE
    }

    /// Where a number stands among all numbers. The bits of positive numbers are
    /// in the order of the numbers, and both zeros stand at one place.
    pub open spec fn rank(self) -> int {
        if self.bits < MAGNITUDE_BITS {
            self.spec_magnitude()
        } else {
            -self.spec_magnitude()
        }
    }

    /// Whether this number is at least another.
    pub open spec fn reaches(self, low: Number) -> bool {
        !self.nan() && !low.nan() && low.rank() <= self.rank()
    }

    /// Whether this number lies between two others, both included.
    pub open spec fn between(self, low: Number, high: Number) -> bool {
        self.reaches(low) && high.reaches(self)
    }

    /// Whether two numbers are equal; what is no number is equal to nothing.
    pub open spec fn equals(self, other: Number) -> bool {
        !self.nan() && !other.nan() && self.rank() == other.rank()
    }

    /// The number held between two others. What is no number stays.
    pub open spec fn clamped(self, low: Number, high: Number) -> Number {
        if self.nan() {
            self
        } else if self.rank() < low.rank() {
            low
        } else if self.rank() > high.rank() {
            high
        } else {
            self
        }
    }

    fn magnitude(self) -> (r: u32)
        ensures
            r == self.spec_magnitude(),
    {
        self.bits % MAGNITUDE_BITS
    }

    pub fn is_nan(self) -> (r: bool)
        ensures
            r == self.nan(),
    {
        self.magnitude() > INFINITE_MAGNITUDE
    }

    pub fn is_finite(self) -> (r: bool)
        ensures
            r == self.finite(),
    {
        self.magnitude() < INFINITE_MAGNITUDE
    }

    fn place(self) -> (r: i64)
        ensures
            r == self.rank(),
    {
        if self.bits < MAGNITUDE_BITS {
            self.magnitude() as i64
        } else {
            -(self.magnitude() as i64)
        }
    }

    pub fn at_least(self, low: Number) -> (r: bool)
        ensures
            r == self.reaches(low),
    {
        !self.is_nan() && !low.is_nan() && low.place() <= self.place()
    }

    pub fn within(self, low: Number, high: Number) -> (r: bool)
        ensures
            r == self.between(low, high),
    {
        self.at_least(low) && high.at_least(self)
    }

    pub fn same(self, other: Number) -> (r: bool)
        ensures
            r == self.equals(other),
    {
        !self.is_nan() && !other.is_nan() && self.place() == other.place()
    }

    pub fn clamp(self, low: Number, high: Number) -> (r: Number)
        requires
            high.reaches(low),
        ensures
            r == self.clamped(low, high),
    {
        if self.is_nan() {
            self
        } else if self.place() < low.place() {
            low
        } else if self.place() > high.place() {
            high
        } else {
            self
        }
    }

    /// Whether this number is above zero.
    pub open spec fn positive(self) -> bool {
        !self.nan() && self.rank() > 0
    }

    /// Whether this number is below zero.
    pub open spec fn negative(self) -> bool {
        !self.nan() && self.rank() < 0
    }

    pub fn is_positive(self) -> (r: bool)
        ensures
            r == self.positive(),
    {
        !self.is_nan() && self.place() > 0
    }

    pub fn is_negative(self) -> (r: bool)
        ensures
            r == self.negative(),
    {
        !self.is_nan() && self.place() < 0
    }
}

/// A number that was clamped lies between the limits, and clamping it again
/// changes nothing.
pub proof fn law_clamped_numbers_stay_in_range(number: Number, low: Number, high: Number)
    requires
        high.reaches(low),
        !number.nan(),
    ensures
        number.clamped(low, high).between(low, high),
        number.clamped(low, high).clamped(low, high) == number.clamped(low, high),
        number.between(low, high) ==> number.clamped(low, high) == number,
{
}

/// Two numbers or none of them: whether optional numbers are equal.
pub open spec fn options_equal(a: Option<Number>, b: Option<Number>) -> bool {
    match (a, b) {
        (Some(x), Some(y)) => x.equals(y),
        (None, None) => true,
        _ => false,
    }
}

/// A point of the window.
#[derive(Clone, Copy, Debug)]
pub struct Point {
    pub x: Number,
    pub y: Number,
}

} // verus!
