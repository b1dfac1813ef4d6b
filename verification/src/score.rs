//! Single-precision numbers, held as their bit patterns.
//!
//! Ranking needs numbers to be compared, bounded and refused, not calculated
//! with. The bit pattern of an IEEE 754 binary32 number is enough for that: on
//! numbers of one sign the patterns are ordered as the numbers are.

use vstd::prelude::*;

verus! {

/// The pattern of negative zero. Patterns from here on have the sign bit set.
pub const SIGN_BIT: u32 = 0x8000_0000;

/// The pattern of positive infinity. A magnitude above it is not a number.
pub const INFINITY_BITS: u32 = 0x7f80_0000;

/// The pattern of `1.0`.
pub const ONE_BITS: u32 = 0x3f80_0000;

/// A single-precision number, held as its bit pattern.
#[derive(Debug, Clone, Copy)]
pub struct Score {
    pub bits: u32,
}

impl Score {
    /// The pattern with the sign bit cleared.
    pub open spec fn magnitude(self) -> int {
        if self.bits < SIGN_BIT {
            self.bits as int
        } else {
            self.bits - SIGN_BIT
        }
    }

    /// Neither infinite nor not-a-number.
    pub open spec fn finite(self) -> bool {
        self.magnitude() < INFINITY_BITS
    }

    /// Not a number.
    pub open spec fn nan(self) -> bool {
        self.magnitude() > INFINITY_BITS
    }

    /// Where the number stands among all numbers. The two zeros share a place.
    pub open spec fn rank(self) -> int {
        if self.bits < SIGN_BIT {
            self.bits as int
        } else {
            SIGN_BIT - self.bits
        }
    }

    /// Where the pattern stands in the IEEE 754 total order, in which negative
    /// zero comes before positive zero and what is not a number lies outside
    /// the infinities.
    pub open spec fn total_rank(self) -> int {
        if self.bits < SIGN_BIT {
            self.bits as int
        } else {
            SIGN_BIT - self.bits - 1
        }
    }

    /// `self < other`: false wherever either is not a number.
    pub open spec fn lt_spec(self, other: Score) -> bool {
        !self.nan() && !other.nan() && self.rank() < other.rank()
    }

    /// `self <= other`: false wherever either is not a number.
    pub open spec fn le_spec(self, other: Score) -> bool {
        !self.nan() && !other.nan() && self.rank() <= other.rank()
    }

    /// A number from zero to one.
    pub open spec fn unit(self) -> bool {
        !self.nan() && 0 <= self.rank() <= ONE_BITS
    }

    pub fn from_bits(bits: u32) -> (r: Score)
        ensures
            r.bits == bits,
    {
        Score { bits }
    }

    pub fn to_bits(self) -> (r: u32)
        ensures
            r == self.bits,
    {
        self.bits
    }

    /// Zero, with the positive sign.
    pub fn zero() -> (r: Score)
        ensures
            r.bits == 0,
    {
        Score { bits: 0 }
    }

    /// The number one.
    pub fn one() -> (r: Score)
        ensures
            r.bits == ONE_BITS,
    {
        Score { bits: ONE_BITS }
    }

    pub fn is_finite(self) -> (r: bool)
        ensures
            r == self.finite(),
    {
        if self.bits < SIGN_BIT {
            self.bits < INFINITY_BITS
        } else {
            self.bits - SIGN_BIT < INFINITY_BITS
        }
    }

    pub fn is_nan(self) -> (r: bool)
        ensures
            r == self.nan(),
    {
        if self.bits < SIGN_BIT {
            self.bits > INFINITY_BITS
        } else {
            self.bits - SIGN_BIT > INFINITY_BITS
        }
    }

    fn place(self) -> (r: i64)
        ensures
            r == self.rank(),
    {
        if self.bits < SIGN_BIT {
            self.bits as i64
        } else {
            SIGN_BIT as i64 - self.bits as i64
        }
    }

    fn total_place(self) -> (r: i64)
        ensures
            r == self.total_rank(),
    {
        if self.bits < SIGN_BIT {
            self.bits as i64
        } else {
            SIGN_BIT as i64 - self.bits as i64 - 1
        }
    }

    /// `self < other`.
    pub fn lt(self, other: Score) -> (r: bool)
        ensures
            r == self.lt_spec(other),
    {
        !self.is_nan() && !other.is_nan() && self.place() < other.place()
    }

    /// `self <= other`.
    pub fn le(self, other: Score) -> (r: bool)
        ensures
            r == self.le_spec(other),
    {
        !self.is_nan() && !other.is_nan() && self.place() <= other.place()
    }

    /// Whether `self` stands strictly before `other` among all numbers.
    pub fn rank_before(self, other: Score) -> (r: bool)
        ensures
            r == (self.rank() < other.rank()),
    {
        self.place() < other.place()
    }

    /// Whether the total order puts `self` strictly before `other`.
    pub fn total_before(self, other: Score) -> (r: bool)
        ensures
            r == (self.total_rank() < other.total_rank()),
    {
        self.total_place() < other.total_place()
    }

    /// Whether this is a number from zero to one.
    pub fn in_unit(self) -> (r: bool)
        ensures
            r == self.unit(),
    {
        !self.is_nan() && 0 <= self.place() && self.place() <= ONE_BITS as i64
    }

    /// The greater of two numbers; where one is not a number, the other.
    pub open spec fn max_spec(self, other: Score) -> Score {
        if self.nan() {
            other
        } else if other.nan() || self.rank() >= other.rank() {
            self
        } else {
            other
        }
    }

    /// The lesser of two numbers; where one is not a number, the other.
    pub open spec fn min_spec(self, other: Score) -> Score {
        if self.nan() {
            other
        } else if other.nan() || self.rank() <= other.rank() {
            self
        } else {
            other
        }
    }

    /// The greater of two numbers; where one is not a number, the other.
    pub fn max(self, other: Score) -> (r: Score)
        ensures
            r == self.max_spec(other),
    {
        if self.is_nan() {
            other
        } else if other.is_nan() || self.place() >= other.place() {
            self
        } else {
            other
        }
    }

    /// The lesser of two numbers; where one is not a number, the other.
    pub fn min(self, other: Score) -> (r: Score)
        ensures
            r == self.min_spec(other),
    {
        if self.is_nan() {
            other
        } else if other.is_nan() || self.place() <= other.place() {
            self
        } else {
            other
        }
    }

    /// The number, brought into the range from zero to one. What is not a
    /// number stays what it is.
    pub fn clamp_unit(self) -> (r: Score)
        ensures
            self.nan() ==> r == self,
            !self.nan() ==> r.unit(),
            self.unit() ==> r == self,
            !self.nan() && self.rank() < 0 ==> r.bits == 0,
            !self.nan() && self.rank() > ONE_BITS ==> r.bits == ONE_BITS,
    {
        if self.is_nan() {
            self
        } else if self.place() < 0 {
            Score { bits: 0 }
        } else if self.place() > ONE_BITS as i64 {
            Score { bits: ONE_BITS }
        } else {
            self
        }
    }

    /// Whether this is a number above zero.
    pub fn is_positive(self) -> (r: bool)
        ensures
            r == (!self.nan() && self.rank() > 0),
    {
        !self.is_nan() && self.place() > 0
    }

    /// Whether this is a number below zero.
    pub fn is_negative(self) -> (r: bool)
        ensures
            r == (!self.nan() && self.rank() < 0),
    {
        !self.is_nan() && self.place() < 0
    }
}

/// Two numbers are equal as numbers are: the zeros are one number, and what is
/// not a number equals nothing.
impl PartialEq for Score {
    fn eq(&self, other: &Self) -> (r: bool) {
        !self.is_nan() && !other.is_nan() && self.place() == other.place()
    }
}

impl vstd::std_specs::cmp::PartialEqSpecImpl for Score {
    open spec fn obeys_eq_spec() -> bool {
        true
    }

    open spec fn eq_spec(&self, other: &Self) -> bool {
        !self.nan() && !other.nan() && self.rank() == other.rank()
    }
}

/// The total order never ties two patterns: equal ranks mean equal bits.
pub proof fn total_order_separates(a: Score, b: Score)
    ensures
        a.total_rank() == b.total_rank() <==> a.bits == b.bits,
{
}

/// On numbers, the total order refines the order of their values.
pub proof fn total_order_refines_value_order(a: Score, b: Score)
    requires
        a.lt_spec(b),
    ensures
        a.total_rank() < b.total_rank(),
{
}

/// Numbers compare as their patterns do: without a sign the greater pattern is
/// the greater number, with a sign on both the lesser one is, and a number with
/// a sign is below one without unless both are zero. What is not a number
/// compares with nothing.
pub proof fn numbers_compare_as_their_patterns_do(a: Score, b: Score)
    ensures
        a.nan() == (0x7f80_0000 < a.bits < 0x8000_0000 || 0xff80_0000 < a.bits),
        a.finite() == (a.bits < 0x7f80_0000 || 0x8000_0000 <= a.bits < 0xff80_0000),
        a.nan() || b.nan() ==> !a.lt_spec(b) && !a.le_spec(b),
        !a.nan() && !b.nan() ==> ({
            &&& a.bits < 0x8000_0000 && b.bits < 0x8000_0000 ==> a.lt_spec(b) == (a.bits < b.bits)
            &&& a.bits >= 0x8000_0000 && b.bits >= 0x8000_0000 ==> a.lt_spec(b) == (a.bits
                > b.bits)
            &&& a.bits >= 0x8000_0000 && b.bits < 0x8000_0000 ==> a.lt_spec(b) == !(a.bits
                == 0x8000_0000 && b.bits == 0)
            &&& a.bits < 0x8000_0000 && b.bits >= 0x8000_0000 ==> !a.lt_spec(b)
            &&& a.le_spec(b) == !b.lt_spec(a)
            &&& a.lt_spec(b) == (a.rank() < b.rank())
        }),
        a.unit() == (a.bits <= 0x3f80_0000 || a.bits == 0x8000_0000),
{
}

/// The greater and the lesser of two numbers are one of them each, and bound
/// both. Where one is not a number, the other is taken.
pub proof fn extremes_are_of_the_two(a: Score, b: Score)
    ensures
        a.max_spec(b) == a || a.max_spec(b) == b,
        a.min_spec(b) == a || a.min_spec(b) == b,
        !a.nan() && !b.nan() ==> !a.max_spec(b).lt_spec(a) && !a.max_spec(b).lt_spec(b)
            && !a.lt_spec(a.min_spec(b)) && !b.lt_spec(a.min_spec(b)),
        a.nan() ==> a.max_spec(b) == b && a.min_spec(b) == b,
        b.nan() && !a.nan() ==> a.max_spec(b) == a && a.min_spec(b) == a,
{
}

} // verus!
