//! The arithmetic that the learners run on.
//!
//! Durations, losses and criticalities are carried in one number type, chosen by the
//! application: [`crate::fixed::Fixed`] is the exact one that this crate ships, and a runtime
//! that keeps its measurements in machine floating point supplies its own. Every contract in the
//! crate speaks of the operations below by name, so that what a learner computes is pinned to the
//! operations it applies and the order it applies them in, whatever the number type is.
use crate::order::Ordered;
use vstd::prelude::*;

verus! {

/// A number type for measurements.
///
/// Each operation is a function of its arguments: the specification function beside it names the
/// result. No law of arithmetic is asked of an implementation, only that all its values have a
/// place in a total order. An implementation outside of the verifier's sight has no need of the
/// specification functions and leaves them at their defaults, of which nothing is known.
pub trait Scalar: Ordered {
    /// The value that stands for the fraction `num / den`.
    closed spec fn ratio(num: int, den: int) -> Self {
        arbitrary()
    }

    /// The value that stands for the double-precision float with the given bits.
    closed spec fn decoded(bits: u64) -> Self {
        arbitrary()
    }

    /// The value above every finite one.
    closed spec fn unbounded() -> Self {
        arbitrary()
    }

    /// The sum.
    closed spec fn plus(self, rhs: Self) -> Self {
        arbitrary()
    }

    /// The difference.
    closed spec fn minus(self, rhs: Self) -> Self {
        arbitrary()
    }

    /// The product.
    closed spec fn times(self, rhs: Self) -> Self {
        arbitrary()
    }

    /// The quotient.
    closed spec fn over(self, rhs: Self) -> Self {
        arbitrary()
    }

    /// The larger of two values.
    closed spec fn larger(self, rhs: Self) -> Self {
        arbitrary()
    }

    /// The smaller of two values.
    closed spec fn smaller(self, rhs: Self) -> Self {
        arbitrary()
    }

    /// Whether `self < rhs`.
    closed spec fn below(self, rhs: Self) -> bool {
        arbitrary()
    }

    /// Whether `self <= rhs`.
    closed spec fn at_most(self, rhs: Self) -> bool {
        arbitrary()
    }

    /// Whether the value is an ordinary number.
    closed spec fn finite(self) -> bool {
        arbitrary()
    }

    /// The nearest whole number, ties away from zero, held to the range of `i64`.
    closed spec fn rounded(self) -> i64 {
        arbitrary()
    }

    /// The natural logarithm of one more than the value.
    closed spec fn log_one_plus(self) -> Self {
        arbitrary()
    }

    /// The square root.
    closed spec fn root(self) -> Self {
        arbitrary()
    }

    /// Converts a fraction.
    fn of_ratio(num: i64, den: u64) -> (r: Self)
        requires
            den > 0,
        ensures
            r == Self::ratio(num as int, den as int),
    ;

    /// Converts a double-precision float, given by its bits.
    fn of_float_bits(bits: u64) -> (r: Self)
        ensures
            r == Self::decoded(bits),
    ;

    /// Returns the value above every finite one.
    fn infinity() -> (r: Self)
        ensures
            r == Self::unbounded(),
    ;

    /// Adds.
    fn add(self, rhs: Self) -> (r: Self)
        ensures
            r == self.plus(rhs),
    ;

    /// Subtracts.
    fn sub(self, rhs: Self) -> (r: Self)
        ensures
            r == self.minus(rhs),
    ;

    /// Multiplies.
    fn mul(self, rhs: Self) -> (r: Self)
        ensures
            r == self.times(rhs),
    ;

    /// Divides.
    fn div(self, rhs: Self) -> (r: Self)
        ensures
            r == self.over(rhs),
    ;

    /// Returns the larger value.
    fn max_of(self, rhs: Self) -> (r: Self)
        ensures
            r == self.larger(rhs),
    ;

    /// Returns the smaller value.
    fn min_of(self, rhs: Self) -> (r: Self)
        ensures
            r == self.smaller(rhs),
    ;

    /// Tests `self < rhs`.
    fn lt(self, rhs: Self) -> (r: bool)
        ensures
            r == self.below(rhs),
    ;

    /// Tests `self <= rhs`.
    fn le(self, rhs: Self) -> (r: bool)
        ensures
            r == self.at_most(rhs),
    ;

    /// Tests whether the value is an ordinary number.
    fn is_finite(self) -> (r: bool)
        ensures
            r == self.finite(),
    ;

    /// Rounds to the nearest whole number.
    fn round(self) -> (r: i64)
        ensures
            r == self.rounded(),
    ;

    /// Returns the natural logarithm of one more than the value.
    fn ln_1p(self) -> (r: Self)
        ensures
            r == self.log_one_plus(),
    ;

    /// Returns the square root.
    fn sqrt(self) -> (r: Self)
        ensures
            r == self.root(),
    ;
}

/// Zero.
pub open spec fn zero_of<S: Scalar>() -> S {
    S::ratio(0, 1)
}

/// One.
pub open spec fn one_of<S: Scalar>() -> S {
    S::ratio(1, 1)
}

/// `value` held between `low` and `high`.
pub open spec fn held_between<S: Scalar>(value: S, low: S, high: S) -> S {
    if value.below(low) {
        low
    } else if high.below(value) {
        high
    } else {
        value
    }
}

/// Whether a measurement can be used: it is finite and not negative.
pub open spec fn usable<S: Scalar>(value: S) -> bool {
    value.finite() && zero_of::<S>().at_most(value)
}

/// Returns zero.
pub fn zero<S: Scalar>() -> (r: S)
    ensures
        r == zero_of::<S>(),
{
    S::of_ratio(0, 1)
}

/// Returns one.
pub fn one<S: Scalar>() -> (r: S)
    ensures
        r == one_of::<S>(),
{
    S::of_ratio(1, 1)
}

/// Holds `value` between `low` and `high`.
pub fn clamp<S: Scalar>(value: S, low: S, high: S) -> (r: S)
    ensures
        r == held_between(value, low, high),
{
    if value.lt(low) {
        low
    } else if high.lt(value) {
        high
    } else {
        value
    }
}

/// Tests whether a measurement is finite and not negative.
pub fn is_usable<S: Scalar>(value: S) -> (r: bool)
    ensures
        r == usable(value),
{
    value.is_finite() && zero::<S>().le(value)
}

} // verus!
