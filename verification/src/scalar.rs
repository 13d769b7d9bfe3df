//! Number types that moments are computed in.
use vstd::prelude::*;

verus! {

/// A number type with the operations that the moment formulas use.
///
/// Every operation is total: where a result does not exist (a division by
/// zero, the square root of a negative number) the type has a value of its own
/// for that, such as a NaN.
///
/// Each executable operation has a specification function of its own, so that a
/// contract can say which operations led to a result and in which order. Nothing
/// is said here of what the operations compute: rounding is up to the type.
///
/// The order is fixed but for the sums that [`Scalar::alg_add`] forms. That of doubles may
/// be an algebraic addition, which the compiler is free to regroup; such a type meets the
/// contracts of sums only up to grouping. What holds of constant columns in any order and
/// grouping is stated by `law_constant_mean_any_order` in [`crate::laws::constant`] and by
/// the laws of [`crate::laws::regroup`].
///
/// A verified number type defines all the specification functions. One outside of
/// verified code cannot, and has to live up to the contracts without proof; the bodies
/// given here only stand in for its definitions, and are hidden from every caller.
pub trait Scalar: Copy {
    /// The number that stands for the count `n`.
    closed spec fn count(n: nat) -> Self {
        arbitrary()
    }

    /// The neutral element of [`Scalar::alg_plus`], from which a summation starts.
    closed spec fn seed() -> Self {
        arbitrary()
    }

    /// The distance between one and the next larger number.
    closed spec fn spacing() -> Self {
        arbitrary()
    }

    /// The number that stands for a result that does not exist.
    closed spec fn undefined() -> Self {
        arbitrary()
    }

    /// The sum of two numbers.
    closed spec fn plus(self, other: Self) -> Self {
        arbitrary()
    }

    /// One step of a summation. Contracts write a sum down step by step, from the first
    /// term to the last; a type whose steps may be regrouped meets them up to grouping.
    closed spec fn alg_plus(self, other: Self) -> Self {
        arbitrary()
    }

    /// The difference of two numbers.
    closed spec fn minus(self, other: Self) -> Self {
        arbitrary()
    }

    /// The product of two numbers.
    closed spec fn times(self, other: Self) -> Self {
        arbitrary()
    }

    /// The quotient of two numbers.
    closed spec fn over(self, other: Self) -> Self {
        arbitrary()
    }

    /// The second power.
    closed spec fn squared(self) -> Self {
        arbitrary()
    }

    /// The square root.
    closed spec fn root(self) -> Self {
        arbitrary()
    }

    /// The power with exponent three halves.
    closed spec fn root_cubed(self) -> Self {
        arbitrary()
    }

    /// Whether two numbers are equal.
    closed spec fn same(self, other: Self) -> bool {
        arbitrary()
    }

    /// Whether a number is less than another.
    closed spec fn less(self, other: Self) -> bool {
        arbitrary()
    }

    /// Whether a number is less than another or equal to it.
    closed spec fn at_most(self, other: Self) -> bool {
        arbitrary()
    }

    /// Gives the number that stands for a count.
    fn from_count(n: usize) -> (r: Self)
        ensures
            r == Self::count(n as nat),
    ;

    /// Gives the number that a summation starts from.
    fn sum_seed() -> (r: Self)
        ensures
            r == Self::seed(),
    ;

    /// Gives the distance between one and the next larger number.
    fn epsilon() -> (r: Self)
        ensures
            r == Self::spacing(),
    ;

    /// Gives the number that stands for a result that does not exist.
    fn nan() -> (r: Self)
        ensures
            r == Self::undefined(),
    ;

    /// Adds two numbers.
    fn add(self, other: Self) -> (r: Self)
        ensures
            r == self.plus(other),
    ;

    /// Adds a term to a sum, in a way that may be regrouped with the other steps of it.
    fn alg_add(self, other: Self) -> (r: Self)
        ensures
            r == self.alg_plus(other),
    ;

    /// Subtracts a number.
    fn sub(self, other: Self) -> (r: Self)
        ensures
            r == self.minus(other),
    ;

    /// Multiplies two numbers.
    fn mul(self, other: Self) -> (r: Self)
        ensures
            r == self.times(other),
    ;

    /// Divides by a number.
    fn div(self, other: Self) -> (r: Self)
        ensures
            r == self.over(other),
    ;

    /// Multiplies a number with itself.
    fn square(self) -> (r: Self)
        ensures
            r == self.squared(),
    ;

    /// Takes the square root.
    fn sqrt(self) -> (r: Self)
        ensures
            r == self.root(),
    ;

    /// Takes the power with exponent three halves.
    fn pow_three_halves(self) -> (r: Self)
        ensures
            r == self.root_cubed(),
    ;

    /// Compares two numbers for equality.
    fn eq(self, other: Self) -> (r: bool)
        ensures
            r == self.same(other),
    ;

    /// Compares two numbers: whether the first is less.
    fn lt(self, other: Self) -> (r: bool)
        ensures
            r == self.less(other),
    ;

    /// Compares two numbers: whether the first is less or equal.
    fn le(self, other: Self) -> (r: bool)
        ensures
            r == self.at_most(other),
    ;
}

} // verus!
