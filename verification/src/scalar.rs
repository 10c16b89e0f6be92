use vstd::prelude::*;

verus! {

/// A scalar type that the fixed-size linear algebra, the geometry and the dual numbers are
/// generic over: a real-number-like type with the field operations, square root, the
/// elementary functions and comparisons.
///
/// Every operation is a deterministic function of its arguments: each exec method returns
/// exactly what its spec counterpart names. Nothing else is assumed of a scalar type (no
/// algebraic law), so every contract that is stated over these spec functions holds for any
/// implementation, floating-point or exact.
pub trait Scalar: Copy + Sized {
    /// The additive identity.
    spec fn zero_spec() -> Self;

    /// The multiplicative identity.
    spec fn one_spec() -> Self;

    /// The scalar that the integer `n` converts to.
    spec fn from_int_spec(n: i64) -> Self;

    /// The scalar that the unsigned integer `n` converts to.
    spec fn from_u64_spec(n: u64) -> Self;

    spec fn plus_spec(self, rhs: Self) -> Self;

    spec fn minus_spec(self, rhs: Self) -> Self;

    spec fn times_spec(self, rhs: Self) -> Self;

    spec fn divide_spec(self, rhs: Self) -> Self;

    spec fn negate_spec(self) -> Self;

    spec fn abs_spec(self) -> Self;

    spec fn sqrt_spec(self) -> Self;

    spec fn sin_spec(self) -> Self;

    spec fn cos_spec(self) -> Self;

    spec fn tan_spec(self) -> Self;

    spec fn acos_spec(self) -> Self;

    /// The four-quadrant arctangent of `self / other` (`self` the ordinate).
    spec fn atan2_spec(self, other: Self) -> Self;

    spec fn exp_spec(self) -> Self;

    spec fn ln_spec(self) -> Self;

    /// Strict order (`self < rhs`).
    spec fn lt_spec(self, rhs: Self) -> bool;

    /// Weak order (`self <= rhs`).
    spec fn le_spec(self, rhs: Self) -> bool;

    /// Equality as the type's `==` decides it.
    spec fn eq_spec(self, rhs: Self) -> bool;

    spec fn is_finite_spec(self) -> bool;

    /// The smaller of `self` and `rhs`, as the type's `min` decides it.
    spec fn min_spec(self, rhs: Self) -> Self;

    /// The larger of `self` and `rhs`, as the type's `max` decides it.
    spec fn max_spec(self, rhs: Self) -> Self;

    /// `self` raised to the integer power `n`.
    spec fn powi_spec(self, n: i32) -> Self;

    /// `self` raised to the real power `p`.
    spec fn powf_spec(self, p: Self) -> Self;

    /// The largest integer not above `self`.
    spec fn floor_spec(self) -> Self;

    /// Positive infinity.
    spec fn infinity_spec() -> Self;

    /// The circle constant `pi`.
    spec fn pi_spec() -> Self;

    /// Euler's number `e`.
    spec fn e_spec() -> Self;

    fn zero() -> (r: Self)
        ensures
            r == Self::zero_spec(),
    ;

    fn one() -> (r: Self)
        ensures
            r == Self::one_spec(),
    ;

    fn from_int(n: i64) -> (r: Self)
        ensures
            r == Self::from_int_spec(n),
    ;

    fn from_u64(n: u64) -> (r: Self)
        ensures
            r == Self::from_u64_spec(n),
    ;

    fn plus(self, rhs: Self) -> (r: Self)
        ensures
            r == self.plus_spec(rhs),
    ;

    fn minus(self, rhs: Self) -> (r: Self)
        ensures
            r == self.minus_spec(rhs),
    ;

    fn times(self, rhs: Self) -> (r: Self)
        ensures
            r == self.times_spec(rhs),
    ;

    fn divide(self, rhs: Self) -> (r: Self)
        ensures
            r == self.divide_spec(rhs),
    ;

    fn negate(self) -> (r: Self)
        ensures
            r == self.negate_spec(),
    ;

    fn abs(self) -> (r: Self)
        ensures
            r == self.abs_spec(),
    ;

    fn sqrt(self) -> (r: Self)
        ensures
            r == self.sqrt_spec(),
    ;

    fn sin(self) -> (r: Self)
        ensures
            r == self.sin_spec(),
    ;

    fn cos(self) -> (r: Self)
        ensures
            r == self.cos_spec(),
    ;

    fn tan(self) -> (r: Self)
        ensures
            r == self.tan_spec(),
    ;

    fn acos(self) -> (r: Self)
        ensures
            r == self.acos_spec(),
    ;

    fn atan2(self, other: Self) -> (r: Self)
        ensures
            r == self.atan2_spec(other),
    ;

    fn exp(self) -> (r: Self)
        ensures
            r == self.exp_spec(),
    ;

    fn ln(self) -> (r: Self)
        ensures
            r == self.ln_spec(),
    ;

    fn lt(self, rhs: Self) -> (r: bool)
        ensures
            r == self.lt_spec(rhs),
    ;

    fn le(self, rhs: Self) -> (r: bool)
        ensures
            r == self.le_spec(rhs),
    ;

    fn eq(self, rhs: Self) -> (r: bool)
        ensures
            r == self.eq_spec(rhs),
    ;

    fn is_finite(self) -> (r: bool)
        ensures
            r == self.is_finite_spec(),
    ;

    fn min(self, rhs: Self) -> (r: Self)
        ensures
            r == self.min_spec(rhs),
    ;

    fn max(self, rhs: Self) -> (r: Self)
        ensures
            r == self.max_spec(rhs),
    ;

    fn powi(self, n: i32) -> (r: Self)
        ensures
            r == self.powi_spec(n),
    ;

    fn powf(self, p: Self) -> (r: Self)
        ensures
            r == self.powf_spec(p),
    ;

    fn floor(self) -> (r: Self)
        ensures
            r == self.floor_spec(),
    ;

    fn infinity() -> (r: Self)
        ensures
            r == Self::infinity_spec(),
    ;

    fn pi() -> (r: Self)
        ensures
            r == Self::pi_spec(),
    ;

    fn e() -> (r: Self)
        ensures
            r == Self::e_spec(),
    ;
}

/// The constant `2` of a scalar type, as `1 + 1`.
pub open spec fn two<T: Scalar>() -> T {
    T::one_spec().plus_spec(T::one_spec())
}

/// The tolerance `10^-12` that pivot and degeneracy tests use, as `1 / 10^12` in `T`.
pub open spec fn tiny<T: Scalar>() -> T {
    T::from_int_spec(1).divide_spec(T::from_int_spec(1_000_000_000_000))
}

/// Computes [`tiny`].
pub fn tiny_exec<T: Scalar>() -> (r: T)
    ensures
        r == tiny::<T>(),
{
    T::from_int(1).divide(T::from_int(1_000_000_000_000))
}

/// Computes [`two`].
pub fn two_exec<T: Scalar>() -> (r: T)
    ensures
        r == two::<T>(),
{
    T::one().plus(T::one())
}

} // verus!
