//! Exact arithmetic as a law: a scalar type that behaves as a subfield of the real numbers.
use vstd::prelude::*;

use crate::scalar::Scalar;

verus! {

/// `f` maps the scalar type into the real numbers one to one, and keeps zero, one, the
/// field operations, the order, and the square root of non-negative values.
pub open spec fn is_real_model<T: Scalar>(f: spec_fn(T) -> real) -> bool {
    &&& f(T::zero_spec()) == 0real
    &&& f(T::one_spec()) == 1real
    &&& forall|a: T, b: T| #![trigger f(a), f(b)] f(a) == f(b) ==> a == b
    &&& forall|a: T, b: T| #[trigger] f(a.plus_spec(b)) == f(a) + f(b)
    &&& forall|a: T, b: T| #[trigger] f(a.minus_spec(b)) == f(a) - f(b)
    &&& forall|a: T, b: T| #[trigger] f(a.times_spec(b)) == f(a) * f(b)
    &&& forall|a: T| #[trigger] f(a.negate_spec()) == -f(a)
    &&& forall|a: T, b: T| f(b) != 0real ==> #[trigger] f(a.divide_spec(b)) == f(a) / f(b)
    &&& forall|a: T, b: T| #[trigger] a.le_spec(b) == (f(a) <= f(b))
    &&& forall|a: T, b: T| #[trigger] a.lt_spec(b) == (f(a) < f(b))
    &&& forall|a: T, b: T| #[trigger] a.eq_spec(b) == (f(a) == f(b))
    &&& forall|a: T|
        0real <= f(a) ==> 0real <= #[trigger] f(a.sqrt_spec()) && f(a.sqrt_spec()) * f(a.sqrt_spec()) == f(a)
}

/// Exact real arithmetic: the scalar type is, through some [`is_real_model`] map, a
/// subfield of the real numbers closed under square roots of non-negative values (as the
/// real numbers themselves are). Floating-point types meet this only up to rounding.
pub open spec fn real_laws<T: Scalar>() -> bool {
    exists|f: spec_fn(T) -> real| is_real_model(f)
}


} // verus!
