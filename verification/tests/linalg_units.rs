use tpt_math::linalg_dense::{DMatrix, DVector};
use tpt_math::linalg_units::{Mat, Vec};
use tpt_math::scalar::Scalar;

/// An `f64` as a library scalar.
#[derive(Clone, Copy, Debug, PartialEq)]
struct F(f64);

impl Scalar for F {
    fn zero() -> F {
        F(0.0)
    }
    fn one() -> F {
        F(1.0)
    }
    fn from_int(n: i64) -> F {
        F(n as f64)
    }
    fn from_u64(n: u64) -> F {
        F(n as f64)
    }
    fn plus(self, rhs: F) -> F {
        F(self.0 + rhs.0)
    }
    fn minus(self, rhs: F) -> F {
        F(self.0 - rhs.0)
    }
    fn times(self, rhs: F) -> F {
        F(self.0 * rhs.0)
    }
    fn divide(self, rhs: F) -> F {
        F(self.0 / rhs.0)
    }
    fn negate(self) -> F {
        F(-self.0)
    }
    fn abs(self) -> F {
        F(self.0.abs())
    }
    fn sqrt(self) -> F {
        F(self.0.sqrt())
    }
    fn sin(self) -> F {
        F(self.0.sin())
    }
    fn cos(self) -> F {
        F(self.0.cos())
    }
    fn tan(self) -> F {
        F(self.0.tan())
    }
    fn acos(self) -> F {
        F(self.0.acos())
    }
    fn atan2(self, other: F) -> F {
        F(self.0.atan2(other.0))
    }
    fn exp(self) -> F {
        F(self.0.exp())
    }
    fn ln(self) -> F {
        F(self.0.ln())
    }
    fn lt(self, rhs: F) -> bool {
        self.0 < rhs.0
    }
    fn le(self, rhs: F) -> bool {
        self.0 <= rhs.0
    }
    fn eq(self, rhs: F) -> bool {
        self.0 == rhs.0
    }
    fn is_finite(self) -> bool {
        self.0.is_finite()
    }
    fn min(self, rhs: F) -> F {
        F(self.0.min(rhs.0))
    }
    fn max(self, rhs: F) -> F {
        F(self.0.max(rhs.0))
    }
    fn powi(self, n: i32) -> F {
        F(self.0.powi(n))
    }
    fn powf(self, p: F) -> F {
        F(self.0.powf(p.0))
    }
    fn floor(self) -> F {
        F(self.0.floor())
    }
    fn infinity() -> F {
        F(f64::INFINITY)
    }
    fn pi() -> F {
        F(std::f64::consts::PI)
    }
    fn e() -> F {
        F(std::f64::consts::E)
    }
    // The specification functions mirror the operations above.
    fn zero_spec() -> F {
        F::zero()
    }
    fn one_spec() -> F {
        F::one()
    }
    fn from_int_spec(n: i64) -> F {
        F::from_int(n)
    }
    fn from_u64_spec(n: u64) -> F {
        F::from_u64(n)
    }
    fn plus_spec(self, rhs: F) -> F {
        self.plus(rhs)
    }
    fn minus_spec(self, rhs: F) -> F {
        self.minus(rhs)
    }
    fn times_spec(self, rhs: F) -> F {
        self.times(rhs)
    }
    fn divide_spec(self, rhs: F) -> F {
        self.divide(rhs)
    }
    fn negate_spec(self) -> F {
        self.negate()
    }
    fn abs_spec(self) -> F {
        Scalar::abs(self)
    }
    fn sqrt_spec(self) -> F {
        Scalar::sqrt(self)
    }
    fn sin_spec(self) -> F {
        Scalar::sin(self)
    }
    fn cos_spec(self) -> F {
        Scalar::cos(self)
    }
    fn tan_spec(self) -> F {
        Scalar::tan(self)
    }
    fn acos_spec(self) -> F {
        Scalar::acos(self)
    }
    fn atan2_spec(self, other: F) -> F {
        Scalar::atan2(self, other)
    }
    fn exp_spec(self) -> F {
        Scalar::exp(self)
    }
    fn ln_spec(self) -> F {
        Scalar::ln(self)
    }
    fn lt_spec(self, rhs: F) -> bool {
        Scalar::lt(self, rhs)
    }
    fn le_spec(self, rhs: F) -> bool {
        Scalar::le(self, rhs)
    }
    fn eq_spec(self, rhs: F) -> bool {
        Scalar::eq(self, rhs)
    }
    fn is_finite_spec(self) -> bool {
        Scalar::is_finite(self)
    }
    fn min_spec(self, rhs: F) -> F {
        Scalar::min(self, rhs)
    }
    fn max_spec(self, rhs: F) -> F {
        Scalar::max(self, rhs)
    }
    fn powi_spec(self, n: i32) -> F {
        Scalar::powi(self, n)
    }
    fn powf_spec(self, p: F) -> F {
        Scalar::powf(self, p)
    }
    fn floor_spec(self) -> F {
        Scalar::floor(self)
    }
    fn infinity_spec() -> F {
        <F as Scalar>::infinity()
    }
    fn pi_spec() -> F {
        <F as Scalar>::pi()
    }
    fn e_spec() -> F {
        <F as Scalar>::e()
    }
}

/// Unit tags standing for physical quantities.
#[derive(Debug, PartialEq)]
struct Length;
#[derive(Debug, PartialEq)]
struct Time;
#[derive(Debug, PartialEq)]
struct Velocity;

fn fv(xs: &[f64]) -> DVector<F> {
    DVector::from_vec(xs.iter().map(|&x| F(x)).collect())
}

fn fm(nrows: usize, ncols: usize, xs: &[f64]) -> DMatrix<F> {
    let data: std::vec::Vec<F> = xs.iter().map(|&x| F(x)).collect();
    DMatrix::from_row_slice(nrows, ncols, &data)
}

#[test]
fn vector_addition_keeps_unit() {
    let a = Vec::<Length, F>::from_raw(fv(&[1.0, 2.0]));
    let b = Vec::<Length, F>::from_raw(fv(&[3.0, 4.0]));
    let c = a + b;
    assert_eq!(c.raw(), &fv(&[4.0, 6.0]));
}

#[test]
fn matrix_mul_propagates_units() {
    let m = Mat::<Length, Time, F>::from_raw(fm(2, 2, &[1.0, 2.0, 3.0, 4.0]));
    let n = Mat::<Time, Velocity, F>::from_raw(fm(2, 2, &[1.0, 0.0, 0.0, 1.0]));
    let p: Mat<Length, Velocity, F> = m * n;
    assert_eq!(p.raw(), &fm(2, 2, &[1.0, 2.0, 3.0, 4.0]));
}

#[test]
fn matrix_times_vector() {
    let m = Mat::<Length, Time, F>::from_raw(fm(2, 2, &[2.0, 0.0, 0.0, 2.0]));
    let v = Vec::<Time, F>::from_raw(fv(&[1.0, 2.0]));
    let r: Vec<Length, F> = m * v;
    assert_eq!(r.raw(), &fv(&[2.0, 4.0]));
}

#[test]
fn transpose_swaps_unit_tags() {
    let m = Mat::<Length, Time, F>::from_raw(fm(1, 2, &[1.0, 2.0]));
    let t: Mat<Time, Length, F> = m.transpose();
    assert_eq!(t.nrows(), 2);
    assert_eq!(t.ncols(), 1);
}

#[test]
fn unit_vector_scalar_ops_and_accessors() {
    let v = Vec::<Length, F>::from_raw(fv(&[2.0, 4.0]));
    assert_eq!(v.len(), 2);
    assert!(!v.is_empty());
    assert_eq!(v[1], F(4.0));
    assert_eq!((v.clone() * F(2.0)).raw(), &fv(&[4.0, 8.0]));
    assert_eq!((v.clone() / F(2.0)).raw(), &fv(&[1.0, 2.0]));
    assert_eq!((-v.clone()).raw(), &fv(&[-2.0, -4.0]));
    assert_eq!((v.clone() - v).raw(), &fv(&[0.0, 0.0]));
    assert!(Vec::<Length, F>::zeros(0).is_empty());
    let m = Mat::<Length, Time, F>::from_raw(fm(2, 2, &[1.0, 2.0, 3.0, 4.0]));
    assert_eq!((m.clone() + m.clone()).raw(), &fm(2, 2, &[2.0, 4.0, 6.0, 8.0]));
    assert_eq!((m.clone() - m.clone()).raw(), Mat::<Length, Time, F>::zeros(2, 2).raw());
    assert_eq!(m.negate().raw(), &fm(2, 2, &[-1.0, -2.0, -3.0, -4.0]));
}
