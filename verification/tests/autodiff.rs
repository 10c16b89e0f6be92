use tpt_math::scalar::Scalar;

/// An `f64` as a library scalar.
#[derive(Clone, Copy, Debug, PartialEq)]
struct F(f64);

impl Scalar for F {
    fn zero() -> F {
        F(0.0)
    }
    fn one() -> F {
        F(1.0)
    }
    fn from_int(n: i64) -> F {
        F(n as f64)
    }
    fn from_u64(n: u64) -> F {
        F(n as f64)
    }
    fn plus(self, rhs: F) -> F {
        F(self.0 + rhs.0)
    }
    fn minus(self, rhs: F) -> F {
        F(self.0 - rhs.0)
    }
    fn times(self, rhs: F) -> F {
        F(self.0 * rhs.0)
    }
    fn divide(self, rhs: F) -> F {
        F(self.0 / rhs.0)
    }
    fn negate(self) -> F {
        F(-self.0)
    }
    fn abs(self) -> F {
        F(self.0.abs())
    }
    fn sqrt(self) -> F {
        F(self.0.sqrt())
    }
    fn sin(self) -> F {
        F(self.0.sin())
    }
    fn cos(self) -> F {
        F(self.0.cos())
    }
    fn tan(self) -> F {
        F(self.0.tan())
    }
    fn acos(self) -> F {
        F(self.0.acos())
    }
    fn atan2(self, other: F) -> F {
        F(self.0.atan2(other.0))
    }
    fn exp(self) -> F {
        F(self.0.exp())
    }
    fn ln(self) -> F {
        F(self.0.ln())
    }
    fn lt(self, rhs: F) -> bool {
        self.0 < rhs.0
    }
    fn le(self, rhs: F) -> bool {
        self.0 <= rhs.0
    }
    fn eq(self, rhs: F) -> bool {
        self.0 == rhs.0
    }
    fn is_finite(self) -> bool {
        self.0.is_finite()
    }
    fn min(self, rhs: F) -> F {
        F(self.0.min(rhs.0))
    }
    fn max(self, rhs: F) -> F {
        F(self.0.max(rhs.0))
    }
    fn powi(self, n: i32) -> F {
        F(self.0.powi(n))
    }
    fn powf(self, p: F) -> F {
        F(self.0.powf(p.0))
    }
    fn floor(self) -> F {
        F(self.0.floor())
    }
    fn infinity() -> F {
        F(f64::INFINITY)
    }
    fn pi() -> F {
        F(std::f64::consts::PI)
    }
    fn e() -> F {
        F(std::f64::consts::E)
    }
    // The specification functions mirror the operations above.
    fn zero_spec() -> F {
        F::zero()
    }
    fn one_spec() -> F {
        F::one()
    }
    fn from_int_spec(n: i64) -> F {
        F::from_int(n)
    }
    fn from_u64_spec(n: u64) -> F {
        F::from_u64(n)
    }
    fn plus_spec(self, rhs: F) -> F {
        self.plus(rhs)
    }
    fn minus_spec(self, rhs: F) -> F {
        self.minus(rhs)
    }
    fn times_spec(self, rhs: F) -> F {
        self.times(rhs)
    }
    fn divide_spec(self, rhs: F) -> F {
        self.divide(rhs)
    }
    fn negate_spec(self) -> F {
        self.negate()
    }
    fn abs_spec(self) -> F {
        Scalar::abs(self)
    }
    fn sqrt_spec(self) -> F {
        Scalar::sqrt(self)
    }
    fn sin_spec(self) -> F {
        Scalar::sin(self)
    }
    fn cos_spec(self) -> F {
        Scalar::cos(self)
    }
    fn tan_spec(self) -> F {
        Scalar::tan(self)
    }
    fn acos_spec(self) -> F {
        Scalar::acos(self)
    }
    fn atan2_spec(self, other: F) -> F {
        Scalar::atan2(self, other)
    }
    fn exp_spec(self) -> F {
        Scalar::exp(self)
    }
    fn ln_spec(self) -> F {
        Scalar::ln(self)
    }
    fn lt_spec(self, rhs: F) -> bool {
        Scalar::lt(self, rhs)
    }
    fn le_spec(self, rhs: F) -> bool {
        Scalar::le(self, rhs)
    }
    fn eq_spec(self, rhs: F) -> bool {
        Scalar::eq(self, rhs)
    }
    fn is_finite_spec(self) -> bool {
        Scalar::is_finite(self)
    }
    fn min_spec(self, rhs: F) -> F {
        Scalar::min(self, rhs)
    }
    fn max_spec(self, rhs: F) -> F {
        Scalar::max(self, rhs)
    }
    fn powi_spec(self, n: i32) -> F {
        Scalar::powi(self, n)
    }
    fn powf_spec(self, p: F) -> F {
        Scalar::powf(self, p)
    }
    fn floor_spec(self) -> F {
        Scalar::floor(self)
    }
    fn infinity_spec() -> F {
        <F as Scalar>::infinity()
    }
    fn pi_spec() -> F {
        <F as Scalar>::pi()
    }
    fn e_spec() -> F {
        <F as Scalar>::e()
    }
}

use tpt_math::autodiff::Dual;

#[test]
fn polynomial_derivative() {
    let x = Dual::<F, 1>::variable(F(3.0), 0);
    let y = x * x * x + x * Dual::constant(F(2.0));
    assert!((y.re().0 - 33.0).abs() < 1e-12);
    // d/dx (x^3 + 2x) = 3x^2 + 2 = 29 at x = 3
    assert!((y.du(0).0 - 29.0).abs() < 1e-12);
}

#[test]
fn sin_derivative() {
    let x = Dual::<F, 1>::variable(F(0.0), 0);
    let y = x.sin();
    assert!((y.re().0 - 0.0).abs() < 1e-12);
    assert!((y.du(0).0 - 1.0).abs() < 1e-12);
}

#[test]
fn multi_variable_gradient() {
    let x = Dual::<F, 2>::variable(F(2.0), 0);
    let y = Dual::<F, 2>::variable(F(3.0), 1);
    let f = x * y + x;
    // f = x*y + x ; df/dx = y + 1 = 4, df/dy = x = 2
    assert!((f.re().0 - 8.0).abs() < 1e-12);
    assert!((f.du(0).0 - 4.0).abs() < 1e-12);
    assert!((f.du(1).0 - 2.0).abs() < 1e-12);
}
