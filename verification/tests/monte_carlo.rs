use tpt_math::monte_carlo::{estimate_mean, importance, integrate, mean_and_var, ImportanceSampling};
use tpt_math::prob::{SplitMix64, Standard};
use tpt_math::scalar::Scalar;

/// An `f64` as a library scalar.
#[derive(Clone, Copy, Debug, PartialEq)]
struct F(f64);

impl Scalar for F {
    fn zero() -> F {
        F(0.0)
    }
    fn one() -> F {
        F(1.0)
    }
    fn from_int(n: i64) -> F {
        F(n as f64)
    }
    fn from_u64(n: u64) -> F {
        F(n as f64)
    }
    fn plus(self, rhs: F) -> F {
        F(self.0 + rhs.0)
    }
    fn minus(self, rhs: F) -> F {
        F(self.0 - rhs.0)
    }
    fn times(self, rhs: F) -> F {
        F(self.0 * rhs.0)
    }
    fn divide(self, rhs: F) -> F {
        F(self.0 / rhs.0)
    }
    fn negate(self) -> F {
        F(-self.0)
    }
    fn abs(self) -> F {
        F(self.0.abs())
    }
    fn sqrt(self) -> F {
        F(self.0.sqrt())
    }
    fn sin(self) -> F {
        F(self.0.sin())
    }
    fn cos(self) -> F {
        F(self.0.cos())
    }
    fn tan(self) -> F {
        F(self.0.tan())
    }
    fn acos(self) -> F {
        F(self.0.acos())
    }
    fn atan2(self, other: F) -> F {
        F(self.0.atan2(other.0))
    }
    fn exp(self) -> F {
        F(self.0.exp())
    }
    fn ln(self) -> F {
        F(self.0.ln())
    }
    fn lt(self, rhs: F) -> bool {
        self.0 < rhs.0
    }
    fn le(self, rhs: F) -> bool {
        self.0 <= rhs.0
    }
    fn eq(self, rhs: F) -> bool {
        self.0 == rhs.0
    }
    fn is_finite(self) -> bool {
        self.0.is_finite()
    }
    fn min(self, rhs: F) -> F {
        F(self.0.min(rhs.0))
    }
    fn max(self, rhs: F) -> F {
        F(self.0.max(rhs.0))
    }
    fn powi(self, n: i32) -> F {
        F(self.0.powi(n))
    }
    fn powf(self, p: F) -> F {
        F(self.0.powf(p.0))
    }
    fn floor(self) -> F {
        F(self.0.floor())
    }
    fn infinity() -> F {
        F(f64::INFINITY)
    }
    fn pi() -> F {
        F(std::f64::consts::PI)
    }
    fn e() -> F {
        F(std::f64::consts::E)
    }
    // The specification functions mirror the operations above.
    fn zero_spec() -> F {
        F::zero()
    }
    fn one_spec() -> F {
        F::one()
    }
    fn from_int_spec(n: i64) -> F {
        F::from_int(n)
    }
    fn from_u64_spec(n: u64) -> F {
        F::from_u64(n)
    }
    fn plus_spec(self, rhs: F) -> F {
        self.plus(rhs)
    }
    fn minus_spec(self, rhs: F) -> F {
        self.minus(rhs)
    }
    fn times_spec(self, rhs: F) -> F {
        self.times(rhs)
    }
    fn divide_spec(self, rhs: F) -> F {
        self.divide(rhs)
    }
    fn negate_spec(self) -> F {
        self.negate()
    }
    fn abs_spec(self) -> F {
        Scalar::abs(self)
    }
    fn sqrt_spec(self) -> F {
        Scalar::sqrt(self)
    }
    fn sin_spec(self) -> F {
        Scalar::sin(self)
    }
    fn cos_spec(self) -> F {
        Scalar::cos(self)
    }
    fn tan_spec(self) -> F {
        Scalar::tan(self)
    }
    fn acos_spec(self) -> F {
        Scalar::acos(self)
    }
    fn atan2_spec(self, other: F) -> F {
        Scalar::atan2(self, other)
    }
    fn exp_spec(self) -> F {
        Scalar::exp(self)
    }
    fn ln_spec(self) -> F {
        Scalar::ln(self)
    }
    fn lt_spec(self, rhs: F) -> bool {
        Scalar::lt(self, rhs)
    }
    fn le_spec(self, rhs: F) -> bool {
        Scalar::le(self, rhs)
    }
    fn eq_spec(self, rhs: F) -> bool {
        Scalar::eq(self, rhs)
    }
    fn is_finite_spec(self) -> bool {
        Scalar::is_finite(self)
    }
    fn min_spec(self, rhs: F) -> F {
        Scalar::min(self, rhs)
    }
    fn max_spec(self, rhs: F) -> F {
        Scalar::max(self, rhs)
    }
    fn powi_spec(self, n: i32) -> F {
        Scalar::powi(self, n)
    }
    fn powf_spec(self, p: F) -> F {
        Scalar::powf(self, p)
    }
    fn floor_spec(self) -> F {
        Scalar::floor(self)
    }
    fn infinity_spec() -> F {
        <F as Scalar>::infinity()
    }
    fn pi_spec() -> F {
        <F as Scalar>::pi()
    }
    fn e_spec() -> F {
        <F as Scalar>::e()
    }
}

fn fs(xs: &[f64]) -> Vec<F> {
    xs.iter().map(|&x| F(x)).collect()
}

fn pair(r: (F, F)) -> (f64, f64) {
    (r.0 .0, r.1 .0)
}

#[test]
fn mean_and_var_basic() {
    let (mean, var) = pair(mean_and_var(&fs(&[1.0, 2.0, 3.0, 4.0, 5.0])));
    assert!((mean - 3.0).abs() < 1e-12);
    assert!((var - 2.5).abs() < 1e-12);
}

#[test]
fn mean_and_var_empty_and_single() {
    assert_eq!(pair(mean_and_var::<F>(&[])), (0.0, 0.0));
    assert_eq!(pair(mean_and_var(&[F(7.0)])), (7.0, 0.0));
}

#[test]
fn integrate_x_squared_equals_one_third() {
    let mut rng = SplitMix64::seed_from_u64(12345);
    let (mean, stderr) = pair(integrate(&mut rng, |x: F| F(x.0 * x.0), F(0.0), F(1.0), 200_000));
    assert!((mean - 1.0 / 3.0).abs() < 5.0 * stderr);
    assert!(stderr > 0.0);
    assert!(stderr < 1e-2);
}

#[test]
fn integrate_constant_is_exact() {
    let mut rng = SplitMix64::seed_from_u64(1);
    let (mean, stderr) = pair(integrate(&mut rng, |_x: F| F(2.0), F(0.0), F(1.0), 10_000));
    assert!((mean - 2.0).abs() < 1e-12);
    assert!(stderr < 1e-12);
}

#[test]
fn integrate_linear_is_exact_in_mean() {
    let mut rng = SplitMix64::seed_from_u64(2);
    let (mean, stderr) = pair(integrate(&mut rng, |x: F| x, F(0.0), F(2.0), 100_000));
    assert!((mean - 2.0).abs() < 5.0 * stderr);
}

#[test]
fn estimate_mean_uniform() {
    let mut rng = SplitMix64::seed_from_u64(7);
    let (mean, stderr) = pair(estimate_mean::<F, _, _>(&Standard, &mut rng, 200_000));
    assert!((mean - 0.5).abs() < 10.0 * stderr);
    assert!(stderr > 0.0);
    assert!(stderr < 1e-3);
}

#[test]
fn estimate_mean_variance_sanity() {
    let n = 50_000usize;
    let mut rng = SplitMix64::seed_from_u64(8);
    let (mean, stderr) = pair(estimate_mean::<F, _, _>(&Standard, &mut rng, n));
    let implied_var = stderr * stderr * (n as f64);
    assert!((implied_var - 1.0 / 12.0).abs() < 5e-3);
    assert!((mean - 0.5).abs() < 10.0 * stderr);
}

#[test]
fn importance_sampling_matches_uniform_target() {
    let mut rng = SplitMix64::seed_from_u64(11);
    let is = ImportanceSampling::new(|_x: F| F(1.0), |_x: F| F(1.0));
    let (est, stderr) = pair(is.estimate(&mut rng, &Standard, |x: F| x, 100_000));
    assert!((est - 0.5).abs() < 10.0 * stderr);
}

#[test]
fn importance_sampling_reduces_to_expectation_of_one() {
    let mut rng = SplitMix64::seed_from_u64(13);
    let (est, _stderr) =
        pair(importance(&mut rng, 100_000, &Standard, |_x: F| F(1.0), |_x: F| F(1.0), |_x: F| F(1.0)));
    assert!((est - 1.0).abs() < 1e-12);
}

#[test]
fn integrate_scales_with_width() {
    let mut rng = SplitMix64::seed_from_u64(21);
    let (mean, _) = pair(integrate(&mut rng, |x: F| x, F(0.0), F(10.0), 200_000));
    assert!((mean - 50.0).abs() < 2.0);
}

#[test]
fn empty_estimates_are_zero() {
    let mut rng = SplitMix64::seed_from_u64(3);
    assert_eq!(pair(integrate(&mut rng, |x: F| x, F(0.0), F(1.0), 0)), (0.0, 0.0));
    assert_eq!(pair(estimate_mean::<F, _, _>(&Standard, &mut rng, 0)), (0.0, 0.0));
    let is = ImportanceSampling::new(|_x: F| F(1.0), |_x: F| F(1.0));
    assert_eq!(pair(is.estimate(&mut rng, &Standard, |x: F| x, 0)), (0.0, 0.0));
}
