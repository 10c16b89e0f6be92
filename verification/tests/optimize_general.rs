use tpt_math::linalg_dense::{DMatrix, DVector};
use tpt_math::optimize_general::{
    minimize_conjugate_gradient, minimize_conjugate_gradient_with, minimize_gradient_descent,
    minimize_gradient_descent_with, minimize_newton, minimize_newton_with, point_from_tagged, point_to_tagged,
    Options, TaggedVec, DEFAULT_MAX_ITERS,
};
use tpt_math::scalar::Scalar;

/// An `f64` as a library scalar.
#[derive(Clone, Copy, Debug, PartialEq)]
struct F(f64);

impl Scalar for F {
    fn zero() -> F {
        F(0.0)
    }
    fn one() -> F {
        F(1.0)
    }
    fn from_int(n: i64) -> F {
        F(n as f64)
    }
    fn from_u64(n: u64) -> F {
        F(n as f64)
    }
    fn plus(self, rhs: F) -> F {
        F(self.0 + rhs.0)
    }
    fn minus(self, rhs: F) -> F {
        F(self.0 - rhs.0)
    }
    fn times(self, rhs: F) -> F {
        F(self.0 * rhs.0)
    }
    fn divide(self, rhs: F) -> F {
        F(self.0 / rhs.0)
    }
    fn negate(self) -> F {
        F(-self.0)
    }
    fn abs(self) -> F {
        F(self.0.abs())
    }
    fn sqrt(self) -> F {
        F(self.0.sqrt())
    }
    fn sin(self) -> F {
        F(self.0.sin())
    }
    fn cos(self) -> F {
        F(self.0.cos())
    }
    fn tan(self) -> F {
        F(self.0.tan())
    }
    fn acos(self) -> F {
        F(self.0.acos())
    }
    fn atan2(self, other: F) -> F {
        F(self.0.atan2(other.0))
    }
    fn exp(self) -> F {
        F(self.0.exp())
    }
    fn ln(self) -> F {
        F(self.0.ln())
    }
    fn lt(self, rhs: F) -> bool {
        self.0 < rhs.0
    }
    fn le(self, rhs: F) -> bool {
        self.0 <= rhs.0
    }
    fn eq(self, rhs: F) -> bool {
        self.0 == rhs.0
    }
    fn is_finite(self) -> bool {
        self.0.is_finite()
    }
    fn min(self, rhs: F) -> F {
        F(self.0.min(rhs.0))
    }
    fn max(self, rhs: F) -> F {
        F(self.0.max(rhs.0))
    }
    fn powi(self, n: i32) -> F {
        F(self.0.powi(n))
    }
    fn powf(self, p: F) -> F {
        F(self.0.powf(p.0))
    }
    fn floor(self) -> F {
        F(self.0.floor())
    }
    fn infinity() -> F {
        F(f64::INFINITY)
    }
    fn pi() -> F {
        F(std::f64::consts::PI)
    }
    fn e() -> F {
        F(std::f64::consts::E)
    }
    // The specification functions mirror the operations above.
    fn zero_spec() -> F {
        F::zero()
    }
    fn one_spec() -> F {
        F::one()
    }
    fn from_int_spec(n: i64) -> F {
        F::from_int(n)
    }
    fn from_u64_spec(n: u64) -> F {
        F::from_u64(n)
    }
    fn plus_spec(self, rhs: F) -> F {
        self.plus(rhs)
    }
    fn minus_spec(self, rhs: F) -> F {
        self.minus(rhs)
    }
    fn times_spec(self, rhs: F) -> F {
        self.times(rhs)
    }
    fn divide_spec(self, rhs: F) -> F {
        self.divide(rhs)
    }
    fn negate_spec(self) -> F {
        self.negate()
    }
    fn abs_spec(self) -> F {
        Scalar::abs(self)
    }
    fn sqrt_spec(self) -> F {
        Scalar::sqrt(self)
    }
    fn sin_spec(self) -> F {
        Scalar::sin(self)
    }
    fn cos_spec(self) -> F {
        Scalar::cos(self)
    }
    fn tan_spec(self) -> F {
        Scalar::tan(self)
    }
    fn acos_spec(self) -> F {
        Scalar::acos(self)
    }
    fn atan2_spec(self, other: F) -> F {
        Scalar::atan2(self, other)
    }
    fn exp_spec(self) -> F {
        Scalar::exp(self)
    }
    fn ln_spec(self) -> F {
        Scalar::ln(self)
    }
    fn lt_spec(self, rhs: F) -> bool {
        Scalar::lt(self, rhs)
    }
    fn le_spec(self, rhs: F) -> bool {
        Scalar::le(self, rhs)
    }
    fn eq_spec(self, rhs: F) -> bool {
        Scalar::eq(self, rhs)
    }
    fn is_finite_spec(self) -> bool {
        Scalar::is_finite(self)
    }
    fn min_spec(self, rhs: F) -> F {
        Scalar::min(self, rhs)
    }
    fn max_spec(self, rhs: F) -> F {
        Scalar::max(self, rhs)
    }
    fn powi_spec(self, n: i32) -> F {
        Scalar::powi(self, n)
    }
    fn powf_spec(self, p: F) -> F {
        Scalar::powf(self, p)
    }
    fn floor_spec(self) -> F {
        Scalar::floor(self)
    }
    fn infinity_spec() -> F {
        <F as Scalar>::infinity()
    }
    fn pi_spec() -> F {
        <F as Scalar>::pi()
    }
    fn e_spec() -> F {
        <F as Scalar>::e()
    }
}

fn v(xs: &[f64]) -> DVector<F> {
    DVector::from_vec(xs.iter().map(|&x| F(x)).collect())
}

/// f(x, y) = (x - 3)^2 + (y - 2)^2, minimum 0 at (3, 2).
fn bowl_cost(p: &DVector<F>) -> F {
    F((p[0].0 - 3.0).powi(2) + (p[1].0 - 2.0).powi(2))
}

fn bowl_grad(p: &DVector<F>) -> DVector<F> {
    v(&[2.0 * (p[0].0 - 3.0), 2.0 * (p[1].0 - 2.0)])
}

fn bowl_hess(_: &DVector<F>) -> DMatrix<F> {
    DMatrix::from_diagonal(&v(&[2.0, 2.0]))
}

/// f(x, y) = (x - 3)^2 + 50 (y - 2)^2: same minimum, condition number 50.
fn valley_cost(p: &DVector<F>) -> F {
    F((p[0].0 - 3.0).powi(2) + 50.0 * (p[1].0 - 2.0).powi(2))
}

fn valley_grad(p: &DVector<F>) -> DVector<F> {
    v(&[2.0 * (p[0].0 - 3.0), 100.0 * (p[1].0 - 2.0)])
}

fn assert_close(actual: &DVector<F>, expected: &[f64], tol: f64) {
    assert_eq!(actual.len(), expected.len());
    for (i, want) in expected.iter().enumerate() {
        assert!((actual[i].0 - want).abs() < tol, "component {i}: {} is not within {tol} of {want}", actual[i].0);
    }
}

#[test]
fn gradient_descent_minimizes_scalar_square() {
    let best = minimize_gradient_descent(
        |p: &DVector<F>| F(p[0].0 * p[0].0),
        |p: &DVector<F>| v(&[2.0 * p[0].0]),
        v(&[7.5]),
        50,
    )
    .unwrap();
    assert_close(&best, &[0.0], 1e-8);
}

#[test]
fn gradient_descent_minimizes_bowl() {
    let best = minimize_gradient_descent(bowl_cost, bowl_grad, DVector::zeros(2), 100).unwrap();
    assert_close(&best, &[3.0, 2.0], 1e-6);
    assert!(bowl_cost(&best).0 < 1e-12);
}

#[test]
fn gradient_descent_reports_convergence_and_cost() {
    let solution = minimize_gradient_descent_with(bowl_cost, bowl_grad, v(&[-4.0, 9.0]), &Options::new(200)).unwrap();
    assert!(solution.converged, "termination: {}", solution.termination);
    assert!(solution.iters <= 200);
    assert!(!solution.termination.is_empty());
    assert!(solution.cost.0 < 1e-12, "cost was {}", solution.cost.0);
    assert!((solution.cost.0 - bowl_cost(&solution.param).0).abs() < 1e-15);
}

#[test]
fn gradient_descent_survives_starting_at_the_optimum() {
    let solution = minimize_gradient_descent_with(bowl_cost, bowl_grad, v(&[3.0, 2.0]), &Options::new(25)).unwrap();
    assert!(solution.converged);
    assert!(solution.iters <= 1);
    assert_close(&solution.param, &[3.0, 2.0], 1e-15);
}

#[test]
fn conjugate_gradient_handles_ill_conditioned_valley() {
    let solution =
        minimize_conjugate_gradient_with(valley_cost, valley_grad, DVector::zeros(2), &Options::new(200)).unwrap();
    assert_close(&solution.param, &[3.0, 2.0], 1e-5);
    assert!(solution.cost.0 < 1e-9, "cost was {}", solution.cost.0);
}

#[test]
fn conjugate_gradient_minimizes_rosenbrock() {
    let cost = |p: &DVector<F>| F((1.0 - p[0].0).powi(2) + 100.0 * (p[1].0 - p[0].0 * p[0].0).powi(2));
    let grad = |p: &DVector<F>| {
        let (x, y) = (p[0].0, p[1].0);
        v(&[-2.0 * (1.0 - x) - 400.0 * x * (y - x * x), 200.0 * (y - x * x)])
    };
    let best = minimize_conjugate_gradient(cost, grad, v(&[-1.2, 1.0]), 5000).unwrap();
    assert_close(&best, &[1.0, 1.0], 1e-3);
}

#[test]
fn newton_solves_quadratic_in_one_step() {
    let solution =
        minimize_newton_with(bowl_cost, bowl_grad, bowl_hess, v(&[-10.0, 40.0]), &Options::new(25)).unwrap();
    assert_close(&solution.param, &[3.0, 2.0], 1e-12);
    assert!(solution.converged);
    assert!(solution.iters <= 2, "took {} iterations", solution.iters);
    assert!(solution.cost.0 < 1e-24);
}

#[test]
fn newton_minimizes_non_quadratic() {
    let best = minimize_newton(
        |p: &DVector<F>| F(p[0].0.exp() - p[0].0),
        |p: &DVector<F>| v(&[p[0].0.exp() - 1.0]),
        |p: &DVector<F>| DMatrix::from_vec(1, 1, vec![F(p[0].0.exp())]),
        v(&[1.5]),
        50,
    )
    .unwrap();
    assert_close(&best, &[0.0], 1e-7);
}

#[test]
fn solvers_agree_on_the_same_problem() {
    let init = v(&[-2.0, 6.5]);
    let gd = minimize_gradient_descent(bowl_cost, bowl_grad, init.clone(), 100).unwrap();
    let cg = minimize_conjugate_gradient(bowl_cost, bowl_grad, init.clone(), 100).unwrap();
    let newton = minimize_newton(bowl_cost, bowl_grad, bowl_hess, init, 100).unwrap();
    assert_close(&gd, &[3.0, 2.0], 1e-6);
    assert_close(&cg, &[3.0, 2.0], 1e-6);
    assert_close(&newton, &[3.0, 2.0], 1e-12);
}

#[test]
fn max_iters_caps_the_run() {
    let solution =
        minimize_gradient_descent_with(valley_cost, valley_grad, v(&[-50.0, -50.0]), &Options::new(1)).unwrap();
    assert_eq!(solution.iters, 1);
    assert!(!solution.converged);
    assert!(solution.cost.0 > 0.0);
}

#[test]
fn zero_iterations_returns_the_initial_point() {
    let init = v(&[1.0, -1.0]);
    let solution = minimize_gradient_descent_with(bowl_cost, bowl_grad, init.clone(), &Options::new(0)).unwrap();
    assert_eq!(solution.param, init);
    assert_eq!(solution.iters, 0);
    assert!((solution.cost.0 - bowl_cost(&init).0).abs() < 1e-15);
}

#[test]
fn empty_initial_point_is_rejected() {
    let err = minimize_gradient_descent(bowl_cost, bowl_grad, DVector::zeros(0), 10).unwrap_err();
    assert!(err.contains("empty"), "unexpected message: {err}");
}

#[test]
fn non_finite_initial_point_is_rejected() {
    let err = minimize_gradient_descent(bowl_cost, bowl_grad, v(&[f64::NAN, 0.0]), 10).unwrap_err();
    assert!(err.contains("finite"), "unexpected message: {err}");
}

#[test]
fn negative_gradient_tolerance_is_rejected() {
    let options = Options::new(10).with_gradient_tolerance(F(-1.0));
    let err = minimize_gradient_descent_with(bowl_cost, bowl_grad, DVector::zeros(2), &options).unwrap_err();
    assert!(err.contains("tolerance"), "unexpected message: {err}");
}

#[test]
fn singular_hessian_is_reported_as_an_error() {
    let err = minimize_newton(bowl_cost, bowl_grad, |_: &DVector<F>| DMatrix::zeros(2, 2), DVector::zeros(2), 10)
        .unwrap_err();
    assert!(!err.is_empty());
    assert_eq!(err, "singular Hessian (Newton step undefined)");
}

#[test]
fn tagged_vectors_round_trip() {
    let tagged: TaggedVec<(), F> = point_to_tagged(v(&[3.0, 4.0]));
    let raw = point_from_tagged(&tagged);
    let best = minimize_gradient_descent(bowl_cost, bowl_grad, raw, 100).unwrap();
    let back: TaggedVec<(), F> = point_to_tagged(best);
    assert_close(back.raw(), &[3.0, 2.0], 1e-6);
}

#[test]
fn options_defaults_are_sane() {
    let options = Options::<F>::default();
    assert_eq!(options.max_iters, DEFAULT_MAX_ITERS);
    assert_eq!(options.gradient_tolerance.0, 1e-9);
    assert_eq!(Options::new(DEFAULT_MAX_ITERS), options);
}

#[test]
fn non_finite_initial_gradient_is_rejected() {
    let err = minimize_gradient_descent(bowl_cost, |_: &DVector<F>| v(&[f64::INFINITY, 0.0]), v(&[0.0, 0.0]), 10)
        .unwrap_err();
    assert_eq!(err, "initial gradient is non-finite");
}
