use tpt_math::linalg_dense::{DMatrix, DVector};
use tpt_math::optimize_convex::{solve_qp, solve_qp_internal, ConvexError, QpStatus, QuadraticProgram};
use tpt_math::scalar::Scalar;

/// An `f64` as a library scalar.
#[derive(Clone, Copy, Debug, PartialEq)]
struct F(f64);

impl Scalar for F {
    fn zero() -> F {
        F(0.0)
    }
    fn one() -> F {
        F(1.0)
    }
    fn from_int(n: i64) -> F {
        F(n as f64)
    }
    fn from_u64(n: u64) -> F {
        F(n as f64)
    }
    fn plus(self, rhs: F) -> F {
        F(self.0 + rhs.0)
    }
    fn minus(self, rhs: F) -> F {
        F(self.0 - rhs.0)
    }
    fn times(self, rhs: F) -> F {
        F(self.0 * rhs.0)
    }
    fn divide(self, rhs: F) -> F {
        F(self.0 / rhs.0)
    }
    fn negate(self) -> F {
        F(-self.0)
    }
    fn abs(self) -> F {
        F(self.0.abs())
    }
    fn sqrt(self) -> F {
        F(self.0.sqrt())
    }
    fn sin(self) -> F {
        F(self.0.sin())
    }
    fn cos(self) -> F {
        F(self.0.cos())
    }
    fn tan(self) -> F {
        F(self.0.tan())
    }
    fn acos(self) -> F {
        F(self.0.acos())
    }
    fn atan2(self, other: F) -> F {
        F(self.0.atan2(other.0))
    }
    fn exp(self) -> F {
        F(self.0.exp())
    }
    fn ln(self) -> F {
        F(self.0.ln())
    }
    fn lt(self, rhs: F) -> bool {
        self.0 < rhs.0
    }
    fn le(self, rhs: F) -> bool {
        self.0 <= rhs.0
    }
    fn eq(self, rhs: F) -> bool {
        self.0 == rhs.0
    }
    fn is_finite(self) -> bool {
        self.0.is_finite()
    }
    fn min(self, rhs: F) -> F {
        F(self.0.min(rhs.0))
    }
    fn max(self, rhs: F) -> F {
        F(self.0.max(rhs.0))
    }
    fn powi(self, n: i32) -> F {
        F(self.0.powi(n))
    }
    fn powf(self, p: F) -> F {
        F(self.0.powf(p.0))
    }
    fn floor(self) -> F {
        F(self.0.floor())
    }
    fn infinity() -> F {
        F(f64::INFINITY)
    }
    fn pi() -> F {
        F(std::f64::consts::PI)
    }
    fn e() -> F {
        F(std::f64::consts::E)
    }
    // The specification functions mirror the operations above.
    fn zero_spec() -> F {
        F::zero()
    }
    fn one_spec() -> F {
        F::one()
    }
    fn from_int_spec(n: i64) -> F {
        F::from_int(n)
    }
    fn from_u64_spec(n: u64) -> F {
        F::from_u64(n)
    }
    fn plus_spec(self, rhs: F) -> F {
        self.plus(rhs)
    }
    fn minus_spec(self, rhs: F) -> F {
        self.minus(rhs)
    }
    fn times_spec(self, rhs: F) -> F {
        self.times(rhs)
    }
    fn divide_spec(self, rhs: F) -> F {
        self.divide(rhs)
    }
    fn negate_spec(self) -> F {
        self.negate()
    }
    fn abs_spec(self) -> F {
        Scalar::abs(self)
    }
    fn sqrt_spec(self) -> F {
        Scalar::sqrt(self)
    }
    fn sin_spec(self) -> F {
        Scalar::sin(self)
    }
    fn cos_spec(self) -> F {
        Scalar::cos(self)
    }
    fn tan_spec(self) -> F {
        Scalar::tan(self)
    }
    fn acos_spec(self) -> F {
        Scalar::acos(self)
    }
    fn atan2_spec(self, other: F) -> F {
        Scalar::atan2(self, other)
    }
    fn exp_spec(self) -> F {
        Scalar::exp(self)
    }
    fn ln_spec(self) -> F {
        Scalar::ln(self)
    }
    fn lt_spec(self, rhs: F) -> bool {
        Scalar::lt(self, rhs)
    }
    fn le_spec(self, rhs: F) -> bool {
        Scalar::le(self, rhs)
    }
    fn eq_spec(self, rhs: F) -> bool {
        Scalar::eq(self, rhs)
    }
    fn is_finite_spec(self) -> bool {
        Scalar::is_finite(self)
    }
    fn min_spec(self, rhs: F) -> F {
        Scalar::min(self, rhs)
    }
    fn max_spec(self, rhs: F) -> F {
        Scalar::max(self, rhs)
    }
    fn powi_spec(self, n: i32) -> F {
        Scalar::powi(self, n)
    }
    fn powf_spec(self, p: F) -> F {
        Scalar::powf(self, p)
    }
    fn floor_spec(self) -> F {
        Scalar::floor(self)
    }
    fn infinity_spec() -> F {
        <F as Scalar>::infinity()
    }
    fn pi_spec() -> F {
        <F as Scalar>::pi()
    }
    fn e_spec() -> F {
        <F as Scalar>::e()
    }
}

fn dv(xs: &[f64]) -> DVector<F> {
    DVector::from_vec(xs.iter().map(|&x| F(x)).collect())
}

fn dm(rows: usize, cols: usize, xs: &[f64]) -> DMatrix<F> {
    let data: Vec<F> = xs.iter().map(|&x| F(x)).collect();
    DMatrix::from_row_slice(rows, cols, &data)
}

fn b(l: f64, u: f64) -> (F, F) {
    (F(l), F(u))
}

#[test]
fn test_minimize_x2_eq_1() {
    // minimize x^2  s.t. x >= 1  ->  x = 1
    let p = dm(1, 1, &[2.0]);
    let q = dv(&[0.0]);
    let a_eq = dm(0, 1, &[]);
    let b_eq = dv(&[]);
    let x = solve_qp(&p, &q, &a_eq, &b_eq, &[b(1.0, f64::INFINITY)]).unwrap();
    assert!((x[0].0 - 1.0).abs() < 1e-6, "got x = {}", x[0].0);
}

#[test]
fn test_minimize_x2_y2_eq_sum() {
    // minimize x^2 + y^2  s.t. x + y = 1  ->  (0.5, 0.5)
    let p = dm(2, 2, &[2.0, 0.0, 0.0, 2.0]);
    let q = dv(&[0.0, 0.0]);
    let a_eq = dm(1, 2, &[1.0, 1.0]);
    let b_eq = dv(&[1.0]);
    let x = solve_qp(&p, &q, &a_eq, &b_eq, &[]).unwrap();
    assert!((x[0].0 - 0.5).abs() < 1e-6 && (x[1].0 - 0.5).abs() < 1e-6, "got x = {:?}", x);
}

#[test]
fn test_minimize_with_inequality() {
    // minimize x^2 + y^2  s.t. x >= 1  ->  x = 1, y = 0
    let p = dm(2, 2, &[2.0, 0.0, 0.0, 2.0]);
    let q = dv(&[0.0, 0.0]);
    let a_eq = dm(0, 2, &[]);
    let b_eq = dv(&[]);
    let x = solve_qp(&p, &q, &a_eq, &b_eq, &[b(1.0, f64::INFINITY), b(0.0, f64::INFINITY)]).unwrap();
    assert!((x[0].0 - 1.0).abs() < 1e-4 && (x[1].0 - 0.0).abs() < 1e-4, "got x = {:?}", x);
}

#[test]
fn test_builder_twoside_bounds() {
    // minimize x^2  s.t. 2 <= x <= 3  ->  x = 2
    let qp = QuadraticProgram::new(dv(&[0.0])).objective(dm(1, 1, &[2.0])).bounds(&[b(2.0, 3.0)]);
    let sol = qp.solve().unwrap();
    assert!((sol.x[0].0 - 2.0).abs() < 1e-6, "got x = {}", sol.x[0].0);
}

#[test]
fn test_inequality_constraints() {
    // minimize x^2 + y^2  s.t. x + y <= 1: the unconstrained minimum (0, 0) is feasible.
    let p = dm(2, 2, &[2.0, 0.0, 0.0, 2.0]);
    let q = dv(&[0.0, 0.0]);
    let a_ineq = dm(1, 2, &[1.0, 1.0]);
    let b_ineq = dv(&[1.0]);
    let sol = solve_qp_internal(&p, &q, &dm(0, 2, &[]), &dv(&[]), &a_ineq, &b_ineq, &[]).unwrap();
    assert!(sol.x[0].0.abs() < 1e-6 && sol.x[1].0.abs() < 1e-6, "got x = {:?}", sol.x);
}

#[test]
fn test_dimension_error() {
    let p = dm(2, 2, &[2.0, 0.0, 0.0, 2.0]);
    let q = dv(&[0.0]); // wrong length
    let a_eq = dm(1, 2, &[1.0, 1.0]);
    let b_eq = dv(&[1.0]);
    let err = solve_qp(&p, &q, &a_eq, &b_eq, &[]).unwrap_err();
    assert!(matches!(err, ConvexError::DimensionMismatch { .. }));
}

#[test]
fn test_nonfinite_error() {
    let p = dm(2, 2, &[2.0, 0.0, 0.0, 2.0]);
    let q = dv(&[f64::NAN, 0.0]);
    let a_eq = dm(1, 2, &[1.0, 1.0]);
    let b_eq = dv(&[1.0]);
    let err = solve_qp(&p, &q, &a_eq, &b_eq, &[]).unwrap_err();
    assert!(matches!(err, ConvexError::NotFinite { .. }));
}

#[test]
fn test_infeasible_qp() {
    // x >= 2 and x <= 1: empty feasible set.
    let p = dm(1, 1, &[2.0]);
    let q = dv(&[0.0]);
    let a_eq = dm(0, 1, &[]);
    let b_eq = dv(&[]);
    let x = solve_qp(&p, &q, &a_eq, &b_eq, &[b(2.0, 1.0)]);
    assert!(x.is_err(), "expected infeasible error, got {:?}", x);
}

#[test]
fn test_unbounded_qp() {
    // minimize -x  s.t. x >= 1: unbounded below as x grows.
    let p = dm(1, 1, &[0.0]);
    let q = dv(&[-1.0]);
    let a_eq = dm(0, 1, &[]);
    let b_eq = dv(&[]);
    let x = solve_qp(&p, &q, &a_eq, &b_eq, &[b(1.0, f64::INFINITY)]);
    assert!(x.is_err(), "expected unbounded error, got {:?}", x);
}

#[test]
fn test_random_qp_kkt_conditions() {
    // Random PSD P, random q, box bounds; check the KKT conditions at the optimum.
    let n = 5;
    let mut rng_state: u64 = 0x1234_5678_9abc_def0;
    let mut rng = || {
        rng_state ^= rng_state >> 12;
        rng_state ^= rng_state << 25;
        rng_state ^= rng_state >> 27;
        ((rng_state.wrapping_mul(0x2545_f491_4f6c_dd1d)) >> 11) as f64 / (1u64 << 53) as f64
    };
    let mut m = vec![vec![0.0_f64; n]; n];
    for i in 0..n {
        for k in 0..n {
            m[i][k] = rng() * 2.0 - 1.0;
        }
    }
    let mut p = vec![vec![0.0_f64; n]; n];
    for i in 0..n {
        for j in 0..n {
            let mut v = if i == j { 1.0 } else { 0.0 };
            for k in 0..n {
                v += m[k][i] * m[k][j];
            }
            p[i][j] = v;
        }
    }
    let q: Vec<f64> = (0..n).map(|_| rng() * 2.0 - 1.0).collect();
    let p_mat = dm(n, n, &p.iter().flatten().copied().collect::<Vec<_>>());
    let q_vec = dv(&q);
    let bounds: Vec<(F, F)> = (0..n).map(|_| b(-5.0, 5.0)).collect();
    let sol = solve_qp(&p_mat, &q_vec, &dm(0, n, &[]), &dv(&[]), &bounds).unwrap();
    let x: Vec<f64> = sol.iter().iter().map(|v| v.0).collect();
    for i in 0..n {
        let mut grad = q[i];
        for k in 0..n {
            grad += p[i][k] * x[k];
        }
        let inside = x[i] > -5.0 + 1e-6 && x[i] < 5.0 - 1e-6;
        if inside {
            assert!(grad.abs() < 1e-4, "variable {i} interior but gradient = {grad} (x = {})", x[i]);
        } else {
            let at_lower = (x[i] + 5.0_f64).abs() < 1e-4;
            let at_upper = (5.0_f64 - x[i]).abs() < 1e-4;
            if at_lower {
                assert!(grad > -1e-4, "at lower bound but gradient = {grad}");
            }
            if at_upper {
                assert!(grad < 1e-4, "at upper bound but gradient = {grad}");
            }
        }
    }
    for &xi in &x {
        assert!((-5.0 - 1e-6..=5.0 + 1e-6).contains(&xi), "infeasible x = {xi}");
    }
}

// -------------------------------------------------------------------
// Messages, objective and status.
// -------------------------------------------------------------------
#[test]
fn dimension_errors_name_the_conflict() {
    let p = dm(2, 2, &[2.0, 0.0, 0.0, 2.0]);
    let q = dv(&[0.0, 0.0]);
    let none = dm(0, 2, &[]);
    let empty = dv(&[]);
    let what = |r: Result<DVector<F>, ConvexError>| match r {
        Err(ConvexError::DimensionMismatch { what }) => what,
        other => panic!("expected a dimension error, got {:?}", other),
    };
    assert_eq!(what(solve_qp(&p, &dv(&[0.0]), &none, &empty, &[])), "P is 2x2, expected 1x1");
    assert_eq!(what(solve_qp(&p, &q, &dm(1, 3, &[1.0, 1.0, 1.0]), &dv(&[1.0]), &[])), "A_eq has 3 columns, expected 2");
    assert_eq!(what(solve_qp(&p, &q, &dm(1, 2, &[1.0, 1.0]), &empty, &[])), "A_eq has 1 rows but b_eq has 0 entries");
    assert_eq!(what(solve_qp(&p, &q, &none, &empty, &[b(0.0, 1.0)])), "bounds has 1 entries, expected 2 or empty");
    let r = solve_qp_internal(&p, &q, &none, &empty, &dm(1, 1, &[1.0]), &dv(&[1.0]), &[]);
    match r {
        Err(ConvexError::DimensionMismatch { what }) => assert_eq!(what, "A_ineq has 1 columns, expected 2"),
        _ => panic!("expected a dimension error"),
    }
    let r = solve_qp_internal(&p, &q, &none, &empty, &dm(1, 2, &[1.0, 1.0]), &empty, &[]);
    match r {
        Err(ConvexError::DimensionMismatch { what }) => assert_eq!(what, "A_ineq has 1 rows but b_ineq has 0 entries"),
        _ => panic!("expected a dimension error"),
    }
}

#[test]
fn nonfinite_errors_name_the_input() {
    let p = dm(1, 1, &[2.0]);
    let q = dv(&[0.0]);
    let none = dm(0, 1, &[]);
    let empty = dv(&[]);
    let name = |r: Result<DVector<F>, ConvexError>| match r {
        Err(ConvexError::NotFinite { what }) => what,
        other => panic!("expected a non-finite error, got {:?}", other),
    };
    assert_eq!(name(solve_qp(&dm(1, 1, &[f64::INFINITY]), &q, &none, &empty, &[])), "P");
    assert_eq!(name(solve_qp(&p, &dv(&[f64::NAN]), &none, &empty, &[])), "q");
    assert_eq!(name(solve_qp(&p, &q, &dm(1, 1, &[f64::NAN]), &dv(&[1.0]), &[])), "A_eq");
    assert_eq!(name(solve_qp(&p, &q, &dm(1, 1, &[1.0]), &dv(&[f64::NAN]), &[])), "b_eq");
}

#[test]
fn solution_carries_objective_and_status() {
    // minimize x^2 + y^2 - 2x  s.t. x + y = 1: optimum (1, 0), objective -1.
    let sol = QuadraticProgram::new(dv(&[-2.0, 0.0]))
        .objective(dm(2, 2, &[2.0, 0.0, 0.0, 2.0]))
        .equality(dm(1, 2, &[1.0, 1.0]), dv(&[1.0]))
        .solve()
        .unwrap();
    assert!((sol.x[0].0 - 1.0).abs() < 1e-6 && sol.x[1].0.abs() < 1e-6, "got {:?}", sol.x);
    assert!((sol.objective.0 + 1.0).abs() < 1e-6);
    assert!(matches!(sol.status, QpStatus::Solved | QpStatus::AlmostSolved));
    // The linear cost can be replaced, and an asymmetric P is symmetrized.
    let sol = QuadraticProgram::new(dv(&[0.0, 0.0]))
        .objective(dm(2, 2, &[2.0, 2.0, -2.0, 2.0]))
        .linear_cost(dv(&[-2.0, -4.0]))
        .solve()
        .unwrap();
    assert!((sol.x[0].0 - 1.0).abs() < 1e-6 && (sol.x[1].0 - 2.0).abs() < 1e-6, "got {:?}", sol.x);
    assert!((sol.objective.0 + 5.0).abs() < 1e-6);
}

#[test]
fn builder_inequality_rows_bind() {
    // minimize (x - 3)^2 = x^2 - 6x + 9  s.t. 2x <= 2: optimum x = 1.
    let sol = QuadraticProgram::new(dv(&[-6.0]))
        .objective(dm(1, 1, &[2.0]))
        .inequality(dm(1, 1, &[2.0]), dv(&[2.0]))
        .solve()
        .unwrap();
    assert!((sol.x[0].0 - 1.0).abs() < 1e-5, "got {:?}", sol.x);
}

#[test]
fn failures_carry_their_messages() {
    let p = dm(1, 1, &[0.0]);
    let none = dm(0, 1, &[]);
    let empty = dv(&[]);
    // An unbounded objective ends in a solver failure.
    assert!(matches!(
        solve_qp(&p, &dv(&[-1.0]), &none, &empty, &[b(1.0, f64::INFINITY)]),
        Err(ConvexError::Solver { .. })
    ));
    // Two contradictory equalities on one variable: the KKT system is singular.
    match solve_qp(&p, &dv(&[0.0]), &dm(2, 1, &[1.0, 1.0]), &dv(&[0.0, 1.0]), &[]) {
        Err(ConvexError::Solver { status }) => assert_eq!(status, "singular KKT system (infeasible or ill-posed)"),
        other => panic!("expected the singular failure, got {:?}", other),
    }
}
