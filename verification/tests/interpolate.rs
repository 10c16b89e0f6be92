use tpt_math::interpolate::{bspline_basis, BsplineCurve, Kriging, Pchip, RbfInterpolator, RbfKernel, Variogram};
use tpt_math::linalg_dense::{DVector, DenseError};
use tpt_math::scalar::Scalar;

/// An `f64` as a library scalar.
#[derive(Clone, Copy, Debug, PartialEq)]
struct F(f64);

impl Scalar for F {
    fn zero() -> F {
        F(0.0)
    }
    fn one() -> F {
        F(1.0)
    }
    fn from_int(n: i64) -> F {
        F(n as f64)
    }
    fn from_u64(n: u64) -> F {
        F(n as f64)
    }
    fn plus(self, rhs: F) -> F {
        F(self.0 + rhs.0)
    }
    fn minus(self, rhs: F) -> F {
        F(self.0 - rhs.0)
    }
    fn times(self, rhs: F) -> F {
        F(self.0 * rhs.0)
    }
    fn divide(self, rhs: F) -> F {
        F(self.0 / rhs.0)
    }
    fn negate(self) -> F {
        F(-self.0)
    }
    fn abs(self) -> F {
        F(self.0.abs())
    }
    fn sqrt(self) -> F {
        F(self.0.sqrt())
    }
    fn sin(self) -> F {
        F(self.0.sin())
    }
    fn cos(self) -> F {
        F(self.0.cos())
    }
    fn tan(self) -> F {
        F(self.0.tan())
    }
    fn acos(self) -> F {
        F(self.0.acos())
    }
    fn atan2(self, other: F) -> F {
        F(self.0.atan2(other.0))
    }
    fn exp(self) -> F {
        F(self.0.exp())
    }
    fn ln(self) -> F {
        F(self.0.ln())
    }
    fn lt(self, rhs: F) -> bool {
        self.0 < rhs.0
    }
    fn le(self, rhs: F) -> bool {
        self.0 <= rhs.0
    }
    fn eq(self, rhs: F) -> bool {
        self.0 == rhs.0
    }
    fn is_finite(self) -> bool {
        self.0.is_finite()
    }
    fn min(self, rhs: F) -> F {
        F(self.0.min(rhs.0))
    }
    fn max(self, rhs: F) -> F {
        F(self.0.max(rhs.0))
    }
    fn powi(self, n: i32) -> F {
        F(self.0.powi(n))
    }
    fn powf(self, p: F) -> F {
        F(self.0.powf(p.0))
    }
    fn floor(self) -> F {
        F(self.0.floor())
    }
    fn infinity() -> F {
        F(f64::INFINITY)
    }
    fn pi() -> F {
        F(std::f64::consts::PI)
    }
    fn e() -> F {
        F(std::f64::consts::E)
    }
    // The specification functions mirror the operations above.
    fn zero_spec() -> F {
        F::zero()
    }
    fn one_spec() -> F {
        F::one()
    }
    fn from_int_spec(n: i64) -> F {
        F::from_int(n)
    }
    fn from_u64_spec(n: u64) -> F {
        F::from_u64(n)
    }
    fn plus_spec(self, rhs: F) -> F {
        self.plus(rhs)
    }
    fn minus_spec(self, rhs: F) -> F {
        self.minus(rhs)
    }
    fn times_spec(self, rhs: F) -> F {
        self.times(rhs)
    }
    fn divide_spec(self, rhs: F) -> F {
        self.divide(rhs)
    }
    fn negate_spec(self) -> F {
        self.negate()
    }
    fn abs_spec(self) -> F {
        Scalar::abs(self)
    }
    fn sqrt_spec(self) -> F {
        Scalar::sqrt(self)
    }
    fn sin_spec(self) -> F {
        Scalar::sin(self)
    }
    fn cos_spec(self) -> F {
        Scalar::cos(self)
    }
    fn tan_spec(self) -> F {
        Scalar::tan(self)
    }
    fn acos_spec(self) -> F {
        Scalar::acos(self)
    }
    fn atan2_spec(self, other: F) -> F {
        Scalar::atan2(self, other)
    }
    fn exp_spec(self) -> F {
        Scalar::exp(self)
    }
    fn ln_spec(self) -> F {
        Scalar::ln(self)
    }
    fn lt_spec(self, rhs: F) -> bool {
        Scalar::lt(self, rhs)
    }
    fn le_spec(self, rhs: F) -> bool {
        Scalar::le(self, rhs)
    }
    fn eq_spec(self, rhs: F) -> bool {
        Scalar::eq(self, rhs)
    }
    fn is_finite_spec(self) -> bool {
        Scalar::is_finite(self)
    }
    fn min_spec(self, rhs: F) -> F {
        Scalar::min(self, rhs)
    }
    fn max_spec(self, rhs: F) -> F {
        Scalar::max(self, rhs)
    }
    fn powi_spec(self, n: i32) -> F {
        Scalar::powi(self, n)
    }
    fn powf_spec(self, p: F) -> F {
        Scalar::powf(self, p)
    }
    fn floor_spec(self) -> F {
        Scalar::floor(self)
    }
    fn infinity_spec() -> F {
        <F as Scalar>::infinity()
    }
    fn pi_spec() -> F {
        <F as Scalar>::pi()
    }
    fn e_spec() -> F {
        <F as Scalar>::e()
    }
}

fn fv(xs: &[f64]) -> DVector<F> {
    DVector::from_vec(xs.iter().map(|&x| F(x)).collect())
}

fn close(a: f64, b: f64, eps: f64) -> bool {
    (a - b).abs() <= eps || (a - b).abs() <= eps * a.abs().max(b.abs())
}

// -------------------------------------------------------------------
// RBF: exact at the sample nodes.
// -------------------------------------------------------------------
#[test]
fn rbf_exact_at_nodes() {
    let xs = fv(&[-1.0, 0.0, 1.0]);
    let ys = fv(&[1.0, 3.0, 2.0]);
    let rbf = RbfInterpolator::new(xs, ys, RbfKernel::Gaussian { epsilon: F(1.5) }).unwrap();
    assert!(close(rbf.eval(F(0.0)).0, 3.0, 1e-6));
    assert!(close(rbf.eval(F(1.0)).0, 2.0, 1e-6));
}

#[test]
fn rbf_thinplate_recovers_sin() {
    let raw = [-0.8_f64, -0.3, 0.2, 0.7];
    let xs = fv(&raw);
    let ys = DVector::from_vec(raw.iter().map(|&x| F((std::f64::consts::PI * x).sin())).collect());
    let rbf = RbfInterpolator::new(xs, ys, RbfKernel::ThinPlate { epsilon: F(1.0) }).unwrap();
    assert!(close(rbf.eval(F(0.2)).0, (std::f64::consts::PI * 0.2).sin(), 1e-6));
    let val = rbf.eval(F(0.0)).0;
    let truth = (0.0_f64).sin();
    assert!((val - truth).abs() < 0.2, "val={val}, truth={truth}");
}

// -------------------------------------------------------------------
// Kriging: recovers a linear trend exactly (Linear variogram, nugget 0).
// -------------------------------------------------------------------
#[test]
fn kriging_recovers_line() {
    let xs = fv(&[-1.0, 1.0]);
    let ys = fv(&[-1.0, 1.0]);
    let krig = Kriging::new(xs, ys, Variogram::Linear { slope: F(1.0), nugget: F(0.0) }).unwrap();
    for &x in &[-1.0_f64, -0.5, 0.0, 0.5, 1.0] {
        let (mean, _var) = krig.predict(F(x)).unwrap();
        assert!(close(mean.0, x, 1e-9));
    }
}

#[test]
fn kriging_exact_at_nodes() {
    let xs = fv(&[0.0, 1.0, 2.0, 3.0]);
    let yraw = [0.5_f64, 2.0, 1.0, 4.0];
    let ys = fv(&yraw);
    let v = Variogram::Spherical { sill: F(1.0), range: F(5.0), nugget: F(0.0) };
    let krig = Kriging::new(xs, ys.clone(), v).unwrap();
    for i in 0..4 {
        let (mean, _) = krig.predict(F(i as f64)).unwrap();
        assert!(close(mean.0, yraw[i], 1e-6));
    }
}

// -------------------------------------------------------------------
// PCHIP: monotonicity preservation.
// -------------------------------------------------------------------
#[test]
fn pchip_preserves_monotonicity() {
    let x = fv(&[0.0, 1.0, 2.0, 3.0]);
    let y = fv(&[0.0, 1.0, 8.0, 27.0]);
    let pchip = Pchip::new(x, y).unwrap();
    let mut prev = pchip.eval(F(0.0)).0;
    for k in 1..=100 {
        let xv = (k as f64) / 100.0 * 3.0;
        let cur = pchip.eval(F(xv)).0;
        assert!(cur >= prev - 1e-12, "non-monotone at x={xv}");
        prev = cur;
    }
}

#[test]
fn pchip_matches_nodes() {
    let x = fv(&[0.0, 1.0, 2.0, 3.0]);
    let yraw = [0.0_f64, 1.0, 8.0, 27.0];
    let pchip = Pchip::new(x, fv(&yraw)).unwrap();
    for i in 0..4 {
        assert!(close(pchip.eval(F(i as f64)).0, yraw[i], 1e-9));
    }
}

// -------------------------------------------------------------------
// B-spline: partition of unity.
// -------------------------------------------------------------------
#[test]
fn bspline_partition_of_unity() {
    let knots: Vec<F> = (0..9).map(|k| F(k as f64)).collect();
    let p = 2;
    let n = knots.len() - p - 1;
    for k in 3..6 {
        for m in 1..=9 {
            let x = k as f64 + m as f64 / 10.0;
            let mut sum = 0.0_f64;
            for i in 0..n {
                sum += bspline_basis(p, &knots, i, F(x)).0;
            }
            assert!(close(sum, 1.0, 1e-9));
        }
    }
}

#[test]
fn bspline_curve_uniform_weights_is_partition() {
    let knots: Vec<F> = (0..9).map(|k| F(k as f64)).collect();
    let p = 2;
    let n = knots.len() - p - 1;
    let weights: Vec<F> = vec![F(1.0); n];
    let curve = BsplineCurve::new(p, &knots, &weights);
    for k in 3..6 {
        let x = k as f64 + 0.5;
        assert!(close(curve.eval(F(x)).0, 1.0, 1e-9));
    }
}

// -------------------------------------------------------------------
// Errors, exact values and edge cases.
// -------------------------------------------------------------------
#[test]
fn pchip_rejects_length_mismatch() {
    let r = Pchip::new(fv(&[0.0, 1.0, 2.0]), fv(&[0.0, 1.0]));
    match r {
        Err(DenseError::DimensionMismatch { what }) => assert_eq!(what, "x has length 3, y has length 2"),
        _ => panic!("expected a dimension error"),
    }
}

#[test]
fn pchip_rejects_single_node() {
    let r = Pchip::new(fv(&[0.0]), fv(&[1.0]));
    match r {
        Err(DenseError::DimensionMismatch { what }) => assert_eq!(what, "need at least 2 nodes, got 1"),
        _ => panic!("expected a dimension error"),
    }
}

#[test]
fn pchip_rejects_non_increasing_abscissae() {
    let r = Pchip::new(fv(&[0.0, 1.0, 1.0, 2.0]), fv(&[0.0, 1.0, 2.0, 3.0]));
    match r {
        Err(DenseError::DimensionMismatch { what }) => {
            assert_eq!(what, "abscissae must be strictly increasing at index 1")
        }
        _ => panic!("expected a dimension error"),
    }
}

#[test]
fn pchip_reproduces_a_line_and_flat_data() {
    // Straight-line data: every derivative is the common slope, so the cubic is the line.
    let p = Pchip::new(fv(&[0.0, 1.0, 2.0, 4.0]), fv(&[1.0, 3.0, 5.0, 9.0])).unwrap();
    assert!(close(p.eval(F(0.5)).0, 2.0, 1e-12));
    assert!(close(p.eval(F(3.0)).0, 7.0, 1e-12));
    // Flat data: the limiter zeroes the derivatives.
    let q = Pchip::new(fv(&[0.0, 1.0, 2.0]), fv(&[4.0, 4.0, 4.0])).unwrap();
    assert_eq!(q.eval(F(1.5)).0, 4.0);
    // Outside the node range the end cubics are extended.
    assert!(close(p.eval(F(-1.0)).0, -1.0, 1e-12));
}

#[test]
fn pchip_limits_overshooting_derivatives() {
    // A step in the data: the secants on both sides of the middle node differ in sign
    // pattern, so its derivative is zero and the curve stays within the data range.
    let p = Pchip::new(fv(&[0.0, 1.0, 2.0, 3.0]), fv(&[0.0, 0.0, 1.0, 1.0])).unwrap();
    for k in 0..=30 {
        let v = p.eval(F(k as f64 / 10.0)).0;
        assert!((-1e-12..=1.0 + 1e-12).contains(&v), "overshoot {v}");
    }
}

#[test]
fn bspline_degree_zero_and_out_of_range() {
    let knots: Vec<F> = vec![F(0.0), F(1.0), F(2.0)];
    assert_eq!(bspline_basis(0, &knots, 0, F(0.5)).0, 1.0);
    assert_eq!(bspline_basis(0, &knots, 1, F(0.5)).0, 0.0);
    // The last span holds its right end.
    assert_eq!(bspline_basis(0, &knots, 1, F(2.0)).0, 1.0);
    // A basis needing knots past the end is zero.
    assert_eq!(bspline_basis(2, &knots, 0, F(0.5)).0, 0.0);
    assert_eq!(bspline_basis(0, &knots, 7, F(0.5)).0, 0.0);
    // Degree one on uniform knots: the hat function.
    assert!(close(bspline_basis(1, &knots, 0, F(0.25)).0, 0.25, 1e-15));
    assert!(close(bspline_basis(1, &knots, 0, F(1.5)).0, 0.5, 1e-15));
}

#[test]
fn rbf_kernels_have_their_formulas() {
    let tp = RbfKernel::ThinPlate { epsilon: F(1.0) };
    assert_eq!(tp.eval(F(0.0)).0, 0.0);
    assert!(close(tp.eval(F(2.0)).0, 4.0 * 4.0_f64.ln(), 1e-15));
    let g = RbfKernel::Gaussian { epsilon: F(2.0) };
    assert!(close(g.eval(F(0.5)).0, (-1.0_f64).exp(), 1e-15));
    let mq = RbfKernel::Multiquadric { epsilon: F(3.0) };
    assert!(close(mq.eval(F(1.0)).0, 10.0_f64.sqrt(), 1e-15));
}

#[test]
fn rbf_rejects_length_mismatch_and_singular_systems() {
    match RbfInterpolator::new(fv(&[0.0, 1.0]), fv(&[0.0]), RbfKernel::Gaussian { epsilon: F(1.0) }) {
        Err(DenseError::DimensionMismatch { what }) => assert_eq!(what, "xs has length 2, ys has length 1"),
        _ => panic!("expected a dimension error"),
    }
    // Two equal nodes make the kernel matrix singular.
    let r = RbfInterpolator::new(fv(&[1.0, 1.0]), fv(&[0.0, 1.0]), RbfKernel::Gaussian { epsilon: F(1.0) });
    assert!(matches!(r, Err(DenseError::Singular { .. })));
}

#[test]
fn rbf_interpolate_matches_eval() {
    let rbf = RbfInterpolator::new(fv(&[0.0, 1.0, 2.0]), fv(&[0.0, 1.0, 4.0]), RbfKernel::Multiquadric {
        epsilon: F(1.0),
    })
    .unwrap();
    let pts = fv(&[0.0, 0.5, 2.0]);
    let out = rbf.interpolate(&pts);
    assert_eq!(out.len(), 3);
    for i in 0..3 {
        assert_eq!(out[i], rbf.eval(pts[i]));
    }
    assert!(close(out[2].0, 4.0, 1e-9));
}

#[test]
fn variogram_models_have_their_formulas() {
    let s = Variogram::Spherical { sill: F(2.0), range: F(4.0), nugget: F(0.5) };
    // a = 0.5: 0.5 + 2 (0.75 - 0.0625)
    assert!(close(s.gamma(F(2.0)).0, 0.5 + 2.0 * (0.75 - 0.0625), 1e-15));
    assert_eq!(s.gamma(F(4.0)).0, 2.5);
    let e = Variogram::Exponential { sill: F(1.0), range: F(2.0), nugget: F(0.0) };
    assert!(close(e.gamma(F(2.0)).0, 1.0 - (-1.0_f64).exp(), 1e-15));
    let g = Variogram::Gaussian { sill: F(1.0), range: F(1.0), nugget: F(0.1) };
    assert!(close(g.gamma(F(1.0)).0, 0.1 + 1.0 - (-1.0_f64).exp(), 1e-15));
    let l = Variogram::Linear { slope: F(3.0), nugget: F(1.0) };
    assert_eq!(l.gamma(F(2.0)).0, 7.0);
}

#[test]
fn kriging_rejects_length_mismatch_and_reports_variance() {
    match Kriging::new(fv(&[0.0, 1.0]), fv(&[0.0]), Variogram::Linear { slope: F(1.0), nugget: F(0.0) }) {
        Err(DenseError::DimensionMismatch { what }) => assert_eq!(what, "xs has length 2, ys has length 1"),
        _ => panic!("expected a dimension error"),
    }
    let k = Kriging::new(fv(&[-1.0, 1.0]), fv(&[-1.0, 1.0]), Variogram::Linear { slope: F(1.0), nugget: F(0.0) })
        .unwrap();
    // At a node the Kriging variance vanishes.
    let (_, var) = k.predict(F(1.0)).unwrap();
    assert!(var.0.abs() < 1e-12);
    // Midway between the nodes: weights 1/2 each, multiplier 0, variance 0 + 1/2 + 1/2 = 1.
    let (m, var) = k.predict(F(0.0)).unwrap();
    assert!(close(m.0, 0.0, 1e-12));
    assert!(close(var.0, 1.0, 1e-12));
}

#[test]
fn pchip_two_nodes_is_the_line() {
    let p = Pchip::new(fv(&[0.0, 1.0]), fv(&[0.0, 2.0])).unwrap();
    assert_eq!(p.eval(F(0.0)).0, 0.0);
    assert_eq!(p.eval(F(1.0)).0, 2.0);
    assert_eq!(p.eval(F(0.5)).0, 1.0);
    let r = Pchip::new(fv(&[1.0, 1.0]), fv(&[0.0, 2.0]));
    assert!(matches!(r, Err(DenseError::DimensionMismatch { .. })));
}
