use tpt_math::linalg_complex::{Complex, ComplexDMatrix, ComplexDVector, ComplexDenseError};
use tpt_math::linalg_dense::DMatrix;
use tpt_math::scalar::Scalar;

/// An `f64` as a library scalar.
#[derive(Clone, Copy, Debug, PartialEq)]
struct F(f64);

impl Scalar for F {
    fn zero() -> F {
        F(0.0)
    }
    fn one() -> F {
        F(1.0)
    }
    fn from_int(n: i64) -> F {
        F(n as f64)
    }
    fn from_u64(n: u64) -> F {
        F(n as f64)
    }
    fn plus(self, rhs: F) -> F {
        F(self.0 + rhs.0)
    }
    fn minus(self, rhs: F) -> F {
        F(self.0 - rhs.0)
    }
    fn times(self, rhs: F) -> F {
        F(self.0 * rhs.0)
    }
    fn divide(self, rhs: F) -> F {
        F(self.0 / rhs.0)
    }
    fn negate(self) -> F {
        F(-self.0)
    }
    fn abs(self) -> F {
        F(self.0.abs())
    }
    fn sqrt(self) -> F {
        F(self.0.sqrt())
    }
    fn sin(self) -> F {
        F(self.0.sin())
    }
    fn cos(self) -> F {
        F(self.0.cos())
    }
    fn tan(self) -> F {
        F(self.0.tan())
    }
    fn acos(self) -> F {
        F(self.0.acos())
    }
    fn atan2(self, other: F) -> F {
        F(self.0.atan2(other.0))
    }
    fn exp(self) -> F {
        F(self.0.exp())
    }
    fn ln(self) -> F {
        F(self.0.ln())
    }
    fn lt(self, rhs: F) -> bool {
        self.0 < rhs.0
    }
    fn le(self, rhs: F) -> bool {
        self.0 <= rhs.0
    }
    fn eq(self, rhs: F) -> bool {
        self.0 == rhs.0
    }
    fn is_finite(self) -> bool {
        self.0.is_finite()
    }
    fn min(self, rhs: F) -> F {
        F(self.0.min(rhs.0))
    }
    fn max(self, rhs: F) -> F {
        F(self.0.max(rhs.0))
    }
    fn powi(self, n: i32) -> F {
        F(self.0.powi(n))
    }
    fn powf(self, p: F) -> F {
        F(self.0.powf(p.0))
    }
    fn floor(self) -> F {
        F(self.0.floor())
    }
    fn infinity() -> F {
        F(f64::INFINITY)
    }
    fn pi() -> F {
        F(std::f64::consts::PI)
    }
    fn e() -> F {
        F(std::f64::consts::E)
    }
    // The specification functions mirror the operations above.
    fn zero_spec() -> F {
        F::zero()
    }
    fn one_spec() -> F {
        F::one()
    }
    fn from_int_spec(n: i64) -> F {
        F::from_int(n)
    }
    fn from_u64_spec(n: u64) -> F {
        F::from_u64(n)
    }
    fn plus_spec(self, rhs: F) -> F {
        self.plus(rhs)
    }
    fn minus_spec(self, rhs: F) -> F {
        self.minus(rhs)
    }
    fn times_spec(self, rhs: F) -> F {
        self.times(rhs)
    }
    fn divide_spec(self, rhs: F) -> F {
        self.divide(rhs)
    }
    fn negate_spec(self) -> F {
        self.negate()
    }
    fn abs_spec(self) -> F {
        Scalar::abs(self)
    }
    fn sqrt_spec(self) -> F {
        Scalar::sqrt(self)
    }
    fn sin_spec(self) -> F {
        Scalar::sin(self)
    }
    fn cos_spec(self) -> F {
        Scalar::cos(self)
    }
    fn tan_spec(self) -> F {
        Scalar::tan(self)
    }
    fn acos_spec(self) -> F {
        Scalar::acos(self)
    }
    fn atan2_spec(self, other: F) -> F {
        Scalar::atan2(self, other)
    }
    fn exp_spec(self) -> F {
        Scalar::exp(self)
    }
    fn ln_spec(self) -> F {
        Scalar::ln(self)
    }
    fn lt_spec(self, rhs: F) -> bool {
        Scalar::lt(self, rhs)
    }
    fn le_spec(self, rhs: F) -> bool {
        Scalar::le(self, rhs)
    }
    fn eq_spec(self, rhs: F) -> bool {
        Scalar::eq(self, rhs)
    }
    fn is_finite_spec(self) -> bool {
        Scalar::is_finite(self)
    }
    fn min_spec(self, rhs: F) -> F {
        Scalar::min(self, rhs)
    }
    fn max_spec(self, rhs: F) -> F {
        Scalar::max(self, rhs)
    }
    fn powi_spec(self, n: i32) -> F {
        Scalar::powi(self, n)
    }
    fn powf_spec(self, p: F) -> F {
        Scalar::powf(self, p)
    }
    fn floor_spec(self) -> F {
        Scalar::floor(self)
    }
    fn infinity_spec() -> F {
        <F as Scalar>::infinity()
    }
    fn pi_spec() -> F {
        <F as Scalar>::pi()
    }
    fn e_spec() -> F {
        <F as Scalar>::e()
    }
}

type C = Complex<F>;

fn c(re: f64, im: f64) -> C {
    Complex::new(F(re), F(im))
}

fn close(a: F, b: f64, eps: f64) -> bool {
    (a.0 - b).abs() < eps
}

fn creal(nrows: usize, ncols: usize, xs: &[f64]) -> ComplexDMatrix<F> {
    let data: Vec<F> = xs.iter().map(|&x| F(x)).collect();
    ComplexDMatrix::from_real_row_slice(nrows, ncols, &data)
}

#[test]
fn complex_arithmetic() {
    let z = c(1.0, 2.0);
    assert_eq!(z * z, c(-3.0, 4.0));
    assert_eq!(z + c(1.0, 0.0), c(2.0, 2.0));
    assert_eq!(-z, c(-1.0, -2.0));
    assert_eq!(z.conj(), c(1.0, -2.0));
    assert!((z.norm().0 - 5.0_f64.sqrt()).abs() < 1e-12);
    let inv = z.inv().unwrap();
    assert!(close((z * inv).re, 1.0, 1e-12));
    assert!(close((z * inv).im, 0.0, 1e-12));
}

#[test]
fn complex_sqrt() {
    // sqrt(-1) = i
    let r = c(-1.0, 0.0).sqrt();
    assert!(r.re.0.abs() < 1e-12);
    assert!((r.im.0 - 1.0).abs() < 1e-12 || (r.im.0 + 1.0).abs() < 1e-12);
    // sqrt(i) = (1+i)/sqrt(2)
    let r2 = c(0.0, 1.0).sqrt();
    assert!(close(r2.re, 2.0_f64.sqrt() / 2.0, 1e-12));
    assert!(close(r2.im, 2.0_f64.sqrt() / 2.0, 1e-12));
}

#[test]
fn vector_construction_index_norm_dot() {
    let v = ComplexDVector::from_fn(3, |i| c(i as f64, (i + 1) as f64));
    assert_eq!(v.len(), 3);
    assert_eq!(v[0], c(0.0, 1.0));
    let n = v.norm();
    // |0+i|^2 + |1+2i|^2 + |2+3i|^2 = 1 + 5 + 13 = 19.
    assert!((n.0 - 19.0_f64.sqrt()).abs() < 1e-12);
    let d = v.dot(&v);
    assert!(close(d.re, 19.0, 1e-12));
    assert!(close(d.im, 0.0, 1e-12));
}

#[test]
fn matrix_arithmetic_and_mul() {
    let m = creal(2, 2, &[1.0, 2.0, 3.0, 4.0]);
    let z = ComplexDMatrix::zeros(2, 2);
    assert_eq!(m.clone() - m.clone(), z);
    let v = ComplexDVector::from_vec(vec![c(1.0, 0.0), c(1.0, 0.0)]);
    let mv = m.clone() * v;
    assert_eq!(mv[0], c(3.0, 0.0));
    assert_eq!(mv[1], c(7.0, 0.0));
    let t = m.transpose();
    assert_eq!(t[(0, 1)], c(3.0, 0.0));
}

#[test]
fn lu_solve_inverse_real() {
    let a = creal(2, 2, &[2.0, 0.0, 0.0, 2.0]);
    let inv = a.inverse().unwrap();
    assert!(close(inv[(0, 0)].re, 0.5, 1e-12));
    assert!(close(inv[(1, 1)].re, 0.5, 1e-12));
    let b = ComplexDVector::from_vec(vec![c(4.0, 0.0), c(6.0, 0.0)]);
    let x = a.solve(&b).unwrap();
    assert_eq!(x[0], c(2.0, 0.0));
    assert_eq!(x[1], c(3.0, 0.0));
}

#[test]
fn lu_solve_complex() {
    // A = [[1+i, 1], [0, 2-i]] (upper triangular), b = [2+i, 2]
    let a = ComplexDMatrix::from_row_slice(2, 2, &[c(1.0, 1.0), c(1.0, 0.0), c(0.0, 0.0), c(2.0, -1.0)]);
    let b = ComplexDVector::from_vec(vec![c(2.0, 1.0), c(2.0, 0.0)]);
    let x = a.solve(&b).unwrap();
    // Back-substitution: x1 = b1/A11 = 2/(2-i) = 0.8 + 0.4 i.
    assert!(close(x[1].re, 0.8, 1e-12));
    assert!(close(x[1].im, 0.4, 1e-12));
    // Round-trip check A x == b.
    let ax = a.clone() * x;
    assert!(close(ax[0].re, b[0].re.0, 1e-12));
    assert!(close(ax[0].im, b[0].im.0, 1e-12));
    assert!(close(ax[1].re, b[1].re.0, 1e-12));
    assert!(close(ax[1].im, b[1].im.0, 1e-12));
}

#[test]
fn singular_matrix_rejected() {
    let a = creal(2, 2, &[1.0, 1.0, 1.0, 1.0]);
    assert!(a.inverse().is_err());
    assert!(a.solve(&ComplexDVector::from_vec(vec![c(1.0, 0.0), c(1.0, 0.0)])).is_err());
}

#[test]
fn cholesky_hermitian_pd() {
    // A = [[4, 1-i], [1+i, 3]] is Hermitian PD.
    let a = ComplexDMatrix::from_row_slice(2, 2, &[c(4.0, 0.0), c(1.0, -1.0), c(1.0, 1.0), c(3.0, 0.0)]);
    let chol = a.cholesky().unwrap();
    // Reconstruct A = L L^H.
    let l = ComplexDMatrix::from_vec(2, 2, {
        let mut v = Vec::new();
        for j in 0..2 {
            for i in 0..2 {
                v.push(chol.l()[i][j]);
            }
        }
        v
    });
    let lh = ComplexDMatrix::from_fn(2, 2, |i, j| l[(j, i)].conj());
    let recon = l.clone() * lh;
    for i in 0..2 {
        for j in 0..2 {
            assert!(close(recon[(i, j)].re, a[(i, j)].re.0, 1e-11));
            assert!(close(recon[(i, j)].im, a[(i, j)].im.0, 1e-11));
        }
    }
    // Solve A x = [1, 0]^T.
    let b = ComplexDVector::from_vec(vec![c(1.0, 0.0), c(0.0, 0.0)]);
    let x = chol.solve(&b).unwrap();
    let ax = a.clone() * x;
    assert!(close(ax[0].re, 1.0, 1e-11));
    assert!(close(ax[1].re, 0.0, 1e-11));
}

#[test]
fn lu_factors_and_errors() {
    // The first pivot is zero, so rows 0 and 1 are exchanged.
    let a = ComplexDMatrix::from_row_slice(2, 2, &[c(0.0, 0.0), c(1.0, 0.0), c(2.0, 0.0), c(4.0, 0.0)]);
    let (l, u, p) = a.lu().unwrap();
    assert_eq!(p, vec![1, 0]);
    assert_eq!(l[0][0], c(1.0, 0.0));
    assert_eq!(l[0][1], c(0.0, 0.0));
    assert_eq!(l[1][0], c(0.0, 0.0));
    assert_eq!(u[0][0], c(2.0, 0.0));
    assert_eq!(u[0][1], c(4.0, 0.0));
    assert_eq!(u[1][1], c(1.0, 0.0));
    let rect = creal(2, 3, &[1.0, 2.0, 3.0, 4.0, 5.0, 6.0]);
    match rect.lu() {
        Err(ComplexDenseError::DimensionMismatch { what }) => assert_eq!(what, "matrix is 2x3, expected square"),
        other => panic!("unexpected {:?}", other.is_ok()),
    }
    let sq = creal(2, 2, &[1.0, 0.0, 0.0, 1.0]);
    match sq.solve(&ComplexDVector::from_vec(vec![c(1.0, 0.0)])) {
        Err(ComplexDenseError::DimensionMismatch { what }) => assert_eq!(what, "rhs has length 1, expected 2"),
        other => panic!("unexpected {:?}", other.is_ok()),
    }
    let sing = creal(2, 2, &[1.0, 2.0, 2.0, 4.0]);
    assert_eq!(sing.solve(&ComplexDVector::from_vec(vec![c(1.0, 0.0), c(1.0, 0.0)])), Err(ComplexDenseError::Singular { what: "lu" }));
    let not_pd = creal(2, 2, &[-1.0, 0.0, 0.0, 1.0]);
    assert!(matches!(not_pd.cholesky(), Err(ComplexDenseError::Singular { what: "cholesky" })));
}

#[test]
fn complex_scalar_helpers() {
    assert!(c(0.0, 0.0).inv().is_none());
    let q = c(1.0, 2.0) / c(3.0, 4.0);
    // (1 + 2i) / (3 + 4i) = (11 + 2i) / 25.
    assert!(close(q.re, 11.0 / 25.0, 1e-12));
    assert!(close(q.im, 2.0 / 25.0, 1e-12));
    assert_eq!(c(1.0, 2.0) - c(0.5, 0.5), c(0.5, 1.5));
    assert_eq!(c(1.0, 2.0) * F(3.0), c(3.0, 6.0));
    assert_eq!(Complex::from_real(F(2.0)), c(2.0, 0.0));
    assert!(close(c(0.0, 1.0).arg(), std::f64::consts::FRAC_PI_2, 1e-12));
    let p = Complex::from_polar(F(2.0), F(0.0));
    assert_eq!(p, c(2.0, 0.0));
    let v = ComplexDVector::from_real_imag(vec![F(1.0), F(2.0), F(3.0)], vec![F(4.0), F(5.0)]);
    assert_eq!(v.len(), 2);
    assert_eq!(v[1], c(2.0, 5.0));
    let w = ComplexDVector::from_slice(&[c(1.0, 1.0), c(2.0, 0.0)]);
    assert_eq!((w.clone() + w.clone())[0], c(2.0, 2.0));
    assert_eq!((w.clone() * F(2.0))[1], c(4.0, 0.0));
    assert_eq!((-w.clone())[0], c(-1.0, -1.0));
    let row = w.transpose();
    assert_eq!(row.nrows(), 1);
    assert_eq!(row[(0, 1)], c(2.0, 0.0));
    let real = DMatrix::from_row_slice(1, 2, &[F(5.0), F(6.0)]);
    let cm = ComplexDMatrix::from_real_matrix(&real);
    assert_eq!(cm[(0, 1)], c(6.0, 0.0));
    assert_eq!((cm.clone() * F(2.0))[(0, 0)], c(10.0, 0.0));
    assert_eq!((-cm.clone())[(0, 0)], c(-5.0, 0.0));
    assert_eq!((cm.clone() + cm)[(0, 1)], c(12.0, 0.0));
}

fn find(ev: &[C], target_re: f64, target_im: f64) -> bool {
    ev.iter().any(|z| (z.re.0 - target_re).abs() < 1e-9 && (z.im.0 - target_im).abs() < 1e-9)
}

#[test]
fn eigenvalues_diagonal() {
    // Diagonal matrix diag(2, 3i) has eigenvalues 2 and 3i.
    let a = ComplexDMatrix::from_row_slice(2, 2, &[c(2.0, 0.0), c(0.0, 0.0), c(0.0, 0.0), c(0.0, 3.0)]);
    let ev = a.eigenvalues();
    assert_eq!(ev.len(), 2);
    assert!(find(&ev, 2.0, 0.0));
    assert!(find(&ev, 0.0, 3.0));
}

#[test]
fn eigenvalues_rotation_like() {
    // Matrix [[0, -1], [1, 0]] has eigenvalues +-i.
    let a = creal(2, 2, &[0.0, -1.0, 1.0, 0.0]);
    let ev = a.eigenvalues();
    assert_eq!(ev.len(), 2);
    assert!(find(&ev, 0.0, -1.0));
    assert!(find(&ev, 0.0, 1.0));
}

#[test]
fn eigenvalues_hermitian_real_spectrum() {
    // Hermitian matrix -> real eigenvalues 2 +- sqrt(2).
    let a = ComplexDMatrix::from_row_slice(2, 2, &[c(2.0, 0.0), c(1.0, 1.0), c(1.0, -1.0), c(2.0, 0.0)]);
    let ev = a.eigenvalues();
    assert_eq!(ev.len(), 2);
    let s = 2.0_f64.sqrt();
    assert!(find(&ev, 2.0 - s, 0.0));
    assert!(find(&ev, 2.0 + s, 0.0));
}

#[test]
fn eigenvalues_by_shifted_qr_on_larger_matrices() {
    // Upper triangular: the eigenvalues are the diagonal entries.
    let t = creal(3, 3, &[1.0, 2.0, 3.0, 0.0, 4.0, 5.0, 0.0, 0.0, 6.0]);
    let ev = t.eigenvalues();
    assert_eq!(ev.len(), 3);
    assert!(find(&ev, 1.0, 0.0));
    assert!(find(&ev, 4.0, 0.0));
    assert!(find(&ev, 6.0, 0.0));
    // A diagonal complex matrix: its diagonal entries.
    let d = ComplexDMatrix::from_row_slice(
        3,
        3,
        &[c(1.0, 0.0), c(0.0, 0.0), c(0.0, 0.0), c(0.0, 0.0), c(-2.0, 0.0), c(0.0, 0.0), c(0.0, 0.0), c(0.0, 0.0), c(0.0, 3.0)],
    );
    let ev = d.eigenvalues();
    assert_eq!(ev.len(), 3);
    assert!(find(&ev, 1.0, 0.0), "{:?}", ev);
    assert!(find(&ev, -2.0, 0.0), "{:?}", ev);
    assert!(find(&ev, 0.0, 3.0), "{:?}", ev);
}

#[test]
fn eigenvalues_of_small_and_non_square_matrices() {
    let one = ComplexDMatrix::from_row_slice(1, 1, &[c(5.0, -2.0)]);
    let ev = one.eigenvalues();
    assert_eq!(ev.len(), 1);
    assert_eq!(ev[0], c(5.0, -2.0));
    let rect = creal(2, 3, &[1.0, 2.0, 3.0, 4.0, 5.0, 6.0]);
    assert!(rect.eigenvalues().is_empty());
    let empty: ComplexDMatrix<F> = ComplexDMatrix::zeros(0, 0);
    assert!(empty.eigenvalues().is_empty());
}
