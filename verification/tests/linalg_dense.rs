use tpt_math::linalg_dense::{DMatrix, DVector, DenseError};
use tpt_math::scalar::Scalar;

/// An `f64` as a library scalar.
#[derive(Clone, Copy, Debug, PartialEq)]
struct F(f64);

impl Scalar for F {
    fn zero() -> F {
        F(0.0)
    }
    fn one() -> F {
        F(1.0)
    }
    fn from_int(n: i64) -> F {
        F(n as f64)
    }
    fn from_u64(n: u64) -> F {
        F(n as f64)
    }
    fn plus(self, rhs: F) -> F {
        F(self.0 + rhs.0)
    }
    fn minus(self, rhs: F) -> F {
        F(self.0 - rhs.0)
    }
    fn times(self, rhs: F) -> F {
        F(self.0 * rhs.0)
    }
    fn divide(self, rhs: F) -> F {
        F(self.0 / rhs.0)
    }
    fn negate(self) -> F {
        F(-self.0)
    }
    fn abs(self) -> F {
        F(self.0.abs())
    }
    fn sqrt(self) -> F {
        F(self.0.sqrt())
    }
    fn sin(self) -> F {
        F(self.0.sin())
    }
    fn cos(self) -> F {
        F(self.0.cos())
    }
    fn tan(self) -> F {
        F(self.0.tan())
    }
    fn acos(self) -> F {
        F(self.0.acos())
    }
    fn atan2(self, other: F) -> F {
        F(self.0.atan2(other.0))
    }
    fn exp(self) -> F {
        F(self.0.exp())
    }
    fn ln(self) -> F {
        F(self.0.ln())
    }
    fn lt(self, rhs: F) -> bool {
        self.0 < rhs.0
    }
    fn le(self, rhs: F) -> bool {
        self.0 <= rhs.0
    }
    fn eq(self, rhs: F) -> bool {
        self.0 == rhs.0
    }
    fn is_finite(self) -> bool {
        self.0.is_finite()
    }
    fn min(self, rhs: F) -> F {
        F(self.0.min(rhs.0))
    }
    fn max(self, rhs: F) -> F {
        F(self.0.max(rhs.0))
    }
    fn powi(self, n: i32) -> F {
        F(self.0.powi(n))
    }
    fn powf(self, p: F) -> F {
        F(self.0.powf(p.0))
    }
    fn floor(self) -> F {
        F(self.0.floor())
    }
    fn infinity() -> F {
        F(f64::INFINITY)
    }
    fn pi() -> F {
        F(std::f64::consts::PI)
    }
    fn e() -> F {
        F(std::f64::consts::E)
    }
    // The specification functions mirror the operations above.
    fn zero_spec() -> F {
        F::zero()
    }
    fn one_spec() -> F {
        F::one()
    }
    fn from_int_spec(n: i64) -> F {
        F::from_int(n)
    }
    fn from_u64_spec(n: u64) -> F {
        F::from_u64(n)
    }
    fn plus_spec(self, rhs: F) -> F {
        self.plus(rhs)
    }
    fn minus_spec(self, rhs: F) -> F {
        self.minus(rhs)
    }
    fn times_spec(self, rhs: F) -> F {
        self.times(rhs)
    }
    fn divide_spec(self, rhs: F) -> F {
        self.divide(rhs)
    }
    fn negate_spec(self) -> F {
        self.negate()
    }
    fn abs_spec(self) -> F {
        Scalar::abs(self)
    }
    fn sqrt_spec(self) -> F {
        Scalar::sqrt(self)
    }
    fn sin_spec(self) -> F {
        Scalar::sin(self)
    }
    fn cos_spec(self) -> F {
        Scalar::cos(self)
    }
    fn tan_spec(self) -> F {
        Scalar::tan(self)
    }
    fn acos_spec(self) -> F {
        Scalar::acos(self)
    }
    fn atan2_spec(self, other: F) -> F {
        Scalar::atan2(self, other)
    }
    fn exp_spec(self) -> F {
        Scalar::exp(self)
    }
    fn ln_spec(self) -> F {
        Scalar::ln(self)
    }
    fn lt_spec(self, rhs: F) -> bool {
        Scalar::lt(self, rhs)
    }
    fn le_spec(self, rhs: F) -> bool {
        Scalar::le(self, rhs)
    }
    fn eq_spec(self, rhs: F) -> bool {
        Scalar::eq(self, rhs)
    }
    fn is_finite_spec(self) -> bool {
        Scalar::is_finite(self)
    }
    fn min_spec(self, rhs: F) -> F {
        Scalar::min(self, rhs)
    }
    fn max_spec(self, rhs: F) -> F {
        Scalar::max(self, rhs)
    }
    fn powi_spec(self, n: i32) -> F {
        Scalar::powi(self, n)
    }
    fn powf_spec(self, p: F) -> F {
        Scalar::powf(self, p)
    }
    fn floor_spec(self) -> F {
        Scalar::floor(self)
    }
    fn infinity_spec() -> F {
        <F as Scalar>::infinity()
    }
    fn pi_spec() -> F {
        <F as Scalar>::pi()
    }
    fn e_spec() -> F {
        <F as Scalar>::e()
    }
}

fn fv(xs: &[f64]) -> DVector<F> {
    DVector::from_vec(xs.iter().map(|&x| F(x)).collect())
}

fn fm(nrows: usize, ncols: usize, xs: &[f64]) -> DMatrix<F> {
    let data: Vec<F> = xs.iter().map(|&x| F(x)).collect();
    DMatrix::from_row_slice(nrows, ncols, &data)
}

#[test]
fn vector_construction_and_index() {
    let v = fv(&[3.0, 1.0, 4.0]);
    assert_eq!(v.len(), 3);
    assert_eq!(v[0], F(3.0));
    assert_eq!(v[2], F(4.0));
}

#[test]
fn vector_add_sub_neg_scalar() {
    let a = fv(&[1.0, 2.0, 3.0]);
    let b = fv(&[4.0, 5.0, 6.0]);
    let s = a.clone() + b.clone();
    assert_eq!(s, fv(&[5.0, 7.0, 9.0]));
    let d = b.clone() - a.clone();
    assert_eq!(d, fv(&[3.0, 3.0, 3.0]));
    let n = -a.clone();
    assert_eq!(n, fv(&[-1.0, -2.0, -3.0]));
    let sc = a * F(2.0);
    assert_eq!(sc, fv(&[2.0, 4.0, 6.0]));
}

#[test]
fn vector_dot_and_norm() {
    let a = fv(&[1.0, 2.0, 3.0]);
    let b = fv(&[4.0, 5.0, 6.0]);
    assert!((a.dot(&b).0 - 32.0).abs() < 1e-12);
    assert!((a.norm().0 - 14.0_f64.sqrt()).abs() < 1e-12);
}

#[test]
fn matrix_construction_and_arithmetic() {
    let m = fm(2, 2, &[1.0, 2.0, 3.0, 4.0]);
    assert_eq!(m.nrows(), 2);
    assert_eq!(m.ncols(), 2);
    assert_eq!(m[(0, 0)], F(1.0));
    assert_eq!(m[(1, 1)], F(4.0));
    let z = DMatrix::zeros(2, 2);
    assert_eq!(m.clone() - m.clone(), z);
}

#[test]
fn matrix_vector_and_matrix_matrix() {
    let m = fm(2, 2, &[1.0, 2.0, 3.0, 4.0]);
    let v = fv(&[1.0, 1.0]);
    let mv = m.clone() * v;
    assert_eq!(mv, fv(&[3.0, 7.0]));

    let n = fm(2, 2, &[0.0, 1.0, 1.0, 0.0]);
    let mm = m.clone() * n;
    assert_eq!(mm, fm(2, 2, &[2.0, 1.0, 4.0, 3.0]));
}

#[test]
fn transpose_swaps_dimensions() {
    let m = fm(2, 3, &[1.0, 2.0, 3.0, 4.0, 5.0, 6.0]);
    let t = m.transpose();
    assert_eq!(t.nrows(), 3);
    assert_eq!(t.ncols(), 2);
    assert_eq!(t[(0, 1)], F(4.0));
}

#[test]
fn solve_and_inverse() {
    // A = [[2, 0], [0, 2]] -> inverse [[0.5, 0], [0, 0.5]]
    let a = fm(2, 2, &[2.0, 0.0, 0.0, 2.0]);
    let inv = a.inverse().unwrap();
    assert!((inv[(0, 0)].0 - 0.5).abs() < 1e-12);
    assert!((inv[(1, 1)].0 - 0.5).abs() < 1e-12);

    let b = fv(&[4.0, 6.0]);
    let x = a.solve(&b).unwrap();
    assert_eq!(x, fv(&[2.0, 3.0]));
}

#[test]
fn singular_matrix_is_rejected() {
    let a = fm(2, 2, &[1.0, 1.0, 1.0, 1.0]);
    assert!(a.inverse().is_err());
    assert!(a.solve(&fv(&[1.0, 1.0])).is_err());
}

#[test]
fn from_diagonal() {
    let d = DMatrix::from_diagonal(&fv(&[2.0, 3.0, 4.0]));
    assert_eq!(d[(0, 0)], F(2.0));
    assert_eq!(d[(1, 1)], F(3.0));
    assert_eq!(d[(2, 2)], F(4.0));
    assert_eq!(d[(0, 1)], F(0.0));
}

#[test]
fn solve_reports_each_error() {
    let rect = fm(2, 3, &[1.0, 2.0, 3.0, 4.0, 5.0, 6.0]);
    match rect.solve(&fv(&[1.0, 1.0])) {
        Err(DenseError::DimensionMismatch { what }) => assert_eq!(what, "matrix is 2x3, expected square"),
        other => panic!("unexpected {:?}", other),
    }
    match rect.inverse() {
        Err(DenseError::DimensionMismatch { what }) => assert_eq!(what, "matrix is 2x3, expected square"),
        other => panic!("unexpected {:?}", other),
    }
    let sq = fm(2, 2, &[2.0, 1.0, 1.0, 3.0]);
    match sq.solve(&fv(&[1.0, 1.0, 1.0])) {
        Err(DenseError::DimensionMismatch { what }) => assert_eq!(what, "rhs has length 3, expected 2"),
        other => panic!("unexpected {:?}", other),
    }
    let sing = fm(2, 2, &[1.0, 2.0, 2.0, 4.0]);
    assert_eq!(sing.solve(&fv(&[1.0, 1.0])), Err(DenseError::Singular { what: "partial_pivot_lu" }));
}

#[test]
fn solve_with_row_exchange() {
    // The first pivot is zero, so rows are exchanged: [[0, 1], [1, 0]] x = [3, 5] gives x = [5, 3].
    let a = fm(2, 2, &[0.0, 1.0, 1.0, 0.0]);
    let x = a.solve(&fv(&[3.0, 5.0])).unwrap();
    assert_eq!(x, fv(&[5.0, 3.0]));
    let inv = a.inverse().unwrap();
    assert_eq!(inv, fm(2, 2, &[0.0, 1.0, 1.0, 0.0]));
}

#[test]
fn inverse_of_general_3x3() {
    let a = fm(3, 3, &[4.0, 7.0, 2.0, 3.0, 6.0, 1.0, 2.0, 5.0, 3.0]);
    let inv = a.inverse().unwrap();
    let prod = a * inv;
    for i in 0..3 {
        for j in 0..3 {
            let expect = if i == j { 1.0 } else { 0.0 };
            assert!((prod[(i, j)].0 - expect).abs() < 1e-12, "entry {i},{j}");
        }
    }
}

#[test]
fn scalar_and_elementwise_matrix_ops() {
    let m = fm(2, 2, &[1.0, 2.0, 3.0, 4.0]);
    assert_eq!(m.clone() + F(1.0), fm(2, 2, &[2.0, 3.0, 4.0, 5.0]));
    assert_eq!(m.clone() - F(1.0), fm(2, 2, &[0.0, 1.0, 2.0, 3.0]));
    assert_eq!(m.clone() * F(2.0), fm(2, 2, &[2.0, 4.0, 6.0, 8.0]));
    assert_eq!(m.clone() / F(2.0), fm(2, 2, &[0.5, 1.0, 1.5, 2.0]));
    assert_eq!(-m.clone(), fm(2, 2, &[-1.0, -2.0, -3.0, -4.0]));
    assert_eq!(m.clone() + m.clone(), fm(2, 2, &[2.0, 4.0, 6.0, 8.0]));
    let v = fv(&[2.0, 4.0]);
    assert_eq!(v.clone() / F(2.0), fv(&[1.0, 2.0]));
    assert_eq!(v.clone() + F(1.0), fv(&[3.0, 5.0]));
    assert_eq!(v - F(1.0), fv(&[1.0, 3.0]));
}

#[test]
fn column_major_storage_and_row_vector() {
    let m = fm(2, 3, &[1.0, 2.0, 3.0, 4.0, 5.0, 6.0]);
    let stored: Vec<f64> = m.iter().iter().map(|x| x.0).collect();
    assert_eq!(stored, vec![1.0, 4.0, 2.0, 5.0, 3.0, 6.0]);
    let raw = DMatrix::from_vec(2, 2, vec![F(1.0), F(2.0), F(3.0), F(4.0)]);
    assert_eq!(raw[(1, 0)], F(2.0));
    assert_eq!(raw[(0, 1)], F(3.0));
    let row = fv(&[7.0, 8.0]).transpose();
    assert_eq!(row.nrows(), 1);
    assert_eq!(row.ncols(), 2);
    assert_eq!(row[(0, 1)], F(8.0));
    let built = DMatrix::from_fn(2, 2, |i, j| F((10 * i + j) as f64));
    assert_eq!(built[(1, 0)], F(10.0));
    assert!(DMatrix::<F>::zeros(0, 3).is_empty());
    assert_eq!(DVector::<F>::zeros(2), fv(&[0.0, 0.0]));
}
