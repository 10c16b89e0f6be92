use tpt_math::linalg_dense::DVector;
use tpt_math::linalg_sparse::{bicgstab, conjugate_gradient, CooMatrix, CsrMatrix, SparseError};
use tpt_math::scalar::Scalar;

/// An `f64` as a library scalar.
#[derive(Clone, Copy, Debug, PartialEq)]
struct F(f64);

impl Scalar for F {
    fn zero() -> F {
        F(0.0)
    }
    fn one() -> F {
        F(1.0)
    }
    fn from_int(n: i64) -> F {
        F(n as f64)
    }
    fn from_u64(n: u64) -> F {
        F(n as f64)
    }
    fn plus(self, rhs: F) -> F {
        F(self.0 + rhs.0)
    }
    fn minus(self, rhs: F) -> F {
        F(self.0 - rhs.0)
    }
    fn times(self, rhs: F) -> F {
        F(self.0 * rhs.0)
    }
    fn divide(self, rhs: F) -> F {
        F(self.0 / rhs.0)
    }
    fn negate(self) -> F {
        F(-self.0)
    }
    fn abs(self) -> F {
        F(self.0.abs())
    }
    fn sqrt(self) -> F {
        F(self.0.sqrt())
    }
    fn sin(self) -> F {
        F(self.0.sin())
    }
    fn cos(self) -> F {
        F(self.0.cos())
    }
    fn tan(self) -> F {
        F(self.0.tan())
    }
    fn acos(self) -> F {
        F(self.0.acos())
    }
    fn atan2(self, other: F) -> F {
        F(self.0.atan2(other.0))
    }
    fn exp(self) -> F {
        F(self.0.exp())
    }
    fn ln(self) -> F {
        F(self.0.ln())
    }
    fn lt(self, rhs: F) -> bool {
        self.0 < rhs.0
    }
    fn le(self, rhs: F) -> bool {
        self.0 <= rhs.0
    }
    fn eq(self, rhs: F) -> bool {
        self.0 == rhs.0
    }
    fn is_finite(self) -> bool {
        self.0.is_finite()
    }
    fn min(self, rhs: F) -> F {
        F(self.0.min(rhs.0))
    }
    fn max(self, rhs: F) -> F {
        F(self.0.max(rhs.0))
    }
    fn powi(self, n: i32) -> F {
        F(self.0.powi(n))
    }
    fn powf(self, p: F) -> F {
        F(self.0.powf(p.0))
    }
    fn floor(self) -> F {
        F(self.0.floor())
    }
    fn infinity() -> F {
        F(f64::INFINITY)
    }
    fn pi() -> F {
        F(std::f64::consts::PI)
    }
    fn e() -> F {
        F(std::f64::consts::E)
    }
    // The specification functions mirror the operations above.
    fn zero_spec() -> F {
        F::zero()
    }
    fn one_spec() -> F {
        F::one()
    }
    fn from_int_spec(n: i64) -> F {
        F::from_int(n)
    }
    fn from_u64_spec(n: u64) -> F {
        F::from_u64(n)
    }
    fn plus_spec(self, rhs: F) -> F {
        self.plus(rhs)
    }
    fn minus_spec(self, rhs: F) -> F {
        self.minus(rhs)
    }
    fn times_spec(self, rhs: F) -> F {
        self.times(rhs)
    }
    fn divide_spec(self, rhs: F) -> F {
        self.divide(rhs)
    }
    fn negate_spec(self) -> F {
        self.negate()
    }
    fn abs_spec(self) -> F {
        Scalar::abs(self)
    }
    fn sqrt_spec(self) -> F {
        Scalar::sqrt(self)
    }
    fn sin_spec(self) -> F {
        Scalar::sin(self)
    }
    fn cos_spec(self) -> F {
        Scalar::cos(self)
    }
    fn tan_spec(self) -> F {
        Scalar::tan(self)
    }
    fn acos_spec(self) -> F {
        Scalar::acos(self)
    }
    fn atan2_spec(self, other: F) -> F {
        Scalar::atan2(self, other)
    }
    fn exp_spec(self) -> F {
        Scalar::exp(self)
    }
    fn ln_spec(self) -> F {
        Scalar::ln(self)
    }
    fn lt_spec(self, rhs: F) -> bool {
        Scalar::lt(self, rhs)
    }
    fn le_spec(self, rhs: F) -> bool {
        Scalar::le(self, rhs)
    }
    fn eq_spec(self, rhs: F) -> bool {
        Scalar::eq(self, rhs)
    }
    fn is_finite_spec(self) -> bool {
        Scalar::is_finite(self)
    }
    fn min_spec(self, rhs: F) -> F {
        Scalar::min(self, rhs)
    }
    fn max_spec(self, rhs: F) -> F {
        Scalar::max(self, rhs)
    }
    fn powi_spec(self, n: i32) -> F {
        Scalar::powi(self, n)
    }
    fn powf_spec(self, p: F) -> F {
        Scalar::powf(self, p)
    }
    fn floor_spec(self) -> F {
        Scalar::floor(self)
    }
    fn infinity_spec() -> F {
        <F as Scalar>::infinity()
    }
    fn pi_spec() -> F {
        <F as Scalar>::pi()
    }
    fn e_spec() -> F {
        <F as Scalar>::e()
    }
}

fn fv(xs: &[f64]) -> DVector<F> {
    DVector::from_vec(xs.iter().map(|&x| F(x)).collect())
}

fn raw(xs: &[F]) -> Vec<f64> {
    xs.iter().map(|x| x.0).collect()
}

fn dense_2x2_csr() -> CsrMatrix<F> {
    let mut coo = CooMatrix::<F>::new(2, 2);
    coo.push(0, 0, F(4.0));
    coo.push(0, 1, F(1.0));
    coo.push(1, 0, F(1.0));
    coo.push(1, 1, F(3.0));
    coo.to_csr()
}

#[test]
fn coo_to_csr_roundtrip_and_duplicate_sum() {
    let mut coo = CooMatrix::<F>::new(2, 2);
    // Two contributions to (0,0) that must be summed, plus a duplicate that
    // is out of order.
    coo.push(0, 0, F(1.0));
    coo.push(1, 1, F(5.0));
    coo.push(0, 0, F(2.0));
    coo.push(0, 1, F(7.0));
    coo.push(1, 0, F(9.0));
    let csr = coo.to_csr();
    assert_eq!(csr.nrows(), 2);
    assert_eq!(csr.ncols(), 2);
    assert_eq!(csr.nnz(), 4);
    // Row 0: (0,0)=3, (0,1)=7 ; row 1: (1,0)=9, (1,1)=5.
    assert_eq!(csr.row_ptr().to_vec(), vec![0, 2, 4]);
    assert_eq!(csr.col_idx().to_vec(), vec![0, 1, 0, 1]);
    assert_eq!(raw(csr.values()), vec![3.0, 7.0, 9.0, 5.0]);

    let csc = coo.to_csc();
    assert_eq!(csc.col_ptr().to_vec(), vec![0, 2, 4]);
    assert_eq!(csc.row_idx().to_vec(), vec![0, 1, 0, 1]);
    assert_eq!(raw(csc.values()), vec![3.0, 9.0, 7.0, 5.0]);
}

#[test]
fn spmv_against_known_matrix() {
    let a = dense_2x2_csr();
    let x = fv(&[2.0, -1.0]);
    // [[4,1],[1,3]] * [2,-1] = [7, -1].
    let y = a.matvec(&x).unwrap();
    assert_eq!(y, fv(&[7.0, -1.0]));
    // Operator form.
    let y2 = &a * &x;
    assert_eq!(y, y2);
}

#[test]
fn spmv_dimension_mismatch() {
    let a = dense_2x2_csr();
    let x = fv(&[1.0]);
    assert_eq!(a.matvec(&x), Err(SparseError::DimensionMismatch));
}

#[test]
fn transpose_csr_to_csc_and_back() {
    let a = dense_2x2_csr();
    let csc = a.transpose();
    // A^T = [[4,1],[1,3]] (symmetric) -> CSC col 0: (0,4),(1,1); col 1: (0,1),(1,3).
    assert_eq!(csc.col_ptr().to_vec(), vec![0, 2, 4]);
    assert_eq!(csc.row_idx().to_vec(), vec![0, 1, 0, 1]);
    assert_eq!(raw(csc.values()), vec![4.0, 1.0, 1.0, 3.0]);
    let back = csc.transpose();
    assert_eq!(back.row_ptr().to_vec(), vec![0, 2, 4]);
    assert_eq!(back.col_idx().to_vec(), vec![0, 1, 0, 1]);
    assert_eq!(raw(back.values()), vec![4.0, 1.0, 1.0, 3.0]);
}

#[test]
fn cg_solves_spd_system() {
    let a = dense_2x2_csr();
    let b = fv(&[1.0, 2.0]);
    let x = conjugate_gradient(&a, &b, None, F(1e-12), 100).unwrap();
    let expected = [1.0 / 11.0, 7.0 / 11.0];
    assert!((x[0].0 - expected[0]).abs() < 1e-10);
    assert!((x[1].0 - expected[1]).abs() < 1e-10);
    // Residual check.
    let r = b - a.matvec(&x).unwrap();
    assert!(r.norm().0 < 1e-10);
}

#[test]
fn transpose_non_square_dimensions() {
    // 2x3 matrix -> transpose is 3x2.
    let mut coo = CooMatrix::<F>::new(2, 3);
    coo.push(0, 0, F(1.0));
    coo.push(0, 2, F(2.0));
    coo.push(1, 1, F(3.0));
    let a = coo.to_csr();
    let csc = a.transpose();
    assert_eq!(csc.nrows(), 3);
    assert_eq!(csc.ncols(), 2);
    // CSC column 0: (0,1),(2,2); col 1: (1,3).
    assert_eq!(csc.col_ptr().to_vec(), vec![0, 2, 3]);
    assert_eq!(csc.row_idx().to_vec(), vec![0, 2, 1]);
    assert_eq!(raw(csc.values()), vec![1.0, 2.0, 3.0]);
    let back = csc.transpose();
    assert_eq!(back.nrows(), 2);
    assert_eq!(back.ncols(), 3);
    assert_eq!(back.row_ptr().to_vec(), vec![0, 2, 3]);
    assert_eq!(back.col_idx().to_vec(), vec![0, 2, 1]);
    assert_eq!(raw(back.values()), vec![1.0, 2.0, 3.0]);
}

#[test]
fn cg_non_convergence_reports_error() {
    let a = dense_2x2_csr();
    let b = fv(&[1.0, 2.0]);
    // One iteration is far from convergence -> NotConverged.
    let res = conjugate_gradient(&a, &b, None, F(1e-14), 1);
    assert!(matches!(res, Err(SparseError::NotConverged { iterations: 1 })));
}

#[test]
fn bicgstab_non_convergence_reports_error() {
    let a = dense_2x2_csr();
    let b = fv(&[1.0, 2.0]);
    let res = bicgstab(&a, &b, None, F(1e-14), 1);
    assert!(matches!(res, Err(SparseError::NotConverged { iterations: 1 })));
}

#[test]
fn csc_matvec_matches_csr() {
    // A = [[4,1],[1,3]] as CSC; x = [2,-1] -> [7,-1].
    let mut coo = CooMatrix::<F>::new(2, 2);
    coo.push(0, 0, F(4.0));
    coo.push(0, 1, F(1.0));
    coo.push(1, 0, F(1.0));
    coo.push(1, 1, F(3.0));
    let csc = coo.to_csc();
    let x = fv(&[2.0, -1.0]);
    let y = csc.matvec(&x).unwrap();
    assert_eq!(y, fv(&[7.0, -1.0]));
}

#[test]
fn cg_2d_laplacian() {
    // 5-point 2D Laplacian on a 3x3 interior grid (9 unknowns), SPD.
    let n = 9usize;
    let mut coo = CooMatrix::<F>::new(n, n);
    for r in 0..3 {
        for c in 0..3 {
            let i = r * 3 + c;
            coo.push(i, i, F(4.0));
            if r > 0 {
                coo.push(i, i - 3, F(-1.0));
            }
            if r < 2 {
                coo.push(i, i + 3, F(-1.0));
            }
            if c > 0 {
                coo.push(i, i - 1, F(-1.0));
            }
            if c < 2 {
                coo.push(i, i + 1, F(-1.0));
            }
        }
    }
    let a = coo.to_csr();
    let b = fv(&[1.0; 9]);
    let x = conjugate_gradient(&a, &b, None, F(1e-10), 1000).unwrap();
    let r = b - a.matvec(&x).unwrap();
    assert!(r.norm().0 < 1e-8);
}

#[test]
fn bicgstab_solves_nonsymmetric() {
    // A non-symmetric matrix with a known solution x = [1, 2].
    let mut coo = CooMatrix::<F>::new(2, 2);
    coo.push(0, 0, F(2.0));
    coo.push(0, 1, F(1.0));
    coo.push(1, 0, F(3.0)); // breaks symmetry
    coo.push(1, 1, F(4.0));
    let a = coo.to_csr();
    // b = A * [1, 2] = [4, 11].
    let b = fv(&[4.0, 11.0]);
    let x = bicgstab(&a, &b, None, F(1e-12), 200).unwrap();
    assert!((x[0].0 - 1.0).abs() < 1e-9);
    assert!((x[1].0 - 2.0).abs() < 1e-9);
}

#[test]
fn solver_dimension_mismatch() {
    let a = dense_2x2_csr();
    let b = fv(&[1.0]);
    assert_eq!(conjugate_gradient(&a, &b, None, F(1e-12), 10), Err(SparseError::DimensionMismatch));
    assert_eq!(bicgstab(&a, &b, None, F(1e-12), 10), Err(SparseError::DimensionMismatch));
}

#[test]
fn duplicates_sum_in_push_order_and_keys_are_sorted() {
    // Three pushes at (1, 2) are summed left to right; entries come out in row-major order.
    let coo = CooMatrix::from_triplets(
        3,
        3,
        vec![1, 0, 1, 2, 1],
        vec![2, 1, 2, 0, 2],
        vec![F(1.0), F(5.0), F(2.0), F(6.0), F(4.0)],
    );
    assert_eq!(coo.nnz(), 5);
    let csr = coo.to_csr();
    let entries: Vec<(usize, usize, f64)> = csr.iter().iter().map(|&(r, c, v)| (r, c, v.0)).collect();
    assert_eq!(entries, vec![(0, 1, 5.0), (1, 2, 7.0), (2, 0, 6.0)]);
    assert_eq!(csr.row_ptr().to_vec(), vec![0, 1, 2, 3]);
    // The declared shape is kept.
    assert_eq!(csr.ncols(), 3);
    let csc = coo.to_csc();
    let centries: Vec<(usize, usize, f64)> = csc.iter().iter().map(|&(r, c, v)| (r, c, v.0)).collect();
    assert_eq!(centries, vec![(2, 0, 6.0), (0, 1, 5.0), (1, 2, 7.0)]);
}

#[test]
fn empty_and_narrow_conversions() {
    let coo = CooMatrix::<F>::new(3, 5);
    let csr = coo.to_csr();
    assert_eq!(csr.nnz(), 0);
    assert_eq!(csr.ncols(), 5);
    assert_eq!(csr.row_ptr().to_vec(), vec![0, 0, 0, 0]);
    let mut narrow = CooMatrix::<F>::new(2, 5);
    narrow.push(1, 1, F(2.0));
    assert_eq!(narrow.to_csr().ncols(), 5);
    assert_eq!(narrow.to_csc().ncols(), 5);
    // A 2x3 matrix with its last column empty stays 2x3.
    let mut coo = CooMatrix::<F>::new(2, 3);
    coo.push(0, 0, F(1.0));
    let csr = coo.to_csr();
    assert_eq!((csr.nrows(), csr.ncols(), csr.nnz()), (2, 3, 1));
    assert!(csr.matvec(&DVector::from_vec(vec![F(1.0), F(2.0), F(3.0)])).is_ok());
    // An entry beyond the declared columns widens the column count.
    let mut wide = CooMatrix::<F>::new(1, 2);
    wide.push(0, 4, F(1.0));
    assert_eq!(wide.to_csr().ncols(), 5);
}

#[test]
fn solvers_start_from_given_vector() {
    let a = dense_2x2_csr();
    let b = fv(&[1.0, 2.0]);
    let exact = fv(&[1.0 / 11.0, 7.0 / 11.0]);
    // A start vector that already solves the system is returned unchanged.
    let x = conjugate_gradient(&a, &b, Some(exact.clone()), F(1e-9), 0).unwrap();
    assert_eq!(x, exact);
    // A start vector of the wrong length is a dimension error.
    assert_eq!(conjugate_gradient(&a, &b, Some(fv(&[0.0])), F(1e-9), 10), Err(SparseError::DimensionMismatch));
    assert_eq!(bicgstab(&a, &b, Some(fv(&[0.0])), F(1e-9), 10), Err(SparseError::DimensionMismatch));
    // With no iteration allowed the solver reports it did not converge.
    assert_eq!(bicgstab(&a, &b, None, F(1e-9), 0), Err(SparseError::NotConverged { iterations: 0 }));
}
