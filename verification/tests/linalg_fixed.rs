use tpt_math::scalar::Scalar;

/// An `f64` as a library scalar.
#[derive(Clone, Copy, Debug, PartialEq)]
struct F(f64);

impl Scalar for F {
    fn zero() -> F {
        F(0.0)
    }
    fn one() -> F {
        F(1.0)
    }
    fn from_int(n: i64) -> F {
        F(n as f64)
    }
    fn from_u64(n: u64) -> F {
        F(n as f64)
    }
    fn plus(self, rhs: F) -> F {
        F(self.0 + rhs.0)
    }
    fn minus(self, rhs: F) -> F {
        F(self.0 - rhs.0)
    }
    fn times(self, rhs: F) -> F {
        F(self.0 * rhs.0)
    }
    fn divide(self, rhs: F) -> F {
        F(self.0 / rhs.0)
    }
    fn negate(self) -> F {
        F(-self.0)
    }
    fn abs(self) -> F {
        F(self.0.abs())
    }
    fn sqrt(self) -> F {
        F(self.0.sqrt())
    }
    fn sin(self) -> F {
        F(self.0.sin())
    }
    fn cos(self) -> F {
        F(self.0.cos())
    }
    fn tan(self) -> F {
        F(self.0.tan())
    }
    fn acos(self) -> F {
        F(self.0.acos())
    }
    fn atan2(self, other: F) -> F {
        F(self.0.atan2(other.0))
    }
    fn exp(self) -> F {
        F(self.0.exp())
    }
    fn ln(self) -> F {
        F(self.0.ln())
    }
    fn lt(self, rhs: F) -> bool {
        self.0 < rhs.0
    }
    fn le(self, rhs: F) -> bool {
        self.0 <= rhs.0
    }
    fn eq(self, rhs: F) -> bool {
        self.0 == rhs.0
    }
    fn is_finite(self) -> bool {
        self.0.is_finite()
    }
    fn min(self, rhs: F) -> F {
        F(self.0.min(rhs.0))
    }
    fn max(self, rhs: F) -> F {
        F(self.0.max(rhs.0))
    }
    fn powi(self, n: i32) -> F {
        F(self.0.powi(n))
    }
    fn powf(self, p: F) -> F {
        F(self.0.powf(p.0))
    }
    fn floor(self) -> F {
        F(self.0.floor())
    }
    fn infinity() -> F {
        F(f64::INFINITY)
    }
    fn pi() -> F {
        F(std::f64::consts::PI)
    }
    fn e() -> F {
        F(std::f64::consts::E)
    }
    // The specification functions mirror the operations above.
    fn zero_spec() -> F {
        F::zero()
    }
    fn one_spec() -> F {
        F::one()
    }
    fn from_int_spec(n: i64) -> F {
        F::from_int(n)
    }
    fn from_u64_spec(n: u64) -> F {
        F::from_u64(n)
    }
    fn plus_spec(self, rhs: F) -> F {
        self.plus(rhs)
    }
    fn minus_spec(self, rhs: F) -> F {
        self.minus(rhs)
    }
    fn times_spec(self, rhs: F) -> F {
        self.times(rhs)
    }
    fn divide_spec(self, rhs: F) -> F {
        self.divide(rhs)
    }
    fn negate_spec(self) -> F {
        self.negate()
    }
    fn abs_spec(self) -> F {
        Scalar::abs(self)
    }
    fn sqrt_spec(self) -> F {
        Scalar::sqrt(self)
    }
    fn sin_spec(self) -> F {
        Scalar::sin(self)
    }
    fn cos_spec(self) -> F {
        Scalar::cos(self)
    }
    fn tan_spec(self) -> F {
        Scalar::tan(self)
    }
    fn acos_spec(self) -> F {
        Scalar::acos(self)
    }
    fn atan2_spec(self, other: F) -> F {
        Scalar::atan2(self, other)
    }
    fn exp_spec(self) -> F {
        Scalar::exp(self)
    }
    fn ln_spec(self) -> F {
        Scalar::ln(self)
    }
    fn lt_spec(self, rhs: F) -> bool {
        Scalar::lt(self, rhs)
    }
    fn le_spec(self, rhs: F) -> bool {
        Scalar::le(self, rhs)
    }
    fn eq_spec(self, rhs: F) -> bool {
        Scalar::eq(self, rhs)
    }
    fn is_finite_spec(self) -> bool {
        Scalar::is_finite(self)
    }
    fn min_spec(self, rhs: F) -> F {
        Scalar::min(self, rhs)
    }
    fn max_spec(self, rhs: F) -> F {
        Scalar::max(self, rhs)
    }
    fn powi_spec(self, n: i32) -> F {
        Scalar::powi(self, n)
    }
    fn powf_spec(self, p: F) -> F {
        Scalar::powf(self, p)
    }
    fn floor_spec(self) -> F {
        Scalar::floor(self)
    }
    fn infinity_spec() -> F {
        <F as Scalar>::infinity()
    }
    fn pi_spec() -> F {
        <F as Scalar>::pi()
    }
    fn e_spec() -> F {
        <F as Scalar>::e()
    }
}

use tpt_math::linalg_fixed::{Matrix2, Matrix2x3, Matrix3, Matrix4, Vector2, Vector3};

fn fs<const N: usize>(a: [f64; N]) -> [F; N] {
    a.map(F)
}

fn fs2<const R: usize, const C: usize>(a: [[f64; C]; R]) -> [[F; C]; R] {
    a.map(|row| row.map(F))
}

fn un<const N: usize>(a: [F; N]) -> [f64; N] {
    a.map(|x| x.0)
}

fn un2<const R: usize, const C: usize>(a: [[F; C]; R]) -> [[f64; C]; R] {
    a.map(|row| row.map(|x| x.0))
}

/// A random-ish but reproducible source of numbers in `[0, 1)`.
fn rng() -> impl Iterator<Item = f64> {
    let mut state: u64 = 0x9e3779b97f4a7c15;
    std::iter::from_fn(move || {
        state ^= state >> 30;
        state = state.wrapping_mul(0xbf58476d1ce4e5b9);
        state ^= state >> 27;
        state = state.wrapping_mul(0x94d049bb133111eb);
        state ^= state >> 31;
        Some(((state >> 11) as f64) / ((1u64 << 53) as f64))
    })
}

fn close(a: f64, b: f64, tol: f64) -> bool {
    (a - b).abs() < tol
}

#[test]
fn vector_arithmetic() {
    let a = Vector3::new(fs([1.0, 2.0, 3.0]));
    let b = Vector3::new(fs([4.0, 5.0, 6.0]));
    assert_eq!(un((a + b).data), [5.0, 7.0, 9.0]);
    assert_eq!(un((a - b).data), [-3.0, -3.0, -3.0]);
    assert_eq!(un((a * F(2.0)).data), [2.0, 4.0, 6.0]);
    assert_eq!(un((a / F(2.0)).data), [0.5, 1.0, 1.5]);
    assert_eq!(un((a * b).data), [4.0, 10.0, 18.0]);
    assert_eq!(-a, Vector3::new(fs([-1.0, -2.0, -3.0])));
}

#[test]
fn vector_dot_cross() {
    let a = Vector3::new(fs([1.0, 0.0, 0.0]));
    let b = Vector3::new(fs([0.0, 1.0, 0.0]));
    assert_eq!(a.cross(&b), Vector3::new(fs([0.0, 0.0, 1.0])));
    let u = Vector2::new(fs([1.0, 0.0]));
    let v = Vector2::new(fs([0.0, 1.0]));
    assert_eq!(u.perp_dot(&v), F(1.0));
    assert!(close(a.dot(&b).0, 0.0, 1e-12));
}

#[test]
fn vector_norm() {
    let a = Vector3::new(fs([3.0, 4.0, 0.0]));
    assert!(close(a.norm().0, 5.0, 1e-12));
    let n = a.normalize();
    assert!(close(n.norm().0, 1.0, 1e-12));
}

#[test]
fn matrix_vector_product() {
    let m = Matrix2::new(fs2([[1.0, 2.0], [3.0, 4.0]]));
    let v = Vector2::new(fs([1.0, 1.0]));
    assert_eq!(un((m * v).data), [3.0, 7.0]);
}

#[test]
fn matrix_matrix_product() {
    let m = Matrix2::new(fs2([[1.0, 2.0], [3.0, 4.0]]));
    let n = Matrix2::new(fs2([[0.0, 1.0], [1.0, 0.0]]));
    let p = m * n;
    assert_eq!(un2(p.data), [[2.0, 1.0], [4.0, 3.0]]);
}

#[test]
fn transpose() {
    let m = Matrix2x3::new(fs2([[1.0, 2.0, 3.0], [4.0, 5.0, 6.0]]));
    let t = m.transpose();
    assert_eq!(un2(t.data), [[1.0, 4.0], [2.0, 5.0], [3.0, 6.0]]);
}

#[test]
fn identity_and_inverse_2x2() {
    let m = Matrix2::new(fs2([[2.0, 0.0], [0.0, 3.0]]));
    let inv = m.inverse().unwrap();
    assert_eq!(un2(inv.data), [[0.5, 0.0], [0.0, 1.0 / 3.0]]);
    let prod = m * inv;
    assert!(close(prod.data[0][0].0, 1.0, 1e-12));
    assert!(close(prod.data[1][1].0, 1.0, 1e-12));
    assert!(close(prod.data[0][1].0, 0.0, 1e-12));
}

#[test]
fn determinant_2x2() {
    let m = Matrix2::new(fs2([[2.0, 1.0], [1.0, 3.0]]));
    assert!(close(m.determinant().0, 5.0, 1e-12));
}

#[test]
fn random_invertible_2x2() {
    let mut r = rng();
    for _ in 0..50 {
        let (a, b, c, d) = (
            r.next().unwrap(),
            r.next().unwrap(),
            r.next().unwrap(),
            r.next().unwrap(),
        );
        let m = Matrix2::new(fs2([[a, b], [c, d]])) + Matrix2::identity();
        let inv = m.inverse().unwrap();
        let prod = m * inv;
        for i in 0..2 {
            for j in 0..2 {
                let want = if i == j { 1.0 } else { 0.0 };
                assert!(
                    close(prod.data[i][j].0, want, 1e-9),
                    "entry {i},{j} = {}",
                    prod.data[i][j].0
                );
            }
        }
        assert!(close(m.determinant().0 * inv.determinant().0, 1.0, 1e-8));
    }
}

#[test]
fn random_invertible_3x3() {
    let mut r = rng();
    for _ in 0..30 {
        let mut m = Matrix3::<F>::identity();
        for i in 0..3 {
            for j in 0..3 {
                m.data[i][j] = F(r.next().unwrap());
            }
        }
        m = m + Matrix3::identity();
        let inv = m.inverse().unwrap();
        let prod = m * inv;
        for i in 0..3 {
            for j in 0..3 {
                let want = if i == j { 1.0 } else { 0.0 };
                assert!(close(prod.data[i][j].0, want, 1e-8), "entry {i},{j}");
            }
        }
    }
}

#[test]
fn random_invertible_4x4() {
    let mut r = rng();
    for _ in 0..20 {
        let mut m = Matrix4::<F>::identity();
        for i in 0..4 {
            for j in 0..4 {
                m.data[i][j] = F(if i == j {
                    1.0 + r.next().unwrap()
                } else {
                    r.next().unwrap()
                });
            }
        }
        let inv = m.inverse().unwrap();
        let prod = m * inv;
        for i in 0..4 {
            for j in 0..4 {
                let want = if i == j { 1.0 } else { 0.0 };
                assert!(close(prod.data[i][j].0, want, 1e-7), "entry {i},{j}");
            }
        }
    }
}

#[test]
fn singular_is_none() {
    let m = Matrix2::new(fs2([[1.0, 2.0], [2.0, 4.0]]));
    assert!(m.inverse().is_none());
    assert!(close(m.determinant().0, 0.0, 1e-12));
}

#[test]
fn from_columns_and_array() {
    let cols = [Vector2::new(fs([1.0, 2.0])), Vector2::new(fs([3.0, 4.0]))];
    let m = Matrix2::from_columns(&cols).unwrap();
    assert_eq!(un2(m.data), [[1.0, 3.0], [2.0, 4.0]]);
    let a = Matrix2::from_array(&fs([1.0, 2.0, 3.0, 4.0]));
    assert_eq!(un2(a.data), [[1.0, 2.0], [3.0, 4.0]]);
    assert!(Matrix2::from_columns(&cols[0..1]).is_none());
}
