use tpt_math::scalar::Scalar;

/// An `f64` as a library scalar.
#[derive(Clone, Copy, Debug, PartialEq)]
struct F(f64);

impl Scalar for F {
    fn zero() -> F {
        F(0.0)
    }
    fn one() -> F {
        F(1.0)
    }
    fn from_int(n: i64) -> F {
        F(n as f64)
    }
    fn from_u64(n: u64) -> F {
        F(n as f64)
    }
    fn plus(self, rhs: F) -> F {
        F(self.0 + rhs.0)
    }
    fn minus(self, rhs: F) -> F {
        F(self.0 - rhs.0)
    }
    fn times(self, rhs: F) -> F {
        F(self.0 * rhs.0)
    }
    fn divide(self, rhs: F) -> F {
        F(self.0 / rhs.0)
    }
    fn negate(self) -> F {
        F(-self.0)
    }
    fn abs(self) -> F {
        F(self.0.abs())
    }
    fn sqrt(self) -> F {
        F(self.0.sqrt())
    }
    fn sin(self) -> F {
        F(self.0.sin())
    }
    fn cos(self) -> F {
        F(self.0.cos())
    }
    fn tan(self) -> F {
        F(self.0.tan())
    }
    fn acos(self) -> F {
        F(self.0.acos())
    }
    fn atan2(self, other: F) -> F {
        F(self.0.atan2(other.0))
    }
    fn exp(self) -> F {
        F(self.0.exp())
    }
    fn ln(self) -> F {
        F(self.0.ln())
    }
    fn lt(self, rhs: F) -> bool {
        self.0 < rhs.0
    }
    fn le(self, rhs: F) -> bool {
        self.0 <= rhs.0
    }
    fn eq(self, rhs: F) -> bool {
        self.0 == rhs.0
    }
    fn is_finite(self) -> bool {
        self.0.is_finite()
    }
    fn min(self, rhs: F) -> F {
        F(self.0.min(rhs.0))
    }
    fn max(self, rhs: F) -> F {
        F(self.0.max(rhs.0))
    }
    fn powi(self, n: i32) -> F {
        F(self.0.powi(n))
    }
    fn powf(self, p: F) -> F {
        F(self.0.powf(p.0))
    }
    fn floor(self) -> F {
        F(self.0.floor())
    }
    fn infinity() -> F {
        F(f64::INFINITY)
    }
    fn pi() -> F {
        F(std::f64::consts::PI)
    }
    fn e() -> F {
        F(std::f64::consts::E)
    }
    // The specification functions mirror the operations above.
    fn zero_spec() -> F {
        F::zero()
    }
    fn one_spec() -> F {
        F::one()
    }
    fn from_int_spec(n: i64) -> F {
        F::from_int(n)
    }
    fn from_u64_spec(n: u64) -> F {
        F::from_u64(n)
    }
    fn plus_spec(self, rhs: F) -> F {
        self.plus(rhs)
    }
    fn minus_spec(self, rhs: F) -> F {
        self.minus(rhs)
    }
    fn times_spec(self, rhs: F) -> F {
        self.times(rhs)
    }
    fn divide_spec(self, rhs: F) -> F {
        self.divide(rhs)
    }
    fn negate_spec(self) -> F {
        self.negate()
    }
    fn abs_spec(self) -> F {
        Scalar::abs(self)
    }
    fn sqrt_spec(self) -> F {
        Scalar::sqrt(self)
    }
    fn sin_spec(self) -> F {
        Scalar::sin(self)
    }
    fn cos_spec(self) -> F {
        Scalar::cos(self)
    }
    fn tan_spec(self) -> F {
        Scalar::tan(self)
    }
    fn acos_spec(self) -> F {
        Scalar::acos(self)
    }
    fn atan2_spec(self, other: F) -> F {
        Scalar::atan2(self, other)
    }
    fn exp_spec(self) -> F {
        Scalar::exp(self)
    }
    fn ln_spec(self) -> F {
        Scalar::ln(self)
    }
    fn lt_spec(self, rhs: F) -> bool {
        Scalar::lt(self, rhs)
    }
    fn le_spec(self, rhs: F) -> bool {
        Scalar::le(self, rhs)
    }
    fn eq_spec(self, rhs: F) -> bool {
        Scalar::eq(self, rhs)
    }
    fn is_finite_spec(self) -> bool {
        Scalar::is_finite(self)
    }
    fn min_spec(self, rhs: F) -> F {
        Scalar::min(self, rhs)
    }
    fn max_spec(self, rhs: F) -> F {
        Scalar::max(self, rhs)
    }
    fn powi_spec(self, n: i32) -> F {
        Scalar::powi(self, n)
    }
    fn powf_spec(self, p: F) -> F {
        Scalar::powf(self, p)
    }
    fn floor_spec(self) -> F {
        Scalar::floor(self)
    }
    fn infinity_spec() -> F {
        <F as Scalar>::infinity()
    }
    fn pi_spec() -> F {
        <F as Scalar>::pi()
    }
    fn e_spec() -> F {
        <F as Scalar>::e()
    }
}

use tpt_math::geometry::{
    Isometry3, Orthographic3, Perspective3, Point2, Point3, Quaternion, Rotation, Rotation2,
    Rotation3, Scale, Similarity, Translation, UnitQuaternion,
};
use tpt_math::linalg_fixed::{Vector2, Vector3, Vector4};

type Similarity2<T> = Similarity<T, 2>;
type Scale3<T> = Scale<T, 3>;

fn v2(a: f64, b: f64) -> Vector2<F> {
    Vector2::new([F(a), F(b)])
}

fn v3(a: f64, b: f64, c: f64) -> Vector3<F> {
    Vector3::new([F(a), F(b), F(c)])
}

fn v4(a: f64, b: f64, c: f64, d: f64) -> Vector4<F> {
    Vector4::new([F(a), F(b), F(c), F(d)])
}

fn un<const N: usize>(a: [F; N]) -> [f64; N] {
    a.map(|x| x.0)
}

fn close(a: f64, b: f64, tol: f64) -> bool {
    (a - b).abs() < tol
}

#[test]
fn point_vector_arithmetic() {
    let p = Point3::new(v3(1.0, 2.0, 3.0));
    let v = v3(1.0, 0.0, -1.0);
    let q = p + v;
    assert_eq!(un(q.coords.data), [2.0, 2.0, 2.0]);
    let w = q - p;
    assert_eq!(un(w.data), [1.0, 0.0, -1.0]);
    assert!(close(p.distance(&Point3::new(v3(1.0, 2.0, 6.0))).0, 3.0, 1e-12));
}

#[test]
fn translation_composition_and_inverse() {
    let t1 = Translation::new(v2(1.0, 0.0));
    let t2 = Translation::new(v2(0.0, 2.0));
    let p = Point2::new(v2(0.0, 0.0));
    let q = (t2 * t1).transform_point(&p);
    assert_eq!(un(q.coords.data), [1.0, 2.0]);
    let back = t1.inverse().transform_point(&q);
    assert_eq!(un(back.coords.data), [0.0, 2.0]);
}

#[test]
fn rotation2_known_values() {
    let r90 = Rotation2::<F>::from_angle(F(std::f64::consts::FRAC_PI_2));
    let v = v2(1.0, 0.0);
    let rv = r90.transform_vector(&v);
    assert!(close(rv.data[0].0, 0.0, 1e-12));
    assert!(close(rv.data[1].0, 1.0, 1e-12));
    let id = (*r90.matrix()) * (*r90.inverse().matrix());
    for i in 0..2 {
        for j in 0..2 {
            assert!(close(id.data[i][j].0, if i == j { 1.0 } else { 0.0 }, 1e-12));
        }
    }
}

#[test]
fn rotation3_axis_known_values() {
    let rz90 = Rotation3::<F>::from_axis_angle(&v3(0.0, 0.0, 1.0), F(std::f64::consts::FRAC_PI_2));
    let v = v3(1.0, 0.0, 0.0);
    let rv = rz90.transform_vector(&v);
    assert!(close(rv.data[0].0, 0.0, 1e-12));
    assert!(close(rv.data[1].0, 1.0, 1e-12));
    assert!(close(rv.data[2].0, 0.0, 1e-12));

    let rz180 = Rotation3::<F>::from_axis_angle(&v3(0.0, 0.0, 1.0), F(std::f64::consts::PI));
    let rv2 = rz180.transform_vector(&v);
    assert!(close(rv2.data[0].0, -1.0, 1e-12));
    assert!(close(rv2.data[1].0, 0.0, 1e-12));
}

#[test]
fn rotation3_from_matrix_roundtrip() {
    let r = Rotation3::<F>::from_axis_angle(&v3(1.0, 1.0, 1.0), F(std::f64::consts::FRAC_PI_3));
    let rebuilt = Rotation::from_matrix(*r.matrix()).unwrap();
    for i in 0..3 {
        for j in 0..3 {
            assert!(
                close(rebuilt.matrix().data[i][j].0, r.matrix().data[i][j].0, 1e-10),
                "entry {i},{j}"
            );
        }
    }
}

#[test]
fn quaternion_vector_rotation() {
    let q = UnitQuaternion::<F>::from_axis_angle(&v3(0.0, 0.0, 1.0), F(std::f64::consts::FRAC_PI_2));
    let v = v3(1.0, 0.0, 0.0);
    let rv = q.rotate_vector(&v);
    assert!(close(rv.data[0].0, 0.0, 1e-12));
    assert!(close(rv.data[1].0, 1.0, 1e-12));
    assert!(close(rv.data[2].0, 0.0, 1e-12));
}

#[test]
fn rotation3_quaternion_roundtrip() {
    let r = Rotation3::<F>::from_axis_angle(&v3(1.0, 2.0, 3.0), F(std::f64::consts::FRAC_PI_4));
    let q = UnitQuaternion::from_rotation_matrix(&r);
    let r2 = q.to_rotation_matrix();
    for i in 0..3 {
        for j in 0..3 {
            assert!(
                close(r2.matrix().data[i][j].0, r.matrix().data[i][j].0, 1e-10),
                "entry {i},{j}"
            );
        }
    }
    let q2 = UnitQuaternion::from_rotation_matrix(&r2);
    let dot = q.quaternion().coords.dot(&q2.quaternion().coords).0.abs();
    assert!(close(dot, 1.0, 1e-10), "quaternion double-roundtrip");
}

#[test]
fn isometry_composition_inverse_identity() {
    let rot = Rotation3::<F>::from_axis_angle(&v3(0.0, 0.0, 1.0), F(std::f64::consts::FRAC_PI_2));
    let iso = Isometry3::new(Translation::new(v3(1.0, 2.0, 3.0)), rot);
    let inv = iso.inverse();
    let composed = inv * iso;
    let id = Isometry3::<F>::identity();
    for i in 0..3 {
        for j in 0..3 {
            assert!(close(
                composed.rotation.matrix().data[i][j].0,
                id.rotation.matrix().data[i][j].0,
                1e-10
            ));
        }
    }
    for i in 0..3 {
        assert!(close(composed.translation.vector.data[i].0, 0.0, 1e-10));
    }

    let p = Point3::new(v3(3.0, 1.0, 0.5));
    let q = iso.transform_point(&p);
    let back = inv.transform_point(&q);
    for i in 0..3 {
        assert!(close(back.coords.data[i].0, p.coords.data[i].0, 1e-9), "coord {i}");
    }
}

#[test]
fn similarity_inverse_recovers_point() {
    let rot = Rotation2::<F>::from_angle(F(std::f64::consts::FRAC_PI_2));
    let sim = Similarity2::new(F(2.0), Translation::new(v2(1.0, 1.0)), rot);
    let p = Point2::new(v2(1.0, 0.0));
    let q = sim.transform_point(&p);
    let back = sim.inverse().transform_point(&q);
    assert!(close(back.coords.data[0].0, 1.0, 1e-10));
    assert!(close(back.coords.data[1].0, 0.0, 1e-10));
}

#[test]
fn scale_inverse() {
    let s = Scale3::new(v3(2.0, 3.0, 4.0));
    let p = Point3::new(v3(1.0, 1.0, 1.0));
    let q = s.transform_point(&p);
    assert_eq!(un(q.coords.data), [2.0, 3.0, 4.0]);
    let back = s.inverse().transform_point(&q);
    assert!(close(back.coords.data[0].0, 1.0, 1e-12));
}

#[test]
fn perspective_maps_known_depth() {
    let proj = Perspective3::<F>::from_fov(F(1.0), F(std::f64::consts::FRAC_PI_2), F(1.0), F(10.0));
    let view = v4(0.0, 0.0, -1.0, 1.0);
    let clip = *proj.matrix() * view;
    assert!(close(clip.data[3].0, 1.0, 1e-12));
    assert!(close(clip.data[2].0 / clip.data[3].0, -1.0, 1e-12));
    let view2 = v4(0.0, 0.0, -10.0, 1.0);
    let clip2 = *proj.matrix() * view2;
    assert!(close(clip2.data[2].0 / clip2.data[3].0, 1.0, 1e-12));
}

#[test]
fn orthographic_maps_known_depth() {
    let proj = Orthographic3::<F>::from_frustum(F(-1.0), F(1.0), F(-1.0), F(1.0), F(1.0), F(10.0));
    let view = v4(1.0, 1.0, -1.0, 1.0);
    let clip = *proj.matrix() * view;
    assert!(close(clip.data[0].0, 1.0, 1e-12));
    assert!(close(clip.data[1].0, 1.0, 1e-12));
    assert!(close(clip.data[2].0, -1.0, 1e-12));
    let view2 = v4(0.0, 0.0, -10.0, 1.0);
    let clip2 = *proj.matrix() * view2;
    assert!(close(clip2.data[2].0, 1.0, 1e-12));
}

#[test]
fn slerp_half_way() {
    let id = UnitQuaternion::<F>::from_axis_angle(&v3(0.0, 0.0, 1.0), F(0.0));
    let q90 = UnitQuaternion::<F>::from_axis_angle(&v3(0.0, 0.0, 1.0), F(std::f64::consts::FRAC_PI_2));
    let mid = Quaternion::slerp(&id, &q90, F(0.5));
    let expected = UnitQuaternion::<F>::from_axis_angle(&v3(0.0, 0.0, 1.0), F(std::f64::consts::FRAC_PI_4));
    let dot = mid.quaternion().coords.dot(&expected.quaternion().coords).0.abs();
    assert!(close(dot, 1.0, 1e-10), "slerp midpoint");
}

fn m3(rows: [[f64; 3]; 3]) -> tpt_math::linalg_fixed::Matrix3<F> {
    tpt_math::linalg_fixed::Matrix::new(rows.map(|r| r.map(F)))
}

#[test]
fn from_matrix_refuses_a_reflection() {
    let m = tpt_math::linalg_fixed::Matrix::new([[F(1.0), F(0.0)], [F(0.0), F(-1.0)]]);
    assert!(Rotation2::<F>::from_matrix(m).is_none());
    let ok = tpt_math::linalg_fixed::Matrix::new([[F(0.0), F(-1.0)], [F(1.0), F(0.0)]]);
    assert!(Rotation2::<F>::from_matrix(ok).is_some());
}

#[test]
fn zero_axis_gives_the_identity() {
    let r = Rotation3::<F>::from_axis_angle(&v3(0.0, 0.0, 0.0), F(std::f64::consts::PI));
    for i in 0..3 {
        for j in 0..3 {
            assert_eq!(r.matrix().data[i][j].0, if i == j { 1.0 } else { 0.0 });
        }
    }
}

#[test]
fn powf_of_a_half_turn() {
    let r = Rotation3::<F>::from_matrix_unchecked(m3([[-1.0, 0.0, 0.0], [0.0, -1.0, 0.0], [0.0, 0.0, 1.0]]));
    let p1 = r.powf(F(1.0));
    let half = r.powf(F(0.5));
    let twice = half * half;
    for i in 0..3 {
        for j in 0..3 {
            assert!(close(p1.matrix().data[i][j].0, r.matrix().data[i][j].0, 1e-12), "entry {i},{j}");
            assert!(close(twice.matrix().data[i][j].0, r.matrix().data[i][j].0, 1e-12), "entry {i},{j}");
        }
    }
}

#[test]
fn constants_are_available() {
    assert!((F::e().0 - core::f64::consts::E).abs() < 1e-12);
    assert!((F::pi().0 - core::f64::consts::PI).abs() < 1e-12);
}

/// `R R^T` is the identity, to within `tol`.
fn assert_orthogonal(r: &Rotation3<F>, tol: f64) {
    let m = r.matrix().data;
    for i in 0..3 {
        for j in 0..3 {
            let dot: f64 = (0..3).map(|k| m[i][k].0 * m[j][k].0).sum();
            let expect = if i == j { 1.0 } else { 0.0 };
            assert!(close(dot, expect, tol), "entry {i},{j}: {dot}");
        }
    }
}

#[test]
fn every_rotation_constructor_is_orthogonal() {
    let axis_angle = Rotation3::<F>::from_axis_angle(&v3(1.0, -2.0, 0.5), F(0.7));
    assert_orthogonal(&axis_angle, 1e-12);
    assert_orthogonal(&Rotation3::<F>::from_axis_angle(&v3(0.0, 0.0, 0.0), F(0.7)), 1e-15);
    assert_orthogonal(&Rotation3::<F>::from_euler(F(0.3), F(-1.1), F(2.0)), 1e-12);
    let q = UnitQuaternion::<F>::from_axis_angle(&v3(2.0, 1.0, -1.0), F(1.3));
    assert_orthogonal(&Rotation3::<F>::from_quaternion(&q), 1e-12);
    assert_orthogonal(&axis_angle.powf(F(0.25)), 1e-12);
}
