//! Geometry on fixed-size storage: points, translations, rotations (2-D and 3-D), quaternions,
//! isometries, similarities, axis-aligned scalings and projection matrices.
//!
//! Conventions: rotations act on column vectors as `R * v`; the 2-D rotation by a positive
//! angle is counter-clockwise; 3-D Euler angles use the order `Rz(yaw) * Ry(pitch) * Rx(roll)`;
//! quaternions are Hamilton quaternions stored `[x, y, z, w]`; projections are right-handed,
//! look down `-z` and map depth to `[-1, 1]`; isometry composition `B * A` applies `A` first.
use vstd::prelude::*;

use crate::linalg_fixed::{
    dot_seq, identity_rows, mat_mul_spec, mat_vec_spec, norm_seq, rows_of, seq_negate, seq_scale,
    seq_zip, transpose_rows, BinOp, Matrix, Vector,
};
use crate::scalar::{two, two_exec, Scalar};

verus! {

// ===========================================================================
// Point
// ===========================================================================

/// A point in `D`-dimensional Euclidean space.
#[derive(Clone, Copy, Debug, PartialEq, Eq)]
pub struct Point<T, const D: usize> {
    /// The coordinates of the point.
    pub coords: Vector<T, D>,
}

/// The all-zero sequence of length `n`.
pub open spec fn zeros<T: Scalar>(n: nat) -> Seq<T> {
    Seq::new(n, |i: int| T::zero_spec())
}

/// The constant sequence of length `n` with every entry `s`.
pub open spec fn constant_seq<T>(n: nat, s: T) -> Seq<T> {
    Seq::new(n, |i: int| s)
}

/// A vector of length `D` with every component `s`.
fn filled<T: Scalar, const D: usize>(s: T) -> (r: Vector<T, D>)
    ensures
        r.data@ == constant_seq(D as nat, s),
{
    let r = Vector { data: [s; D] };
    assert(r.data@ =~= constant_seq(D as nat, s));
    r
}

impl<T: Scalar, const D: usize> Point<T, D> {
    /// Build a point from its coordinates.
    pub fn new(coords: Vector<T, D>) -> (r: Self)
        ensures
            r.coords == coords,
    {
        Point { coords }
    }

    /// The origin (all coordinates zero).
    pub fn origin() -> (r: Self)
        ensures
            r.coords.data@ == zeros::<T>(D as nat),
    {
        Point { coords: filled(T::zero()) }
    }

    /// Euclidean distance to another point: the norm of the coordinate difference.
    pub fn distance(&self, other: &Point<T, D>) -> (r: T)
        ensures
            r == norm_seq(seq_zip(BinOp::Minus, self.coords.data@, other.coords.data@)),
    {
        core::ops::Sub::sub(self.coords, other.coords).norm()
    }

    /// Translate the point by a vector.
    pub fn translate(&self, by: &Vector<T, D>) -> (r: Point<T, D>)
        ensures
            r.coords.data@ == seq_zip(BinOp::Plus, self.coords.data@, by.data@),
    {
        Point { coords: core::ops::Add::add(self.coords, *by) }
    }
}

impl<T: Copy, const D: usize> Point<T, D> {
    /// Build a point from a fixed-size coordinate array.
    pub fn from_array(data: [T; D]) -> (r: Self)
        ensures
            r.coords.data == data,
    {
        Point { coords: Vector::new(data) }
    }
}

impl<T: Copy> Point<T, 2> {
    /// First coordinate.
    pub fn x(&self) -> (r: T)
        ensures
            r == self.coords.data[0],
    {
        self.coords.data[0]
    }

    /// Second coordinate.
    pub fn y(&self) -> (r: T)
        ensures
            r == self.coords.data[1],
    {
        self.coords.data[1]
    }
}

impl<T: Copy> Point<T, 3> {
    /// First coordinate.
    pub fn x(&self) -> (r: T)
        ensures
            r == self.coords.data[0],
    {
        self.coords.data[0]
    }

    /// Second coordinate.
    pub fn y(&self) -> (r: T)
        ensures
            r == self.coords.data[1],
    {
        self.coords.data[1]
    }

    /// Third coordinate.
    pub fn z(&self) -> (r: T)
        ensures
            r == self.coords.data[2],
    {
        self.coords.data[2]
    }
}

impl<T: Scalar, const D: usize> vstd::std_specs::ops::AddSpecImpl<Vector<T, D>> for Point<T, D> {
    open spec fn obeys_add_spec() -> bool {
        false
    }

    open spec fn add_req(self, rhs: Vector<T, D>) -> bool {
        true
    }

    open spec fn add_spec(self, rhs: Vector<T, D>) -> Point<T, D> {
        arbitrary()
    }
}

impl<T: Scalar, const D: usize> core::ops::Add<Vector<T, D>> for Point<T, D> {
    type Output = Point<T, D>;

    /// Offset the point by a vector.
    fn add(self, rhs: Vector<T, D>) -> (r: Point<T, D>)
        ensures
            r.coords.data@ == seq_zip(BinOp::Plus, self.coords.data@, rhs.data@),
    {
        Point { coords: core::ops::Add::add(self.coords, rhs) }
    }
}

impl<T: Scalar, const D: usize> vstd::std_specs::ops::SubSpecImpl<Vector<T, D>> for Point<T, D> {
    open spec fn obeys_sub_spec() -> bool {
        false
    }

    open spec fn sub_req(self, rhs: Vector<T, D>) -> bool {
        true
    }

    open spec fn sub_spec(self, rhs: Vector<T, D>) -> Point<T, D> {
        arbitrary()
    }
}

impl<T: Scalar, const D: usize> core::ops::Sub<Vector<T, D>> for Point<T, D> {
    type Output = Point<T, D>;

    /// Offset the point by the opposite of a vector.
    fn sub(self, rhs: Vector<T, D>) -> (r: Point<T, D>)
        ensures
            r.coords.data@ == seq_zip(BinOp::Minus, self.coords.data@, rhs.data@),
    {
        Point { coords: core::ops::Sub::sub(self.coords, rhs) }
    }
}

impl<T: Scalar, const D: usize> vstd::std_specs::ops::SubSpecImpl<Point<T, D>> for Point<T, D> {
    open spec fn obeys_sub_spec() -> bool {
        false
    }

    open spec fn sub_req(self, rhs: Point<T, D>) -> bool {
        true
    }

    open spec fn sub_spec(self, rhs: Point<T, D>) -> Vector<T, D> {
        self.coords
    }
}

impl<T: Scalar, const D: usize> core::ops::Sub<Point<T, D>> for Point<T, D> {
    type Output = Vector<T, D>;

    /// The displacement vector from `rhs` to `self`.
    fn sub(self, rhs: Point<T, D>) -> (r: Vector<T, D>)
        ensures
            r.data@ == seq_zip(BinOp::Minus, self.coords.data@, rhs.coords.data@),
    {
        core::ops::Sub::sub(self.coords, rhs.coords)
    }
}

/// 2-D point.
pub type Point2<T> = Point<T, 2>;

/// 3-D point.
pub type Point3<T> = Point<T, 3>;

// ===========================================================================
// Translation
// ===========================================================================

/// A translation in `D`-dimensional space.
#[derive(Clone, Copy, Debug, PartialEq, Eq)]
pub struct Translation<T, const D: usize> {
    /// The translation vector.
    pub vector: Vector<T, D>,
}

impl<T: Scalar, const D: usize> Translation<T, D> {
    /// The shift by `vector`.
    pub fn new(vector: Vector<T, D>) -> (r: Self)
        ensures
            r.vector == vector,
    {
        Translation { vector }
    }

    /// The identity translation (zero vector).
    pub fn identity() -> (r: Self)
        ensures
            r.vector.data@ == zeros::<T>(D as nat),
    {
        Translation { vector: filled(T::zero()) }
    }

    /// The inverse translation: the negated vector.
    pub fn inverse(&self) -> (r: Self)
        ensures
            r.vector.data@ == seq_negate(self.vector.data@),
    {
        Translation { vector: core::ops::Neg::neg(self.vector) }
    }

    /// Apply the translation to a point.
    pub fn transform_point(&self, pt: &Point<T, D>) -> (r: Point<T, D>)
        ensures
            r.coords.data@ == seq_zip(BinOp::Plus, pt.coords.data@, self.vector.data@),
    {
        core::ops::Add::add(*pt, self.vector)
    }

    /// Apply the translation to a vector: vectors are translation invariant.
    pub fn transform_vector(&self, vec: &Vector<T, D>) -> (r: Vector<T, D>)
        ensures
            r == *vec,
    {
        *vec
    }
}

impl<T: Scalar, const D: usize> vstd::std_specs::ops::MulSpecImpl for Translation<T, D> {
    open spec fn obeys_mul_spec() -> bool {
        false
    }

    open spec fn mul_req(self, rhs: Translation<T, D>) -> bool {
        true
    }

    open spec fn mul_spec(self, rhs: Translation<T, D>) -> Translation<T, D> {
        arbitrary()
    }
}

impl<T: Scalar, const D: usize> core::ops::Mul for Translation<T, D> {
    type Output = Translation<T, D>;

    /// Composition: the sum of the two translation vectors.
    fn mul(self, rhs: Translation<T, D>) -> (r: Translation<T, D>)
        ensures
            r.vector.data@ == seq_zip(BinOp::Plus, self.vector.data@, rhs.vector.data@),
    {
        Translation { vector: core::ops::Add::add(self.vector, rhs.vector) }
    }
}

// ===========================================================================
// Rotation
// ===========================================================================

/// A rotation in `D` dimensions, stored as its rotation matrix: an orthogonal matrix of
/// determinant `+1` (a proper rotation). The constructors are built to keep to that:
/// [`Rotation::from_matrix`] refuses singular matrices and reflections, a zero axis in
/// [`Rotation::from_axis_angle`] gives the identity, and [`Rotation::powf`] reads a half-turn's
/// axis from the symmetric part; [`Rotation::from_matrix_unchecked`] takes the caller's word.
#[derive(Clone, Copy, Debug, PartialEq, Eq)]
pub struct Rotation<T, const D: usize> {
    matrix: Matrix<T, D, D>,
}

impl<T, const D: usize> View for Rotation<T, D> {
    type V = Seq<Seq<T>>;

    /// The rows of the rotation matrix.
    closed spec fn view(&self) -> Seq<Seq<T>> {
        rows_of(self.matrix.data)
    }
}

impl<T: Scalar, const D: usize> Rotation<T, D> {
    /// The identity rotation (the `D x D` identity matrix).
    pub fn identity() -> (r: Self)
        ensures
            r@ == identity_rows::<T>(D as nat),
    {
        Rotation { matrix: Matrix::identity() }
    }

    /// Build a rotation from a matrix without checking that it is a proper rotation.
    pub fn from_matrix_unchecked(matrix: Matrix<T, D, D>) -> (r: Self)
        ensures
            r@ == rows_of(matrix.data),
    {
        Rotation { matrix }
    }

    /// The underlying rotation matrix.
    pub fn matrix(&self) -> (r: &Matrix<T, D, D>)
        ensures
            rows_of(r.data) == self@,
    {
        &self.matrix
    }

    /// The inverse rotation: the matrix transpose.
    pub fn inverse(&self) -> (r: Self)
        ensures
            r@ == transpose_rows(self@, D as nat),
    {
        Rotation { matrix: self.matrix.transpose() }
    }

    /// Rotate a vector: `R * v`.
    pub fn transform_vector(&self, vec: &Vector<T, D>) -> (r: Vector<T, D>)
        ensures
            r.data@ == mat_vec_spec(self@, vec.data@),
    {
        core::ops::Mul::mul(self.matrix, *vec)
    }

    /// Rotate a point about the origin: `R * p`.
    pub fn transform_point(&self, pt: &Point<T, D>) -> (r: Point<T, D>)
        ensures
            r.coords.data@ == mat_vec_spec(self@, pt.coords.data@),
    {
        Point { coords: core::ops::Mul::mul(self.matrix, pt.coords) }
    }
}

/// The rotation matrix of any rotation is `D x D`.
pub proof fn lemma_rotation_square<T, const D: usize>(r: Rotation<T, D>)
    ensures
        r@.len() == D,
        forall|i: int| 0 <= i < D ==> #[trigger] r@[i].len() == D,
{
}

/// Inverting a rotation twice gives back its matrix.
pub proof fn lemma_rotation_inverse_involution<T, const D: usize>(r: Rotation<T, D>)
    ensures
        transpose_rows(transpose_rows(r@, D as nat), D as nat) == r@,
{
    lemma_rotation_square(r);
    crate::linalg_fixed::lemma_transpose_involution(r@, D as nat, D as nat);
}

impl<T: Scalar, const D: usize> vstd::std_specs::ops::MulSpecImpl for Rotation<T, D> {
    open spec fn obeys_mul_spec() -> bool {
        false
    }

    open spec fn mul_req(self, rhs: Rotation<T, D>) -> bool {
        true
    }

    open spec fn mul_spec(self, rhs: Rotation<T, D>) -> Rotation<T, D> {
        arbitrary()
    }
}

impl<T: Scalar, const D: usize> core::ops::Mul for Rotation<T, D> {
    type Output = Rotation<T, D>;

    /// Composition: the product of the rotation matrices.
    fn mul(self, rhs: Rotation<T, D>) -> (r: Rotation<T, D>)
        ensures
            r@ == mat_mul_spec(self@, rhs@, D as nat),
    {
        Rotation { matrix: core::ops::Mul::mul(self.matrix, rhs.matrix) }
    }
}

impl<T: Scalar, const D: usize> vstd::std_specs::ops::MulSpecImpl<Vector<T, D>> for Rotation<T, D> {
    open spec fn obeys_mul_spec() -> bool {
        false
    }

    open spec fn mul_req(self, rhs: Vector<T, D>) -> bool {
        true
    }

    open spec fn mul_spec(self, rhs: Vector<T, D>) -> Vector<T, D> {
        rhs
    }
}

impl<T: Scalar, const D: usize> core::ops::Mul<Vector<T, D>> for Rotation<T, D> {
    type Output = Vector<T, D>;

    /// Rotate a vector: `R * v`.
    fn mul(self, rhs: Vector<T, D>) -> (r: Vector<T, D>)
        ensures
            r.data@ == mat_vec_spec(self@, rhs.data@),
    {
        core::ops::Mul::mul(self.matrix, rhs)
    }
}

/// 2-D rotation.
pub type Rotation2<T> = Rotation<T, 2>;

/// 3-D rotation.
pub type Rotation3<T> = Rotation<T, 3>;

/// The unit direction of `axis` used by the axis-angle constructors: each component divided
/// by the norm, or all zeros when the norm is zero.
pub open spec fn unit_axis<T: Scalar>(axis: Seq<T>) -> Seq<T> {
    let n = norm_seq(axis);
    if n.eq_spec(T::zero_spec()) {
        seq![T::zero_spec(), T::zero_spec(), T::zero_spec()]
    } else {
        seq![axis[0].divide_spec(n), axis[1].divide_spec(n), axis[2].divide_spec(n)]
    }
}

/// The Rodrigues rotation matrix about the unit direction `k` by `angle`, as rows.
pub open spec fn rodrigues_rows<T: Scalar>(k: Seq<T>, angle: T) -> Seq<Seq<T>> {
    let s = angle.sin_spec();
    let c = angle.cos_spec();
    let t = T::one_spec().minus_spec(c);
    let (kx, ky, kz) = (k[0], k[1], k[2]);
    seq![
        seq![
            c.plus_spec(t.times_spec(kx).times_spec(kx)),
            t.times_spec(kx).times_spec(ky).minus_spec(s.times_spec(kz)),
            t.times_spec(kx).times_spec(kz).plus_spec(s.times_spec(ky)),
        ],
        seq![
            t.times_spec(ky).times_spec(kx).plus_spec(s.times_spec(kz)),
            c.plus_spec(t.times_spec(ky).times_spec(ky)),
            t.times_spec(ky).times_spec(kz).minus_spec(s.times_spec(kx)),
        ],
        seq![
            t.times_spec(kz).times_spec(kx).minus_spec(s.times_spec(ky)),
            t.times_spec(kz).times_spec(ky).plus_spec(s.times_spec(kx)),
            c.plus_spec(t.times_spec(kz).times_spec(kz)),
        ],
    ]
}

/// The matrix of the 3-D rotation by `angle` about `axis`, as rows.
pub open spec fn axis_angle_rows<T: Scalar>(axis: Seq<T>, angle: T) -> Seq<Seq<T>> {
    if norm_seq(axis).eq_spec(T::zero_spec()) {
        identity_rows(3)
    } else {
        rodrigues_rows(unit_axis(axis), angle)
    }
}

/// The unit vector along coordinate axis `i` of 3-D space.
pub open spec fn basis3<T: Scalar>(i: int) -> Seq<T> {
    Seq::new(3, |j: int| if i == j { T::one_spec() } else { T::zero_spec() })
}

/// The matrix of the Euler-angle rotation `Rz(yaw) * Ry(pitch) * Rx(roll)`, as rows.
pub open spec fn euler_rows<T: Scalar>(roll: T, pitch: T, yaw: T) -> Seq<Seq<T>> {
    mat_mul_spec(
        mat_mul_spec(axis_angle_rows(basis3(2), yaw), axis_angle_rows(basis3(1), pitch), 3),
        axis_angle_rows(basis3(0), roll),
        3,
    )
}

/// `e` as a 3-D vector.
fn basis3_exec<T: Scalar>(i: usize) -> (r: Vector<T, 3>)
    requires
        i < 3,
    ensures
        r.data@ == basis3::<T>(i as int),
{
    let mut data = [T::zero(); 3];
    data[i] = T::one();
    let r = Vector { data };
    assert(r.data@ =~= basis3::<T>(i as int));
    r
}

/// The rotation angle read from a 3-D rotation matrix by the trace identity:
/// `acos((trace - 1) / 2)`.
pub open spec fn trace_angle<T: Scalar>(m: Seq<Seq<T>>) -> T {
    let tr = m[0][0].plus_spec(m[1][1]).plus_spec(m[2][2]);
    tr.minus_spec(T::one_spec()).divide_spec(two::<T>()).acos_spec()
}

/// The (unnormalised) rotation axis read from the skew-symmetric part of a 3-D rotation
/// matrix.
pub open spec fn skew_axis<T: Scalar>(m: Seq<Seq<T>>) -> Seq<T> {
    seq![m[2][1].minus_spec(m[1][2]), m[0][2].minus_spec(m[2][0]), m[1][0].minus_spec(m[0][1])]
}

/// The rotation axis of a half-turn, read from the symmetric part `(R + I) / 2 = k k^T`:
/// from the row `i` of the largest diagonal entry, `k_i = sqrt((R_ii + 1) / 2)` and
/// `k_j = (R_ij + R_ji) / (4 k_i)`.
pub open spec fn half_turn_axis<T: Scalar>(m: Seq<Seq<T>>) -> Seq<T> {
    let i: int = if m[0][0].lt_spec(m[1][1]) {
        if m[1][1].lt_spec(m[2][2]) {
            2
        } else {
            1
        }
    } else if m[0][0].lt_spec(m[2][2]) {
        2
    } else {
        0
    };
    let tw = two::<T>();
    let ki = m[i][i].plus_spec(T::one_spec()).divide_spec(tw).sqrt_spec();
    Seq::new(3, |j: int| if j == i { ki } else { m[i][j].plus_spec(m[j][i]).divide_spec(tw.times_spec(tw).times_spec(ki)) })
}

/// The axis that [`Rotation::powf`] turns about: the skew-symmetric axis, or, when that is
/// below `10^-12` in norm (a half-turn, where the skew part vanishes), the half-turn axis.
pub open spec fn power_axis<T: Scalar>(m: Seq<Seq<T>>) -> Seq<T> {
    if norm_seq(skew_axis(m)).lt_spec(crate::scalar::tiny::<T>()) {
        half_turn_axis(m)
    } else {
        skew_axis(m)
    }
}

/// The rows of the 2-D rotation by `angle`: `[[c, -s], [s, c]]`.
pub open spec fn angle_rows<T: Scalar>(angle: T) -> Seq<Seq<T>> {
    seq![seq![angle.cos_spec(), angle.sin_spec().negate_spec()], seq![angle.sin_spec(), angle.cos_spec()]]
}

/// The ring and trigonometric facts that orthogonality rests on (they hold of the real
/// numbers): zero is an identity for `+`, `+` and `*` commute, a value plus its negation is
/// zero, negation moves out of products, and `cos^2 + sin^2 = 1`.
pub open spec fn rotation_laws<T: Scalar>() -> bool {
    let z = T::zero_spec();
    &&& forall|a: T| #[trigger] z.plus_spec(a) == a
    &&& forall|a: T, b: T| #[trigger] a.plus_spec(b) == b.plus_spec(a)
    &&& forall|a: T, b: T| #[trigger] a.times_spec(b) == b.times_spec(a)
    &&& forall|a: T| #[trigger] a.plus_spec(a.negate_spec()) == z
    &&& forall|a: T, b: T| #[trigger] a.negate_spec().times_spec(b) == a.times_spec(b).negate_spec()
    &&& forall|a: T, b: T| #[trigger] a.times_spec(b.negate_spec()) == a.times_spec(b).negate_spec()
    &&& forall|a: T, b: T| #[trigger] a.negate_spec().times_spec(b.negate_spec()) == a.times_spec(b)
    &&& forall|x: T|
        #[trigger] x.cos_spec().times_spec(x.cos_spec()).plus_spec(x.sin_spec().times_spec(x.sin_spec())) == T::one_spec()
}

/// A 2-D rotation by an angle is orthogonal: over a scalar type with the facts of
/// [`rotation_laws`], `R R^T = I` for the rows that [`Rotation::from_angle`] builds.
pub proof fn lemma_angle_rows_orthogonal<T: Scalar>(angle: T)
    requires
        rotation_laws::<T>(),
    ensures
        mat_mul_spec(angle_rows(angle), transpose_rows(angle_rows(angle), 2), 2) == identity_rows::<T>(2),
{
    let r = angle_rows(angle);
    let c = angle.cos_spec();
    let s = angle.sin_spec();
    let z = T::zero_spec();
    let o = T::one_spec();
    let rt = transpose_rows(r, 2);
    let m = mat_mul_spec(r, rt, 2);
    assert(crate::linalg_fixed::column(rt, 0) =~= r[0]);
    assert(crate::linalg_fixed::column(rt, 1) =~= r[1]);
    reveal_with_fuel(crate::linalg_fixed::dot_prefix, 3);
    // (0, 0): c c + (-s)(-s) = c c + s s = 1.
    assert(z.plus_spec(c.times_spec(c)) == c.times_spec(c));
    assert(s.negate_spec().times_spec(s.negate_spec()) == s.times_spec(s));
    assert(c.times_spec(c).plus_spec(s.times_spec(s)) == o);
    assert(m[0][0] == o);
    // (0, 1): c s + (-s) c = c s - c s = 0.
    assert(z.plus_spec(c.times_spec(s)) == c.times_spec(s));
    assert(s.negate_spec().times_spec(c) == s.times_spec(c).negate_spec());
    assert(s.times_spec(c) == c.times_spec(s));
    assert(c.times_spec(s).plus_spec(c.times_spec(s).negate_spec()) == z);
    assert(m[0][1] == z);
    // (1, 0): s c + c (-s) = s c - s c = 0.
    assert(z.plus_spec(s.times_spec(c)) == s.times_spec(c));
    assert(c.times_spec(s.negate_spec()) == c.times_spec(s).negate_spec());
    assert(s.times_spec(c).plus_spec(s.times_spec(c).negate_spec()) == z);
    assert(m[1][0] == z);
    // (1, 1): s s + c c = 1.
    assert(z.plus_spec(s.times_spec(s)) == s.times_spec(s));
    assert(s.times_spec(s).plus_spec(c.times_spec(c)) == c.times_spec(c).plus_spec(s.times_spec(s)));
    assert(m[1][1] == o);
    assert(m =~= identity_rows::<T>(2)) by {
        assert(m[0] =~= identity_rows::<T>(2)[0]);
        assert(m[1] =~= identity_rows::<T>(2)[1]);
    }
}

impl<T: Scalar> Rotation<T, 2> {
    /// The 2-D rotation by `angle` radians (counter-clockwise for a positive angle): the
    /// matrix `[[c, -s], [s, c]]`.
    pub fn from_angle(angle: T) -> (r: Self)
        ensures
            r@ == angle_rows(angle),
    {
        let s = angle.sin();
        let c = angle.cos();
        let r = Rotation { matrix: Matrix::new([[c, s.negate()], [s, c]]) };
        assert(r@ =~= seq![
            seq![angle.cos_spec(), angle.sin_spec().negate_spec()],
            seq![angle.sin_spec(), angle.cos_spec()],
        ]);
        r
    }
}

/// Computes [`unit_axis`].
fn unit_axis_exec<T: Scalar>(axis: &Vector<T, 3>) -> (r: [T; 3])
    ensures
        r@ == unit_axis(axis.data@),
{
    let n = axis.norm();
    let r = if n.eq(T::zero()) {
        [T::zero(), T::zero(), T::zero()]
    } else {
        [axis.data[0].divide(n), axis.data[1].divide(n), axis.data[2].divide(n)]
    };
    assert(r@ =~= unit_axis(axis.data@));
    r
}

impl<T: Scalar> Rotation<T, 3> {
    /// The 3-D rotation of `angle` radians about `axis` (normalised internally), by
    /// Rodrigues' formula; a zero axis names no rotation axis and gives the identity.
    pub fn from_axis_angle(axis: &Vector<T, 3>, angle: T) -> (r: Self)
        ensures
            r@ == axis_angle_rows(axis.data@, angle),
    {
        if axis.norm().eq(T::zero()) {
            let r = Self::identity();
            assert(r@ =~= identity_rows::<T>(3));
            return r;
        }
        let k = unit_axis_exec(axis);
        let (kx, ky, kz) = (k[0], k[1], k[2]);
        let s = angle.sin();
        let c = angle.cos();
        let t = T::one().minus(c);
        let m = [
            [
                c.plus(t.times(kx).times(kx)),
                t.times(kx).times(ky).minus(s.times(kz)),
                t.times(kx).times(kz).plus(s.times(ky)),
            ],
            [
                t.times(ky).times(kx).plus(s.times(kz)),
                c.plus(t.times(ky).times(ky)),
                t.times(ky).times(kz).minus(s.times(kx)),
            ],
            [
                t.times(kz).times(kx).minus(s.times(ky)),
                t.times(kz).times(ky).plus(s.times(kx)),
                c.plus(t.times(kz).times(kz)),
            ],
        ];
        let r = Rotation { matrix: Matrix::new(m) };
        assert(r@ =~= axis_angle_rows(axis.data@, angle)) by {
            assert(r@[0] =~= axis_angle_rows(axis.data@, angle)[0]);
            assert(r@[1] =~= axis_angle_rows(axis.data@, angle)[1]);
            assert(r@[2] =~= axis_angle_rows(axis.data@, angle)[2]);
        }
        r
    }

    /// The rotation of the Euler angles `(roll, pitch, yaw)` in the order
    /// `Rz(yaw) * Ry(pitch) * Rx(roll)`.
    pub fn from_euler(roll: T, pitch: T, yaw: T) -> (r: Self)
        ensures
            r@ == euler_rows(roll, pitch, yaw),
    {
        let rx = Self::from_axis_angle(&basis3_exec(0), roll);
        let ry = Self::from_axis_angle(&basis3_exec(1), pitch);
        let rz = Self::from_axis_angle(&basis3_exec(2), yaw);
        core::ops::Mul::mul(core::ops::Mul::mul(rz, ry), rx)
    }

    /// The rotation raised to the power `t`: the trace identity gives the angle
    /// `acos((trace - 1) / 2)`; below `10^-12` the rotation itself is returned, else the
    /// rotation by `angle * t` about the rotation axis (see [`power_axis`]: the
    /// skew-symmetric axis, or for a half-turn the axis from the symmetric part).
    pub fn powf(&self, t: T) -> (r: Rotation<T, 3>)
        ensures
            trace_angle(self@).lt_spec(crate::scalar::tiny::<T>()) ==> r == *self,
            !trace_angle(self@).lt_spec(crate::scalar::tiny::<T>()) ==> r@ == axis_angle_rows(
                power_axis(self@),
                trace_angle(self@).times_spec(t),
            ),
    {
        let m = self.matrix.data;
        assert(self@[0] == m[0]@ && self@[1] == m[1]@ && self@[2] == m[2]@);
        let tr = m[0][0].plus(m[1][1]).plus(m[2][2]);
        let cos_t = tr.minus(T::one()).divide(two_exec());
        let angle = cos_t.acos();
        if angle.lt(crate::scalar::tiny_exec()) {
            return *self;
        }
        let x = m[2][1].minus(m[1][2]);
        let y = m[0][2].minus(m[2][0]);
        let z = m[1][0].minus(m[0][1]);
        let skew = Vector::new([x, y, z]);
        assert(skew.data@ =~= skew_axis(self@));
        if !skew.norm().lt(crate::scalar::tiny_exec()) {
            return Self::from_axis_angle(&skew, angle.times(t));
        }
        let i: usize = if m[0][0].lt(m[1][1]) {
            if m[1][1].lt(m[2][2]) {
                2
            } else {
                1
            }
        } else if m[0][0].lt(m[2][2]) {
            2
        } else {
            0
        };
        let tw = two_exec::<T>();
        let ki = m[i][i].plus(T::one()).divide(tw).sqrt();
        let four_ki = tw.times(tw).times(ki);
        let ghost expect = Seq::new(
            3,
            |q: int| if q == i { ki } else { m[i as int][q].plus_spec(m[q][i as int]).divide_spec(four_ki) },
        );
        assert(half_turn_axis(self@) =~= expect);
        let mut k = [ki, ki, ki];
        for j in 0..3usize
            invariant
                i < 3,
                half_turn_axis(self@) == expect,
                expect == Seq::new(
                    3,
                    |q: int| if q == i { ki } else { m[i as int][q].plus_spec(m[q][i as int]).divide_spec(four_ki) },
                ),
                forall|q: int| 0 <= q < j ==> #[trigger] k[q] == half_turn_axis(self@)[q],
                forall|q: int| j <= q < 3 ==> #[trigger] k[q] == ki,
                ki == half_turn_axis(self@)[i as int],
                four_ki == two::<T>().times_spec(two::<T>()).times_spec(ki),
                m == self.matrix.data,
                self@[0] == m[0]@ && self@[1] == m[1]@ && self@[2] == m[2]@,
        {
            if j != i {
                k[j] = m[i][j].plus(m[j][i]).divide(four_ki);
            }
        }
        let axis = Vector::new(k);
        assert(axis.data@ =~= half_turn_axis(self@));
        Self::from_axis_angle(&axis, angle.times(t))
    }
}

// ===========================================================================
// Quaternion
// ===========================================================================

/// A quaternion `q = w + x i + y j + z k` (Hamilton convention), stored `[x, y, z, w]`.
#[derive(Clone, Copy, Debug, PartialEq, Eq)]
pub struct Quaternion<T> {
    /// Components `[x, y, z, w]` (scalar `w` last).
    pub coords: Vector<T, 4>,
}

/// The Hamilton product `a * b` of two quaternions given as `[x, y, z, w]`.
pub open spec fn quat_mul<T: Scalar>(a: Seq<T>, b: Seq<T>) -> Seq<T> {
    let (x1, y1, z1, w1) = (a[0], a[1], a[2], a[3]);
    let (x2, y2, z2, w2) = (b[0], b[1], b[2], b[3]);
    seq![
        w1.times_spec(x2).plus_spec(x1.times_spec(w2)).plus_spec(y1.times_spec(z2)).minus_spec(z1.times_spec(y2)),
        w1.times_spec(y2).minus_spec(x1.times_spec(z2)).plus_spec(y1.times_spec(w2)).plus_spec(z1.times_spec(x2)),
        w1.times_spec(z2).plus_spec(x1.times_spec(y2)).minus_spec(y1.times_spec(x2)).plus_spec(z1.times_spec(w2)),
        w1.times_spec(w2).minus_spec(x1.times_spec(x2)).minus_spec(y1.times_spec(y2)).minus_spec(z1.times_spec(z2)),
    ]
}

/// The conjugate `[-x, -y, -z, w]`.
pub open spec fn quat_conj<T: Scalar>(q: Seq<T>) -> Seq<T> {
    seq![q[0].negate_spec(), q[1].negate_spec(), q[2].negate_spec(), q[3]]
}

/// `q` scaled to unit norm (each component times `1 / norm`), or `None` when the norm is
/// zero.
pub open spec fn quat_normalize<T: Scalar>(q: Seq<T>) -> Option<Seq<T>> {
    let n = norm_seq(q);
    if n.eq_spec(T::zero_spec()) {
        None
    } else {
        Some(seq_scale(BinOp::Times, q, T::one_spec().divide_spec(n)))
    }
}

/// The vector `v` rotated by `q`, computed as `q * (0, v) * conj(q)`.
pub open spec fn quat_rotate<T: Scalar>(q: Seq<T>, v: Seq<T>) -> Seq<T> {
    let (vx, vy, vz) = (v[0], v[1], v[2]);
    let (qx, qy, qz, qw) = (q[0], q[1], q[2], q[3]);
    let pw = qx.times_spec(vx).plus_spec(qy.times_spec(vy)).plus_spec(qz.times_spec(vz)).negate_spec();
    let px = qw.times_spec(vx).plus_spec(qy.times_spec(vz).minus_spec(qz.times_spec(vy)));
    let py = qw.times_spec(vy).plus_spec(qz.times_spec(vx).minus_spec(qx.times_spec(vz)));
    let pz = qw.times_spec(vz).plus_spec(qx.times_spec(vy).minus_spec(qy.times_spec(vx)));
    let c = quat_conj(q);
    let npw = pw.negate_spec();
    seq![
        npw.times_spec(c[0]).plus_spec(c[3].times_spec(px)).minus_spec(c[1].times_spec(pz)).plus_spec(c[2].times_spec(py)),
        npw.times_spec(c[1]).plus_spec(c[3].times_spec(py)).minus_spec(c[2].times_spec(px)).plus_spec(c[0].times_spec(pz)),
        npw.times_spec(c[2]).plus_spec(c[3].times_spec(pz)).minus_spec(c[0].times_spec(py)).plus_spec(c[1].times_spec(px)),
    ]
}

/// The (not yet normalised) quaternion that [`Quaternion::from_rotation_matrix`] reads from
/// a 3-D rotation matrix, by the branch on the trace and the largest diagonal entry.
pub open spec fn matrix_quat<T: Scalar>(m: Seq<Seq<T>>) -> Seq<T> {
    let one = T::one_spec();
    let two = two::<T>();
    let trace = m[0][0].plus_spec(m[1][1]).plus_spec(m[2][2]);
    if T::zero_spec().lt_spec(trace) {
        let s = trace.plus_spec(one).sqrt_spec().divide_spec(two);
        let inv = one.divide_spec(two.times_spec(two).times_spec(s));
        seq![
            m[2][1].minus_spec(m[1][2]).times_spec(inv),
            m[0][2].minus_spec(m[2][0]).times_spec(inv),
            m[1][0].minus_spec(m[0][1]).times_spec(inv),
            s,
        ]
    } else if m[1][1].lt_spec(m[0][0]) && m[2][2].lt_spec(m[0][0]) {
        let s = one.plus_spec(m[0][0]).minus_spec(m[1][1]).minus_spec(m[2][2]).sqrt_spec().divide_spec(two);
        let inv = one.divide_spec(two.times_spec(two).times_spec(s));
        seq![
            s,
            m[0][1].plus_spec(m[1][0]).times_spec(inv),
            m[0][2].plus_spec(m[2][0]).times_spec(inv),
            m[2][1].minus_spec(m[1][2]).times_spec(inv),
        ]
    } else if m[2][2].lt_spec(m[1][1]) {
        let s = one.plus_spec(m[1][1]).minus_spec(m[0][0]).minus_spec(m[2][2]).sqrt_spec().divide_spec(two);
        let inv = one.divide_spec(two.times_spec(two).times_spec(s));
        seq![
            m[0][1].plus_spec(m[1][0]).times_spec(inv),
            s,
            m[1][2].plus_spec(m[2][1]).times_spec(inv),
            m[0][2].minus_spec(m[2][0]).times_spec(inv),
        ]
    } else {
        let s = one.plus_spec(m[2][2]).minus_spec(m[0][0]).minus_spec(m[1][1]).sqrt_spec().divide_spec(two);
        let inv = one.divide_spec(two.times_spec(two).times_spec(s));
        seq![
            m[0][2].plus_spec(m[2][0]).times_spec(inv),
            m[1][2].plus_spec(m[2][1]).times_spec(inv),
            s,
            m[1][0].minus_spec(m[0][1]).times_spec(inv),
        ]
    }
}

/// The other endpoint of the shorter arc: `b`, or `-b` when `a . b < 0`.
pub open spec fn slerp_target<T: Scalar>(a: Seq<T>, b: Seq<T>) -> Seq<T> {
    if dot_seq(a, b).lt_spec(T::zero_spec()) {
        seq_negate(b)
    } else {
        b
    }
}

/// The (not yet normalised) spherical interpolation of `a` and `b` at `t`: linear
/// interpolation when the two are within `10^-12` of parallel, else the `sin`-weighted
/// combination along the shorter arc.
pub open spec fn slerp_quat<T: Scalar>(a: Seq<T>, b: Seq<T>, t: T) -> Seq<T> {
    let d0 = dot_seq(a, b);
    let bq = slerp_target(a, b);
    let dot = if d0.lt_spec(T::zero_spec()) { d0.negate_spec() } else { d0 };
    let one = T::one_spec();
    if one.minus_spec(crate::scalar::tiny::<T>()).lt_spec(dot) {
        Seq::new(4, |i: int| a[i].plus_spec(bq[i].minus_spec(a[i]).times_spec(t)))
    } else {
        let theta0 = dot.acos_spec();
        let theta = theta0.times_spec(t);
        let sin0 = theta0.sin_spec();
        let w1 = if sin0.eq_spec(T::zero_spec()) { one.minus_spec(t) } else { theta0.minus_spec(theta).sin_spec().divide_spec(sin0) };
        let w2 = if sin0.eq_spec(T::zero_spec()) { t } else { theta.sin_spec().divide_spec(sin0) };
        Seq::new(4, |i: int| a[i].times_spec(w1).plus_spec(bq[i].times_spec(w2)))
    }
}

/// The (not yet normalised) quaternion of the rotation by `angle` about `axis`:
/// `[kx s, ky s, kz s, c]` with `k` the unit axis and `(s, c)` the sine and cosine of half
/// the angle.
pub open spec fn axis_angle_quat<T: Scalar>(axis: Seq<T>, angle: T) -> Seq<T> {
    let k = unit_axis(axis);
    let half = angle.divide_spec(two::<T>());
    let (s, c) = (half.sin_spec(), half.cos_spec());
    seq![k[0].times_spec(s), k[1].times_spec(s), k[2].times_spec(s), c]
}

/// The rotation matrix of a unit quaternion given as `[x, y, z, w]`, as rows.
pub open spec fn quat_rows<T: Scalar>(q: Seq<T>) -> Seq<Seq<T>> {
    let (x, y, z, w) = (q[0], q[1], q[2], q[3]);
    let (xx, yy, zz) = (x.times_spec(x), y.times_spec(y), z.times_spec(z));
    let (xy, xz, yz) = (x.times_spec(y), x.times_spec(z), y.times_spec(z));
    let (wx, wy, wz) = (w.times_spec(x), w.times_spec(y), w.times_spec(z));
    let one = T::one_spec();
    let two = two::<T>();
    seq![
        seq![one.minus_spec(two.times_spec(yy.plus_spec(zz))), two.times_spec(xy.minus_spec(wz)), two.times_spec(xz.plus_spec(wy))],
        seq![two.times_spec(xy.plus_spec(wz)), one.minus_spec(two.times_spec(xx.plus_spec(zz))), two.times_spec(yz.minus_spec(wx))],
        seq![two.times_spec(xz.minus_spec(wy)), two.times_spec(yz.plus_spec(wx)), one.minus_spec(two.times_spec(xx.plus_spec(yy)))],
    ]
}

/// Whether `q` can be normalised (its norm is not zero).
pub open spec fn normalizable<T: Scalar>(q: Seq<T>) -> bool {
    quat_normalize(q) is Some
}

impl<T: Scalar> Quaternion<T> {
    /// Build a quaternion from its `[x, y, z, w]` components.
    pub fn new(x: T, y: T, z: T, w: T) -> (r: Self)
        ensures
            r.coords.data@ == seq![x, y, z, w],
    {
        let r = Quaternion { coords: Vector::new([x, y, z, w]) };
        assert(r.coords.data@ =~= seq![x, y, z, w]);
        r
    }

    /// The conjugate `w - x i - y j - z k`.
    pub fn conjugate(&self) -> (r: Self)
        ensures
            r.coords.data@ == quat_conj(self.coords.data@),
    {
        Quaternion::new(
            self.coords.data[0].negate(),
            self.coords.data[1].negate(),
            self.coords.data[2].negate(),
            self.coords.data[3],
        )
    }

    /// The squared norm: the dot product of the components with themselves.
    pub fn norm_squared(&self) -> (r: T)
        ensures
            r == dot_seq(self.coords.data@, self.coords.data@),
    {
        self.coords.dot(&self.coords)
    }

    /// The norm: the square root of the squared norm.
    pub fn norm(&self) -> (r: T)
        ensures
            r == norm_seq(self.coords.data@),
    {
        self.norm_squared().sqrt()
    }

    /// Normalise to a unit quaternion; `None` when the norm is zero.
    pub fn normalize(&self) -> (r: Option<Self>)
        ensures
            r is None <==> quat_normalize(self.coords.data@) is None,
            r matches Some(q) ==> quat_normalize(self.coords.data@) == Some(q.coords.data@),
    {
        let n = self.norm();
        if n.eq(T::zero()) {
            return None;
        }
        let inv = T::one().divide(n);
        let q = Quaternion::new(
            self.coords.data[0].times(inv),
            self.coords.data[1].times(inv),
            self.coords.data[2].times(inv),
            self.coords.data[3].times(inv),
        );
        assert(q.coords.data@ =~= seq_scale(BinOp::Times, self.coords.data@, inv));
        Some(q)
    }

    /// Hamilton product `self * rhs` (`rhs` is applied first, then `self`).
    pub fn multiply(&self, rhs: &Quaternion<T>) -> (r: Quaternion<T>)
        ensures
            r.coords.data@ == quat_mul(self.coords.data@, rhs.coords.data@),
    {
        let (x1, y1, z1, w1) = (self.coords.data[0], self.coords.data[1], self.coords.data[2], self.coords.data[3]);
        let (x2, y2, z2, w2) = (rhs.coords.data[0], rhs.coords.data[1], rhs.coords.data[2], rhs.coords.data[3]);
        Quaternion::new(
            w1.times(x2).plus(x1.times(w2)).plus(y1.times(z2)).minus(z1.times(y2)),
            w1.times(y2).minus(x1.times(z2)).plus(y1.times(w2)).plus(z1.times(x2)),
            w1.times(z2).plus(x1.times(y2)).minus(y1.times(x2)).plus(z1.times(w2)),
            w1.times(w2).minus(x1.times(x2)).minus(y1.times(y2)).minus(z1.times(z2)),
        )
    }

    /// Rotate a 3-D vector by this quaternion: `q * (0, v) * conj(q)`.
    pub fn rotate_vector(&self, v: &Vector<T, 3>) -> (r: Vector<T, 3>)
        ensures
            r.data@ == quat_rotate(self.coords.data@, v.data@),
    {
        let (vx, vy, vz) = (v.data[0], v.data[1], v.data[2]);
        let q = self;
        let pw = q.coords.data[0].times(vx).plus(q.coords.data[1].times(vy)).plus(q.coords.data[2].times(vz)).negate();
        let px = q.coords.data[3].times(vx).plus(q.coords.data[1].times(vz).minus(q.coords.data[2].times(vy)));
        let py = q.coords.data[3].times(vy).plus(q.coords.data[2].times(vx).minus(q.coords.data[0].times(vz)));
        let pz = q.coords.data[3].times(vz).plus(q.coords.data[0].times(vy).minus(q.coords.data[1].times(vx)));
        let c = q.conjugate();
        let npw = pw.negate();
        let rx = npw.times(c.coords.data[0]).plus(c.coords.data[3].times(px)).minus(c.coords.data[1].times(pz)).plus(c.coords.data[2].times(py));
        let ry = npw.times(c.coords.data[1]).plus(c.coords.data[3].times(py)).minus(c.coords.data[2].times(px)).plus(c.coords.data[0].times(pz));
        let rz = npw.times(c.coords.data[2]).plus(c.coords.data[3].times(pz)).minus(c.coords.data[0].times(py)).plus(c.coords.data[1].times(px));
        let r = Vector::new([rx, ry, rz]);
        assert(r.data@ =~= quat_rotate(self.coords.data@, v.data@));
        r
    }

    /// The unit quaternion of a 3-D rotation matrix (the inverse of
    /// [`Rotation::from_quaternion`]): [`matrix_quat`], normalised. The quaternion read
    /// from the matrix must have a non-zero norm.
    pub fn from_rotation_matrix(rot: &Rotation3<T>) -> (r: UnitQuaternion<T>)
        requires
            normalizable(matrix_quat(rot@)),
        ensures
            quat_normalize(matrix_quat(rot@)) == Some(r@),
    {
        let m = rot.matrix().data;
        assert(rot@[0] == m[0]@ && rot@[1] == m[1]@ && rot@[2] == m[2]@);
        let (m00, m01, m02) = (m[0][0], m[0][1], m[0][2]);
        let (m10, m11, m12) = (m[1][0], m[1][1], m[1][2]);
        let (m20, m21, m22) = (m[2][0], m[2][1], m[2][2]);
        let one = T::one();
        let two = one.plus(one);
        let x;
        let y;
        let z;
        let w;
        let trace = m00.plus(m11).plus(m22);
        if T::zero().lt(trace) {
            let s = trace.plus(one).sqrt().divide(two);
            w = s;
            let inv = one.divide(two.times(two).times(s));
            x = m21.minus(m12).times(inv);
            y = m02.minus(m20).times(inv);
            z = m10.minus(m01).times(inv);
        } else if m11.lt(m00) && m22.lt(m00) {
            let s = one.plus(m00).minus(m11).minus(m22).sqrt().divide(two);
            x = s;
            let inv = one.divide(two.times(two).times(s));
            y = m01.plus(m10).times(inv);
            z = m02.plus(m20).times(inv);
            w = m21.minus(m12).times(inv);
        } else if m22.lt(m11) {
            let s = one.plus(m11).minus(m00).minus(m22).sqrt().divide(two);
            y = s;
            let inv = one.divide(two.times(two).times(s));
            x = m01.plus(m10).times(inv);
            z = m12.plus(m21).times(inv);
            w = m02.minus(m20).times(inv);
        } else {
            let s = one.plus(m22).minus(m00).minus(m11).sqrt().divide(two);
            z = s;
            let inv = one.divide(two.times(two).times(s));
            x = m02.plus(m20).times(inv);
            y = m12.plus(m21).times(inv);
            w = m10.minus(m01).times(inv);
        }
        let q = Quaternion::new(x, y, z, w);
        assert(q.coords.data@ =~= matrix_quat(rot@));
        UnitQuaternion::from_quaternion(q)
    }

    /// Spherical linear interpolation between two unit quaternions along the shorter arc
    /// ([`slerp_quat`], normalised). The interpolated quaternion must have a non-zero norm.
    pub fn slerp(a: &UnitQuaternion<T>, b: &UnitQuaternion<T>, t: T) -> (r: UnitQuaternion<T>)
        requires
            normalizable(slerp_quat(a@, b@, t)),
        ensures
            quat_normalize(slerp_quat(a@, b@, t)) == Some(r@),
    {
        let qa = a.quaternion();
        let qb = b.quaternion();
        let d0 = qa.coords.dot(&qb.coords);
        let (bq, dot) = if d0.lt(T::zero()) {
            (
                Quaternion::new(
                    qb.coords.data[0].negate(),
                    qb.coords.data[1].negate(),
                    qb.coords.data[2].negate(),
                    qb.coords.data[3].negate(),
                ),
                d0.negate(),
            )
        } else {
            (*qb, d0)
        };
        assert(bq.coords.data@ =~= slerp_target(a@, b@));
        let one = T::one();
        let eps = crate::scalar::tiny_exec::<T>();
        if one.minus(eps).lt(dot) {
            let r = Quaternion::new(
                qa.coords.data[0].plus(bq.coords.data[0].minus(qa.coords.data[0]).times(t)),
                qa.coords.data[1].plus(bq.coords.data[1].minus(qa.coords.data[1]).times(t)),
                qa.coords.data[2].plus(bq.coords.data[2].minus(qa.coords.data[2]).times(t)),
                qa.coords.data[3].plus(bq.coords.data[3].minus(qa.coords.data[3]).times(t)),
            );
            assert(r.coords.data@ =~= slerp_quat(a@, b@, t));
            return UnitQuaternion::from_quaternion(r);
        }
        let theta0 = dot.acos();
        let theta = theta0.times(t);
        let sin0 = theta0.sin();
        let (w1, w2) = if sin0.eq(T::zero()) {
            (one.minus(t), t)
        } else {
            (theta0.minus(theta).sin().divide(sin0), theta.sin().divide(sin0))
        };
        let r = Quaternion::new(
            qa.coords.data[0].times(w1).plus(bq.coords.data[0].times(w2)),
            qa.coords.data[1].times(w1).plus(bq.coords.data[1].times(w2)),
            qa.coords.data[2].times(w1).plus(bq.coords.data[2].times(w2)),
            qa.coords.data[3].times(w1).plus(bq.coords.data[3].times(w2)),
        );
        assert(r.coords.data@ =~= slerp_quat(a@, b@, t));
        UnitQuaternion::from_quaternion(r)
    }
}

impl<T: Scalar> vstd::std_specs::ops::MulSpecImpl<Quaternion<T>> for Quaternion<T> {
    open spec fn obeys_mul_spec() -> bool {
        false
    }

    open spec fn mul_req(self, rhs: Quaternion<T>) -> bool {
        true
    }

    open spec fn mul_spec(self, rhs: Quaternion<T>) -> Quaternion<T> {
        arbitrary()
    }
}

impl<T: Scalar> core::ops::Mul<Quaternion<T>> for Quaternion<T> {
    type Output = Quaternion<T>;

    /// The Hamilton product.
    fn mul(self, rhs: Quaternion<T>) -> (r: Quaternion<T>)
        ensures
            r.coords.data@ == quat_mul(self.coords.data@, rhs.coords.data@),
    {
        self.multiply(&rhs)
    }
}

impl<T: Scalar> vstd::std_specs::ops::MulSpecImpl<T> for Quaternion<T> {
    open spec fn obeys_mul_spec() -> bool {
        false
    }

    open spec fn mul_req(self, rhs: T) -> bool {
        true
    }

    open spec fn mul_spec(self, rhs: T) -> Quaternion<T> {
        arbitrary()
    }
}

impl<T: Scalar> core::ops::Mul<T> for Quaternion<T> {
    type Output = Quaternion<T>;

    /// Componentwise scaling by a scalar.
    fn mul(self, rhs: T) -> (r: Quaternion<T>)
        ensures
            r.coords.data@ == seq_scale(BinOp::Times, self.coords.data@, rhs),
    {
        Quaternion { coords: core::ops::Mul::mul(self.coords, rhs) }
    }
}

impl<T: Scalar> vstd::std_specs::ops::AddSpecImpl for Quaternion<T> {
    open spec fn obeys_add_spec() -> bool {
        false
    }

    open spec fn add_req(self, rhs: Quaternion<T>) -> bool {
        true
    }

    open spec fn add_spec(self, rhs: Quaternion<T>) -> Quaternion<T> {
        arbitrary()
    }
}

impl<T: Scalar> core::ops::Add for Quaternion<T> {
    type Output = Quaternion<T>;

    /// Componentwise sum.
    fn add(self, rhs: Quaternion<T>) -> (r: Quaternion<T>)
        ensures
            r.coords.data@ == seq_zip(BinOp::Plus, self.coords.data@, rhs.coords.data@),
    {
        Quaternion { coords: core::ops::Add::add(self.coords, rhs.coords) }
    }
}

impl<T: Scalar> vstd::std_specs::ops::SubSpecImpl for Quaternion<T> {
    open spec fn obeys_sub_spec() -> bool {
        false
    }

    open spec fn sub_req(self, rhs: Quaternion<T>) -> bool {
        true
    }

    open spec fn sub_spec(self, rhs: Quaternion<T>) -> Quaternion<T> {
        arbitrary()
    }
}

impl<T: Scalar> core::ops::Sub for Quaternion<T> {
    type Output = Quaternion<T>;

    /// Componentwise difference.
    fn sub(self, rhs: Quaternion<T>) -> (r: Quaternion<T>)
        ensures
            r.coords.data@ == seq_zip(BinOp::Minus, self.coords.data@, rhs.coords.data@),
    {
        Quaternion { coords: core::ops::Sub::sub(self.coords, rhs.coords) }
    }
}

impl<T: Scalar> vstd::std_specs::ops::NegSpecImpl for Quaternion<T> {
    open spec fn obeys_neg_spec() -> bool {
        false
    }

    open spec fn neg_req(self) -> bool {
        true
    }

    open spec fn neg_spec(self) -> Quaternion<T> {
        arbitrary()
    }
}

impl<T: Scalar> core::ops::Neg for Quaternion<T> {
    type Output = Quaternion<T>;

    /// Componentwise negation.
    fn neg(self) -> (r: Quaternion<T>)
        ensures
            r.coords.data@ == seq_negate(self.coords.data@),
    {
        Quaternion { coords: core::ops::Neg::neg(self.coords) }
    }
}

/// A unit (normalised) quaternion, representing a 3-D rotation.
#[derive(Clone, Copy, Debug, PartialEq, Eq)]
pub struct UnitQuaternion<T> {
    quaternion: Quaternion<T>,
}

impl<T> View for UnitQuaternion<T> {
    type V = Seq<T>;

    /// The components `[x, y, z, w]`.
    closed spec fn view(&self) -> Seq<T> {
        self.quaternion.coords.data@
    }
}

impl<T: Scalar> UnitQuaternion<T> {
    /// Build from a quaternion by normalising it; its norm must not be zero.
    pub fn from_quaternion(q: Quaternion<T>) -> (r: Self)
        requires
            normalizable(q.coords.data@),
        ensures
            quat_normalize(q.coords.data@) == Some(r@),
    {
        match q.normalize() {
            Some(n) => UnitQuaternion { quaternion: n },
            None => {
                assert(false);
                UnitQuaternion { quaternion: q }
            },
        }
    }

    /// The rotation about `axis` by `angle` ([`axis_angle_quat`], normalised).
    pub fn from_axis_angle(axis: &Vector<T, 3>, angle: T) -> (r: Self)
        requires
            normalizable(axis_angle_quat(axis.data@, angle)),
        ensures
            quat_normalize(axis_angle_quat(axis.data@, angle)) == Some(r@),
    {
        let k = unit_axis_exec(axis);
        let half = angle.divide(two_exec());
        let s = half.sin();
        let c = half.cos();
        let q = Quaternion::new(k[0].times(s), k[1].times(s), k[2].times(s), c);
        assert(q.coords.data@ =~= axis_angle_quat(axis.data@, angle));
        UnitQuaternion::from_quaternion(q)
    }

    /// The rotation of the Euler angles `(roll, pitch, yaw)` in the order
    /// `Rz(yaw) * Ry(pitch) * Rx(roll)`: the product of the three axis rotations.
    pub fn from_euler(roll: T, pitch: T, yaw: T) -> (r: Self)
        requires
            normalizable(axis_angle_quat(basis3(0), roll)),
            normalizable(axis_angle_quat(basis3(1), pitch)),
            normalizable(axis_angle_quat(basis3(2), yaw)),
        ensures
            r@ == quat_mul(
                quat_mul(
                    quat_normalize(axis_angle_quat(basis3(2), yaw))->0,
                    quat_normalize(axis_angle_quat(basis3(1), pitch))->0,
                ),
                quat_normalize(axis_angle_quat(basis3(0), roll))->0,
            ),
    {
        let qx = Self::from_axis_angle(&basis3_exec(0), roll);
        let qy = Self::from_axis_angle(&basis3_exec(1), pitch);
        let qz = Self::from_axis_angle(&basis3_exec(2), yaw);
        core::ops::Mul::mul(core::ops::Mul::mul(qz, qy), qx)
    }

    /// The unit quaternion of a rotation matrix (see [`Quaternion::from_rotation_matrix`]).
    pub fn from_rotation_matrix(rot: &Rotation3<T>) -> (r: Self)
        requires
            normalizable(matrix_quat(rot@)),
        ensures
            quat_normalize(matrix_quat(rot@)) == Some(r@),
    {
        Quaternion::from_rotation_matrix(rot)
    }

    /// The underlying quaternion.
    pub fn quaternion(&self) -> (r: &Quaternion<T>)
        ensures
            r.coords.data@ == self@,
    {
        &self.quaternion
    }

    /// The inverse rotation: the conjugate.
    pub fn inverse(&self) -> (r: Self)
        ensures
            r@ == quat_conj(self@),
    {
        UnitQuaternion { quaternion: self.quaternion.conjugate() }
    }

    /// Rotate a 3-D vector.
    pub fn rotate_vector(&self, v: &Vector<T, 3>) -> (r: Vector<T, 3>)
        ensures
            r.data@ == quat_rotate(self@, v.data@),
    {
        self.quaternion.rotate_vector(v)
    }

    /// The equivalent 3-D rotation matrix.
    pub fn to_rotation_matrix(&self) -> (r: Rotation3<T>)
        ensures
            r@ == quat_rows(self@),
    {
        Rotation::from_quaternion(self)
    }
}

impl<T: Scalar> vstd::std_specs::ops::MulSpecImpl<UnitQuaternion<T>> for UnitQuaternion<T> {
    open spec fn obeys_mul_spec() -> bool {
        false
    }

    open spec fn mul_req(self, rhs: UnitQuaternion<T>) -> bool {
        true
    }

    open spec fn mul_spec(self, rhs: UnitQuaternion<T>) -> UnitQuaternion<T> {
        arbitrary()
    }
}

impl<T: Scalar> core::ops::Mul<UnitQuaternion<T>> for UnitQuaternion<T> {
    type Output = UnitQuaternion<T>;

    /// Composition: the Hamilton product (not renormalised).
    fn mul(self, rhs: UnitQuaternion<T>) -> (r: UnitQuaternion<T>)
        ensures
            r@ == quat_mul(self@, rhs@),
    {
        UnitQuaternion { quaternion: self.quaternion.multiply(&rhs.quaternion) }
    }
}

impl<T: Scalar> Rotation<T, 3> {
    /// The 3-D rotation matrix of a unit quaternion.
    pub fn from_quaternion(q: &UnitQuaternion<T>) -> (r: Self)
        ensures
            r@ == quat_rows(q@),
    {
        let c = q.quaternion().coords.data;
        let (x, y, z, w) = (c[0], c[1], c[2], c[3]);
        let xx = x.times(x);
        let yy = y.times(y);
        let zz = z.times(z);
        let xy = x.times(y);
        let xz = x.times(z);
        let yz = y.times(z);
        let wx = w.times(x);
        let wy = w.times(y);
        let wz = w.times(z);
        let one = T::one();
        let two = two_exec::<T>();
        let m = [
            [one.minus(two.times(yy.plus(zz))), two.times(xy.minus(wz)), two.times(xz.plus(wy))],
            [two.times(xy.plus(wz)), one.minus(two.times(xx.plus(zz))), two.times(yz.minus(wx))],
            [two.times(xz.minus(wy)), two.times(yz.plus(wx)), one.minus(two.times(xx.plus(yy)))],
        ];
        let r = Rotation { matrix: Matrix::new(m) };
        assert(r@ =~= quat_rows(q@)) by {
            assert(r@[0] =~= quat_rows(q@)[0]);
            assert(r@[1] =~= quat_rows(q@)[1]);
            assert(r@[2] =~= quat_rows(q@)[2]);
        }
        r
    }
}

// ===========================================================================
// Isometry
// ===========================================================================

/// A rigid motion: a rotation followed by a translation, `p -> R p + t`.
#[derive(Clone, Copy, Debug, PartialEq, Eq)]
pub struct Isometry<T, const D: usize> {
    /// The (linear) rotation part.
    pub rotation: Rotation<T, D>,
    /// The (affine) translation part.
    pub translation: Translation<T, D>,
}

impl<T: Scalar, const D: usize> Isometry<T, D> {
    /// Build an isometry from a translation and a rotation.
    pub fn new(translation: Translation<T, D>, rotation: Rotation<T, D>) -> (r: Self)
        ensures
            r.rotation == rotation,
            r.translation == translation,
    {
        Isometry { rotation, translation }
    }

    /// The identity isometry (no rotation, no translation).
    pub fn identity() -> (r: Self)
        ensures
            r.rotation@ == identity_rows::<T>(D as nat),
            r.translation.vector.data@ == zeros::<T>(D as nat),
    {
        Isometry { rotation: Rotation::identity(), translation: Translation::identity() }
    }

    /// An isometry with only a rotation (zero translation).
    pub fn from_rotation(rotation: Rotation<T, D>) -> (r: Self)
        ensures
            r.rotation == rotation,
            r.translation.vector.data@ == zeros::<T>(D as nat),
    {
        Isometry { rotation, translation: Translation::identity() }
    }

    /// An isometry with only a translation (identity rotation).
    pub fn from_translation(translation: Translation<T, D>) -> (r: Self)
        ensures
            r.rotation@ == identity_rows::<T>(D as nat),
            r.translation == translation,
    {
        Isometry { rotation: Rotation::identity(), translation }
    }

    /// The inverse isometry: rotation `R^T` and translation `-(R^T t)`.
    pub fn inverse(&self) -> (r: Self)
        ensures
            r.rotation@ == transpose_rows(self.rotation@, D as nat),
            r.translation.vector.data@ == seq_negate(
                mat_vec_spec(transpose_rows(self.rotation@, D as nat), self.translation.vector.data@),
            ),
    {
        let r_inv = self.rotation.inverse();
        let t_inv = Translation::new(core::ops::Neg::neg(r_inv.transform_vector(&self.translation.vector)));
        Isometry { rotation: r_inv, translation: t_inv }
    }

    /// Apply to a point: `R p + t`.
    pub fn transform_point(&self, pt: &Point<T, D>) -> (r: Point<T, D>)
        ensures
            r.coords.data@ == seq_zip(
                BinOp::Plus,
                mat_vec_spec(self.rotation@, pt.coords.data@),
                self.translation.vector.data@,
            ),
    {
        Point {
            coords: core::ops::Add::add(self.rotation.transform_vector(&pt.coords), self.translation.vector),
        }
    }

    /// Apply to a vector: `R v` (translation invariant).
    pub fn transform_vector(&self, vec: &Vector<T, D>) -> (r: Vector<T, D>)
        ensures
            r.data@ == mat_vec_spec(self.rotation@, vec.data@),
    {
        self.rotation.transform_vector(vec)
    }
}

impl<T: Scalar, const D: usize> vstd::std_specs::ops::MulSpecImpl for Isometry<T, D> {
    open spec fn obeys_mul_spec() -> bool {
        false
    }

    open spec fn mul_req(self, rhs: Isometry<T, D>) -> bool {
        true
    }

    open spec fn mul_spec(self, rhs: Isometry<T, D>) -> Isometry<T, D> {
        arbitrary()
    }
}

impl<T: Scalar, const D: usize> core::ops::Mul for Isometry<T, D> {
    type Output = Isometry<T, D>;

    /// Composition `self * rhs` (apply `rhs`, then `self`): rotation `R1 R2`, translation
    /// `R1 t2 + t1`.
    fn mul(self, rhs: Isometry<T, D>) -> (r: Isometry<T, D>)
        ensures
            r.rotation@ == mat_mul_spec(self.rotation@, rhs.rotation@, D as nat),
            r.translation.vector.data@ == seq_zip(
                BinOp::Plus,
                mat_vec_spec(self.rotation@, rhs.translation.vector.data@),
                self.translation.vector.data@,
            ),
    {
        let rotation = core::ops::Mul::mul(self.rotation, rhs.rotation);
        let translated = self.rotation.transform_vector(&rhs.translation.vector);
        let translation = Translation::new(core::ops::Add::add(translated, self.translation.vector));
        Isometry { rotation, translation }
    }
}

/// 2-D isometry.
pub type Isometry2<T> = Isometry<T, 2>;

/// 3-D isometry.
pub type Isometry3<T> = Isometry<T, 3>;

// ===========================================================================
// Similarity
// ===========================================================================

/// A similarity transform: a rotation, a uniform scaling, then a translation,
/// `p -> s (R p) + t`.
#[derive(Clone, Copy, Debug, PartialEq, Eq)]
pub struct Similarity<T, const D: usize> {
    /// The (linear) rotation part.
    pub rotation: Rotation<T, D>,
    /// The (affine) translation part.
    pub translation: Translation<T, D>,
    /// The uniform scaling factor `s`.
    pub scaling: T,
}

impl<T: Scalar, const D: usize> Similarity<T, D> {
    /// Build a similarity from a scaling factor, a translation and a rotation.
    pub fn new(scaling: T, translation: Translation<T, D>, rotation: Rotation<T, D>) -> (r: Self)
        ensures
            r.rotation == rotation,
            r.translation == translation,
            r.scaling == scaling,
    {
        Similarity { rotation, translation, scaling }
    }

    /// The identity similarity.
    pub fn identity() -> (r: Self)
        ensures
            r.rotation@ == identity_rows::<T>(D as nat),
            r.translation.vector.data@ == zeros::<T>(D as nat),
            r.scaling == T::one_spec(),
    {
        Similarity { rotation: Rotation::identity(), translation: Translation::identity(), scaling: T::one() }
    }

    /// The inverse similarity: rotation `R^T`, scaling `1/s`, translation
    /// `-((R^T t) * (1/s))`.
    pub fn inverse(&self) -> (r: Self)
        ensures
            r.rotation@ == transpose_rows(self.rotation@, D as nat),
            r.scaling == T::one_spec().divide_spec(self.scaling),
            r.translation.vector.data@ == seq_negate(
                seq_scale(
                    BinOp::Times,
                    mat_vec_spec(transpose_rows(self.rotation@, D as nat), self.translation.vector.data@),
                    T::one_spec().divide_spec(self.scaling),
                ),
            ),
    {
        let r_inv = self.rotation.inverse();
        let inv_s = T::one().divide(self.scaling);
        let t = core::ops::Mul::mul(r_inv.transform_vector(&self.translation.vector), inv_s);
        Similarity { rotation: r_inv, translation: Translation::new(core::ops::Neg::neg(t)), scaling: inv_s }
    }

    /// Apply to a point: `(R p) * s + t`.
    pub fn transform_point(&self, pt: &Point<T, D>) -> (r: Point<T, D>)
        ensures
            r.coords.data@ == seq_zip(
                BinOp::Plus,
                seq_scale(BinOp::Times, mat_vec_spec(self.rotation@, pt.coords.data@), self.scaling),
                self.translation.vector.data@,
            ),
    {
        let rotated = self.rotation.transform_vector(&pt.coords);
        Point { coords: core::ops::Add::add(core::ops::Mul::mul(rotated, self.scaling), self.translation.vector) }
    }

    /// Apply to a vector: `(R v) * s` (translation invariant).
    pub fn transform_vector(&self, vec: &Vector<T, D>) -> (r: Vector<T, D>)
        ensures
            r.data@ == seq_scale(BinOp::Times, mat_vec_spec(self.rotation@, vec.data@), self.scaling),
    {
        core::ops::Mul::mul(self.rotation.transform_vector(vec), self.scaling)
    }
}

/// 3-D similarity.
pub type Similarity3<T> = Similarity<T, 3>;

// ===========================================================================
// Scale
// ===========================================================================

/// A non-uniform (axis-aligned) scaling, `p -> diag(factors) p`.
#[derive(Clone, Copy, Debug, PartialEq, Eq)]
pub struct Scale<T, const D: usize> {
    /// Per-axis scaling factors.
    pub vector: Vector<T, D>,
}

impl<T: Scalar, const D: usize> Scale<T, D> {
    /// Build a scaling from per-axis factors.
    pub fn new(vector: Vector<T, D>) -> (r: Self)
        ensures
            r.vector == vector,
    {
        Scale { vector }
    }

    /// Uniform scaling by `s`.
    pub fn uniform(s: T) -> (r: Self)
        ensures
            r.vector.data@ == constant_seq(D as nat, s),
    {
        Scale { vector: filled(s) }
    }

    /// The identity scaling (all factors one).
    pub fn identity() -> (r: Self)
        ensures
            r.vector.data@ == constant_seq(D as nat, T::one_spec()),
    {
        Scale { vector: filled(T::one()) }
    }

    /// The inverse scaling: the reciprocal `1 / f` of each factor.
    pub fn inverse(&self) -> (r: Self)
        ensures
            forall|i: int| 0 <= i < D ==> #[trigger] r.vector.data[i] == T::one_spec().divide_spec(self.vector.data[i]),
    {
        let ones: Vector<T, D> = filled(T::one());
        Scale { vector: core::ops::Div::div(ones, self.vector) }
    }

    /// Apply to a point: componentwise product of the factors with the coordinates.
    pub fn transform_point(&self, pt: &Point<T, D>) -> (r: Point<T, D>)
        ensures
            r.coords.data@ == seq_zip(BinOp::Times, self.vector.data@, pt.coords.data@),
    {
        Point { coords: self.transform_vector(&pt.coords) }
    }

    /// Apply to a vector: componentwise product of the factors with the components.
    pub fn transform_vector(&self, vec: &Vector<T, D>) -> (r: Vector<T, D>)
        ensures
            r.data@ == seq_zip(BinOp::Times, self.vector.data@, vec.data@),
    {
        let r: Vector<T, D> = core::ops::Mul::mul(self.vector, *vec);
        assert(r.data@ =~= seq_zip(BinOp::Times, self.vector.data@, vec.data@));
        r
    }
}

// ===========================================================================
// Projections
// ===========================================================================

/// The 4x4 matrix with the given entries at `(0,0)`, `(0,2)`, `(0,3)`, `(1,1)`, `(1,2)`,
/// `(1,3)`, `(2,2)`, `(2,3)`, `(3,2)`, `(3,3)` and zeros elsewhere, as rows.
pub open spec fn projection_rows<T: Scalar>(
    m00: T,
    m02: T,
    m03: T,
    m11: T,
    m12: T,
    m13: T,
    m22: T,
    m23: T,
    m32: T,
    m33: T,
) -> Seq<Seq<T>> {
    let z = T::zero_spec();
    seq![seq![m00, z, m02, m03], seq![z, m11, m12, m13], seq![z, z, m22, m23], seq![z, z, m32, m33]]
}

/// Builds the matrix that [`projection_rows`] describes.
fn projection_matrix<T: Scalar>(
    m00: T,
    m02: T,
    m03: T,
    m11: T,
    m12: T,
    m13: T,
    m22: T,
    m23: T,
    m32: T,
    m33: T,
) -> (r: Matrix<T, 4, 4>)
    ensures
        rows_of(r.data) == projection_rows(m00, m02, m03, m11, m12, m13, m22, m23, m32, m33),
{
    let z = T::zero();
    let r = Matrix::new([[m00, z, m02, m03], [z, m11, m12, m13], [z, z, m22, m23], [z, z, m32, m33]]);
    let ghost want = projection_rows(m00, m02, m03, m11, m12, m13, m22, m23, m32, m33);
    assert(rows_of(r.data) =~= want) by {
        assert(rows_of(r.data)[0] =~= want[0]);
        assert(rows_of(r.data)[1] =~= want[1]);
        assert(rows_of(r.data)[2] =~= want[2]);
        assert(rows_of(r.data)[3] =~= want[3]);
    }
    r
}

/// The perspective matrix for a vertical field of view `fovy`, aspect ratio and clip planes,
/// as rows.
pub open spec fn fov_rows<T: Scalar>(aspect: T, fovy: T, znear: T, zfar: T) -> Seq<Seq<T>> {
    let one = T::one_spec();
    let z = T::zero_spec();
    let f = one.divide_spec(fovy.divide_spec(two::<T>()).tan_spec());
    projection_rows(
        f.divide_spec(aspect),
        z,
        z,
        f,
        z,
        z,
        zfar.plus_spec(znear).divide_spec(znear.minus_spec(zfar)),
        two::<T>().times_spec(zfar).times_spec(znear).divide_spec(znear.minus_spec(zfar)),
        one.negate_spec(),
        z,
    )
}

/// The perspective matrix for explicit frustum bounds, as rows.
pub open spec fn frustum_rows<T: Scalar>(left: T, right: T, bottom: T, top: T, znear: T, zfar: T) -> Seq<Seq<T>> {
    let two = two::<T>();
    let z = T::zero_spec();
    projection_rows(
        two.times_spec(znear).divide_spec(right.minus_spec(left)),
        right.plus_spec(left).divide_spec(right.minus_spec(left)),
        z,
        two.times_spec(znear).divide_spec(top.minus_spec(bottom)),
        top.plus_spec(bottom).divide_spec(top.minus_spec(bottom)),
        z,
        zfar.plus_spec(znear).divide_spec(znear.minus_spec(zfar)),
        two.times_spec(zfar).times_spec(znear).divide_spec(znear.minus_spec(zfar)),
        T::one_spec().negate_spec(),
        z,
    )
}

/// The orthographic matrix for the frustum bounds, as rows.
pub open spec fn ortho_rows<T: Scalar>(left: T, right: T, bottom: T, top: T, znear: T, zfar: T) -> Seq<Seq<T>> {
    let two = two::<T>();
    let z = T::zero_spec();
    projection_rows(
        two.divide_spec(right.minus_spec(left)),
        z,
        right.plus_spec(left).negate_spec().divide_spec(right.minus_spec(left)),
        two.divide_spec(top.minus_spec(bottom)),
        z,
        top.plus_spec(bottom).negate_spec().divide_spec(top.minus_spec(bottom)),
        two.negate_spec().divide_spec(zfar.minus_spec(znear)),
        zfar.plus_spec(znear).negate_spec().divide_spec(zfar.minus_spec(znear)),
        z,
        T::one_spec(),
    )
}

/// A right-handed perspective projection (view space to clip space), looking down `-z`,
/// with depth mapped to `[-1, 1]`.
#[derive(Clone, Copy, Debug, PartialEq, Eq)]
pub struct Perspective3<T> {
    matrix: Matrix<T, 4, 4>,
}

impl<T> View for Perspective3<T> {
    type V = Seq<Seq<T>>;

    /// The rows of the projection matrix.
    closed spec fn view(&self) -> Seq<Seq<T>> {
        rows_of(self.matrix.data)
    }
}

impl<T: Scalar> Perspective3<T> {
    /// Build from the vertical field of view `fovy`, the `aspect` ratio and the near/far clip
    /// planes.
    pub fn from_fov(aspect: T, fovy: T, znear: T, zfar: T) -> (r: Self)
        ensures
            r@ == fov_rows(aspect, fovy, znear, zfar),
    {
        let one = T::one();
        let z = T::zero();
        let two = two_exec::<T>();
        let f = one.divide(fovy.divide(two).tan());
        let m00 = f.divide(aspect);
        let m11 = f;
        let m22 = zfar.plus(znear).divide(znear.minus(zfar));
        let m23 = two.times(zfar).times(znear).divide(znear.minus(zfar));
        let m32 = one.negate();
        Perspective3 { matrix: projection_matrix(m00, z, z, m11, z, z, m22, m23, m32, z) }
    }

    /// Build from explicit frustum bounds (right-handed, `-z` forward).
    pub fn from_frustum(left: T, right: T, bottom: T, top: T, znear: T, zfar: T) -> (r: Self)
        ensures
            r@ == frustum_rows(left, right, bottom, top, znear, zfar),
    {
        let two = two_exec::<T>();
        let z = T::zero();
        let m00 = two.times(znear).divide(right.minus(left));
        let m11 = two.times(znear).divide(top.minus(bottom));
        let m02 = right.plus(left).divide(right.minus(left));
        let m12 = top.plus(bottom).divide(top.minus(bottom));
        let m22 = zfar.plus(znear).divide(znear.minus(zfar));
        let m23 = two.times(zfar).times(znear).divide(znear.minus(zfar));
        let m32 = T::one().negate();
        Perspective3 { matrix: projection_matrix(m00, m02, z, m11, m12, z, m22, m23, m32, z) }
    }

    /// The 4x4 projection matrix.
    pub fn matrix(&self) -> (r: &Matrix<T, 4, 4>)
        ensures
            rows_of(r.data) == self@,
    {
        &self.matrix
    }
}

/// A right-handed orthographic projection (view space to clip space), looking down `-z`,
/// with depth mapped to `[-1, 1]`.
#[derive(Clone, Copy, Debug, PartialEq, Eq)]
pub struct Orthographic3<T> {
    matrix: Matrix<T, 4, 4>,
}

impl<T> View for Orthographic3<T> {
    type V = Seq<Seq<T>>;

    /// The rows of the projection matrix.
    closed spec fn view(&self) -> Seq<Seq<T>> {
        rows_of(self.matrix.data)
    }
}

impl<T: Scalar> Orthographic3<T> {
    /// Build from the axis-aligned frustum bounds, mapping `z` in `[-znear, -zfar]` to depth
    /// in `[-1, 1]`.
    pub fn from_frustum(left: T, right: T, bottom: T, top: T, znear: T, zfar: T) -> (r: Self)
        ensures
            r@ == ortho_rows(left, right, bottom, top, znear, zfar),
    {
        let two = two_exec::<T>();
        let z = T::zero();
        let m00 = two.divide(right.minus(left));
        let m11 = two.divide(top.minus(bottom));
        let m22 = two.negate().divide(zfar.minus(znear));
        let m03 = right.plus(left).negate().divide(right.minus(left));
        let m13 = top.plus(bottom).negate().divide(top.minus(bottom));
        let m23 = zfar.plus(znear).negate().divide(zfar.minus(znear));
        Orthographic3 { matrix: projection_matrix(m00, z, m03, m11, z, m13, m22, m23, z, T::one()) }
    }

    /// The 4x4 projection matrix.
    pub fn matrix(&self) -> (r: &Matrix<T, 4, 4>)
        ensures
            rows_of(r.data) == self@,
    {
        &self.matrix
    }
}

// ===========================================================================
// Rotation from an approximately orthogonal matrix (Gram-Schmidt)
// ===========================================================================

/// `c` with its projections on the unit columns `done[0..i]` removed, one after another:
/// at each step `c - done[i-1] * (done[i-1] . c)`.
pub open spec fn gs_project<T: Scalar>(c: Seq<T>, done: Seq<Seq<T>>, i: int) -> Seq<T>
    decreases i,
{
    if i <= 0 {
        c
    } else {
        let c1 = gs_project(c, done, i - 1);
        let d = dot_seq(done[i - 1], c1);
        Seq::new(c1.len(), |k: int| c1[k].minus_spec(done[i - 1][k].times_spec(d)))
    }
}

/// The first `j` columns of `cols` orthonormalised by Gram-Schmidt: each column has its
/// projections on the earlier finished columns removed and is divided by its norm; `None` as
/// soon as a norm is zero.
pub open spec fn gs_columns<T: Scalar>(cols: Seq<Seq<T>>, j: int) -> Option<Seq<Seq<T>>>
    decreases j,
{
    if j <= 0 {
        Some(Seq::empty())
    } else {
        match gs_columns(cols, j - 1) {
            None => None,
            Some(done) => {
                let c = gs_project(cols[j - 1], done, j - 1);
                let n = norm_seq(c);
                if n.eq_spec(T::zero_spec()) {
                    None
                } else {
                    Some(done.push(crate::linalg_fixed::seq_scale(BinOp::Divide, c, n)))
                }
            },
        }
    }
}

/// The rows of the rotation that [`Rotation::from_matrix`] builds from the `d x d` rows `m`:
/// the columns orthonormalised by [`gs_columns`], then (for `d > 1`) the last column
/// orthogonalised once more against the others and renormalised; `None` when a norm is zero.
pub open spec fn orthonormalized_rows<T: Scalar>(m: Seq<Seq<T>>, d: nat) -> Option<Seq<Seq<T>>> {
    match gs_columns(transpose_rows(m, d), d as int) {
        None => None,
        Some(done) => if d > 1 {
            let last = d - 1;
            let c = gs_project(done[last], done, last);
            let n = norm_seq(c);
            if n.eq_spec(T::zero_spec()) {
                None
            } else {
                Some(transpose_rows(done.update(last, crate::linalg_fixed::seq_scale(BinOp::Divide, c, n)), d))
            }
        } else {
            Some(transpose_rows(done, d))
        },
    }
}

proof fn lemma_gs_columns_none<T: Scalar>(cols: Seq<Seq<T>>, j: int, k: int)
    requires
        0 <= j <= k,
        gs_columns(cols, j) is None,
    ensures
        gs_columns(cols, k) is None,
    decreases k - j,
{
    if j < k {
        lemma_gs_columns_none(cols, j, k - 1);
    }
}

/// `cur - basis * d`, entrywise, as [`gs_project`] takes one step.
fn remove_projection<T: Scalar, const D: usize>(cur: &[T; D], basis: &[T; D], d: T) -> (r: [T; D])
    ensures
        r@ == Seq::new(D as nat, |k: int| cur@[k].minus_spec(basis@[k].times_spec(d))),
{
    let mut out = *cur;
    for k in 0..D
        invariant
            forall|c: int| 0 <= c < D ==> #[trigger] out[c] == if c < k {
                cur[c].minus_spec(basis[c].times_spec(d))
            } else {
                cur[c]
            },
    {
        out[k] = cur[k].minus(basis[k].times(d));
    }
    assert(out@ =~= Seq::new(D as nat, |k: int| cur@[k].minus_spec(basis@[k].times_spec(d))));
    out
}

/// Removes the projections of `cur` on rows `0..upto` of `cols`, as [`gs_project`] does.
fn project_out<T: Scalar, const D: usize>(cur: [T; D], cols: &[[T; D]; D], upto: usize) -> (r: [T; D])
    requires
        upto <= D,
    ensures
        r@ == gs_project(cur@, rows_of(*cols), upto as int),
{
    let mut c = cur;
    for i in 0..upto
        invariant
            upto <= D,
            c@ == gs_project(cur@, rows_of(*cols), i as int),
    {
        let d = Vector { data: cols[i] }.dot(&Vector { data: c });
        assert(rows_of(*cols)[i as int] == cols[i as int]@);
        c = remove_projection(&c, &cols[i], d);
        assert(c@ =~= gs_project(cur@, rows_of(*cols), i + 1));
    }
    c
}

proof fn lemma_gs_project_prefix<T: Scalar>(c: Seq<T>, a: Seq<Seq<T>>, b: Seq<Seq<T>>, i: int)
    requires
        0 <= i <= a.len(),
        i <= b.len(),
        forall|k: int| 0 <= k < i ==> a[k] == b[k],
    ensures
        gs_project(c, a, i) == gs_project(c, b, i),
    decreases i,
{
    if i > 0 {
        lemma_gs_project_prefix(c, a, b, i - 1);
    }
}

/// The proper rotation that Gram-Schmidt makes of the rows `m` (see
/// [`orthonormalized_rows`]): `None` when the matrix is numerically singular or when the
/// orthonormalised matrix has a negative determinant (a reflection, not a rotation).
pub open spec fn proper_orthonormalized<T: Scalar>(m: Seq<Seq<T>>, d: nat) -> Option<Seq<Seq<T>>> {
    match orthonormalized_rows(m, d) {
        None => None,
        Some(q) => if crate::linalg_fixed::determinant_spec(q).lt_spec(T::zero_spec()) {
            None
        } else {
            Some(q)
        },
    }
}

impl<T: Scalar, const D: usize> Rotation<T, D> {
    /// Build a rotation from an (approximately) orthogonal matrix by orthonormalising its
    /// columns with Gram-Schmidt; `None` when the matrix is numerically singular or the
    /// result is a reflection (negative determinant), so that only proper rotations are made
    /// (see [`proper_orthonormalized`]). The dimension must be at least one.
    pub fn from_matrix(matrix: Matrix<T, D, D>) -> (r: Option<Self>)
        requires
            D >= 1,
        ensures
            r is None <==> proper_orthonormalized(rows_of(matrix.data), D as nat) is None,
            r matches Some(rot) ==> proper_orthonormalized(rows_of(matrix.data), D as nat) == Some(rot@),
    {
        let ghost input = transpose_rows(rows_of(matrix.data), D as nat);
        let mut cols = [[T::zero(); D]; D];
        for j in 0..D
            invariant
                D >= 1,
                input == transpose_rows(rows_of(matrix.data), D as nat),
                gs_columns(input, j as int) == Some(rows_of(cols).take(j as int)),
        {
            let start = crate::linalg_fixed::column_exec(&matrix.data, j);
            assert(start@ == input[j as int]);
            let cur = project_out(start, &cols, j);
            proof {
                lemma_gs_project_prefix(input[j as int], rows_of(cols), rows_of(cols).take(j as int), j as int);
            }
            let n = Vector { data: cur }.norm();
            if n.eq(T::zero()) {
                proof {
                    lemma_gs_columns_none(input, j + 1, D as int);
                }
                return None;
            }
            let ghost before = cols;
            cols[j] = crate::linalg_fixed::scale_array(BinOp::Divide, &cur, n);
            assert(rows_of(cols).take(j + 1) =~= rows_of(before).take(j as int).push(
                crate::linalg_fixed::seq_scale(BinOp::Divide, cur@, n),
            )) by {
                assert forall|k: int| 0 <= k < j implies cols[k] == before[k] by {}
            }
        }
        assert(rows_of(cols).take(D as int) =~= rows_of(cols));
        if D > 1 {
            let last = D - 1;
            let ghost done = rows_of(cols);
            let cur = project_out(cols[last], &cols, last);
            assert(rows_of(cols)[last as int] == cols[last as int]@);
            let n = Vector { data: cur }.norm();
            if n.eq(T::zero()) {
                return None;
            }
            cols[last] = crate::linalg_fixed::scale_array(BinOp::Divide, &cur, n);
            assert(rows_of(cols) =~= done.update(last as int, crate::linalg_fixed::seq_scale(BinOp::Divide, cur@, n)));
        }
        let rot = Rotation { matrix: Matrix { data: cols }.transpose() };
        if rot.matrix.determinant().lt(T::zero()) {
            return None;
        }
        Some(rot)
    }
}

} // verus!
