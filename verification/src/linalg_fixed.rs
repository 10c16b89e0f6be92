//! Const-generic, fixed-size linear algebra: vectors and matrices stored inline as arrays,
//! generic over a [`Scalar`].
use vstd::prelude::*;

use crate::scalar::{tiny, tiny_exec, Scalar};

verus! {

// ===========================================================================
// Elementwise helpers
// ===========================================================================

/// A binary scalar operation applied elementwise.
#[derive(Clone, Copy, Debug)]
pub enum BinOp {
    Plus,
    Minus,
    Times,
    Divide,
}

/// What [`BinOp`] `op` computes on `x` and `y`.
pub open spec fn apply_spec<T: Scalar>(op: BinOp, x: T, y: T) -> T {
    match op {
        BinOp::Plus => x.plus_spec(y),
        BinOp::Minus => x.minus_spec(y),
        BinOp::Times => x.times_spec(y),
        BinOp::Divide => x.divide_spec(y),
    }
}

pub(crate) fn apply<T: Scalar>(op: BinOp, x: T, y: T) -> (r: T)
    ensures
        r == apply_spec(op, x, y),
{
    match op {
        BinOp::Plus => x.plus(y),
        BinOp::Minus => x.minus(y),
        BinOp::Times => x.times(y),
        BinOp::Divide => x.divide(y),
    }
}

/// `a[i] op b[i]` for every `i`.
pub(crate) fn zip_array<T: Scalar, const N: usize>(op: BinOp, a: &[T; N], b: &[T; N]) -> (r: [T; N])
    ensures
        forall|i: int| 0 <= i < N ==> r[i] == apply_spec(op, a[i], b[i]),
        r@ == seq_zip(op, a@, b@),
{
    let mut out = *a;
    for i in 0..N
        invariant
            forall|k: int| 0 <= k < i ==> out[k] == apply_spec(op, a[k], b[k]),
    {
        out[i] = apply(op, a[i], b[i]);
    }
    assert(out@ =~= seq_zip(op, a@, b@));
    out
}

/// `a[i] op s` for every `i`.
pub(crate) fn scale_array<T: Scalar, const N: usize>(op: BinOp, a: &[T; N], s: T) -> (r: [T; N])
    ensures
        forall|i: int| 0 <= i < N ==> r[i] == apply_spec(op, a[i], s),
        r@ == seq_scale(op, a@, s),
{
    let mut out = *a;
    for i in 0..N
        invariant
            forall|k: int| 0 <= k < i ==> out[k] == apply_spec(op, a[k], s),
    {
        out[i] = apply(op, a[i], s);
    }
    assert(out@ =~= seq_scale(op, a@, s));
    out
}

/// `-a[i]` for every `i`.
fn negate_array<T: Scalar, const N: usize>(a: &[T; N]) -> (r: [T; N])
    ensures
        forall|i: int| 0 <= i < N ==> r[i] == a[i].negate_spec(),
        r@ == seq_negate(a@),
{
    let mut out = *a;
    for i in 0..N
        invariant
            forall|k: int| 0 <= k < i ==> out[k] == a[k].negate_spec(),
    {
        out[i] = a[i].negate();
    }
    assert(out@ =~= seq_negate(a@));
    out
}

/// `a[i][j] op b[i][j]` for every entry.
fn zip_array2<T: Scalar, const R: usize, const C: usize>(
    op: BinOp,
    a: &[[T; C]; R],
    b: &[[T; C]; R],
) -> (r: [[T; C]; R])
    ensures
        forall|i: int, j: int|
            0 <= i < R && 0 <= j < C ==> #[trigger] r[i][j] == apply_spec(op, a[i][j], b[i][j]),
{
    let mut out = *a;
    for i in 0..R
        invariant
            forall|k: int, j: int|
                0 <= k < i && 0 <= j < C ==> #[trigger] out[k][j] == apply_spec(op, a[k][j], b[k][j]),
    {
        out[i] = zip_array(op, &a[i], &b[i]);
    }
    out
}

/// `a[i][j] op s` for every entry.
fn scale_array2<T: Scalar, const R: usize, const C: usize>(
    op: BinOp,
    a: &[[T; C]; R],
    s: T,
) -> (r: [[T; C]; R])
    ensures
        forall|i: int, j: int|
            0 <= i < R && 0 <= j < C ==> #[trigger] r[i][j] == apply_spec(op, a[i][j], s),
{
    let mut out = *a;
    for i in 0..R
        invariant
            forall|k: int, j: int|
                0 <= k < i && 0 <= j < C ==> #[trigger] out[k][j] == apply_spec(op, a[k][j], s),
    {
        out[i] = scale_array(op, &a[i], s);
    }
    out
}

/// `-a[i][j]` for every entry.
fn negate_array2<T: Scalar, const R: usize, const C: usize>(a: &[[T; C]; R]) -> (r: [[T; C]; R])
    ensures
        forall|i: int, j: int| 0 <= i < R && 0 <= j < C ==> #[trigger] r[i][j] == a[i][j].negate_spec(),
{
    let mut out = *a;
    for i in 0..R
        invariant
            forall|k: int, j: int|
                0 <= k < i && 0 <= j < C ==> #[trigger] out[k][j] == a[k][j].negate_spec(),
    {
        out[i] = negate_array(&a[i]);
    }
    out
}

// ===========================================================================
// Vector
// ===========================================================================

/// A fixed-size column vector of `N` elements of type `T`, stored inline.
#[derive(Clone, Copy, PartialEq, Eq, Debug)]
pub struct Vector<T, const N: usize> {
    /// Element storage.
    pub data: [T; N],
}

/// The sum `a[0]*b[0] + ... + a[n-1]*b[n-1]`, accumulated left to right from zero
/// (the order in which [`Vector::dot`] adds the products).
pub open spec fn dot_prefix<T: Scalar>(a: Seq<T>, b: Seq<T>, n: int) -> T
    decreases n,
{
    if n <= 0 {
        T::zero_spec()
    } else {
        dot_prefix(a, b, n - 1).plus_spec(a[n - 1].times_spec(b[n - 1]))
    }
}

/// The dot product of two sequences of equal length.
pub open spec fn dot_seq<T: Scalar>(a: Seq<T>, b: Seq<T>) -> T {
    dot_prefix(a, b, a.len() as int)
}

/// The Euclidean norm of a sequence: the square root of its dot product with itself.
pub open spec fn norm_seq<T: Scalar>(a: Seq<T>) -> T {
    dot_seq(a, a).sqrt_spec()
}

/// `a[i] op b[i]` for every `i`, as a sequence.
pub open spec fn seq_zip<T: Scalar>(op: BinOp, a: Seq<T>, b: Seq<T>) -> Seq<T> {
    Seq::new(a.len(), |i: int| apply_spec(op, a[i], b[i]))
}

/// `a[i] op s` for every `i`, as a sequence.
pub open spec fn seq_scale<T: Scalar>(op: BinOp, a: Seq<T>, s: T) -> Seq<T> {
    Seq::new(a.len(), |i: int| apply_spec(op, a[i], s))
}

/// `-a[i]` for every `i`, as a sequence.
pub open spec fn seq_negate<T: Scalar>(a: Seq<T>) -> Seq<T> {
    Seq::new(a.len(), |i: int| a[i].negate_spec())
}

/// The product of the rows `m` with the column vector `v`.
pub open spec fn mat_vec_spec<T: Scalar>(m: Seq<Seq<T>>, v: Seq<T>) -> Seq<T> {
    Seq::new(m.len(), |i: int| dot_seq(m[i], v))
}

/// The product of the rows `a` with the rows `b`, which have `m` columns.
pub open spec fn mat_mul_spec<T: Scalar>(a: Seq<Seq<T>>, b: Seq<Seq<T>>, m: nat) -> Seq<Seq<T>> {
    Seq::new(a.len(), |i: int| Seq::new(m, |k: int| dot_seq(a[i], column(b, k))))
}

impl<T, const N: usize> Vector<T, N> {
    /// Build from a fixed-size array.
    pub fn new(data: [T; N]) -> (r: Self)
        ensures
            r.data == data,
    {
        Vector { data }
    }

    /// Number of components.
    pub fn len(&self) -> (r: usize)
        ensures
            r == N,
    {
        N
    }

    /// `true` exactly when the vector has no component (`N == 0`).
    pub fn is_empty(&self) -> (r: bool)
        ensures
            r == (N == 0),
    {
        N == 0
    }

    /// The components, in order.
    pub fn iter(&self) -> (r: &[T])
        ensures
            r@ == self.data@,
    {
        self.data.as_slice()
    }
}

impl<T: Scalar, const N: usize> Vector<T, N> {
    /// Build element-by-element with `f(i)`.
    pub fn from_fn<F: Fn(usize) -> T>(f: F) -> (r: Self)
        requires
            forall|i: usize| i < N ==> f.requires((i,)),
        ensures
            forall|i: int| 0 <= i < N ==> f.ensures((i as usize,), r.data[i]),
    {
        let mut data = [T::zero(); N];
        for i in 0..N
            invariant
                forall|k: usize| k < N ==> f.requires((k,)),
                forall|k: int| 0 <= k < i ==> f.ensures((k as usize,), data[k]),
        {
            data[i] = f(i);
        }
        Vector { data }
    }

    /// Dot product with another vector of the same length.
    pub fn dot(&self, other: &Vector<T, N>) -> (r: T)
        ensures
            r == dot_seq(self.data@, other.data@),
    {
        let mut s = T::zero();
        for i in 0..N
            invariant
                s == dot_prefix(self.data@, other.data@, i as int),
        {
            s = s.plus(self.data[i].times(other.data[i]));
        }
        s
    }

    /// The Euclidean (L2) norm.
    pub fn norm(&self) -> (r: T)
        ensures
            r == norm_seq(self.data@),
    {
        let s = self.dot(self);
        s.sqrt()
    }

    /// Normalise to unit length: each component times `1 / norm`. The vector is returned
    /// unchanged when its norm is zero.
    pub fn normalize(&self) -> (r: Self)
        ensures
            norm_seq(self.data@).eq_spec(T::zero_spec()) ==> r == *self,
            !norm_seq(self.data@).eq_spec(T::zero_spec()) ==> forall|i: int|
                0 <= i < N ==> #[trigger] r.data[i] == self.data[i].times_spec(
                    T::one_spec().divide_spec(norm_seq(self.data@)),
                ),
    {
        let n = self.norm();
        if n.eq(T::zero()) {
            *self
        } else {
            Vector { data: scale_array(BinOp::Times, &self.data, T::one().divide(n)) }
        }
    }

    /// 2-D perpendicular dot product `a0*b1 - a1*b0` (z-component of the 2-D cross
    /// product), defined for vectors of length at least 2.
    pub fn perp_dot(&self, other: &Vector<T, N>) -> (r: T)
        requires
            N >= 2,
        ensures
            r == self.data[0].times_spec(other.data[1]).minus_spec(
                self.data[1].times_spec(other.data[0]),
            ),
    {
        self.data[0].times(other.data[1]).minus(self.data[1].times(other.data[0]))
    }
}

impl<T: Scalar> Vector<T, 2> {
    /// First component.
    pub fn x(&self) -> (r: T)
        ensures
            r == self.data[0],
    {
        self.data[0]
    }

    /// Second component.
    pub fn y(&self) -> (r: T)
        ensures
            r == self.data[1],
    {
        self.data[1]
    }
}

/// The 3-D cross product of `a` and `b`.
pub open spec fn cross_spec<T: Scalar>(a: Seq<T>, b: Seq<T>) -> Seq<T> {
    seq![
        a[1].times_spec(b[2]).minus_spec(a[2].times_spec(b[1])),
        a[2].times_spec(b[0]).minus_spec(a[0].times_spec(b[2])),
        a[0].times_spec(b[1]).minus_spec(a[1].times_spec(b[0])),
    ]
}

impl<T: Scalar> Vector<T, 3> {
    /// First component.
    pub fn x(&self) -> (r: T)
        ensures
            r == self.data[0],
    {
        self.data[0]
    }

    /// Second component.
    pub fn y(&self) -> (r: T)
        ensures
            r == self.data[1],
    {
        self.data[1]
    }

    /// Third component.
    pub fn z(&self) -> (r: T)
        ensures
            r == self.data[2],
    {
        self.data[2]
    }

    /// 3-D cross product.
    pub fn cross(&self, other: &Vector<T, 3>) -> (r: Vector<T, 3>)
        ensures
            r.data@ == cross_spec(self.data@, other.data@),
    {
        let r = Vector {
            data: [
                self.data[1].times(other.data[2]).minus(self.data[2].times(other.data[1])),
                self.data[2].times(other.data[0]).minus(self.data[0].times(other.data[2])),
                self.data[0].times(other.data[1]).minus(self.data[1].times(other.data[0])),
            ],
        };
        assert(r.data@ =~= cross_spec(self.data@, other.data@));
        r
    }
}

impl<T: Scalar> Vector<T, 4> {
    /// First component.
    pub fn x(&self) -> (r: T)
        ensures
            r == self.data[0],
    {
        self.data[0]
    }

    /// Second component.
    pub fn y(&self) -> (r: T)
        ensures
            r == self.data[1],
    {
        self.data[1]
    }

    /// Third component.
    pub fn z(&self) -> (r: T)
        ensures
            r == self.data[2],
    {
        self.data[2]
    }

    /// Fourth component.
    pub fn w(&self) -> (r: T)
        ensures
            r == self.data[3],
    {
        self.data[3]
    }
}

impl<T, const N: usize> vstd::std_specs::core::IndexSpecImpl<usize> for Vector<T, N> {
    open spec fn index_req(&self, index: &usize) -> bool {
        *index < N
    }
}

impl<T, const N: usize> core::ops::Index<usize> for Vector<T, N> {
    type Output = T;

    /// The component at `i` (which must be below `N`).
    fn index(&self, i: usize) -> (r: &T)
        ensures
            *r == self.data[i as int],
    {
        &self.data[i]
    }
}

impl<T: Scalar, const N: usize> vstd::std_specs::ops::AddSpecImpl for Vector<T, N> {
    open spec fn obeys_add_spec() -> bool {
        false
    }

    open spec fn add_req(self, rhs: Vector<T, N>) -> bool {
        true
    }

    open spec fn add_spec(self, rhs: Vector<T, N>) -> Vector<T, N> {
        rhs
    }
}

impl<T: Scalar, const N: usize> core::ops::Add for Vector<T, N> {
    type Output = Vector<T, N>;

    /// Componentwise sum.
    fn add(self, rhs: Vector<T, N>) -> (r: Vector<T, N>)
        ensures
            forall|i: int| 0 <= i < N ==> #[trigger] r.data[i] == self.data[i].plus_spec(rhs.data[i]),
            r.data@ == seq_zip(BinOp::Plus, self.data@, rhs.data@),
    {
        Vector { data: zip_array(BinOp::Plus, &self.data, &rhs.data) }
    }
}

impl<T: Scalar, const N: usize> vstd::std_specs::ops::SubSpecImpl for Vector<T, N> {
    open spec fn obeys_sub_spec() -> bool {
        false
    }

    open spec fn sub_req(self, rhs: Vector<T, N>) -> bool {
        true
    }

    open spec fn sub_spec(self, rhs: Vector<T, N>) -> Vector<T, N> {
        rhs
    }
}

impl<T: Scalar, const N: usize> core::ops::Sub for Vector<T, N> {
    type Output = Vector<T, N>;

    /// Componentwise difference.
    fn sub(self, rhs: Vector<T, N>) -> (r: Vector<T, N>)
        ensures
            forall|i: int| 0 <= i < N ==> #[trigger] r.data[i] == self.data[i].minus_spec(rhs.data[i]),
            r.data@ == seq_zip(BinOp::Minus, self.data@, rhs.data@),
    {
        Vector { data: zip_array(BinOp::Minus, &self.data, &rhs.data) }
    }
}

impl<T: Scalar, const N: usize> vstd::std_specs::ops::NegSpecImpl for Vector<T, N> {
    open spec fn obeys_neg_spec() -> bool {
        false
    }

    open spec fn neg_req(self) -> bool {
        true
    }

    open spec fn neg_spec(self) -> Vector<T, N> {
        arbitrary()
    }
}

impl<T: Scalar, const N: usize> core::ops::Neg for Vector<T, N> {
    type Output = Vector<T, N>;

    /// Componentwise negation.
    fn neg(self) -> (r: Vector<T, N>)
        ensures
            forall|i: int| 0 <= i < N ==> #[trigger] r.data[i] == self.data[i].negate_spec(),
            r.data@ == seq_negate(self.data@),
    {
        Vector { data: negate_array(&self.data) }
    }
}

impl<T: Scalar, const N: usize> vstd::std_specs::ops::MulSpecImpl<T> for Vector<T, N> {
    open spec fn obeys_mul_spec() -> bool {
        false
    }

    open spec fn mul_req(self, rhs: T) -> bool {
        true
    }

    open spec fn mul_spec(self, rhs: T) -> Vector<T, N> {
        arbitrary()
    }
}

impl<T: Scalar, const N: usize> core::ops::Mul<T> for Vector<T, N> {
    type Output = Vector<T, N>;

    /// Scale every component by `rhs`.
    fn mul(self, rhs: T) -> (r: Vector<T, N>)
        ensures
            forall|i: int| 0 <= i < N ==> #[trigger] r.data[i] == self.data[i].times_spec(rhs),
            r.data@ == seq_scale(BinOp::Times, self.data@, rhs),
    {
        Vector { data: scale_array(BinOp::Times, &self.data, rhs) }
    }
}

impl<T: Scalar, const N: usize> vstd::std_specs::ops::DivSpecImpl<T> for Vector<T, N> {
    open spec fn obeys_div_spec() -> bool {
        false
    }

    open spec fn div_req(self, rhs: T) -> bool {
        true
    }

    open spec fn div_spec(self, rhs: T) -> Vector<T, N> {
        arbitrary()
    }
}

impl<T: Scalar, const N: usize> core::ops::Div<T> for Vector<T, N> {
    type Output = Vector<T, N>;

    /// Divide every component by `rhs`.
    fn div(self, rhs: T) -> (r: Vector<T, N>)
        ensures
            forall|i: int| 0 <= i < N ==> #[trigger] r.data[i] == self.data[i].divide_spec(rhs),
            r.data@ == seq_scale(BinOp::Divide, self.data@, rhs),
    {
        Vector { data: scale_array(BinOp::Divide, &self.data, rhs) }
    }
}

impl<T: Scalar, const N: usize> vstd::std_specs::ops::MulSpecImpl<Vector<T, N>> for Vector<T, N> {
    open spec fn obeys_mul_spec() -> bool {
        false
    }

    open spec fn mul_req(self, rhs: Vector<T, N>) -> bool {
        true
    }

    open spec fn mul_spec(self, rhs: Vector<T, N>) -> Vector<T, N> {
        arbitrary()
    }
}

impl<T: Scalar, const N: usize> core::ops::Mul<Vector<T, N>> for Vector<T, N> {
    type Output = Vector<T, N>;

    /// Componentwise product of two same-length vectors.
    fn mul(self, rhs: Vector<T, N>) -> (r: Vector<T, N>)
        ensures
            forall|i: int| 0 <= i < N ==> #[trigger] r.data[i] == self.data[i].times_spec(rhs.data[i]),
    {
        Vector { data: zip_array(BinOp::Times, &self.data, &rhs.data) }
    }
}

impl<T: Scalar, const N: usize> vstd::std_specs::ops::DivSpecImpl<Vector<T, N>> for Vector<T, N> {
    open spec fn obeys_div_spec() -> bool {
        false
    }

    open spec fn div_req(self, rhs: Vector<T, N>) -> bool {
        true
    }

    open spec fn div_spec(self, rhs: Vector<T, N>) -> Vector<T, N> {
        arbitrary()
    }
}

impl<T: Scalar, const N: usize> core::ops::Div<Vector<T, N>> for Vector<T, N> {
    type Output = Vector<T, N>;

    /// Componentwise quotient of two same-length vectors.
    fn div(self, rhs: Vector<T, N>) -> (r: Vector<T, N>)
        ensures
            forall|i: int| 0 <= i < N ==> #[trigger] r.data[i] == self.data[i].divide_spec(rhs.data[i]),
    {
        Vector { data: zip_array(BinOp::Divide, &self.data, &rhs.data) }
    }
}


// ===========================================================================
// Matrix
// ===========================================================================

/// A fixed-size `R x C` matrix of elements of type `T`, stored row-major.
#[derive(Clone, Copy, PartialEq, Eq, Debug)]
pub struct Matrix<T, const R: usize, const C: usize> {
    /// Row-major storage: `data[row][col]`.
    pub data: [[T; C]; R],
}

/// The rows of a row-major array, each as a sequence.
pub open spec fn rows_of<T, const R: usize, const C: usize>(a: [[T; C]; R]) -> Seq<Seq<T>> {
    Seq::new(R as nat, |i: int| a[i]@)
}

/// Column `k` of a sequence of rows.
pub open spec fn column<T>(rows: Seq<Seq<T>>, k: int) -> Seq<T> {
    Seq::new(rows.len(), |j: int| rows[j][k])
}

/// The transpose of the rows `a`, which have `c` columns.
pub open spec fn transpose_rows<T>(a: Seq<Seq<T>>, c: nat) -> Seq<Seq<T>> {
    Seq::new(c, |j: int| column(a, j))
}

/// Transposing twice gives back the rows of an `r x c` matrix.
pub proof fn lemma_transpose_involution<T>(a: Seq<Seq<T>>, r: nat, c: nat)
    requires
        a.len() == r,
        forall|i: int| 0 <= i < r ==> #[trigger] a[i].len() == c,
    ensures
        transpose_rows(transpose_rows(a, c), r) == a,
{
    assert forall|i: int| 0 <= i < r implies #[trigger] transpose_rows(transpose_rows(a, c), r)[i] =~= a[i] by {}
    assert(transpose_rows(transpose_rows(a, c), r) =~= a);
}

/// The `n x n` identity, as rows.
pub open spec fn identity_rows<T: Scalar>(n: nat) -> Seq<Seq<T>> {
    Seq::new(n, |i: int| Seq::new(n, |j: int| if i == j { T::one_spec() } else { T::zero_spec() }))
}

impl<T: Scalar, const R: usize, const C: usize> Matrix<T, R, C> {
    /// Build from a row-major nested array.
    pub fn new(data: [[T; C]; R]) -> (r: Self)
        ensures
            r.data == data,
    {
        Matrix { data }
    }

    /// Build element-by-element with `f(row, col)`.
    pub fn from_fn<F: Fn(usize, usize) -> T>(f: F) -> (r: Self)
        requires
            forall|i: usize, j: usize| i < R && j < C ==> f.requires((i, j)),
        ensures
            forall|i: int, j: int|
                0 <= i < R && 0 <= j < C ==> f.ensures((i as usize, j as usize), #[trigger] r.data[i][j]),
    {
        let mut out = [[T::zero(); C]; R];
        for i in 0..R
            invariant
                forall|a: usize, b: usize| a < R && b < C ==> f.requires((a, b)),
                forall|a: int, b: int|
                    0 <= a < i && 0 <= b < C ==> f.ensures((a as usize, b as usize), #[trigger] out[a][b]),
        {
            let mut row = out[i];
            for j in 0..C
                invariant
                    0 <= i < R,
                    forall|a: usize, b: usize| a < R && b < C ==> f.requires((a, b)),
                    forall|b: int| 0 <= b < j ==> f.ensures((i as usize, b as usize), #[trigger] row[b]),
            {
                row[j] = f(i, j);
            }
            out[i] = row;
        }
        Matrix { data: out }
    }

    /// Number of rows.
    pub fn nrows(&self) -> (r: usize)
        ensures
            r == R,
    {
        R
    }

    /// Number of columns.
    pub fn ncols(&self) -> (r: usize)
        ensures
            r == C,
    {
        C
    }

    /// The `C x R` transpose.
    pub fn transpose(&self) -> (r: Matrix<T, C, R>)
        ensures
            forall|i: int, j: int| 0 <= i < R && 0 <= j < C ==> #[trigger] r.data[j][i] == self.data[i][j],
            rows_of(r.data) == transpose_rows(rows_of(self.data), C as nat),
    {
        let mut out = [[T::zero(); R]; C];
        for j in 0..C
            invariant
                forall|a: int, b: int| 0 <= a < R && 0 <= b < j ==> #[trigger] out[b][a] == self.data[a][b],
        {
            let mut row = out[j];
            for i in 0..R
                invariant
                    0 <= j < C,
                    forall|a: int| 0 <= a < i ==> #[trigger] row[a] == self.data[a][j as int],
            {
                row[i] = self.data[i][j];
            }
            out[j] = row;
        }
        let r = Matrix { data: out };
        assert(rows_of(r.data) =~= transpose_rows(rows_of(self.data), C as nat)) by {
            assert forall|j: int| 0 <= j < C implies rows_of(r.data)[j] =~= transpose_rows(rows_of(self.data), C as nat)[j] by {}
        }
        r
    }

    /// Matrix-vector product `self * v`: entry `i` is the dot product of row `i` with `v`.
    pub fn mul_vec(&self, v: &Vector<T, C>) -> (r: Vector<T, R>)
        ensures
            forall|i: int| 0 <= i < R ==> #[trigger] r.data[i] == dot_seq(self.data[i]@, v.data@),
            r.data@ == mat_vec_spec(rows_of(self.data), v.data@),
    {
        let mut out = [T::zero(); R];
        for i in 0..R
            invariant
                forall|a: int| 0 <= a < i ==> #[trigger] out[a] == dot_seq(self.data[a]@, v.data@),
        {
            let row = Vector { data: self.data[i] };
            out[i] = row.dot(v);
        }
        assert(out@ =~= mat_vec_spec(rows_of(self.data), v.data@));
        Vector { data: out }
    }

    /// Componentwise (Hadamard) product of two same-shaped matrices.
    pub fn component_mul(&self, rhs: &Matrix<T, R, C>) -> (r: Matrix<T, R, C>)
        ensures
            forall|i: int, j: int|
                0 <= i < R && 0 <= j < C ==> #[trigger] r.data[i][j] == self.data[i][j].times_spec(rhs.data[i][j]),
    {
        Matrix { data: zip_array2(BinOp::Times, &self.data, &rhs.data) }
    }

    /// Componentwise (Hadamard) quotient of two same-shaped matrices.
    pub fn component_div(&self, rhs: &Matrix<T, R, C>) -> (r: Matrix<T, R, C>)
        ensures
            forall|i: int, j: int|
                0 <= i < R && 0 <= j < C ==> #[trigger] r.data[i][j] == self.data[i][j].divide_spec(rhs.data[i][j]),
    {
        Matrix { data: zip_array2(BinOp::Divide, &self.data, &rhs.data) }
    }
}

impl<T: Scalar, const R: usize, const C: usize> Matrix<T, R, C> {
    /// Build from a flat row-major slice: entry `(i, j)` is `data[i * C + j]`. The slice must
    /// hold at least `R * C` elements.
    pub fn from_array(data: &[T]) -> (r: Self)
        requires
            data@.len() >= R * C,
        ensures
            forall|i: int, j: int|
                0 <= i < R && 0 <= j < C ==> #[trigger] r.data[i][j] == data@[i * C + j],
    {
        let mut out = [[T::zero(); C]; R];
        let mut k: usize = 0;
        assert(0 * C == 0) by (nonlinear_arith);
        for i in 0..R
            invariant
                data@.len() >= R * C,
                k == i * C,
                forall|a: int, b: int|
                    0 <= a < i && 0 <= b < C ==> #[trigger] out[a][b] == data@[a * C + b],
        {
            let mut row = out[i];
            for j in 0..C
                invariant
                    0 <= i < R,
                    data@.len() >= R * C,
                    k == i * C + j,
                    forall|b: int| 0 <= b < j ==> #[trigger] row[b] == data@[i * C + b],
            {
                assert(i * C + j < R * C) by (nonlinear_arith)
                    requires
                        i < R,
                        j < C,
                ;
                row[j] = data[k];
                k += 1;
            }
            out[i] = row;
            assert((i + 1) * C == i * C + C) by (nonlinear_arith);
        }
        Matrix { data: out }
    }

    /// Build from `R` columns, each a vector of length `C`: entry `(i, j)` is component `i`
    /// of column `j`, for `i, j < R`; any further columns of the result are zero. `None`
    /// unless exactly `R` columns are given.
    pub fn from_columns(columns: &[Vector<T, C>]) -> (r: Option<Self>)
        requires
            columns@.len() == R && R > 0 ==> R <= C,
        ensures
            r is None <==> columns@.len() != R,
            r matches Some(m) ==> forall|i: int, j: int|
                0 <= i < R && 0 <= j < C ==> #[trigger] m.data[i][j] == if j < R {
                    columns@[j].data[i]
                } else {
                    T::zero_spec()
                },
    {
        if columns.len() != R {
            return None;
        }
        let mut out = [[T::zero(); C]; R];
        for j in 0..R
            invariant
                columns@.len() == R,
                R > 0 ==> R <= C,
                forall|a: int, b: int|
                    0 <= a < R && 0 <= b < C ==> #[trigger] out[a][b] == if b < j {
                        columns@[b].data[a]
                    } else {
                        T::zero_spec()
                    },
        {
            let col = &columns[j];
            for i in 0..R
                invariant
                    columns@.len() == R,
                    R <= C,
                    j < R,
                    *col == columns@[j as int],
                    forall|a: int, b: int|
                        0 <= a < R && 0 <= b < C ==> #[trigger] out[a][b] == if b < j || (b == j
                            && a < i) {
                            columns@[b].data[a]
                        } else {
                            T::zero_spec()
                        },
            {
                let mut row = out[i];
                row[j] = col.data[i];
                out[i] = row;
            }
        }
        Some(Matrix { data: out })
    }
}

// ===========================================================================
// Square matrices: identity, determinant, inverse
// ===========================================================================

/// Partial pivot search in column `k` over rows `k..end`: the first row whose entry has the
/// largest absolute value (a later row wins only when strictly larger), with that value.
pub open spec fn pivot_scan<T: Scalar>(a: Seq<Seq<T>>, k: int, end: int) -> (int, T)
    decreases end - k,
{
    if end <= k + 1 {
        (k, a[k][k].abs_spec())
    } else {
        let (p, m) = pivot_scan(a, k, end - 1);
        let v = a[end - 1][k].abs_spec();
        if m.lt_spec(v) {
            (end - 1, v)
        } else {
            (p, m)
        }
    }
}

/// Rows `k` and `p` exchanged.
pub open spec fn swap_rows<T>(a: Seq<Seq<T>>, k: int, p: int) -> Seq<Seq<T>> {
    a.update(k, a[p]).update(p, a[k])
}

/// Row `ri` after eliminating column `k` with pivot row `rk` (pivot `ak`): the entries right
/// of column `k` become `ri[j] - (ri[k] / ak) * rk[j]`; the others are kept.
pub open spec fn eliminate_row<T: Scalar>(ri: Seq<T>, rk: Seq<T>, k: int, ak: T) -> Seq<T> {
    Seq::new(ri.len(), |j: int| if j > k { ri[j].minus_spec(ri[k].divide_spec(ak).times_spec(rk[j])) } else { ri[j] })
}

/// Every row below `k` eliminated against row `k`.
pub open spec fn eliminate_below<T: Scalar>(a: Seq<Seq<T>>, k: int) -> Seq<Seq<T>> {
    Seq::new(a.len(), |i: int| if i > k { eliminate_row(a[i], a[k], k, a[k][k]) } else { a[i] })
}

/// Gaussian elimination with partial pivoting from step `k` of `n`, with the running
/// product of pivots `det` and the sign of the row permutation `sign`: the product of the
/// pivots times the sign, or zero as soon as a pivot column's largest magnitude is zero or
/// not finite.
pub open spec fn det_run<T: Scalar>(a: Seq<Seq<T>>, det: T, sign: T, k: int, n: int) -> T
    decreases n - k,
{
    if k >= n {
        det.times_spec(sign)
    } else {
        let (p, m) = pivot_scan(a, k, n);
        if !m.is_finite_spec() || m.eq_spec(T::zero_spec()) {
            T::zero_spec()
        } else {
            let a2 = if p != k { swap_rows(a, k, p) } else { a };
            let s2 = if p != k { sign.negate_spec() } else { sign };
            det_run(eliminate_below(a2, k), det.times_spec(a2[k][k]), s2, k + 1, n)
        }
    }
}

/// The determinant as computed by Gaussian elimination with partial pivoting.
pub open spec fn determinant_spec<T: Scalar>(a: Seq<Seq<T>>) -> T {
    det_run(a, T::one_spec(), T::one_spec(), 0, a.len() as int)
}

/// Row `r` divided entrywise by `d`.
pub open spec fn divide_row<T: Scalar>(r: Seq<T>, d: T) -> Seq<T> {
    Seq::new(r.len(), |j: int| r[j].divide_spec(d))
}

/// Row `r` minus `f` times row `rk`, entrywise.
pub open spec fn sub_scaled_row<T: Scalar>(r: Seq<T>, f: T, rk: Seq<T>) -> Seq<T> {
    Seq::new(r.len(), |j: int| r[j].minus_spec(f.times_spec(rk[j])))
}

/// Whether Gauss-Jordan step `k` updates row `i` (a row other than the pivot row whose
/// column-`k` entry is non-zero).
pub open spec fn jordan_updates<T: Scalar>(a: Seq<Seq<T>>, k: int, i: int) -> bool {
    i != k && !a[i][k].eq_spec(T::zero_spec())
}

/// The Gauss-Jordan update of the rows `rows` driven by the working matrix `a` at step `k`:
/// each updated row `i` loses `a[i][k]` times row `k`.
pub open spec fn jordan_rows<T: Scalar>(a: Seq<Seq<T>>, rows: Seq<Seq<T>>, k: int) -> Seq<Seq<T>> {
    Seq::new(rows.len(), |i: int| if jordan_updates(a, k, i) { sub_scaled_row(rows[i], a[i][k], rows[k]) } else { rows[i] })
}

/// Gauss-Jordan elimination with partial pivoting from step `k` of `n`, carrying the
/// working matrix `a` and the accumulated inverse `v`: `None` as soon as a pivot column's
/// largest magnitude is below `eps`, else the final `v`.
pub open spec fn inverse_run<T: Scalar>(a: Seq<Seq<T>>, v: Seq<Seq<T>>, k: int, n: int, eps: T) -> Option<Seq<Seq<T>>>
    decreases n - k,
{
    if k >= n {
        Some(v)
    } else {
        let (p, m) = pivot_scan(a, k, n);
        if m.lt_spec(eps) {
            None
        } else {
            let a2 = if p != k { swap_rows(a, k, p) } else { a };
            let v2 = if p != k { swap_rows(v, k, p) } else { v };
            let ak = a2[k][k];
            let a3 = a2.update(k, divide_row(a2[k], ak));
            let v3 = v2.update(k, divide_row(v2[k], ak));
            inverse_run(jordan_rows(a3, a3, k), jordan_rows(a3, v3, k), k + 1, n, eps)
        }
    }
}

/// The inverse as computed by Gauss-Jordan elimination with partial pivoting and the
/// singularity tolerance [`tiny`].
pub open spec fn inverse_spec<T: Scalar>(a: Seq<Seq<T>>) -> Option<Seq<Seq<T>>> {
    inverse_run(a, identity_rows::<T>(a.len()), 0, a.len() as int, tiny::<T>())
}

/// Runs [`pivot_scan`] over rows `k..N` of `a`.
fn pivot_search<T: Scalar, const N: usize>(a: &[[T; N]; N], k: usize) -> (r: (usize, T))
    requires
        k < N,
    ensures
        r.0 < N,
        k <= r.0,
        (r.0 as int, r.1) == pivot_scan(rows_of(*a), k as int, N as int),
{
    let mut piv = k;
    let mut mx = a[k][k].abs();
    for i in (k + 1)..N
        invariant
            k < N,
            k <= piv < N,
            (piv as int, mx) == pivot_scan(rows_of(*a), k as int, i as int),
    {
        let v = a[i][k].abs();
        if mx.lt(v) {
            mx = v;
            piv = i;
        }
    }
    (piv, mx)
}

/// Eliminates every row below `k` against row `k`, as [`eliminate_below`] describes.
fn eliminate_below_exec<T: Scalar, const N: usize>(a: &mut [[T; N]; N], k: usize)
    requires
        k < N,
    ensures
        rows_of(*final(a)) == eliminate_below(rows_of(*old(a)), k as int),
{
    let ghost a0 = rows_of(*a);
    let ak = a[k][k];
    for i in (k + 1)..N
        invariant
            k < N,
            ak == a0[k as int][k as int],
            rows_of(*a).len() == N,
            forall|r: int| 0 <= r < N ==> #[trigger] rows_of(*a)[r] == if k < r < i {
                eliminate_row(a0[r], a0[k as int], k as int, ak)
            } else {
                a0[r]
            },
    {
        let ghost before = rows_of(*a);
        let ghost arr_before = *a;
        let mut row = a[i];
        let pivot_row = a[k];
        assert(rows_of(*a)[i as int] == a0[i as int]);
        assert(rows_of(*a)[k as int] == a0[k as int]);
        assert(row@ == a0[i as int]);
        assert(pivot_row@ == a0[k as int]);
        let f = row[k].divide(ak);
        for j in (k + 1)..N
            invariant
                k < i < N,
                pivot_row@ == a0[k as int],
                f == a0[i as int][k as int].divide_spec(ak),
                row@.len() == N,
                forall|c: int| 0 <= c < N ==> #[trigger] row@[c] == if k < c < j {
                    a0[i as int][c].minus_spec(f.times_spec(pivot_row@[c]))
                } else {
                    a0[i as int][c]
                },
        {
            row[j] = row[j].minus(f.times(pivot_row[j]));
        }
        a[i] = row;
        assert(rows_of(*a)[i as int] =~= eliminate_row(a0[i as int], a0[k as int], k as int, ak));
        assert forall|r: int| 0 <= r < N && r != i implies #[trigger] rows_of(*a)[r] == before[r] by {
            assert(a[r] == arr_before[r]);
        }
    }
    assert(rows_of(*a) =~= eliminate_below(a0, k as int));
}

/// `r - f * rk`, entrywise, as [`sub_scaled_row`] describes.
fn sub_scaled_exec<T: Scalar, const N: usize>(r: &[T; N], f: T, rk: &[T; N]) -> (out: [T; N])
    ensures
        out@ == sub_scaled_row(r@, f, rk@),
{
    let mut out = *r;
    for j in 0..N
        invariant
            forall|c: int| 0 <= c < N ==> #[trigger] out[c] == if c < j {
                r[c].minus_spec(f.times_spec(rk[c]))
            } else {
                r[c]
            },
    {
        out[j] = r[j].minus(f.times(rk[j]));
    }
    assert(out@ =~= sub_scaled_row(r@, f, rk@));
    out
}

/// One Gauss-Jordan step at column `k`, as [`jordan_rows`] describes for the working matrix
/// `a` and the accumulated inverse `v`.
fn jordan_exec<T: Scalar, const N: usize>(a: &mut [[T; N]; N], v: &mut [[T; N]; N], k: usize)
    requires
        k < N,
    ensures
        rows_of(*final(a)) == jordan_rows(rows_of(*old(a)), rows_of(*old(a)), k as int),
        rows_of(*final(v)) == jordan_rows(rows_of(*old(a)), rows_of(*old(v)), k as int),
{
    let ghost a0 = rows_of(*a);
    let ghost v0 = rows_of(*v);
    for i in 0..N
        invariant
            k < N,
            rows_of(*a).len() == N,
            rows_of(*v).len() == N,
            forall|r: int| 0 <= r < N ==> #[trigger] rows_of(*a)[r] == if r < i && jordan_updates(a0, k as int, r) {
                sub_scaled_row(a0[r], a0[r][k as int], a0[k as int])
            } else {
                a0[r]
            },
            forall|r: int| 0 <= r < N ==> #[trigger] rows_of(*v)[r] == if r < i && jordan_updates(a0, k as int, r) {
                sub_scaled_row(v0[r], a0[r][k as int], v0[k as int])
            } else {
                v0[r]
            },
    {
        if i != k {
            let ghost arr_a = *a;
            let ghost arr_v = *v;
            assert(rows_of(*a)[i as int] == a0[i as int]);
            assert(rows_of(*a)[k as int] == a0[k as int]);
            assert(rows_of(*v)[i as int] == v0[i as int]);
            assert(rows_of(*v)[k as int] == v0[k as int]);
            let f = a[i][k];
            if !f.eq(T::zero()) {
                let new_a = sub_scaled_exec(&a[i], f, &a[k]);
                let new_v = sub_scaled_exec(&v[i], f, &v[k]);
                a[i] = new_a;
                v[i] = new_v;
                assert forall|r: int| 0 <= r < N && r != i implies #[trigger] rows_of(*a)[r] == rows_of(arr_a)[r] by {
                    assert(a[r] == arr_a[r]);
                }
                assert forall|r: int| 0 <= r < N && r != i implies #[trigger] rows_of(*v)[r] == rows_of(arr_v)[r] by {
                    assert(v[r] == arr_v[r]);
                }
            }
        }
    }
    assert(rows_of(*a) =~= jordan_rows(a0, a0, k as int));
    assert(rows_of(*v) =~= jordan_rows(a0, v0, k as int));
}

impl<T: Scalar, const N: usize> Matrix<T, N, N> {
    /// The `N x N` identity matrix.
    pub fn identity() -> (r: Self)
        ensures
            rows_of(r.data) == identity_rows::<T>(N as nat),
    {
        let mut out = [[T::zero(); N]; N];
        for i in 0..N
            invariant
                forall|a: int, b: int|
                    0 <= a < N && 0 <= b < N ==> #[trigger] out[a][b] == if a == b && a < i {
                        T::one_spec()
                    } else {
                        T::zero_spec()
                    },
        {
            let mut row = out[i];
            row[i] = T::one();
            out[i] = row;
        }
        let r = Matrix { data: out };
        assert(rows_of(r.data) =~= identity_rows::<T>(N as nat)) by {
            assert forall|a: int| 0 <= a < N implies rows_of(r.data)[a] =~= identity_rows::<T>(N as nat)[a] by {}
        }
        r
    }

    /// Determinant via Gaussian elimination with partial pivoting (see [`determinant_spec`]).
    pub fn determinant(&self) -> (r: T)
        ensures
            r == determinant_spec(rows_of(self.data)),
    {
        let mut a = self.data;
        let mut det = T::one();
        let mut sign = T::one();
        for k in 0..N
            invariant
                det_run(rows_of(a), det, sign, k as int, N as int) == determinant_spec(rows_of(self.data)),
        {
            let ghost a_before = rows_of(a);
            let ghost det_before = det;
            let ghost sign_before = sign;
            let (piv, mx) = pivot_search(&a, k);
            if !mx.is_finite() || mx.eq(T::zero()) {
                return T::zero();
            }
            if piv != k {
                let tmp = a[k];
                a[k] = a[piv];
                a[piv] = tmp;
                sign = sign.negate();
                assert(rows_of(a) =~= swap_rows(a_before, k as int, piv as int));
            }
            let ghost swapped = rows_of(a);
            let ak = a[k][k];
            assert(ak == swapped[k as int][k as int]);
            det = det.times(ak);
            eliminate_below_exec(&mut a, k);
            assert(det_run(a_before, det_before, sign_before, k as int, N as int) == det_run(
                rows_of(a),
                det,
                sign,
                k + 1,
                N as int,
            ));
        }
        det.times(sign)
    }

    /// Inverse via Gauss-Jordan elimination with partial pivoting (see [`inverse_spec`]):
    /// `None` when a pivot falls below the tolerance `10^-12`, i.e. the matrix is
    /// (numerically) singular.
    pub fn inverse(&self) -> (r: Option<Matrix<T, N, N>>)
        ensures
            r is None <==> inverse_spec(rows_of(self.data)) is None,
            r matches Some(m) ==> inverse_spec(rows_of(self.data)) == Some(rows_of(m.data)),
    {
        let eps = tiny_exec::<T>();
        let mut a = self.data;
        let mut inv = Self::identity().data;
        for k in 0..N
            invariant
                eps == tiny::<T>(),
                inverse_run(rows_of(a), rows_of(inv), k as int, N as int, eps) == inverse_spec(rows_of(self.data)),
        {
            let ghost a_before = rows_of(a);
            let ghost v_before = rows_of(inv);
            let (piv, mx) = pivot_search(&a, k);
            if mx.lt(eps) {
                return None;
            }
            if piv != k {
                let tmp = a[k];
                a[k] = a[piv];
                a[piv] = tmp;
                let tmp2 = inv[k];
                inv[k] = inv[piv];
                inv[piv] = tmp2;
                assert(rows_of(a) =~= swap_rows(a_before, k as int, piv as int));
                assert(rows_of(inv) =~= swap_rows(v_before, k as int, piv as int));
            }
            let ghost a2 = rows_of(a);
            let ghost v2 = rows_of(inv);
            let ak = a[k][k];
            assert(ak == a2[k as int][k as int]);
            assert(a2[k as int] == a[k as int]@);
            assert(v2[k as int] == inv[k as int]@);
            let row_a = scale_array(BinOp::Divide, &a[k], ak);
            let row_v = scale_array(BinOp::Divide, &inv[k], ak);
            assert(row_a@ =~= divide_row(a2[k as int], ak));
            assert(row_v@ =~= divide_row(v2[k as int], ak));
            let ghost arr_a = a;
            let ghost arr_v = inv;
            a[k] = row_a;
            inv[k] = row_v;
            assert forall|r: int| 0 <= r < N && r != k implies #[trigger] rows_of(a)[r] == a2[r] by {
                assert(a[r] == arr_a[r]);
            }
            assert forall|r: int| 0 <= r < N && r != k implies #[trigger] rows_of(inv)[r] == v2[r] by {
                assert(inv[r] == arr_v[r]);
            }
            assert(rows_of(a) =~= a2.update(k as int, divide_row(a2[k as int], ak)));
            assert(rows_of(inv) =~= v2.update(k as int, divide_row(v2[k as int], ak)));
            jordan_exec(&mut a, &mut inv, k);
        }
        Some(Matrix { data: inv })
    }
}

impl<T: Copy, const R: usize, const C: usize> Matrix<T, R, C> {
    /// All entries in row-major order: entry `(i, j)` sits at position `i * C + j`.
    pub fn iter(&self) -> (r: Vec<T>)
        ensures
            r@.len() == R * C,
            forall|i: int, j: int| 0 <= i < R && 0 <= j < C ==> r@[i * C + j] == #[trigger] self.data[i][j],
    {
        let mut out: Vec<T> = Vec::new();
        assert(0 * C == 0) by (nonlinear_arith);
        for i in 0..R
            invariant
                out@.len() == i * C,
                forall|a: int, b: int| 0 <= a < i && 0 <= b < C ==> out@[a * C + b] == #[trigger] self.data[a][b],
        {
            for j in 0..C
                invariant
                    0 <= i < R,
                    out@.len() == i * C + j,
                    forall|a: int, b: int| 0 <= a < i && 0 <= b < C ==> out@[a * C + b] == #[trigger] self.data[a][b],
                    forall|b: int| 0 <= b < j ==> out@[i * C + b] == #[trigger] self.data[i as int][b],
            {
                let ghost before = out@;
                out.push(self.data[i][j]);
                assert forall|a: int, b: int| 0 <= a < i && 0 <= b < C implies out@[a * C + b] == #[trigger] self.data[a][b] by {
                    assert(a * C + b < i * C) by (nonlinear_arith)
                        requires
                            0 <= a < i,
                            0 <= b < C,
                    ;
                    assert(out@[a * C + b] == before[a * C + b]);
                }
            }
            assert((i + 1) * C == i * C + C) by (nonlinear_arith);
        }
        out
    }

    /// The entry in row `i`, column `j`.
    pub fn get(&self, i: usize, j: usize) -> (r: T)
        requires
            i < R,
            j < C,
        ensures
            r == self.data[i as int][j as int],
    {
        self.data[i][j]
    }
}

/// Column `k` of a row-major array, as computed entry by entry.
pub(crate) fn column_exec<T: Scalar, const R: usize, const C: usize>(m: &[[T; C]; R], k: usize) -> (r: [T; R])
    requires
        k < C,
    ensures
        r@ == column(rows_of(*m), k as int),
{
    let mut out = [T::zero(); R];
    for j in 0..R
        invariant
            k < C,
            forall|a: int| 0 <= a < j ==> #[trigger] out[a] == m[a][k as int],
    {
        out[j] = m[j][k];
    }
    assert(out@ =~= column(rows_of(*m), k as int));
    out
}

impl<T, const R: usize, const C: usize> vstd::std_specs::core::IndexSpecImpl<(usize, usize)> for Matrix<T, R, C> {
    open spec fn index_req(&self, index: &(usize, usize)) -> bool {
        index.0 < R && index.1 < C
    }
}

impl<T, const R: usize, const C: usize> core::ops::Index<(usize, usize)> for Matrix<T, R, C> {
    type Output = T;

    /// The entry at `(i, j)` (both within bounds).
    fn index(&self, ij: (usize, usize)) -> (r: &T)
        ensures
            *r == self.data[ij.0 as int][ij.1 as int],
    {
        &self.data[ij.0][ij.1]
    }
}

impl<T: Scalar, const R: usize, const C: usize> vstd::std_specs::ops::AddSpecImpl for Matrix<T, R, C> {
    open spec fn obeys_add_spec() -> bool {
        false
    }

    open spec fn add_req(self, rhs: Matrix<T, R, C>) -> bool {
        true
    }

    open spec fn add_spec(self, rhs: Matrix<T, R, C>) -> Matrix<T, R, C> {
        rhs
    }
}

impl<T: Scalar, const R: usize, const C: usize> core::ops::Add for Matrix<T, R, C> {
    type Output = Matrix<T, R, C>;

    /// Entrywise sum.
    fn add(self, rhs: Matrix<T, R, C>) -> (r: Matrix<T, R, C>)
        ensures
            forall|i: int, j: int|
                0 <= i < R && 0 <= j < C ==> #[trigger] r.data[i][j] == self.data[i][j].plus_spec(rhs.data[i][j]),
    {
        Matrix { data: zip_array2(BinOp::Plus, &self.data, &rhs.data) }
    }
}

impl<T: Scalar, const R: usize, const C: usize> vstd::std_specs::ops::SubSpecImpl for Matrix<T, R, C> {
    open spec fn obeys_sub_spec() -> bool {
        false
    }

    open spec fn sub_req(self, rhs: Matrix<T, R, C>) -> bool {
        true
    }

    open spec fn sub_spec(self, rhs: Matrix<T, R, C>) -> Matrix<T, R, C> {
        rhs
    }
}

impl<T: Scalar, const R: usize, const C: usize> core::ops::Sub for Matrix<T, R, C> {
    type Output = Matrix<T, R, C>;

    /// Entrywise difference.
    fn sub(self, rhs: Matrix<T, R, C>) -> (r: Matrix<T, R, C>)
        ensures
            forall|i: int, j: int|
                0 <= i < R && 0 <= j < C ==> #[trigger] r.data[i][j] == self.data[i][j].minus_spec(rhs.data[i][j]),
    {
        Matrix { data: zip_array2(BinOp::Minus, &self.data, &rhs.data) }
    }
}

impl<T: Scalar, const R: usize, const C: usize> vstd::std_specs::ops::NegSpecImpl for Matrix<T, R, C> {
    open spec fn obeys_neg_spec() -> bool {
        false
    }

    open spec fn neg_req(self) -> bool {
        true
    }

    open spec fn neg_spec(self) -> Matrix<T, R, C> {
        arbitrary()
    }
}

impl<T: Scalar, const R: usize, const C: usize> core::ops::Neg for Matrix<T, R, C> {
    type Output = Matrix<T, R, C>;

    /// Entrywise negation.
    fn neg(self) -> (r: Matrix<T, R, C>)
        ensures
            forall|i: int, j: int| 0 <= i < R && 0 <= j < C ==> #[trigger] r.data[i][j] == self.data[i][j].negate_spec(),
    {
        Matrix { data: negate_array2(&self.data) }
    }
}

impl<T: Scalar, const R: usize, const C: usize> vstd::std_specs::ops::MulSpecImpl<T> for Matrix<T, R, C> {
    open spec fn obeys_mul_spec() -> bool {
        false
    }

    open spec fn mul_req(self, rhs: T) -> bool {
        true
    }

    open spec fn mul_spec(self, rhs: T) -> Matrix<T, R, C> {
        arbitrary()
    }
}

impl<T: Scalar, const R: usize, const C: usize> core::ops::Mul<T> for Matrix<T, R, C> {
    type Output = Matrix<T, R, C>;

    /// Scale every entry by `rhs`.
    fn mul(self, rhs: T) -> (r: Matrix<T, R, C>)
        ensures
            forall|i: int, j: int|
                0 <= i < R && 0 <= j < C ==> #[trigger] r.data[i][j] == self.data[i][j].times_spec(rhs),
    {
        Matrix { data: scale_array2(BinOp::Times, &self.data, rhs) }
    }
}

impl<T: Scalar, const R: usize, const C: usize> vstd::std_specs::ops::DivSpecImpl<T> for Matrix<T, R, C> {
    open spec fn obeys_div_spec() -> bool {
        false
    }

    open spec fn div_req(self, rhs: T) -> bool {
        true
    }

    open spec fn div_spec(self, rhs: T) -> Matrix<T, R, C> {
        arbitrary()
    }
}

impl<T: Scalar, const R: usize, const C: usize> core::ops::Div<T> for Matrix<T, R, C> {
    type Output = Matrix<T, R, C>;

    /// Divide every entry by `rhs`.
    fn div(self, rhs: T) -> (r: Matrix<T, R, C>)
        ensures
            forall|i: int, j: int|
                0 <= i < R && 0 <= j < C ==> #[trigger] r.data[i][j] == self.data[i][j].divide_spec(rhs),
    {
        Matrix { data: scale_array2(BinOp::Divide, &self.data, rhs) }
    }
}

impl<T: Scalar, const R: usize, const C: usize, const M: usize> vstd::std_specs::ops::MulSpecImpl<Matrix<T, C, M>> for Matrix<T, R, C> {
    open spec fn obeys_mul_spec() -> bool {
        false
    }

    open spec fn mul_req(self, rhs: Matrix<T, C, M>) -> bool {
        true
    }

    open spec fn mul_spec(self, rhs: Matrix<T, C, M>) -> Matrix<T, R, M> {
        arbitrary()
    }
}

impl<T: Scalar, const R: usize, const C: usize, const M: usize> core::ops::Mul<Matrix<T, C, M>> for Matrix<T, R, C> {
    type Output = Matrix<T, R, M>;

    /// Matrix product `(R x C) * (C x M) -> (R x M)`: entry `(i, k)` is the dot product of row
    /// `i` of `self` with column `k` of `rhs`.
    fn mul(self, rhs: Matrix<T, C, M>) -> (r: Matrix<T, R, M>)
        ensures
            forall|i: int, k: int|
                0 <= i < R && 0 <= k < M ==> #[trigger] r.data[i][k] == dot_seq(self.data[i]@, column(rows_of(rhs.data), k)),
        rows_of(r.data) == mat_mul_spec(rows_of(self.data), rows_of(rhs.data), M as nat),
    {
        let mut out = [[T::zero(); M]; R];
        for i in 0..R
            invariant
                forall|a: int, b: int|
                    0 <= a < i && 0 <= b < M ==> #[trigger] out[a][b] == dot_seq(self.data[a]@, column(rows_of(rhs.data), b)),
        {
            let mut row = out[i];
            let lhs_row = Vector { data: self.data[i] };
            for k in 0..M
                invariant
                    0 <= i < R,
                    lhs_row.data == self.data[i as int],
                    forall|b: int| 0 <= b < k ==> #[trigger] row[b] == dot_seq(self.data[i as int]@, column(rows_of(rhs.data), b)),
            {
                let col = Vector { data: column_exec(&rhs.data, k) };
                row[k] = lhs_row.dot(&col);
            }
            out[i] = row;
        }
        let r = Matrix { data: out };
        assert(rows_of(r.data) =~= mat_mul_spec(rows_of(self.data), rows_of(rhs.data), M as nat)) by {
            assert forall|i: int| 0 <= i < R implies rows_of(r.data)[i] =~= mat_mul_spec(rows_of(self.data), rows_of(rhs.data), M as nat)[i] by {}
        }
        r
    }
}

impl<T: Scalar, const R: usize, const C: usize> vstd::std_specs::ops::MulSpecImpl<Vector<T, C>> for Matrix<T, R, C> {
    open spec fn obeys_mul_spec() -> bool {
        false
    }

    open spec fn mul_req(self, rhs: Vector<T, C>) -> bool {
        true
    }

    open spec fn mul_spec(self, rhs: Vector<T, C>) -> Vector<T, R> {
        arbitrary()
    }
}

impl<T: Scalar, const R: usize, const C: usize> core::ops::Mul<Vector<T, C>> for Matrix<T, R, C> {
    type Output = Vector<T, R>;

    /// Matrix-vector product `(R x C) * (C) -> (R)`, as [`Matrix::mul_vec`].
    fn mul(self, rhs: Vector<T, C>) -> (r: Vector<T, R>)
        ensures
            forall|i: int| 0 <= i < R ==> #[trigger] r.data[i] == dot_seq(self.data[i]@, rhs.data@),
            r.data@ == mat_vec_spec(rows_of(self.data), rhs.data@),
    {
        self.mul_vec(&rhs)
    }
}

impl<T: Scalar, const N: usize, const M: usize> vstd::std_specs::ops::MulSpecImpl<Matrix<T, N, M>> for Vector<T, N> {
    open spec fn obeys_mul_spec() -> bool {
        false
    }

    open spec fn mul_req(self, rhs: Matrix<T, N, M>) -> bool {
        true
    }

    open spec fn mul_spec(self, rhs: Matrix<T, N, M>) -> Vector<T, M> {
        arbitrary()
    }
}

impl<T: Scalar, const N: usize, const M: usize> core::ops::Mul<Matrix<T, N, M>> for Vector<T, N> {
    type Output = Vector<T, M>;

    /// Row-vector-matrix product `(N) * (N x M) -> (M)`: entry `k` is the dot product of
    /// `self` with column `k`.
    fn mul(self, rhs: Matrix<T, N, M>) -> (r: Vector<T, M>)
        ensures
            forall|k: int| 0 <= k < M ==> #[trigger] r.data[k] == dot_seq(self.data@, column(rows_of(rhs.data), k)),
    {
        let mut out = [T::zero(); M];
        for k in 0..M
            invariant
                forall|b: int| 0 <= b < k ==> #[trigger] out[b] == dot_seq(self.data@, column(rows_of(rhs.data), b)),
        {
            let col = Vector { data: column_exec(&rhs.data, k) };
            out[k] = self.dot(&col);
        }
        Vector { data: out }
    }
}

/// 2-D vector.
pub type Vector2<T> = Vector<T, 2>;

/// 3-D vector.
pub type Vector3<T> = Vector<T, 3>;

/// 4-D vector.
pub type Vector4<T> = Vector<T, 4>;

/// 6-D vector.
pub type Vector6<T> = Vector<T, 6>;

/// 2x2 matrix.
pub type Matrix2<T> = Matrix<T, 2, 2>;

/// 3x3 matrix.
pub type Matrix3<T> = Matrix<T, 3, 3>;

/// 4x4 matrix.
pub type Matrix4<T> = Matrix<T, 4, 4>;

/// 3x4 matrix.
pub type Matrix3x4<T> = Matrix<T, 3, 4>;

/// 2x3 matrix.
pub type Matrix2x3<T> = Matrix<T, 2, 3>;

/// 4x3 matrix.
pub type Matrix4x3<T> = Matrix<T, 4, 3>;

} // verus!
