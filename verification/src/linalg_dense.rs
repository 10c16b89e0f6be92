//! Dynamically sized dense vectors and matrices (column-major), generic over a [`Scalar`],
//! with a partial-pivot LU solve and inverse.
use vstd::prelude::*;

use crate::text::{decimal_text, push_decimal};

use crate::linalg_fixed::{apply, apply_spec, dot_prefix, pivot_scan, swap_rows, BinOp};
use crate::scalar::{tiny, tiny_exec, Scalar};

verus! {

// ===========================================================================
// Index arithmetic
// ===========================================================================

/// In a column-major layout with `nrows` rows, the entries of the columns before `j`, and of
/// column `j` above row `i`, come before entry `(i, j)`.
pub proof fn lemma_column_major_before(a: int, b: int, i: int, j: int, nrows: int)
    requires
        0 <= a < nrows,
        0 <= b,
        0 <= i,
        b < j || (b == j && a < i),
    ensures
        a + b * nrows < i + j * nrows,
{
    if b < j {
        assert(b * nrows + nrows <= j * nrows) by (nonlinear_arith)
            requires
                b < j,
                0 <= nrows,
        ;
    }
}

/// Entry `(i, j)` of an `nrows x ncols` column-major layout lies below `nrows * ncols`.
pub proof fn lemma_column_major_bound(i: int, j: int, nrows: int, ncols: int)
    requires
        0 <= i < nrows,
        0 <= j < ncols,
    ensures
        i + j * nrows < nrows * ncols,
        0 <= j * nrows,
{
    assert(i + j * nrows < nrows * ncols) by (nonlinear_arith)
        requires
            0 <= i < nrows,
            0 <= j < ncols,
    ;
    assert(0 <= j * nrows) by (nonlinear_arith)
        requires
            0 <= j,
            0 <= i < nrows,
    ;
}

// ===========================================================================
// DVector
// ===========================================================================

/// A dynamically sized column vector of `T`.
#[derive(Clone, PartialEq, Debug)]
pub struct DVector<T> {
    data: Vec<T>,
}

impl<T> View for DVector<T> {
    type V = Seq<T>;

    /// The elements, in order.
    closed spec fn view(&self) -> Seq<T> {
        self.data@
    }
}

impl<T> DVector<T> {
    /// Build from a `Vec` (elements in order).
    pub fn from_vec(data: Vec<T>) -> (r: Self)
        ensures
            r@ == data@,
    {
        DVector { data }
    }

    /// Number of components.
    pub fn len(&self) -> (r: usize)
        ensures
            r == self@.len(),
    {
        self.data.len()
    }

    /// `true` exactly when there is no component.
    pub fn is_empty(&self) -> (r: bool)
        ensures
            r == (self@.len() == 0),
    {
        self.data.len() == 0
    }

    /// The elements, in order.
    pub fn iter(&self) -> (r: &[T])
        ensures
            r@ == self@,
    {
        self.data.as_slice()
    }

    /// Consume the vector and return its elements.
    pub fn into_vec(self) -> (r: Vec<T>)
        ensures
            r@ == self@,
    {
        self.data
    }
}

impl<T: Copy> DVector<T> {
    /// Build from a slice (elements in order).
    pub fn from_row_slice(data: &[T]) -> (r: Self)
        ensures
            r@ == data@,
    {
        let mut out: Vec<T> = Vec::new();
        for i in 0..data.len()
            invariant
                out@ == data@.take(i as int),
        {
            out.push(data[i]);
            assert(out@ =~= data@.take(i + 1));
        }
        assert(data@.take(data@.len() as int) =~= data@);
        DVector { data: out }
    }

    /// Build element-by-element with `f(i)`.
    pub fn from_fn<F: Fn(usize) -> T>(n: usize, f: F) -> (r: Self)
        requires
            forall|i: usize| i < n ==> f.requires((i,)),
        ensures
            r@.len() == n,
            forall|i: int| 0 <= i < n ==> f.ensures((i as usize,), #[trigger] r@[i]),
    {
        let mut out: Vec<T> = Vec::new();
        for i in 0..n
            invariant
                forall|k: usize| k < n ==> f.requires((k,)),
                out@.len() == i,
                forall|k: int| 0 <= k < i ==> f.ensures((k as usize,), #[trigger] out@[k]),
        {
            out.push(f(i));
        }
        DVector { data: out }
    }
}

impl<T: Scalar> DVector<T> {
    /// A zero vector of length `n`.
    pub fn zeros(n: usize) -> (r: Self)
        ensures
            r@ == Seq::new(n as nat, |i: int| T::zero_spec()),
    {
        let mut out: Vec<T> = Vec::new();
        for i in 0..n
            invariant
                out@ == Seq::new(i as nat, |k: int| T::zero_spec()),
        {
            out.push(T::zero());
            assert(out@ =~= Seq::new((i + 1) as nat, |k: int| T::zero_spec()));
        }
        DVector { data: out }
    }

    /// The Euclidean (L2) norm: the square root of the sum of squares, accumulated in order.
    pub fn norm(&self) -> (r: T)
        ensures
            r == dot_prefix(self@, self@, self@.len() as int).sqrt_spec(),
    {
        let mut s = T::zero();
        for i in 0..self.data.len()
            invariant
                s == dot_prefix(self@, self@, i as int),
        {
            s = s.plus(self.data[i].times(self.data[i]));
        }
        s.sqrt()
    }

    /// Dot product over the common length (the shorter vector's length), accumulated in
    /// order.
    pub fn dot(&self, other: &DVector<T>) -> (r: T)
        ensures
            r == dot_prefix(
                self@,
                other@,
                if self@.len() <= other@.len() { self@.len() as int } else { other@.len() as int },
            ),
    {
        let n = if self.data.len() <= other.data.len() {
            self.data.len()
        } else {
            other.data.len()
        };
        let mut s = T::zero();
        for i in 0..n
            invariant
                n <= self@.len(),
                n <= other@.len(),
                s == dot_prefix(self@, other@, i as int),
        {
            s = s.plus(self.data[i].times(other.data[i]));
        }
        s
    }
}

impl<T> vstd::std_specs::core::IndexSpecImpl<usize> for DVector<T> {
    open spec fn index_req(&self, index: &usize) -> bool {
        *index < self@.len()
    }
}

impl<T> core::ops::Index<usize> for DVector<T> {
    type Output = T;

    /// The component at `i` (which must be in bounds).
    fn index(&self, i: usize) -> (r: &T)
        ensures
            *r == self@[i as int],
    {
        &self.data[i]
    }
}

// ===========================================================================
// DMatrix
// ===========================================================================

/// A dynamically sized matrix of `T`, stored column-major: entry `(i, j)` is element
/// `i + j * nrows` of the storage.
#[derive(Clone, PartialEq, Debug)]
pub struct DMatrix<T> {
    nrows: usize,
    ncols: usize,
    data: Vec<T>,
}

impl<T> DMatrix<T> {
    /// Number of rows.
    pub closed spec fn rows_spec(&self) -> nat {
        self.nrows as nat
    }

    /// Number of columns.
    pub closed spec fn cols_spec(&self) -> nat {
        self.ncols as nat
    }

    /// The column-major storage.
    pub closed spec fn storage(&self) -> Seq<T> {
        self.data@
    }

    /// Entry `(i, j)`.
    pub open spec fn entry(&self, i: int, j: int) -> T {
        self.storage()[i + j * self.rows_spec()]
    }

    /// The storage holds exactly `nrows * ncols` entries.
    pub open spec fn well_formed(&self) -> bool {
        self.storage().len() == self.rows_spec() * self.cols_spec()
    }

    /// Every entry `(i, j)` with `i < m`, `j < n` lies within the storage.
    pub open spec fn covers(&self, m: nat, n: nat) -> bool {
        forall|i: int, j: int| 0 <= i < m && 0 <= j < n ==> #[trigger] (i + j * self.rows_spec()) < self.storage().len()
    }

    /// A well-formed matrix covers its own shape.
    pub proof fn lemma_well_formed_covers(&self)
        requires
            self.well_formed(),
        ensures
            self.covers(self.rows_spec(), self.cols_spec()),
    {
        assert forall|i: int, j: int| 0 <= i < self.rows_spec() && 0 <= j < self.cols_spec() implies #[trigger] (i + j * self.rows_spec()) < self.storage().len() by {
            lemma_column_major_bound(i, j, self.rows_spec() as int, self.cols_spec() as int);
        }
    }

    /// Build from a `Vec` laid out column-major: entry `(i, j)` is `data[i + j * nrows]`.
    pub fn from_vec(nrows: usize, ncols: usize, data: Vec<T>) -> (r: Self)
        ensures
            r.rows_spec() == nrows,
            r.cols_spec() == ncols,
            r.storage() == data@,
    {
        DMatrix { nrows, ncols, data }
    }

    /// Number of rows.
    pub fn nrows(&self) -> (r: usize)
        ensures
            r == self.rows_spec(),
    {
        self.nrows
    }

    /// Number of columns.
    pub fn ncols(&self) -> (r: usize)
        ensures
            r == self.cols_spec(),
    {
        self.ncols
    }

    /// `true` when there are no rows or no columns.
    pub fn is_empty(&self) -> (r: bool)
        ensures
            r == (self.rows_spec() == 0 || self.cols_spec() == 0),
    {
        self.nrows == 0 || self.ncols == 0
    }

    /// All stored elements, in column-major order.
    pub fn iter(&self) -> (r: &[T])
        ensures
            r@ == self.storage(),
    {
        self.data.as_slice()
    }

    /// Column-major linear index of `(i, j)`.
    fn offset(&self, i: usize, j: usize) -> (r: usize)
        requires
            i + j * self.rows_spec() < self.storage().len(),
        ensures
            r == i + j * self.rows_spec(),
    {
        let len = self.data.len();
        proof {
            assert(0 <= j * self.rows_spec()) by (nonlinear_arith);
        }
        i + j * self.nrows
    }
}

impl<T: Copy> DMatrix<T> {
    /// The entry `(i, j)`, which must lie within the storage.
    pub(crate) fn get(&self, i: usize, j: usize) -> (r: T)
        requires
            i + j * self.rows_spec() < self.storage().len(),
        ensures
            r == self.entry(i as int, j as int),
    {
        self.data[self.offset(i, j)]
    }

    /// Build from a slice laid out row-major: entry `(i, j)` is `data[i * ncols + j]`.
    pub fn from_row_slice(nrows: usize, ncols: usize, data: &[T]) -> (r: Self)
        requires
            data@.len() >= nrows * ncols,
        ensures
            r.rows_spec() == nrows,
            r.cols_spec() == ncols,
            r.well_formed(),
            forall|i: int, j: int| 0 <= i < nrows && 0 <= j < ncols ==> #[trigger] r.entry(i, j) == data@[i * ncols + j],
    {
        let mut out: Vec<T> = Vec::new();
        assert(0 * nrows == 0) by (nonlinear_arith);
        for j in 0..ncols
            invariant
                data@.len() >= nrows * ncols,
                out@.len() == j * nrows,
                forall|a: int, b: int| 0 <= a < nrows && 0 <= b < j ==> #[trigger] out@[a + b * nrows] == data@[a * ncols + b],
        {
            for i in 0..nrows
                invariant
                    j < ncols,
                    data@.len() >= nrows * ncols,
                    out@.len() == j * nrows + i,
                    forall|a: int, b: int| 0 <= a < nrows && 0 <= b < j ==> #[trigger] out@[a + b * nrows] == data@[a * ncols + b],
                    forall|a: int| 0 <= a < i ==> #[trigger] out@[a + j * nrows] == data@[a * ncols + j],
            {
                let dlen = data.len();
                proof {
                    lemma_column_major_bound(j as int, i as int, ncols as int, nrows as int);
                    assert(ncols * nrows == nrows * ncols) by (nonlinear_arith);
                    assert(0 <= i * ncols) by (nonlinear_arith);
                }
                let ghost before = out@;
                out.push(data[i * ncols + j]);
                assert forall|a: int, b: int| 0 <= a < nrows && 0 <= b < j implies #[trigger] out@[a + b * nrows] == data@[a * ncols + b] by {
                    lemma_column_major_before(a, b, i as int, j as int, nrows as int);
                    assert(out@[a + b * nrows] == before[a + b * nrows]);
                }
                assert forall|a: int| 0 <= a < i + 1 implies #[trigger] out@[a + j * nrows] == data@[a * ncols + j] by {
                    if a < i {
                        assert(out@[a + j * nrows] == before[a + j * nrows]);
                    }
                }
            }
            assert((j + 1) * nrows == j * nrows + nrows) by (nonlinear_arith);
        }
        let r = DMatrix { nrows, ncols, data: out };
        assert(ncols * nrows == nrows * ncols) by (nonlinear_arith);
        r
    }

    /// Build element-by-element with `f(i, j)`; the shape must fit in memory
    /// (`nrows * ncols` within `usize`).
    pub fn from_fn<F: Fn(usize, usize) -> T>(nrows: usize, ncols: usize, f: F) -> (r: Self)
        requires
            nrows * ncols <= usize::MAX,
            forall|i: usize, j: usize| i < nrows && j < ncols ==> f.requires((i, j)),
        ensures
            r.rows_spec() == nrows,
            r.cols_spec() == ncols,
            r.well_formed(),
            forall|i: int, j: int| 0 <= i < nrows && 0 <= j < ncols ==> f.ensures((i as usize, j as usize), #[trigger] r.entry(i, j)),
    {
        let mut out: Vec<T> = Vec::with_capacity(nrows * ncols);
        assert(0 * nrows == 0) by (nonlinear_arith);
        for j in 0..ncols
            invariant
                forall|a: usize, b: usize| a < nrows && b < ncols ==> f.requires((a, b)),
                out@.len() == j * nrows,
                forall|a: int, b: int| 0 <= a < nrows && 0 <= b < j ==> f.ensures((a as usize, b as usize), #[trigger] out@[a + b * nrows]),
        {
            for i in 0..nrows
                invariant
                    j < ncols,
                    forall|a: usize, b: usize| a < nrows && b < ncols ==> f.requires((a, b)),
                    out@.len() == j * nrows + i,
                    forall|a: int, b: int| 0 <= a < nrows && 0 <= b < j ==> f.ensures((a as usize, b as usize), #[trigger] out@[a + b * nrows]),
                    forall|a: int| 0 <= a < i ==> f.ensures((a as usize, j as usize), #[trigger] out@[a + j * nrows]),
            {
                let ghost before = out@;
                out.push(f(i, j));
                assert forall|a: int, b: int| 0 <= a < nrows && 0 <= b < j implies f.ensures((a as usize, b as usize), #[trigger] out@[a + b * nrows]) by {
                    lemma_column_major_before(a, b, i as int, j as int, nrows as int);
                    assert(out@[a + b * nrows] == before[a + b * nrows]);
                }
                assert forall|a: int| 0 <= a < i + 1 implies f.ensures((a as usize, j as usize), #[trigger] out@[a + j * nrows]) by {
                    if a < i {
                        assert(out@[a + j * nrows] == before[a + j * nrows]);
                    }
                }
            }
            assert((j + 1) * nrows == j * nrows + nrows) by (nonlinear_arith);
        }
        assert(ncols * nrows == nrows * ncols) by (nonlinear_arith);
        DMatrix { nrows, ncols, data: out }
    }
}

impl<T> vstd::std_specs::core::IndexSpecImpl<(usize, usize)> for DMatrix<T> {
    open spec fn index_req(&self, index: &(usize, usize)) -> bool {
        index.0 + index.1 * self.rows_spec() < self.storage().len()
    }
}

impl<T> core::ops::Index<(usize, usize)> for DMatrix<T> {
    type Output = T;

    /// The entry `(i, j)` (which must lie within the storage).
    fn index(&self, ij: (usize, usize)) -> (r: &T)
        ensures
            *r == self.entry(ij.0 as int, ij.1 as int),
    {
        let k = self.offset(ij.0, ij.1);
        &self.data[k]
    }
}

/// Entry `(i, j)` of the square matrix with diagonal `d` and `z` elsewhere.
spec fn diagonal_entry<T>(d: Seq<T>, z: T, i: usize, j: usize) -> T {
    if i == j { d[i as int] } else { z }
}

/// Entry `(i, j)` of the transpose of `m`.
spec fn transposed_entry<T>(m: &DMatrix<T>, i: usize, j: usize) -> T {
    m.entry(j as int, i as int)
}

/// Element `j` of `s`.
spec fn element_at<T>(s: Seq<T>, j: usize) -> T {
    s[j as int]
}

impl<T: Scalar> DMatrix<T> {
    /// A zero matrix of the given shape (which must fit in memory).
    pub fn zeros(nrows: usize, ncols: usize) -> (r: Self)
        requires
            nrows * ncols <= usize::MAX,
        ensures
            r.rows_spec() == nrows,
            r.cols_spec() == ncols,
            r.well_formed(),
            forall|i: int, j: int| 0 <= i < nrows && 0 <= j < ncols ==> #[trigger] r.entry(i, j) == T::zero_spec(),
    {
        let z = T::zero();
        DMatrix::from_fn(nrows, ncols, |i: usize, j: usize| -> (r: T) ensures r == z { z })
    }

    /// The square matrix with `v` on the diagonal and zeros elsewhere.
    pub fn from_diagonal(v: &DVector<T>) -> (r: Self)
        requires
            v@.len() * v@.len() <= usize::MAX,
        ensures
            r.rows_spec() == v@.len(),
            r.cols_spec() == v@.len(),
            r.well_formed(),
            forall|i: int, j: int| 0 <= i < v@.len() && 0 <= j < v@.len() ==> #[trigger] r.entry(i, j) == if i == j { v@[i] } else { T::zero_spec() },
    {
        let n = v.len();
        let z = T::zero();
        DMatrix::from_fn(
            n,
            n,
            |i: usize, j: usize| -> (r: T)
                requires
                    i < n,
                    j < n,
                ensures
                    r == diagonal_entry(v@, z, i, j)
                { if i == j { v[i] } else { z } },
        )
    }
}

impl<T: Copy> DMatrix<T> {
    /// The transpose, swapping rows and columns: entry `(i, j)` is entry `(j, i)` of `self`.
    pub fn transpose(&self) -> (r: DMatrix<T>)
        requires
            self.covers(self.rows_spec(), self.cols_spec()),
            self.rows_spec() * self.cols_spec() <= usize::MAX,
        ensures
            r.rows_spec() == self.cols_spec(),
            r.cols_spec() == self.rows_spec(),
            r.well_formed(),
            forall|i: int, j: int| 0 <= i < self.cols_spec() && 0 <= j < self.rows_spec() ==> #[trigger] r.entry(i, j) == self.entry(j, i),
    {
        let (m, n) = (self.nrows, self.ncols);
        proof {
            assert(n * m == m * n) by (nonlinear_arith);
        }
        DMatrix::from_fn(
            n,
            m,
            |i: usize, j: usize| -> (r: T)
                requires
                    i < n,
                    j < m,
                ensures
                    r == transposed_entry(self, i, j)
                { self.get(j, i) },
        )
    }
}

impl<T: Copy> DVector<T> {
    /// The `1 x n` row matrix of this vector.
    pub fn transpose(&self) -> (r: DMatrix<T>)
        ensures
            r.rows_spec() == 1,
            r.cols_spec() == self@.len(),
            r.well_formed(),
            forall|j: int| 0 <= j < self@.len() ==> #[trigger] r.entry(0, j) == self@[j],
    {
        let n = self.len();
        DMatrix::from_fn(
            1,
            n,
            |i: usize, j: usize| -> (r: T)
                requires
                    j < n,
                ensures
                    r == element_at(self@, j)
                { self.data[j] },
        )
    }
}


// ===========================================================================
// Elementwise and product arithmetic
// ===========================================================================

impl<T> DMatrix<T> {
    /// When every entry of the first `n` columns lies within the storage, the storage holds at
    /// least `rows * n` elements.
    pub proof fn lemma_covers_fits(&self, n: nat)
        requires
            self.covers(self.rows_spec(), n),
        ensures
            self.rows_spec() * n <= self.storage().len(),
    {
        let m = self.rows_spec();
        if m > 0 && n > 0 {
            let i = m - 1;
            let j = n - 1;
            assert(i + j * m < self.storage().len());
            assert(m * n == i + j * m + 1) by (nonlinear_arith)
                requires
                    i == m - 1,
                    j == n - 1,
            ;
        } else {
            assert(m * n == 0) by (nonlinear_arith)
                requires
                    m == 0 || n == 0,
            ;
        }
    }
}

/// Row `i` of `m`, restricted to its first `k` columns.
pub open spec fn row_of<T>(m: &DMatrix<T>, i: int, k: nat) -> Seq<T> {
    Seq::new(k, |kk: int| m.entry(i, kk))
}

/// Column `j` of `m`, restricted to its first `k` rows.
pub open spec fn col_of<T>(m: &DMatrix<T>, j: int, k: nat) -> Seq<T> {
    Seq::new(k, |kk: int| m.entry(kk, j))
}

/// Entry `(i, j)` of `a op b`.
spec fn zip_entry<T: Scalar>(op: BinOp, a: &DMatrix<T>, b: &DMatrix<T>, i: usize, j: usize) -> T {
    apply_spec(op, a.entry(i as int, j as int), b.entry(i as int, j as int))
}

/// Entry `(i, j)` of `a op s`.
spec fn scale_entry<T: Scalar>(op: BinOp, a: &DMatrix<T>, s: T, i: usize, j: usize) -> T {
    apply_spec(op, a.entry(i as int, j as int), s)
}

/// Entry `(i, j)` of `-a`.
spec fn negated_entry<T: Scalar>(a: &DMatrix<T>, i: usize, j: usize) -> T {
    a.entry(i as int, j as int).negate_spec()
}

/// Entry `(i, j)` of `a * b` with inner dimension `k`.
spec fn product_entry<T: Scalar>(a: &DMatrix<T>, b: &DMatrix<T>, k: nat, i: usize, j: usize) -> T {
    dot_prefix(row_of(a, i as int, k), col_of(b, j as int, k), k as int)
}

/// Component `i` of `a * v` with inner dimension `k`.
spec fn product_component<T: Scalar>(a: &DMatrix<T>, v: Seq<T>, k: nat, i: usize) -> T {
    dot_prefix(row_of(a, i as int, k), v, k as int)
}

/// `a[i] op b[i]` for each `i < a.len()`.
fn zip_vec<T: Scalar>(op: BinOp, a: &Vec<T>, b: &Vec<T>) -> (r: Vec<T>)
    requires
        a@.len() <= b@.len(),
    ensures
        r@.len() == a@.len(),
        forall|i: int| 0 <= i < a@.len() ==> #[trigger] r@[i] == apply_spec(op, a@[i], b@[i]),
{
    let mut out: Vec<T> = Vec::new();
    for i in 0..a.len()
        invariant
            a@.len() <= b@.len(),
            out@.len() == i,
            forall|k: int| 0 <= k < i ==> #[trigger] out@[k] == apply_spec(op, a@[k], b@[k]),
    {
        out.push(apply(op, a[i], b[i]));
    }
    out
}

/// `a[i] op s` for each `i`.
fn scale_vec<T: Scalar>(op: BinOp, a: &Vec<T>, s: T) -> (r: Vec<T>)
    ensures
        r@.len() == a@.len(),
        forall|i: int| 0 <= i < a@.len() ==> #[trigger] r@[i] == apply_spec(op, a@[i], s),
{
    let mut out: Vec<T> = Vec::new();
    for i in 0..a.len()
        invariant
            out@.len() == i,
            forall|k: int| 0 <= k < i ==> #[trigger] out@[k] == apply_spec(op, a@[k], s),
    {
        out.push(apply(op, a[i], s));
    }
    out
}

/// `-a[i]` for each `i`.
fn negate_vec<T: Scalar>(a: &Vec<T>) -> (r: Vec<T>)
    ensures
        r@.len() == a@.len(),
        forall|i: int| 0 <= i < a@.len() ==> #[trigger] r@[i] == a@[i].negate_spec(),
{
    let mut out: Vec<T> = Vec::new();
    for i in 0..a.len()
        invariant
            out@.len() == i,
            forall|k: int| 0 <= k < i ==> #[trigger] out@[k] == a@[k].negate_spec(),
    {
        out.push(a[i].negate());
    }
    out
}

/// `a op b` entry by entry over `a`'s shape.
fn zip_mat<T: Scalar>(op: BinOp, a: &DMatrix<T>, b: &DMatrix<T>) -> (r: DMatrix<T>)
    requires
        a.covers(a.rows_spec(), a.cols_spec()),
        b.covers(a.rows_spec(), a.cols_spec()),
    ensures
        r.rows_spec() == a.rows_spec(),
        r.cols_spec() == a.cols_spec(),
        r.well_formed(),
        forall|i: int, j: int| 0 <= i < a.rows_spec() && 0 <= j < a.cols_spec() ==> #[trigger] r.entry(i, j) == apply_spec(op, a.entry(i, j), b.entry(i, j)),
{
    let (m, n) = (a.nrows, a.ncols);
    let len = a.data.len();
    proof {
        a.lemma_covers_fits(a.cols_spec());
    }
    DMatrix::from_fn(
        m,
        n,
        |i: usize, j: usize| -> (r: T)
            requires
                i < m,
                j < n
            ensures
                r == zip_entry(op, a, b, i, j)
            { apply(op, a.get(i, j), b.get(i, j)) },
    )
}

/// `a op s` entry by entry.
fn scale_mat<T: Scalar>(op: BinOp, a: &DMatrix<T>, s: T) -> (r: DMatrix<T>)
    requires
        a.covers(a.rows_spec(), a.cols_spec()),
    ensures
        r.rows_spec() == a.rows_spec(),
        r.cols_spec() == a.cols_spec(),
        r.well_formed(),
        forall|i: int, j: int| 0 <= i < a.rows_spec() && 0 <= j < a.cols_spec() ==> #[trigger] r.entry(i, j) == apply_spec(op, a.entry(i, j), s),
{
    let (m, n) = (a.nrows, a.ncols);
    let len = a.data.len();
    proof {
        a.lemma_covers_fits(a.cols_spec());
    }
    DMatrix::from_fn(
        m,
        n,
        |i: usize, j: usize| -> (r: T)
            requires
                i < m,
                j < n
            ensures
                r == scale_entry(op, a, s, i, j)
            { apply(op, a.get(i, j), s) },
    )
}

/// `-a` entry by entry.
fn negate_mat<T: Scalar>(a: &DMatrix<T>) -> (r: DMatrix<T>)
    requires
        a.covers(a.rows_spec(), a.cols_spec()),
    ensures
        r.rows_spec() == a.rows_spec(),
        r.cols_spec() == a.cols_spec(),
        r.well_formed(),
        forall|i: int, j: int| 0 <= i < a.rows_spec() && 0 <= j < a.cols_spec() ==> #[trigger] r.entry(i, j) == a.entry(i, j).negate_spec(),
{
    let (m, n) = (a.nrows, a.ncols);
    let len = a.data.len();
    proof {
        a.lemma_covers_fits(a.cols_spec());
    }
    DMatrix::from_fn(
        m,
        n,
        |i: usize, j: usize| -> (r: T)
            requires
                i < m,
                j < n
            ensures
                r == negated_entry(a, i, j)
            { a.get(i, j).negate() },
    )
}

/// The sum over `kk < k` of `a(i, kk) * b(kk, j)`, accumulated in order from zero.
fn row_dot_col<T: Scalar>(a: &DMatrix<T>, b: &DMatrix<T>, k: usize, i: usize, j: usize) -> (r: T)
    requires
        a.covers(i as nat + 1, k as nat),
        b.covers(k as nat, j as nat + 1),
    ensures
        r == dot_prefix(row_of(a, i as int, k as nat), col_of(b, j as int, k as nat), k as int),
{
    let mut s = T::zero();
    for kk in 0..k
        invariant
            a.covers(i as nat + 1, k as nat),
            b.covers(k as nat, j as nat + 1),
            s == dot_prefix(row_of(a, i as int, k as nat), col_of(b, j as int, k as nat), kk as int),
    {
        s = s.plus(a.get(i, kk).times(b.get(kk, j)));
    }
    s
}

/// The sum over `kk < k` of `a(i, kk) * v[kk]`, accumulated in order from zero.
fn row_dot_vec<T: Scalar>(a: &DMatrix<T>, v: &DVector<T>, k: usize, i: usize) -> (r: T)
    requires
        a.covers(i as nat + 1, k as nat),
        k <= v@.len(),
    ensures
        r == dot_prefix(row_of(a, i as int, k as nat), v@, k as int),
{
    let mut s = T::zero();
    for kk in 0..k
        invariant
            a.covers(i as nat + 1, k as nat),
            k <= v@.len(),
            s == dot_prefix(row_of(a, i as int, k as nat), v@, kk as int),
    {
        s = s.plus(a.get(i, kk).times(v.data[kk]));
    }
    s
}


impl<T: Scalar> vstd::std_specs::ops::AddSpecImpl for DVector<T> {
    open spec fn obeys_add_spec() -> bool {
        false
    }

    open spec fn add_req(self, rhs: DVector<T>) -> bool {
        rhs@.len() >= self@.len()
    }

    open spec fn add_spec(self, rhs: DVector<T>) -> DVector<T> {
        arbitrary()
    }
}

impl<T: Scalar> core::ops::Add for DVector<T> {
    type Output = DVector<T>;

    /// Componentwise sum (`rhs` must be at least as long).
    fn add(self, rhs: DVector<T>) -> (r: DVector<T>)
        ensures
            r@.len() == self@.len(),
            forall|i: int| 0 <= i < self@.len() ==> #[trigger] r@[i] == apply_spec(BinOp::Plus, self@[i], rhs@[i]),
    {
        DVector { data: zip_vec(BinOp::Plus, &self.data, &rhs.data) }
    }
}

impl<T: Scalar> vstd::std_specs::ops::SubSpecImpl for DVector<T> {
    open spec fn obeys_sub_spec() -> bool {
        false
    }

    open spec fn sub_req(self, rhs: DVector<T>) -> bool {
        rhs@.len() >= self@.len()
    }

    open spec fn sub_spec(self, rhs: DVector<T>) -> DVector<T> {
        arbitrary()
    }
}

impl<T: Scalar> core::ops::Sub for DVector<T> {
    type Output = DVector<T>;

    /// Componentwise difference (`rhs` must be at least as long).
    fn sub(self, rhs: DVector<T>) -> (r: DVector<T>)
        ensures
            r@.len() == self@.len(),
            forall|i: int| 0 <= i < self@.len() ==> #[trigger] r@[i] == apply_spec(BinOp::Minus, self@[i], rhs@[i]),
    {
        DVector { data: zip_vec(BinOp::Minus, &self.data, &rhs.data) }
    }
}

impl<T: Scalar> vstd::std_specs::ops::MulSpecImpl<T> for DVector<T> {
    open spec fn obeys_mul_spec() -> bool {
        false
    }

    open spec fn mul_req(self, rhs: T) -> bool {
        true
    }

    open spec fn mul_spec(self, rhs: T) -> DVector<T> {
        arbitrary()
    }
}

impl<T: Scalar> core::ops::Mul<T> for DVector<T> {
    type Output = DVector<T>;

    /// Every component times `rhs`.
    fn mul(self, rhs: T) -> (r: DVector<T>)
        ensures
            r@.len() == self@.len(),
            forall|i: int| 0 <= i < self@.len() ==> #[trigger] r@[i] == self@[i].times_spec(rhs),
    {
        DVector { data: scale_vec(BinOp::Times, &self.data, rhs) }
    }
}

impl<T: Scalar> vstd::std_specs::ops::DivSpecImpl<T> for DVector<T> {
    open spec fn obeys_div_spec() -> bool {
        false
    }

    open spec fn div_req(self, rhs: T) -> bool {
        true
    }

    open spec fn div_spec(self, rhs: T) -> DVector<T> {
        arbitrary()
    }
}

impl<T: Scalar> core::ops::Div<T> for DVector<T> {
    type Output = DVector<T>;

    /// Every component divided by `rhs`.
    fn div(self, rhs: T) -> (r: DVector<T>)
        ensures
            r@.len() == self@.len(),
            forall|i: int| 0 <= i < self@.len() ==> #[trigger] r@[i] == self@[i].divide_spec(rhs),
    {
        DVector { data: scale_vec(BinOp::Divide, &self.data, rhs) }
    }
}

impl<T: Scalar> vstd::std_specs::ops::AddSpecImpl<T> for DVector<T> {
    open spec fn obeys_add_spec() -> bool {
        false
    }

    open spec fn add_req(self, rhs: T) -> bool {
        true
    }

    open spec fn add_spec(self, rhs: T) -> DVector<T> {
        arbitrary()
    }
}

impl<T: Scalar> core::ops::Add<T> for DVector<T> {
    type Output = DVector<T>;

    /// `rhs` added to every component.
    fn add(self, rhs: T) -> (r: DVector<T>)
        ensures
            r@.len() == self@.len(),
            forall|i: int| 0 <= i < self@.len() ==> #[trigger] r@[i] == self@[i].plus_spec(rhs),
    {
        DVector { data: scale_vec(BinOp::Plus, &self.data, rhs) }
    }
}

impl<T: Scalar> vstd::std_specs::ops::SubSpecImpl<T> for DVector<T> {
    open spec fn obeys_sub_spec() -> bool {
        false
    }

    open spec fn sub_req(self, rhs: T) -> bool {
        true
    }

    open spec fn sub_spec(self, rhs: T) -> DVector<T> {
        arbitrary()
    }
}

impl<T: Scalar> core::ops::Sub<T> for DVector<T> {
    type Output = DVector<T>;

    /// `rhs` subtracted from every component.
    fn sub(self, rhs: T) -> (r: DVector<T>)
        ensures
            r@.len() == self@.len(),
            forall|i: int| 0 <= i < self@.len() ==> #[trigger] r@[i] == self@[i].minus_spec(rhs),
    {
        DVector { data: scale_vec(BinOp::Minus, &self.data, rhs) }
    }
}

impl<T: Scalar> vstd::std_specs::ops::NegSpecImpl for DVector<T> {
    open spec fn obeys_neg_spec() -> bool {
        false
    }

    open spec fn neg_req(self) -> bool {
        true
    }

    open spec fn neg_spec(self) -> DVector<T> {
        arbitrary()
    }
}

impl<T: Scalar> core::ops::Neg for DVector<T> {
    type Output = DVector<T>;

    /// Every component negated.
    fn neg(self) -> (r: DVector<T>)
        ensures
            r@.len() == self@.len(),
            forall|i: int| 0 <= i < self@.len() ==> #[trigger] r@[i] == self@[i].negate_spec(),
    {
        DVector { data: negate_vec(&self.data) }
    }
}

impl<T: Scalar> vstd::std_specs::ops::AddSpecImpl for DMatrix<T> {
    open spec fn obeys_add_spec() -> bool {
        false
    }

    open spec fn add_req(self, rhs: DMatrix<T>) -> bool {
        self.covers(self.rows_spec(), self.cols_spec()) && rhs.covers(self.rows_spec(), self.cols_spec())
    }

    open spec fn add_spec(self, rhs: DMatrix<T>) -> DMatrix<T> {
        arbitrary()
    }
}

impl<T: Scalar> core::ops::Add for DMatrix<T> {
    type Output = DMatrix<T>;

    /// Entrywise sum over `self`'s shape (`rhs` must cover it).
    fn add(self, rhs: DMatrix<T>) -> (r: DMatrix<T>)
        ensures
            r.rows_spec() == self.rows_spec(),
            r.cols_spec() == self.cols_spec(),
            r.well_formed(),
            forall|i: int, j: int| 0 <= i < self.rows_spec() && 0 <= j < self.cols_spec() ==> #[trigger] r.entry(i, j) == self.entry(i, j).plus_spec(rhs.entry(i, j)),
    {
        zip_mat(BinOp::Plus, &self, &rhs)
    }
}

impl<T: Scalar> vstd::std_specs::ops::SubSpecImpl for DMatrix<T> {
    open spec fn obeys_sub_spec() -> bool {
        false
    }

    open spec fn sub_req(self, rhs: DMatrix<T>) -> bool {
        self.covers(self.rows_spec(), self.cols_spec()) && rhs.covers(self.rows_spec(), self.cols_spec())
    }

    open spec fn sub_spec(self, rhs: DMatrix<T>) -> DMatrix<T> {
        arbitrary()
    }
}

impl<T: Scalar> core::ops::Sub for DMatrix<T> {
    type Output = DMatrix<T>;

    /// Entrywise difference over `self`'s shape (`rhs` must cover it).
    fn sub(self, rhs: DMatrix<T>) -> (r: DMatrix<T>)
        ensures
            r.rows_spec() == self.rows_spec(),
            r.cols_spec() == self.cols_spec(),
            r.well_formed(),
            forall|i: int, j: int| 0 <= i < self.rows_spec() && 0 <= j < self.cols_spec() ==> #[trigger] r.entry(i, j) == self.entry(i, j).minus_spec(rhs.entry(i, j)),
    {
        zip_mat(BinOp::Minus, &self, &rhs)
    }
}

impl<T: Scalar> vstd::std_specs::ops::MulSpecImpl<T> for DMatrix<T> {
    open spec fn obeys_mul_spec() -> bool {
        false
    }

    open spec fn mul_req(self, rhs: T) -> bool {
        self.covers(self.rows_spec(), self.cols_spec())
    }

    open spec fn mul_spec(self, rhs: T) -> DMatrix<T> {
        arbitrary()
    }
}

impl<T: Scalar> core::ops::Mul<T> for DMatrix<T> {
    type Output = DMatrix<T>;

    /// Every entry times `rhs`.
    fn mul(self, rhs: T) -> (r: DMatrix<T>)
        ensures
            r.rows_spec() == self.rows_spec(),
            r.cols_spec() == self.cols_spec(),
            r.well_formed(),
            forall|i: int, j: int| 0 <= i < self.rows_spec() && 0 <= j < self.cols_spec() ==> #[trigger] r.entry(i, j) == self.entry(i, j).times_spec(rhs),
    {
        scale_mat(BinOp::Times, &self, rhs)
    }
}

impl<T: Scalar> vstd::std_specs::ops::DivSpecImpl<T> for DMatrix<T> {
    open spec fn obeys_div_spec() -> bool {
        false
    }

    open spec fn div_req(self, rhs: T) -> bool {
        self.covers(self.rows_spec(), self.cols_spec())
    }

    open spec fn div_spec(self, rhs: T) -> DMatrix<T> {
        arbitrary()
    }
}

impl<T: Scalar> core::ops::Div<T> for DMatrix<T> {
    type Output = DMatrix<T>;

    /// Every entry divided by `rhs`.
    fn div(self, rhs: T) -> (r: DMatrix<T>)
        ensures
            r.rows_spec() == self.rows_spec(),
            r.cols_spec() == self.cols_spec(),
            r.well_formed(),
            forall|i: int, j: int| 0 <= i < self.rows_spec() && 0 <= j < self.cols_spec() ==> #[trigger] r.entry(i, j) == self.entry(i, j).divide_spec(rhs),
    {
        scale_mat(BinOp::Divide, &self, rhs)
    }
}

impl<T: Scalar> vstd::std_specs::ops::AddSpecImpl<T> for DMatrix<T> {
    open spec fn obeys_add_spec() -> bool {
        false
    }

    open spec fn add_req(self, rhs: T) -> bool {
        self.covers(self.rows_spec(), self.cols_spec())
    }

    open spec fn add_spec(self, rhs: T) -> DMatrix<T> {
        arbitrary()
    }
}

impl<T: Scalar> core::ops::Add<T> for DMatrix<T> {
    type Output = DMatrix<T>;

    /// `rhs` added to every entry.
    fn add(self, rhs: T) -> (r: DMatrix<T>)
        ensures
            r.rows_spec() == self.rows_spec(),
            r.cols_spec() == self.cols_spec(),
            r.well_formed(),
            forall|i: int, j: int| 0 <= i < self.rows_spec() && 0 <= j < self.cols_spec() ==> #[trigger] r.entry(i, j) == self.entry(i, j).plus_spec(rhs),
    {
        scale_mat(BinOp::Plus, &self, rhs)
    }
}

impl<T: Scalar> vstd::std_specs::ops::SubSpecImpl<T> for DMatrix<T> {
    open spec fn obeys_sub_spec() -> bool {
        false
    }

    open spec fn sub_req(self, rhs: T) -> bool {
        self.covers(self.rows_spec(), self.cols_spec())
    }

    open spec fn sub_spec(self, rhs: T) -> DMatrix<T> {
        arbitrary()
    }
}

impl<T: Scalar> core::ops::Sub<T> for DMatrix<T> {
    type Output = DMatrix<T>;

    /// `rhs` subtracted from every entry.
    fn sub(self, rhs: T) -> (r: DMatrix<T>)
        ensures
            r.rows_spec() == self.rows_spec(),
            r.cols_spec() == self.cols_spec(),
            r.well_formed(),
            forall|i: int, j: int| 0 <= i < self.rows_spec() && 0 <= j < self.cols_spec() ==> #[trigger] r.entry(i, j) == self.entry(i, j).minus_spec(rhs),
    {
        scale_mat(BinOp::Minus, &self, rhs)
    }
}

impl<T: Scalar> vstd::std_specs::ops::NegSpecImpl for DMatrix<T> {
    open spec fn obeys_neg_spec() -> bool {
        false
    }

    open spec fn neg_req(self) -> bool {
        self.covers(self.rows_spec(), self.cols_spec())
    }

    open spec fn neg_spec(self) -> DMatrix<T> {
        arbitrary()
    }
}

impl<T: Scalar> core::ops::Neg for DMatrix<T> {
    type Output = DMatrix<T>;

    /// Every entry negated.
    fn neg(self) -> (r: DMatrix<T>)
        ensures
            r.rows_spec() == self.rows_spec(),
            r.cols_spec() == self.cols_spec(),
            r.well_formed(),
            forall|i: int, j: int| 0 <= i < self.rows_spec() && 0 <= j < self.cols_spec() ==> #[trigger] r.entry(i, j) == self.entry(i, j).negate_spec(),
    {
        negate_mat(&self)
    }
}

impl<T: Scalar> vstd::std_specs::ops::MulSpecImpl<DMatrix<T>> for DMatrix<T> {
    open spec fn obeys_mul_spec() -> bool {
        false
    }

    open spec fn mul_req(self, rhs: DMatrix<T>) -> bool {
        &&& self.covers(self.rows_spec(), self.cols_spec())
        &&& rhs.covers(self.cols_spec(), rhs.cols_spec())
        &&& self.rows_spec() * rhs.cols_spec() <= usize::MAX
    }

    open spec fn mul_spec(self, rhs: DMatrix<T>) -> DMatrix<T> {
        arbitrary()
    }
}

impl<T: Scalar> core::ops::Mul<DMatrix<T>> for DMatrix<T> {
    type Output = DMatrix<T>;

    /// The matrix product: entry `(i, j)` is the sum over `kk` of `self(i, kk) * rhs(kk, j)`,
    /// accumulated in order from zero (`rhs` must have `self.ncols()` rows).
    fn mul(self, rhs: DMatrix<T>) -> (r: DMatrix<T>)
        ensures
            r.rows_spec() == self.rows_spec(),
            r.cols_spec() == rhs.cols_spec(),
            r.well_formed(),
            forall|i: int, j: int| 0 <= i < self.rows_spec() && 0 <= j < rhs.cols_spec() ==> #[trigger] r.entry(i, j) == dot_prefix(row_of(&self, i, self.cols_spec()), col_of(&rhs, j, self.cols_spec()), self.cols_spec() as int),
    {
        let m = self.nrows;
        let k = self.ncols;
        let n = rhs.ncols;
        let a = &self;
        let b = &rhs;
        DMatrix::from_fn(
            m,
            n,
            |i: usize, j: usize| -> (r: T)
                requires
                    i < m,
                    j < n
                ensures
                    r == product_entry(a, b, k as nat, i, j)
                { row_dot_col(a, b, k, i, j) },
        )
    }
}

impl<T: Scalar> vstd::std_specs::ops::MulSpecImpl<DVector<T>> for DMatrix<T> {
    open spec fn obeys_mul_spec() -> bool {
        false
    }

    open spec fn mul_req(self, rhs: DVector<T>) -> bool {
        &&& self.covers(self.rows_spec(), self.cols_spec())
        &&& self.cols_spec() <= rhs@.len()
    }

    open spec fn mul_spec(self, rhs: DVector<T>) -> DVector<T> {
        rhs
    }
}

impl<T: Scalar> core::ops::Mul<DVector<T>> for DMatrix<T> {
    type Output = DVector<T>;

    /// The matrix-vector product: component `i` is the sum over `kk` of `self(i, kk) * rhs[kk]`,
    /// accumulated in order from zero (`rhs` must have at least `self.ncols()` components).
    fn mul(self, rhs: DVector<T>) -> (r: DVector<T>)
        ensures
            r@.len() == self.rows_spec(),
            forall|i: int| 0 <= i < self.rows_spec() ==> #[trigger] r@[i] == dot_prefix(row_of(&self, i, self.cols_spec()), rhs@, self.cols_spec() as int),
    {
        let m = self.nrows;
        let k = self.ncols;
        let a = &self;
        let v = &rhs;
        DVector::from_fn(
            m,
            |i: usize| -> (r: T)
                requires
                    i < m
                ensures
                    r == product_component(a, v@, k as nat, i)
                { row_dot_vec(a, v, k, i) },
        )
    }
}


// ===========================================================================
// Partial-pivot LU: solve and inverse
// ===========================================================================

/// Errors of the fallible dense routines.
#[derive(Debug, Clone, PartialEq)]
pub enum DenseError {
    /// The matrix is (numerically) singular; `what` names the routine that found it.
    Singular { what: &'static str },
    /// The operands' dimensions conflict; `what` describes how.
    DimensionMismatch { what: String },
}

/// The text `matrix is {n}x{m}, expected square` for a non-square matrix.
pub open spec fn square_mismatch_text(n: usize, m: usize) -> Seq<char> {
    "matrix is "@ + decimal_text(n as nat) + "x"@ + decimal_text(m as nat) + ", expected square"@
}

/// Builds [`square_mismatch_text`].
pub(crate) fn square_mismatch_message(n: usize, m: usize) -> (r: String)
    ensures
        r@ == square_mismatch_text(n, m),
{
    let mut s = String::from_str("matrix is ");
    push_decimal(&mut s, n);
    s.append("x");
    push_decimal(&mut s, m);
    s.append(", expected square");
    s
}

/// The text `rhs has length {len}, expected {n}` for a right-hand side of the wrong length.
pub open spec fn rhs_mismatch_text(len: usize, n: usize) -> Seq<char> {
    "rhs has length "@ + decimal_text(len as nat) + ", expected "@ + decimal_text(n as nat)
}

/// Builds [`rhs_mismatch_text`].
pub(crate) fn rhs_mismatch_message(len: usize, n: usize) -> (r: String)
    ensures
        r@ == rhs_mismatch_text(len, n),
{
    let mut s = String::from_str("rhs has length ");
    push_decimal(&mut s, len);
    s.append(", expected ");
    push_decimal(&mut s, n);
    s
}

/// The rows of a vector of row vectors, as sequences.
pub open spec fn rows_view<T>(a: Seq<Vec<T>>) -> Seq<Seq<T>> {
    Seq::new(a.len(), |i: int| a[i]@)
}

/// The leading `n x n` block of `m`, as rows.
pub open spec fn square_rows<T>(m: &DMatrix<T>, n: nat) -> Seq<Seq<T>> {
    Seq::new(n, |i: int| Seq::new(n, |j: int| m.entry(i, j)))
}

/// The identity permutation `0, 1, ..., n - 1`.
pub open spec fn identity_perm(n: nat) -> Seq<usize> {
    Seq::new(n, |i: int| i as usize)
}

/// Elements `k` and `p` of `s` exchanged.
pub open spec fn swap_at<A>(s: Seq<A>, k: int, p: int) -> Seq<A> {
    s.update(k, s[p]).update(p, s[k])
}

/// Row `ri` after LU step `k` against the pivot row `rk`: column `k` holds the multiplier
/// `ri[k] / rk[k]`, each later column `j` loses the multiplier times `rk[j]`, and the earlier
/// columns are kept.
pub open spec fn lu_row<T: Scalar>(ri: Seq<T>, rk: Seq<T>, k: int) -> Seq<T> {
    Seq::new(
        ri.len(),
        |j: int|
            if j == k {
                ri[k].divide_spec(rk[k])
            } else if j > k {
                ri[j].minus_spec(ri[k].divide_spec(rk[k]).times_spec(rk[j]))
            } else {
                ri[j]
            },
    )
}

/// Every row below `k` updated against row `k`, as [`lu_row`] describes.
pub open spec fn lu_eliminate<T: Scalar>(a: Seq<Seq<T>>, k: int) -> Seq<Seq<T>> {
    Seq::new(a.len(), |i: int| if i > k { lu_row(a[i], a[k], k) } else { a[i] })
}

/// The partial-pivot LU factorization from step `k` of `n`, carrying the row permutation
/// `piv`: `None` as soon as a pivot column's largest magnitude (the first one found, scanning
/// down from the diagonal) is not finite or falls below the tolerance `10^-12`; otherwise the
/// packed factors (unit lower triangle below the diagonal, upper triangle on and above it) and
/// the permutation.
pub open spec fn lu_run<T: Scalar>(a: Seq<Seq<T>>, piv: Seq<usize>, k: int, n: int) -> Option<(Seq<Seq<T>>, Seq<usize>)>
    decreases n - k,
{
    if k >= n {
        Some((a, piv))
    } else {
        let (p, m) = pivot_scan(a, k, n);
        if !m.is_finite_spec() || m.lt_spec(tiny()) {
            None
        } else {
            lu_run(lu_eliminate(swap_rows(a, k, p), k), swap_at(piv, k, p), k + 1, n)
        }
    }
}

/// The partial-pivot LU factorization of the leading `n x n` block of `m`, `n` being its
/// row count.
pub open spec fn lu_spec<T: Scalar>(m: &DMatrix<T>) -> Option<(Seq<Seq<T>>, Seq<usize>)> {
    lu_run(square_rows(m, m.rows_spec()), identity_perm(m.rows_spec()), 0, m.rows_spec() as int)
}

/// `s` minus `row[j] * xs[j]` for each `j` from `lo` up to `hi`, subtracted in that order.
pub open spec fn sub_terms<T: Scalar>(s: T, row: Seq<T>, xs: Seq<T>, lo: int, hi: int) -> T
    decreases hi - lo,
{
    if hi <= lo {
        s
    } else {
        sub_terms(s, row, xs, lo, hi - 1).minus_spec(row[hi - 1].times_spec(xs[hi - 1]))
    }
}

/// The first `i` entries of the forward substitution `L y = P b`, `L` being the unit lower
/// triangle of `lu` and `P` the permutation `piv`.
pub open spec fn forward_prefix<T: Scalar>(lu: Seq<Seq<T>>, piv: Seq<usize>, b: Seq<T>, i: int) -> Seq<T>
    decreases i,
{
    if i <= 0 {
        Seq::empty()
    } else {
        let y = forward_prefix(lu, piv, b, i - 1);
        y.push(sub_terms(b[piv[i - 1] as int], lu[i - 1], y, 0, i - 1))
    }
}

/// The back substitution `U x = y` (`U` the upper triangle of `lu`) carried out for the
/// entries from `i` to `n - 1`, the entries before `i` still zero.
pub open spec fn backward_from<T: Scalar>(lu: Seq<Seq<T>>, y: Seq<T>, n: int, i: int) -> Seq<T>
    decreases n - i,
{
    if i >= n {
        Seq::new(n as nat, |j: int| T::zero_spec())
    } else {
        let x = backward_from(lu, y, n, i + 1);
        x.update(i, sub_terms(y[i], lu[i], x, i + 1, n).divide_spec(lu[i][i]))
    }
}

/// The solution of `A x = b` from the packed factors `lu` and permutation `piv` of an
/// `n x n` matrix `A`.
pub open spec fn lu_solution<T: Scalar>(lu: Seq<Seq<T>>, piv: Seq<usize>, b: Seq<T>, n: int) -> Seq<T> {
    backward_from(lu, forward_prefix(lu, piv, b, n), n, 0)
}

/// The `n`-component unit vector along axis `c`.
pub open spec fn unit_vector<T: Scalar>(n: nat, c: int) -> Seq<T> {
    Seq::new(n, |i: int| if i == c { T::one_spec() } else { T::zero_spec() })
}

/// A copy of `v`.
pub(crate) fn copy_row<T: Copy>(v: &Vec<T>) -> (r: Vec<T>)
    ensures
        r@ == v@,
{
    let mut out: Vec<T> = Vec::new();
    for i in 0..v.len()
        invariant
            out@ == v@.take(i as int),
    {
        out.push(v[i]);
        assert(out@ =~= v@.take(i + 1));
    }
    assert(v@.take(v@.len() as int) =~= v@);
    out
}

/// The pivot row for column `k`: the first row at or below `k` whose column-`k` magnitude
/// is largest, with that magnitude.
fn lu_pivot<T: Scalar>(a: &Vec<Vec<T>>, k: usize, n: usize) -> (r: (usize, T))
    requires
        k < n,
        a@.len() == n,
        forall|i: int| 0 <= i < n ==> (#[trigger] a@[i])@.len() == n,
    ensures
        k <= r.0 < n,
        (r.0 as int, r.1) == pivot_scan(rows_view(a@), k as int, n as int),
{
    let ghost rv = rows_view(a@);
    let mut p = k;
    let mut mx = a[k][k].abs();
    for i in (k + 1)..n
        invariant
            k < n,
            a@.len() == n,
            rv == rows_view(a@),
            forall|r: int| 0 <= r < n ==> (#[trigger] a@[r])@.len() == n,
            k <= p < n,
            (p as int, mx) == pivot_scan(rv, k as int, i as int),
    {
        let v = a[i][k].abs();
        assert(v == rv[i as int][k as int].abs_spec());
        if mx.lt(v) {
            mx = v;
            p = i;
        }
    }
    (p, mx)
}

/// Row `ri` updated against the pivot row `rk` at step `k`, as [`lu_row`] describes.
fn lu_row_exec<T: Scalar>(ri: &Vec<T>, rk: &Vec<T>, k: usize) -> (r: Vec<T>)
    requires
        ri@.len() == rk@.len(),
        k < ri@.len(),
    ensures
        r@ == lu_row(ri@, rk@, k as int),
{
    let l = ri[k].divide(rk[k]);
    let mut out: Vec<T> = Vec::new();
    for j in 0..ri.len()
        invariant
            ri@.len() == rk@.len(),
            k < ri@.len(),
            l == ri@[k as int].divide_spec(rk@[k as int]),
            out@.len() == j,
            forall|c: int| 0 <= c < j ==> #[trigger] out@[c] == lu_row(ri@, rk@, k as int)[c],
    {
        if j == k {
            out.push(l);
        } else if j > k {
            out.push(ri[j].minus(l.times(rk[j])));
        } else {
            out.push(ri[j]);
        }
    }
    assert(out@ =~= lu_row(ri@, rk@, k as int));
    out
}

/// The partial-pivot LU factorization of the leading `n x n` block of `m` (`n` its row
/// count), as [`lu_spec`] describes; the permutation entries stay below `n`.
fn partial_pivot_lu<T: Scalar>(m: &DMatrix<T>) -> (r: Result<(Vec<Vec<T>>, Vec<usize>), DenseError>)
    requires
        m.covers(m.rows_spec(), m.rows_spec()),
    ensures
        match r {
            Ok((a, piv)) => {
                &&& lu_spec(m) == Some((rows_view(a@), piv@))
                &&& a@.len() == m.rows_spec()
                &&& forall|i: int| 0 <= i < m.rows_spec() ==> (#[trigger] a@[i])@.len() == m.rows_spec()
                &&& piv@.len() == m.rows_spec()
                &&& forall|i: int| 0 <= i < m.rows_spec() ==> #[trigger] piv@[i] < m.rows_spec()
            },
            Err(e) => lu_spec(m) is None && e == (DenseError::Singular { what: "partial_pivot_lu" }),
        },
{
    let n = m.nrows;
    let eps = tiny_exec::<T>();
    let mut a: Vec<Vec<T>> = Vec::new();
    for i in 0..n
        invariant
            n == m.rows_spec(),
            m.covers(m.rows_spec(), m.rows_spec()),
            a@.len() == i,
            forall|r: int| 0 <= r < i ==> (#[trigger] a@[r])@ == square_rows(m, n as nat)[r],
    {
        let mut row: Vec<T> = Vec::new();
        for j in 0..n
            invariant
                n == m.rows_spec(),
                i < n,
                m.covers(m.rows_spec(), m.rows_spec()),
                row@.len() == j,
                forall|c: int| 0 <= c < j ==> #[trigger] row@[c] == m.entry(i as int, c),
        {
            row.push(m.get(i, j));
        }
        assert(row@ =~= square_rows(m, n as nat)[i as int]);
        a.push(row);
    }
    let mut piv: Vec<usize> = Vec::new();
    for i in 0..n
        invariant
            piv@ == identity_perm(i as nat),
    {
        piv.push(i);
        assert(piv@ =~= identity_perm((i + 1) as nat));
    }
    assert(rows_view(a@) =~= square_rows(m, n as nat));
    for k in 0..n
        invariant
            n == m.rows_spec(),
            eps == tiny::<T>(),
            a@.len() == n,
            forall|r: int| 0 <= r < n ==> (#[trigger] a@[r])@.len() == n,
            piv@.len() == n,
            forall|r: int| 0 <= r < n ==> #[trigger] piv@[r] < n,
            lu_run(rows_view(a@), piv@, k as int, n as int) == lu_spec(m),
    {
        let ghost a0 = rows_view(a@);
        let ghost piv0 = piv@;
        let (p, mx) = lu_pivot(&a, k, n);
        if !mx.is_finite() || mx.lt(eps) {
            return Err(DenseError::Singular { what: "partial_pivot_lu" });
        }
        let rk = copy_row(&a[k]);
        let rp = copy_row(&a[p]);
        a.set(k, rp);
        a.set(p, rk);
        let pk = piv[k];
        let pp = piv[p];
        piv.set(k, pp);
        piv.set(p, pk);
        let ghost swapped = rows_view(a@);
        assert(swapped =~= swap_rows(a0, k as int, p as int));
        assert(piv@ =~= swap_at(piv0, k as int, p as int));
        for i in (k + 1)..n
            invariant
                n == m.rows_spec(),
                k < n,
                a@.len() == n,
                forall|r: int| 0 <= r < n ==> (#[trigger] a@[r])@.len() == n,
                swapped.len() == n,
                forall|r: int| 0 <= r < n ==> #[trigger] rows_view(a@)[r] == if k < r < i {
                    lu_row(swapped[r], swapped[k as int], k as int)
                } else {
                    swapped[r]
                },
        {
            assert(rows_view(a@)[i as int] == swapped[i as int]);
            assert(rows_view(a@)[k as int] == swapped[k as int]);
            let new_row = lu_row_exec(&a[i], &a[k], k);
            let ghost before = a@;
            a.set(i, new_row);
            assert forall|r: int| 0 <= r < n implies #[trigger] rows_view(a@)[r] == if k < r < i + 1 {
                lu_row(swapped[r], swapped[k as int], k as int)
            } else {
                swapped[r]
            } by {
                if r != i {
                    assert(a@[r] == before[r]);
                    assert(rows_view(before)[r] == before[r]@);
                }
            }
        }
        assert(rows_view(a@) =~= lu_eliminate(swapped, k as int));
    }
    Ok((a, piv))
}

/// Solves `A x = b` from the packed factors `lu` and permutation `piv` of `A`, as
/// [`lu_solution`] describes.
fn solve_with_lu<T: Scalar>(lu: &Vec<Vec<T>>, piv: &Vec<usize>, b: &DVector<T>) -> (r: Vec<T>)
    requires
        forall|i: int| 0 <= i < lu@.len() ==> (#[trigger] lu@[i])@.len() == lu@.len(),
        piv@.len() == lu@.len(),
        forall|i: int| 0 <= i < lu@.len() ==> #[trigger] piv@[i] < b@.len(),
    ensures
        r@ == lu_solution(rows_view(lu@), piv@, b@, lu@.len() as int),
{
    let n = lu.len();
    let ghost rv = rows_view(lu@);
    let mut y: Vec<T> = Vec::new();
    for i in 0..n
        invariant
            n == lu@.len(),
            rv == rows_view(lu@),
            forall|r: int| 0 <= r < n ==> (#[trigger] lu@[r])@.len() == n,
            piv@.len() == n,
            forall|r: int| 0 <= r < n ==> #[trigger] piv@[r] < b@.len(),
            y@ == forward_prefix(rv, piv@, b@, i as int),
    {
        proof {
            assert(forward_prefix(rv, piv@, b@, i as int).len() == i) by {
                lemma_forward_prefix_len(rv, piv@, b@, i as int);
            }
        }
        let mut s = b.data[piv[i]];
        for j in 0..i
            invariant
                n == lu@.len(),
                i < n,
                rv == rows_view(lu@),
                forall|r: int| 0 <= r < n ==> (#[trigger] lu@[r])@.len() == n,
                y@.len() == i,
                s == sub_terms(b@[piv@[i as int] as int], rv[i as int], y@, 0, j as int),
        {
            s = s.minus(lu[i][j].times(y[j]));
        }
        y.push(s);
    }
    let mut x: Vec<T> = Vec::new();
    for j in 0..n
        invariant
            x@ == Seq::new(j as nat, |c: int| T::zero_spec()),
    {
        x.push(T::zero());
        assert(x@ =~= Seq::new((j + 1) as nat, |c: int| T::zero_spec()));
    }
    proof {
        lemma_forward_prefix_len(rv, piv@, b@, n as int);
    }
    let mut i = n;
    while i > 0
        invariant
            n == lu@.len(),
            i <= n,
            rv == rows_view(lu@),
            forall|r: int| 0 <= r < n ==> (#[trigger] lu@[r])@.len() == n,
            y@.len() == n,
            x@ == backward_from(rv, y@, n as int, i as int),
            x@.len() == n,
        decreases i,
    {
        i = i - 1;
        let mut s = y[i];
        for j in (i + 1)..n
            invariant
                n == lu@.len(),
                i < n,
                rv == rows_view(lu@),
                forall|r: int| 0 <= r < n ==> (#[trigger] lu@[r])@.len() == n,
                y@.len() == n,
                x@.len() == n,
                s == sub_terms(y@[i as int], rv[i as int], x@, i + 1, j as int),
        {
            s = s.minus(lu[i][j].times(x[j]));
        }
        x.set(i, s.divide(lu[i][i]));
        proof {
            lemma_backward_from_len(rv, y@, n as int, i as int);
        }
    }
    x
}

/// [`forward_prefix`] up to `i` has `i` entries.
proof fn lemma_forward_prefix_len<T: Scalar>(lu: Seq<Seq<T>>, piv: Seq<usize>, b: Seq<T>, i: int)
    requires
        0 <= i,
    ensures
        forward_prefix(lu, piv, b, i).len() == i,
    decreases i,
{
    if i > 0 {
        lemma_forward_prefix_len(lu, piv, b, i - 1);
    }
}

/// [`backward_from`] always has `n` entries.
pub proof fn lemma_backward_from_len<T: Scalar>(lu: Seq<Seq<T>>, y: Seq<T>, n: int, i: int)
    requires
        0 <= i <= n,
    ensures
        backward_from(lu, y, n, i).len() == n,
    decreases n - i,
{
    if i < n {
        lemma_backward_from_len(lu, y, n, i + 1);
    }
}

impl<T: Scalar> DMatrix<T> {
    /// Solves `A x = b` for `x`, `A` being `self`, by partial-pivot LU (see
    /// [`lu_solution`]): a dimension error when `A` is not square or `b` has the wrong
    /// length, a singularity error when the factorization finds no usable pivot.
    pub fn solve(&self, b: &DVector<T>) -> (r: Result<DVector<T>, DenseError>)
        requires
            self.cols_spec() == self.rows_spec() ==> self.covers(self.rows_spec(), self.rows_spec()),
        ensures
            self.cols_spec() != self.rows_spec() ==> (r matches Err(DenseError::DimensionMismatch { what }) && what@
                == square_mismatch_text(self.rows_spec() as usize, self.cols_spec() as usize)),
            self.cols_spec() == self.rows_spec() && b@.len() != self.rows_spec() ==> (r matches Err(
                DenseError::DimensionMismatch { what },
            ) && what@ == rhs_mismatch_text(b@.len() as usize, self.rows_spec() as usize)),
            self.cols_spec() == self.rows_spec() && b@.len() == self.rows_spec() ==> match lu_spec(self) {
                None => r == Err::<DVector<T>, DenseError>(DenseError::Singular { what: "partial_pivot_lu" }),
                Some((lu, piv)) => r matches Ok(x) && x@ == lu_solution(lu, piv, b@, self.rows_spec() as int),
            },
    {
        let n = self.nrows;
        if self.ncols != n {
            return Err(DenseError::DimensionMismatch { what: square_mismatch_message(n, self.ncols) });
        }
        if b.len() != n {
            return Err(DenseError::DimensionMismatch { what: rhs_mismatch_message(b.len(), n) });
        }
        match partial_pivot_lu(self) {
            Err(e) => Err(e),
            Ok((lu, piv)) => {
                let x = solve_with_lu(&lu, &piv, b);
                Ok(DVector::from_vec(x))
            },
        }
    }

    /// The inverse of `self` by partial-pivot LU: column `c` is the solution against the
    /// unit vector along `c` (see [`lu_solution`]); a dimension error when `self` is not
    /// square, a singularity error when the factorization finds no usable pivot.
    pub fn inverse(&self) -> (r: Result<DMatrix<T>, DenseError>)
        requires
            self.cols_spec() == self.rows_spec() ==> self.covers(self.rows_spec(), self.rows_spec()),
        ensures
            self.cols_spec() != self.rows_spec() ==> (r matches Err(DenseError::DimensionMismatch { what }) && what@
                == square_mismatch_text(self.rows_spec() as usize, self.cols_spec() as usize)),
            self.cols_spec() == self.rows_spec() ==> match lu_spec(self) {
                None => r == Err::<DMatrix<T>, DenseError>(DenseError::Singular { what: "partial_pivot_lu" }),
                Some((lu, piv)) => r matches Ok(inv) && inv.rows_spec() == self.rows_spec() && inv.cols_spec()
                    == self.rows_spec() && inv.well_formed() && forall|i: int, c: int|
                    0 <= i < self.rows_spec() && 0 <= c < self.rows_spec() ==> #[trigger] inv.entry(i, c)
                        == lu_solution(lu, piv, unit_vector(self.rows_spec(), c), self.rows_spec() as int)[i],
            },
    {
        let n = self.nrows;
        if self.ncols != n {
            return Err(DenseError::DimensionMismatch { what: square_mismatch_message(n, self.ncols) });
        }
        let len = self.data.len();
        proof {
            self.lemma_covers_fits(self.rows_spec());
        }
        let (lu, piv) = match partial_pivot_lu(self) {
            Err(e) => { return Err(e); },
            Ok(f) => f,
        };
        let ghost lus = rows_view(lu@);
        let mut out: Vec<T> = Vec::new();
        assert(0 * n == 0) by (nonlinear_arith);
        for col in 0..n
            invariant
                n == self.rows_spec(),
                n * n <= usize::MAX,
                lu@.len() == n,
                lus == rows_view(lu@),
                forall|i: int| 0 <= i < n ==> (#[trigger] lu@[i])@.len() == n,
                piv@.len() == n,
                forall|i: int| 0 <= i < n ==> #[trigger] piv@[i] < n,
                out@.len() == col * n,
                forall|i: int, c: int| 0 <= i < n && 0 <= c < col ==> #[trigger] out@[i + c * n]
                    == lu_solution(lus, piv@, unit_vector(n as nat, c), n as int)[i],
        {
            let mut e: Vec<T> = Vec::new();
            for i in 0..n
                invariant
                    e@.len() == i,
                    forall|r: int| 0 <= r < i ==> #[trigger] e@[r] == unit_vector::<T>(n as nat, col as int)[r],
            {
                if i == col {
                    e.push(T::one());
                } else {
                    e.push(T::zero());
                }
            }
            assert(e@ =~= unit_vector::<T>(n as nat, col as int));
            let ev = DVector::from_vec(e);
            let x = solve_with_lu(&lu, &piv, &ev);
            proof {
                lemma_backward_from_len(lus, forward_prefix(lus, piv@, ev@, n as int), n as int, 0);
                assert(col * n + n <= n * n) by (nonlinear_arith)
                    requires
                        col < n,
                ;
            }
            let ghost before = out@;
            for t in 0..n
                invariant
                    n == self.rows_spec(),
                    x@.len() == n,
                    out@.len() == col * n + t,
                    forall|r: int| 0 <= r < col * n ==> #[trigger] out@[r] == before[r],
                    forall|r: int| 0 <= r < t ==> #[trigger] out@[col * n + r] == x@[r],
                    col * n + n <= usize::MAX,
            {
                out.push(x[t]);
            }
            assert forall|i: int, c: int| 0 <= i < n && 0 <= c < col + 1 implies #[trigger] out@[i + c * n]
                == lu_solution(lus, piv@, unit_vector(n as nat, c), n as int)[i] by {
                if c < col {
                    lemma_column_major_before(i, c, 0, col as int, n as int);
                    assert(out@[i + c * n] == before[i + c * n]);
                } else {
                    assert(i + c * n == col * n + i);
                    assert(out@[col * n + i] == x@[i]);
                }
            }
            assert((col + 1) * n == col * n + n) by (nonlinear_arith);
        }
        let r = DMatrix::from_vec(n, n, out);
        assert(n * n == r.rows_spec() * r.cols_spec());
        Ok(r)
    }
}

} // verus!
