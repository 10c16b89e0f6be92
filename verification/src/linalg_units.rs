//! Dense vectors and matrices tagged with phantom unit types: a `Vec<U>` holds quantities of
//! unit `U`, a `Mat<U, V>` maps unit `V` to unit `U`, so that mixing units is a type error and
//! `Mat<U, V> * Mat<V, W> = Mat<U, W>`. The arithmetic is that of the dense types.
use core::marker::PhantomData;

use vstd::prelude::*;

use crate::linalg_dense::{col_of, row_of, DMatrix, DVector};
use crate::linalg_fixed::dot_prefix;
use crate::scalar::Scalar;

verus! {

/// A vector of elements with unit `U`.
#[derive(Debug, PartialEq)]
pub struct Vec<U, T> {
    raw: DVector<T>,
    unit: PhantomData<U>,
}

/// A matrix whose rows carry unit `U` and whose columns carry unit `V`.
#[derive(Debug, PartialEq)]
pub struct Mat<U, V, T> {
    raw: DMatrix<T>,
    unit: PhantomData<(U, V)>,
}

impl<U, T: Clone> Clone for Vec<U, T> {
    /// A copy with the same unit.
    fn clone(&self) -> (r: Self) {
        Vec { raw: self.raw.clone(), unit: PhantomData }
    }
}

impl<U, V, T: Clone> Clone for Mat<U, V, T> {
    /// A copy with the same units.
    fn clone(&self) -> (r: Self) {
        Mat { raw: self.raw.clone(), unit: PhantomData }
    }
}

impl<U, T> View for Vec<U, T> {
    type V = Seq<T>;

    /// The elements, in order.
    closed spec fn view(&self) -> Seq<T> {
        self.raw@
    }
}

impl<U, T> Vec<U, T> {
    /// The untagged vector.
    pub closed spec fn raw_view(&self) -> DVector<T> {
        self.raw
    }

    /// Tags a dense vector with unit `U`.
    pub fn from_raw(raw: DVector<T>) -> (r: Self)
        ensures
            r.raw_view() == raw,
            r@ == raw@,
    {
        Vec { raw, unit: PhantomData }
    }

    /// The untagged vector.
    pub fn raw(&self) -> (r: &DVector<T>)
        ensures
            *r == self.raw_view(),
            r@ == self@,
    {
        &self.raw
    }

    /// Number of components.
    pub fn len(&self) -> (r: usize)
        ensures
            r == self@.len(),
    {
        self.raw.len()
    }

    /// `true` exactly when there is no component.
    pub fn is_empty(&self) -> (r: bool)
        ensures
            r == (self@.len() == 0),
    {
        self.raw.is_empty()
    }
}

impl<U, T: Scalar> Vec<U, T> {
    /// A zero vector of length `n`.
    pub fn zeros(n: usize) -> (r: Self)
        ensures
            r@ == Seq::new(n as nat, |i: int| T::zero_spec()),
    {
        Vec::from_raw(DVector::zeros(n))
    }
}

impl<U, V, T> Mat<U, V, T> {
    /// The untagged matrix.
    pub closed spec fn raw_view(&self) -> DMatrix<T> {
        self.raw
    }

    /// Tags a dense matrix with row unit `U` and column unit `V`.
    pub fn from_raw(raw: DMatrix<T>) -> (r: Self)
        ensures
            r.raw_view() == raw,
    {
        Mat { raw, unit: PhantomData }
    }

    /// The untagged matrix.
    pub fn raw(&self) -> (r: &DMatrix<T>)
        ensures
            *r == self.raw_view(),
    {
        &self.raw
    }

    /// Number of rows.
    pub fn nrows(&self) -> (r: usize)
        ensures
            r == self.raw_view().rows_spec(),
    {
        self.raw.nrows()
    }

    /// Number of columns.
    pub fn ncols(&self) -> (r: usize)
        ensures
            r == self.raw_view().cols_spec(),
    {
        self.raw.ncols()
    }
}

impl<U, V, T: Scalar> Mat<U, V, T> {
    /// A zero matrix of the given shape (which must fit in memory).
    pub fn zeros(rows: usize, cols: usize) -> (r: Self)
        requires
            rows * cols <= usize::MAX,
        ensures
            r.raw_view().rows_spec() == rows,
            r.raw_view().cols_spec() == cols,
            r.raw_view().well_formed(),
            forall|i: int, j: int| 0 <= i < rows && 0 <= j < cols ==> #[trigger] r.raw_view().entry(i, j) == T::zero_spec(),
    {
        Mat::from_raw(DMatrix::zeros(rows, cols))
    }

    /// Every entry negated.
    pub fn negate(self) -> (r: Mat<U, V, T>)
        requires
            self.raw_view().covers(self.raw_view().rows_spec(), self.raw_view().cols_spec()),
        ensures
            r.raw_view().rows_spec() == self.raw_view().rows_spec(),
            r.raw_view().cols_spec() == self.raw_view().cols_spec(),
            r.raw_view().well_formed(),
            forall|i: int, j: int| 0 <= i < self.raw_view().rows_spec() && 0 <= j < self.raw_view().cols_spec() ==> #[trigger] r.raw_view().entry(i, j) == self.raw_view().entry(i, j).negate_spec(),
    {
        Mat::from_raw(core::ops::Neg::neg(self.raw))
    }

    /// The transpose, exchanging the unit tags.
    pub fn transpose(self) -> (r: Mat<V, U, T>)
        requires
            self.raw_view().covers(self.raw_view().rows_spec(), self.raw_view().cols_spec()),
            self.raw_view().rows_spec() * self.raw_view().cols_spec() <= usize::MAX,
        ensures
            r.raw_view().rows_spec() == self.raw_view().cols_spec(),
            r.raw_view().cols_spec() == self.raw_view().rows_spec(),
            r.raw_view().well_formed(),
            forall|i: int, j: int| 0 <= i < self.raw_view().cols_spec() && 0 <= j < self.raw_view().rows_spec() ==> #[trigger] r.raw_view().entry(i, j) == self.raw_view().entry(j, i),
    {
        Mat::from_raw(self.raw.transpose())
    }
}

impl<U, T> vstd::std_specs::core::IndexSpecImpl<usize> for Vec<U, T> {
    open spec fn index_req(&self, index: &usize) -> bool {
        *index < self@.len()
    }
}

impl<U, T> core::ops::Index<usize> for Vec<U, T> {
    type Output = T;

    /// The component at `i` (which must be in bounds).
    fn index(&self, i: usize) -> (r: &T)
        ensures
            *r == self@[i as int],
    {
        &self.raw[i]
    }
}

impl<U, T: Scalar> vstd::std_specs::ops::MulSpecImpl<T> for Vec<U, T> {
    open spec fn obeys_mul_spec() -> bool {
        false
    }

    open spec fn mul_req(self, rhs: T) -> bool {
        true
    }

    open spec fn mul_spec(self, rhs: T) -> Vec<U, T> {
        arbitrary()
    }
}

impl<U, T: Scalar> core::ops::Mul<T> for Vec<U, T> {
    type Output = Vec<U, T>;

    /// Every component times `rhs`.
    fn mul(self, rhs: T) -> (r: Vec<U, T>)
        ensures
            r@.len() == self@.len(),
            forall|i: int| 0 <= i < self@.len() ==> #[trigger] r@[i] == self@[i].times_spec(rhs),
    {
        Vec::from_raw(core::ops::Mul::mul(self.raw, rhs))
    }
}

impl<U, T: Scalar> vstd::std_specs::ops::DivSpecImpl<T> for Vec<U, T> {
    open spec fn obeys_div_spec() -> bool {
        false
    }

    open spec fn div_req(self, rhs: T) -> bool {
        true
    }

    open spec fn div_spec(self, rhs: T) -> Vec<U, T> {
        arbitrary()
    }
}

impl<U, T: Scalar> core::ops::Div<T> for Vec<U, T> {
    type Output = Vec<U, T>;

    /// Every component divided by `rhs`.
    fn div(self, rhs: T) -> (r: Vec<U, T>)
        ensures
            r@.len() == self@.len(),
            forall|i: int| 0 <= i < self@.len() ==> #[trigger] r@[i] == self@[i].divide_spec(rhs),
    {
        Vec::from_raw(core::ops::Div::div(self.raw, rhs))
    }
}

impl<U, T: Scalar> vstd::std_specs::ops::AddSpecImpl for Vec<U, T> {
    open spec fn obeys_add_spec() -> bool {
        false
    }

    open spec fn add_req(self, rhs: Vec<U, T>) -> bool {
        rhs@.len() >= self@.len()
    }

    open spec fn add_spec(self, rhs: Vec<U, T>) -> Vec<U, T> {
        arbitrary()
    }
}

impl<U, T: Scalar> core::ops::Add for Vec<U, T> {
    type Output = Vec<U, T>;

    /// Componentwise sum of two vectors of the same unit (`rhs` must be at least as long).
    fn add(self, rhs: Vec<U, T>) -> (r: Vec<U, T>)
        ensures
            r@.len() == self@.len(),
            forall|i: int| 0 <= i < self@.len() ==> #[trigger] r@[i] == self@[i].plus_spec(rhs@[i]),
    {
        Vec::from_raw(core::ops::Add::add(self.raw, rhs.raw))
    }
}

impl<U, T: Scalar> vstd::std_specs::ops::SubSpecImpl for Vec<U, T> {
    open spec fn obeys_sub_spec() -> bool {
        false
    }

    open spec fn sub_req(self, rhs: Vec<U, T>) -> bool {
        rhs@.len() >= self@.len()
    }

    open spec fn sub_spec(self, rhs: Vec<U, T>) -> Vec<U, T> {
        arbitrary()
    }
}

impl<U, T: Scalar> core::ops::Sub for Vec<U, T> {
    type Output = Vec<U, T>;

    /// Componentwise difference of two vectors of the same unit (`rhs` must be at least as
    /// long).
    fn sub(self, rhs: Vec<U, T>) -> (r: Vec<U, T>)
        ensures
            r@.len() == self@.len(),
            forall|i: int| 0 <= i < self@.len() ==> #[trigger] r@[i] == self@[i].minus_spec(rhs@[i]),
    {
        Vec::from_raw(core::ops::Sub::sub(self.raw, rhs.raw))
    }
}

impl<U, T: Scalar> vstd::std_specs::ops::NegSpecImpl for Vec<U, T> {
    open spec fn obeys_neg_spec() -> bool {
        false
    }

    open spec fn neg_req(self) -> bool {
        true
    }

    open spec fn neg_spec(self) -> Vec<U, T> {
        arbitrary()
    }
}

impl<U, T: Scalar> core::ops::Neg for Vec<U, T> {
    type Output = Vec<U, T>;

    /// Every component negated.
    fn neg(self) -> (r: Vec<U, T>)
        ensures
            r@.len() == self@.len(),
            forall|i: int| 0 <= i < self@.len() ==> #[trigger] r@[i] == self@[i].negate_spec(),
    {
        Vec::from_raw(core::ops::Neg::neg(self.raw))
    }
}

impl<U, V, T: Scalar> vstd::std_specs::ops::AddSpecImpl for Mat<U, V, T> {
    open spec fn obeys_add_spec() -> bool {
        false
    }

    open spec fn add_req(self, rhs: Mat<U, V, T>) -> bool {
        self.raw_view().covers(self.raw_view().rows_spec(), self.raw_view().cols_spec()) && rhs.raw_view().covers(
            self.raw_view().rows_spec(),
            self.raw_view().cols_spec(),
        )
    }

    open spec fn add_spec(self, rhs: Mat<U, V, T>) -> Mat<U, V, T> {
        arbitrary()
    }
}

impl<U, V, T: Scalar> core::ops::Add for Mat<U, V, T> {
    type Output = Mat<U, V, T>;

    /// Entrywise sum over `self`'s shape (`rhs` must cover it).
    fn add(self, rhs: Mat<U, V, T>) -> (r: Mat<U, V, T>)
        ensures
            r.raw_view().rows_spec() == self.raw_view().rows_spec(),
            r.raw_view().cols_spec() == self.raw_view().cols_spec(),
            r.raw_view().well_formed(),
            forall|i: int, j: int| 0 <= i < self.raw_view().rows_spec() && 0 <= j < self.raw_view().cols_spec() ==> #[trigger] r.raw_view().entry(i, j) == self.raw_view().entry(i, j).plus_spec(rhs.raw_view().entry(i, j)),
    {
        Mat::from_raw(core::ops::Add::add(self.raw, rhs.raw))
    }
}

impl<U, V, T: Scalar> vstd::std_specs::ops::SubSpecImpl for Mat<U, V, T> {
    open spec fn obeys_sub_spec() -> bool {
        false
    }

    open spec fn sub_req(self, rhs: Mat<U, V, T>) -> bool {
        self.raw_view().covers(self.raw_view().rows_spec(), self.raw_view().cols_spec()) && rhs.raw_view().covers(
            self.raw_view().rows_spec(),
            self.raw_view().cols_spec(),
        )
    }

    open spec fn sub_spec(self, rhs: Mat<U, V, T>) -> Mat<U, V, T> {
        arbitrary()
    }
}

impl<U, V, T: Scalar> core::ops::Sub for Mat<U, V, T> {
    type Output = Mat<U, V, T>;

    /// Entrywise difference over `self`'s shape (`rhs` must cover it).
    fn sub(self, rhs: Mat<U, V, T>) -> (r: Mat<U, V, T>)
        ensures
            r.raw_view().rows_spec() == self.raw_view().rows_spec(),
            r.raw_view().cols_spec() == self.raw_view().cols_spec(),
            r.raw_view().well_formed(),
            forall|i: int, j: int| 0 <= i < self.raw_view().rows_spec() && 0 <= j < self.raw_view().cols_spec() ==> #[trigger] r.raw_view().entry(i, j) == self.raw_view().entry(i, j).minus_spec(rhs.raw_view().entry(i, j)),
    {
        Mat::from_raw(core::ops::Sub::sub(self.raw, rhs.raw))
    }
}

impl<U, V, W, T: Scalar> vstd::std_specs::ops::MulSpecImpl<Mat<V, W, T>> for Mat<U, V, T> {
    open spec fn obeys_mul_spec() -> bool {
        false
    }

    open spec fn mul_req(self, rhs: Mat<V, W, T>) -> bool {
        &&& self.raw_view().covers(self.raw_view().rows_spec(), self.raw_view().cols_spec())
        &&& rhs.raw_view().covers(self.raw_view().cols_spec(), rhs.raw_view().cols_spec())
        &&& self.raw_view().rows_spec() * rhs.raw_view().cols_spec() <= usize::MAX
    }

    open spec fn mul_spec(self, rhs: Mat<V, W, T>) -> Mat<U, W, T> {
        arbitrary()
    }
}

impl<U, V, W, T: Scalar> core::ops::Mul<Mat<V, W, T>> for Mat<U, V, T> {
    type Output = Mat<U, W, T>;

    /// The matrix product, with units `U` by `W` (`rhs` must have `self.ncols()` rows).
    fn mul(self, rhs: Mat<V, W, T>) -> (r: Mat<U, W, T>)
        ensures
            r.raw_view().rows_spec() == self.raw_view().rows_spec(),
            r.raw_view().cols_spec() == rhs.raw_view().cols_spec(),
            r.raw_view().well_formed(),
            forall|i: int, j: int| 0 <= i < self.raw_view().rows_spec() && 0 <= j < rhs.raw_view().cols_spec() ==> #[trigger] r.raw_view().entry(i, j) == dot_prefix(
                row_of(&self.raw_view(), i, self.raw_view().cols_spec()),
                col_of(&rhs.raw_view(), j, self.raw_view().cols_spec()),
                self.raw_view().cols_spec() as int,
            ),
    {
        Mat::from_raw(core::ops::Mul::mul(self.raw, rhs.raw))
    }
}

impl<U, V, T: Scalar> vstd::std_specs::ops::MulSpecImpl<Vec<V, T>> for Mat<U, V, T> {
    open spec fn obeys_mul_spec() -> bool {
        false
    }

    open spec fn mul_req(self, rhs: Vec<V, T>) -> bool {
        &&& self.raw_view().covers(self.raw_view().rows_spec(), self.raw_view().cols_spec())
        &&& self.raw_view().cols_spec() <= rhs@.len()
    }

    open spec fn mul_spec(self, rhs: Vec<V, T>) -> Vec<U, T> {
        arbitrary()
    }
}

impl<U, V, T: Scalar> core::ops::Mul<Vec<V, T>> for Mat<U, V, T> {
    type Output = Vec<U, T>;

    /// The matrix-vector product, a vector of unit `U` (`rhs` must have at least
    /// `self.ncols()` components).
    fn mul(self, rhs: Vec<V, T>) -> (r: Vec<U, T>)
        ensures
            r@.len() == self.raw_view().rows_spec(),
            forall|i: int| 0 <= i < self.raw_view().rows_spec() ==> #[trigger] r@[i] == dot_prefix(
                row_of(&self.raw_view(), i, self.raw_view().cols_spec()),
                rhs@,
                self.raw_view().cols_spec() as int,
            ),
    {
        Vec::from_raw(core::ops::Mul::mul(self.raw, rhs.raw))
    }
}

} // verus!
