//! Complex numbers over a [`Scalar`], and dynamically sized complex vectors and matrices
//! (column-major) with their arithmetic.
use vstd::prelude::*;

use crate::linalg_dense::{
    col_of, copy_row, identity_perm, rhs_mismatch_message, rhs_mismatch_text, row_of, rows_view,
    square_mismatch_message, square_mismatch_text, square_rows, swap_at, DMatrix, DVector,
};
use crate::linalg_fixed::swap_rows;
use crate::scalar::{tiny, tiny_exec, two, two_exec, Scalar};

verus! {

// ===========================================================================
// Complex scalar
// ===========================================================================

/// A complex number `re + i im`.
#[derive(Clone, Copy, Debug, PartialEq)]
pub struct Complex<T> {
    /// Real part.
    pub re: T,
    /// Imaginary part.
    pub im: T,
}

/// `a + b`.
pub open spec fn c_add<T: Scalar>(a: Complex<T>, b: Complex<T>) -> Complex<T> {
    Complex { re: a.re.plus_spec(b.re), im: a.im.plus_spec(b.im) }
}

/// `a - b`.
pub open spec fn c_sub<T: Scalar>(a: Complex<T>, b: Complex<T>) -> Complex<T> {
    Complex { re: a.re.minus_spec(b.re), im: a.im.minus_spec(b.im) }
}

/// `-a`.
pub open spec fn c_neg<T: Scalar>(a: Complex<T>) -> Complex<T> {
    Complex { re: a.re.negate_spec(), im: a.im.negate_spec() }
}

/// `a * b = (a.re b.re - a.im b.im) + i (a.re b.im + a.im b.re)`.
pub open spec fn c_mul<T: Scalar>(a: Complex<T>, b: Complex<T>) -> Complex<T> {
    Complex {
        re: a.re.times_spec(b.re).minus_spec(a.im.times_spec(b.im)),
        im: a.re.times_spec(b.im).plus_spec(a.im.times_spec(b.re)),
    }
}

/// The squared modulus `re^2 + im^2`.
pub open spec fn c_norm_sqr<T: Scalar>(a: Complex<T>) -> T {
    a.re.times_spec(a.re).plus_spec(a.im.times_spec(a.im))
}

/// `a / b`, through `a * conj(b) / |b|^2`.
pub open spec fn c_div<T: Scalar>(a: Complex<T>, b: Complex<T>) -> Complex<T> {
    let d = c_norm_sqr(b);
    Complex {
        re: a.re.times_spec(b.re).plus_spec(a.im.times_spec(b.im)).divide_spec(d),
        im: a.im.times_spec(b.re).minus_spec(a.re.times_spec(b.im)).divide_spec(d),
    }
}

/// `a * s` for a real `s`.
pub open spec fn c_scale<T: Scalar>(a: Complex<T>, s: T) -> Complex<T> {
    Complex { re: a.re.times_spec(s), im: a.im.times_spec(s) }
}

/// The conjugate `re - i im`.
pub open spec fn c_conj<T: Scalar>(a: Complex<T>) -> Complex<T> {
    Complex { re: a.re, im: a.im.negate_spec() }
}

/// The real number `x` as a complex number.
pub open spec fn c_real<T: Scalar>(x: T) -> Complex<T> {
    Complex { re: x, im: T::zero_spec() }
}

/// The principal square root: with `r = |a|`, real part `sqrt((r + re) / 2)` and imaginary
/// part `sqrt((r - re) / 2)`, negated when `im < 0`.
pub open spec fn c_sqrt<T: Scalar>(a: Complex<T>) -> Complex<T> {
    let r = c_norm_sqr(a).sqrt_spec();
    let im = r.minus_spec(a.re).divide_spec(two()).sqrt_spec();
    Complex {
        re: r.plus_spec(a.re).divide_spec(two()).sqrt_spec(),
        im: if a.im.lt_spec(T::zero_spec()) { im.negate_spec() } else { im },
    }
}

impl<T: Scalar> Complex<T> {
    /// The complex number `re + i im`.
    pub fn new(re: T, im: T) -> (r: Self)
        ensures
            r == (Complex { re, im }),
    {
        Complex { re, im }
    }

    /// The real number `re`.
    pub fn from_real(re: T) -> (r: Self)
        ensures
            r == c_real(re),
    {
        Complex { re, im: T::zero() }
    }

    /// The conjugate.
    pub fn conj(&self) -> (r: Self)
        ensures
            r == c_conj(*self),
    {
        Complex { re: self.re, im: self.im.negate() }
    }

    /// The squared modulus `re^2 + im^2`.
    pub fn norm_sqr(&self) -> (r: T)
        ensures
            r == c_norm_sqr(*self),
    {
        self.re.times(self.re).plus(self.im.times(self.im))
    }

    /// The modulus `sqrt(re^2 + im^2)`.
    pub fn norm(&self) -> (r: T)
        ensures
            r == c_norm_sqr(*self).sqrt_spec(),
    {
        self.norm_sqr().sqrt()
    }

    /// The argument `atan2(im, re)`.
    pub fn arg(&self) -> (r: T)
        ensures
            r == self.im.atan2_spec(self.re),
    {
        self.im.atan2(self.re)
    }

    /// The multiplicative inverse `(re - i im) / |z|^2`, or `None` when `|z|^2` equals zero.
    pub fn inv(&self) -> (r: Option<Self>)
        ensures
            c_norm_sqr(*self).eq_spec(T::zero_spec()) ==> r is None,
            !c_norm_sqr(*self).eq_spec(T::zero_spec()) ==> r == Some(
                Complex {
                    re: self.re.divide_spec(c_norm_sqr(*self)),
                    im: self.im.negate_spec().divide_spec(c_norm_sqr(*self)),
                },
            ),
    {
        let n = self.norm_sqr();
        if n.eq(T::zero()) {
            return None;
        }
        Some(Complex::new(self.re.divide(n), self.im.negate().divide(n)))
    }

    /// The principal square root (see [`c_sqrt`]).
    pub fn sqrt(&self) -> (r: Self)
        ensures
            r == c_sqrt(*self),
    {
        let r = self.norm();
        let t = two_exec::<T>();
        let re = r.plus(self.re).divide(t).sqrt();
        let mut im = r.minus(self.re).divide(t).sqrt();
        if self.im.lt(T::zero()) {
            im = im.negate();
        }
        Complex::new(re, im)
    }

    /// The point `r (cos theta + i sin theta)`.
    pub fn from_polar(r: T, theta: T) -> (z: Self)
        ensures
            z == (Complex { re: r.times_spec(theta.cos_spec()), im: r.times_spec(theta.sin_spec()) }),
    {
        let s = theta.sin();
        let c = theta.cos();
        Complex::new(r.times(c), r.times(s))
    }
}

impl<T: Scalar> vstd::std_specs::ops::AddSpecImpl for Complex<T> {
    open spec fn obeys_add_spec() -> bool {
        false
    }

    open spec fn add_req(self, rhs: Complex<T>) -> bool {
        true
    }

    open spec fn add_spec(self, rhs: Complex<T>) -> Complex<T> {
        c_add(self, rhs)
    }
}

impl<T: Scalar> core::ops::Add for Complex<T> {
    type Output = Complex<T>;

    /// The sum.
    fn add(self, rhs: Complex<T>) -> (r: Complex<T>)
        ensures
            r == c_add(self, rhs),
    {
        Complex::new(self.re.plus(rhs.re), self.im.plus(rhs.im))
    }
}

impl<T: Scalar> vstd::std_specs::ops::SubSpecImpl for Complex<T> {
    open spec fn obeys_sub_spec() -> bool {
        false
    }

    open spec fn sub_req(self, rhs: Complex<T>) -> bool {
        true
    }

    open spec fn sub_spec(self, rhs: Complex<T>) -> Complex<T> {
        c_sub(self, rhs)
    }
}

impl<T: Scalar> core::ops::Sub for Complex<T> {
    type Output = Complex<T>;

    /// The difference.
    fn sub(self, rhs: Complex<T>) -> (r: Complex<T>)
        ensures
            r == c_sub(self, rhs),
    {
        Complex::new(self.re.minus(rhs.re), self.im.minus(rhs.im))
    }
}

impl<T: Scalar> vstd::std_specs::ops::NegSpecImpl for Complex<T> {
    open spec fn obeys_neg_spec() -> bool {
        false
    }

    open spec fn neg_req(self) -> bool {
        true
    }

    open spec fn neg_spec(self) -> Complex<T> {
        c_neg(self)
    }
}

impl<T: Scalar> core::ops::Neg for Complex<T> {
    type Output = Complex<T>;

    /// The negation.
    fn neg(self) -> (r: Complex<T>)
        ensures
            r == c_neg(self),
    {
        Complex::new(self.re.negate(), self.im.negate())
    }
}

impl<T: Scalar> vstd::std_specs::ops::MulSpecImpl for Complex<T> {
    open spec fn obeys_mul_spec() -> bool {
        false
    }

    open spec fn mul_req(self, rhs: Complex<T>) -> bool {
        true
    }

    open spec fn mul_spec(self, rhs: Complex<T>) -> Complex<T> {
        c_mul(self, rhs)
    }
}

impl<T: Scalar> core::ops::Mul for Complex<T> {
    type Output = Complex<T>;

    /// The product.
    fn mul(self, rhs: Complex<T>) -> (r: Complex<T>)
        ensures
            r == c_mul(self, rhs),
    {
        Complex::new(
            self.re.times(rhs.re).minus(self.im.times(rhs.im)),
            self.re.times(rhs.im).plus(self.im.times(rhs.re)),
        )
    }
}

impl<T: Scalar> vstd::std_specs::ops::DivSpecImpl for Complex<T> {
    open spec fn obeys_div_spec() -> bool {
        false
    }

    open spec fn div_req(self, rhs: Complex<T>) -> bool {
        true
    }

    open spec fn div_spec(self, rhs: Complex<T>) -> Complex<T> {
        c_div(self, rhs)
    }
}

impl<T: Scalar> core::ops::Div for Complex<T> {
    type Output = Complex<T>;

    /// The quotient, through `self * conj(rhs) / |rhs|^2`.
    fn div(self, rhs: Complex<T>) -> (r: Complex<T>)
        ensures
            r == c_div(self, rhs),
    {
        let d = rhs.norm_sqr();
        Complex::new(
            self.re.times(rhs.re).plus(self.im.times(rhs.im)).divide(d),
            self.im.times(rhs.re).minus(self.re.times(rhs.im)).divide(d),
        )
    }
}

impl<T: Scalar> vstd::std_specs::ops::MulSpecImpl<T> for Complex<T> {
    open spec fn obeys_mul_spec() -> bool {
        false
    }

    open spec fn mul_req(self, rhs: T) -> bool {
        true
    }

    open spec fn mul_spec(self, rhs: T) -> Complex<T> {
        c_scale(self, rhs)
    }
}

impl<T: Scalar> core::ops::Mul<T> for Complex<T> {
    type Output = Complex<T>;

    /// Both parts times the real `rhs`.
    fn mul(self, rhs: T) -> (r: Complex<T>)
        ensures
            r == c_scale(self, rhs),
    {
        Complex::new(self.re.times(rhs), self.im.times(rhs))
    }
}


// ===========================================================================
// Complex vectors
// ===========================================================================

/// A dynamically sized complex column vector.
#[derive(Clone, PartialEq, Debug)]
pub struct ComplexDVector<T> {
    data: DVector<Complex<T>>,
}

impl<T> View for ComplexDVector<T> {
    type V = Seq<Complex<T>>;

    /// The elements, in order.
    closed spec fn view(&self) -> Seq<Complex<T>> {
        self.data@
    }
}

/// The sum of the squared moduli of the first `n` elements, accumulated in order from zero.
pub open spec fn sum_norm_sqr<T: Scalar>(s: Seq<Complex<T>>, n: int) -> T
    decreases n,
{
    if n <= 0 {
        T::zero_spec()
    } else {
        sum_norm_sqr(s, n - 1).plus_spec(c_norm_sqr(s[n - 1]))
    }
}

/// The sum over `k < n` of `conj(a[k]) * b[k]`, accumulated in order from zero.
pub open spec fn conj_dot_prefix<T: Scalar>(a: Seq<Complex<T>>, b: Seq<Complex<T>>, n: int) -> Complex<T>
    decreases n,
{
    if n <= 0 {
        c_real(T::zero_spec())
    } else {
        c_add(conj_dot_prefix(a, b, n - 1), c_mul(c_conj(a[n - 1]), b[n - 1]))
    }
}

/// The sum over `k < n` of `a[k] * b[k]`, accumulated in order from zero.
pub open spec fn c_dot_prefix<T: Scalar>(a: Seq<Complex<T>>, b: Seq<Complex<T>>, n: int) -> Complex<T>
    decreases n,
{
    if n <= 0 {
        c_real(T::zero_spec())
    } else {
        c_add(c_dot_prefix(a, b, n - 1), c_mul(a[n - 1], b[n - 1]))
    }
}

/// Element `i` of `s`.
spec fn elem<A>(s: Seq<A>, i: usize) -> A {
    s[i as int]
}

impl<T: Scalar> ComplexDVector<T> {
    /// A zero vector of length `n`.
    pub fn zeros(n: usize) -> (r: Self)
        ensures
            r@ == Seq::new(n as nat, |i: int| c_real(T::zero_spec())),
    {
        let z = Complex::from_real(T::zero());
        let v = DVector::from_fn(n, |i: usize| -> (r: Complex<T>) ensures r == z { z });
        assert(v@ =~= Seq::new(n as nat, |i: int| c_real(T::zero_spec())));
        ComplexDVector { data: v }
    }

    /// Builds from a `Vec` (elements in order).
    pub fn from_vec(data: Vec<Complex<T>>) -> (r: Self)
        ensures
            r@ == data@,
    {
        ComplexDVector { data: DVector::from_vec(data) }
    }

    /// Builds from a slice (elements in order).
    pub fn from_slice(data: &[Complex<T>]) -> (r: Self)
        ensures
            r@ == data@,
    {
        ComplexDVector { data: DVector::from_row_slice(data) }
    }

    /// Builds element by element with `f(i)`.
    pub fn from_fn<F: Fn(usize) -> Complex<T>>(n: usize, f: F) -> (r: Self)
        requires
            forall|i: usize| i < n ==> f.requires((i,)),
        ensures
            r@.len() == n,
            forall|i: int| 0 <= i < n ==> f.ensures((i as usize,), #[trigger] r@[i]),
    {
        ComplexDVector { data: DVector::from_fn(n, f) }
    }

    /// Builds from separate real and imaginary parts, over the shorter of the two.
    pub fn from_real_imag(re: Vec<T>, im: Vec<T>) -> (r: Self)
        ensures
            r@.len() == if re@.len() <= im@.len() { re@.len() } else { im@.len() },
            forall|i: int| 0 <= i < r@.len() ==> #[trigger] r@[i] == (Complex { re: re@[i], im: im@[i] }),
    {
        let n = if re.len() <= im.len() {
            re.len()
        } else {
            im.len()
        };
        let mut out: Vec<Complex<T>> = Vec::new();
        for i in 0..n
            invariant
                n <= re@.len(),
                n <= im@.len(),
                out@.len() == i,
                forall|k: int| 0 <= k < i ==> #[trigger] out@[k] == (Complex { re: re@[k], im: im@[k] }),
        {
            out.push(Complex::new(re[i], im[i]));
        }
        ComplexDVector { data: DVector::from_vec(out) }
    }

    /// The Euclidean norm: the square root of the in-order sum of squared moduli.
    pub fn norm(&self) -> (r: T)
        ensures
            r == sum_norm_sqr(self@, self@.len() as int).sqrt_spec(),
    {
        let xs = self.data.iter();
        let mut s = T::zero();
        for i in 0..xs.len()
            invariant
                xs@ == self@,
                s == sum_norm_sqr(self@, i as int),
        {
            s = s.plus(xs[i].norm_sqr());
        }
        s.sqrt()
    }

    /// The conjugate dot product: the sum over `i` of `conj(self[i]) * other[i]`, accumulated
    /// in order (`other` must be at least as long).
    pub fn dot(&self, other: &ComplexDVector<T>) -> (r: Complex<T>)
        requires
            other@.len() >= self@.len(),
        ensures
            r == conj_dot_prefix(self@, other@, self@.len() as int),
    {
        let xs = self.data.iter();
        let ys = other.data.iter();
        let mut s = Complex::from_real(T::zero());
        for i in 0..xs.len()
            invariant
                xs@ == self@,
                ys@ == other@,
                ys@.len() >= xs@.len(),
                s == conj_dot_prefix(self@, other@, i as int),
        {
            s = core::ops::Add::add(s, core::ops::Mul::mul(xs[i].conj(), ys[i]));
        }
        s
    }

    /// The `1 x n` row matrix of this vector.
    pub fn transpose(&self) -> (r: ComplexDMatrix<T>)
        ensures
            r.rows_spec() == 1,
            r.cols_spec() == self@.len(),
            r.well_formed(),
            forall|j: int| 0 <= j < self@.len() ==> #[trigger] r.entry(0, j) == self@[j],
    {
        ComplexDMatrix { data: self.data.transpose() }
    }
}

impl<T> ComplexDVector<T> {
    /// Number of components.
    pub fn len(&self) -> (r: usize)
        ensures
            r == self@.len(),
    {
        self.data.len()
    }

    /// `true` exactly when there is no component.
    pub fn is_empty(&self) -> (r: bool)
        ensures
            r == (self@.len() == 0),
    {
        self.data.is_empty()
    }

    /// The elements, in order.
    pub fn iter(&self) -> (r: &[Complex<T>])
        ensures
            r@ == self@,
    {
        self.data.iter()
    }
}

impl<T> vstd::std_specs::core::IndexSpecImpl<usize> for ComplexDVector<T> {
    open spec fn index_req(&self, index: &usize) -> bool {
        *index < self@.len()
    }
}

impl<T> core::ops::Index<usize> for ComplexDVector<T> {
    type Output = Complex<T>;

    /// The component at `i` (which must be in bounds).
    fn index(&self, i: usize) -> (r: &Complex<T>)
        ensures
            *r == self@[i as int],
    {
        &self.data[i]
    }
}

/// `a[i] op b[i]` (`op` being `+` or `-`) for each `i < a.len()`.
fn zip_cvec<T: Scalar>(minus: bool, a: &ComplexDVector<T>, b: &ComplexDVector<T>) -> (r: ComplexDVector<T>)
    requires
        a@.len() <= b@.len(),
    ensures
        r@.len() == a@.len(),
        forall|i: int| 0 <= i < a@.len() ==> #[trigger] r@[i] == if minus { c_sub(a@[i], b@[i]) } else { c_add(a@[i], b@[i]) },
{
    let n = a.len();
    ComplexDVector::from_fn(
        n,
        |i: usize| -> (r: Complex<T>)
            requires
                i < n
            ensures
                r == if minus { c_sub(elem(a@, i), elem(b@, i)) } else { c_add(elem(a@, i), elem(b@, i)) }
            { if minus { core::ops::Sub::sub(a[i], b[i]) } else { core::ops::Add::add(a[i], b[i]) } },
    )
}

impl<T: Scalar> vstd::std_specs::ops::AddSpecImpl for ComplexDVector<T> {
    open spec fn obeys_add_spec() -> bool {
        false
    }

    open spec fn add_req(self, rhs: ComplexDVector<T>) -> bool {
        rhs@.len() >= self@.len()
    }

    open spec fn add_spec(self, rhs: ComplexDVector<T>) -> ComplexDVector<T> {
        arbitrary()
    }
}

impl<T: Scalar> core::ops::Add for ComplexDVector<T> {
    type Output = ComplexDVector<T>;

    /// Componentwise sum (`rhs` must be at least as long).
    fn add(self, rhs: ComplexDVector<T>) -> (r: ComplexDVector<T>)
        ensures
            r@.len() == self@.len(),
            forall|i: int| 0 <= i < self@.len() ==> #[trigger] r@[i] == c_add(self@[i], rhs@[i]),
    {
        zip_cvec(false, &self, &rhs)
    }
}

impl<T: Scalar> vstd::std_specs::ops::SubSpecImpl for ComplexDVector<T> {
    open spec fn obeys_sub_spec() -> bool {
        false
    }

    open spec fn sub_req(self, rhs: ComplexDVector<T>) -> bool {
        rhs@.len() >= self@.len()
    }

    open spec fn sub_spec(self, rhs: ComplexDVector<T>) -> ComplexDVector<T> {
        arbitrary()
    }
}

impl<T: Scalar> core::ops::Sub for ComplexDVector<T> {
    type Output = ComplexDVector<T>;

    /// Componentwise difference (`rhs` must be at least as long).
    fn sub(self, rhs: ComplexDVector<T>) -> (r: ComplexDVector<T>)
        ensures
            r@.len() == self@.len(),
            forall|i: int| 0 <= i < self@.len() ==> #[trigger] r@[i] == c_sub(self@[i], rhs@[i]),
    {
        zip_cvec(true, &self, &rhs)
    }
}

impl<T: Scalar> vstd::std_specs::ops::NegSpecImpl for ComplexDVector<T> {
    open spec fn obeys_neg_spec() -> bool {
        false
    }

    open spec fn neg_req(self) -> bool {
        true
    }

    open spec fn neg_spec(self) -> ComplexDVector<T> {
        arbitrary()
    }
}

impl<T: Scalar> core::ops::Neg for ComplexDVector<T> {
    type Output = ComplexDVector<T>;

    /// Every component negated.
    fn neg(self) -> (r: ComplexDVector<T>)
        ensures
            r@.len() == self@.len(),
            forall|i: int| 0 <= i < self@.len() ==> #[trigger] r@[i] == c_neg(self@[i]),
    {
        let n = self.len();
        let a = &self;
        ComplexDVector::from_fn(
            n,
            |i: usize| -> (r: Complex<T>)
                requires
                    i < n
                ensures
                    r == c_neg(elem(a@, i))
                { core::ops::Neg::neg(a[i]) },
        )
    }
}

impl<T: Scalar> vstd::std_specs::ops::MulSpecImpl<T> for ComplexDVector<T> {
    open spec fn obeys_mul_spec() -> bool {
        false
    }

    open spec fn mul_req(self, rhs: T) -> bool {
        true
    }

    open spec fn mul_spec(self, rhs: T) -> ComplexDVector<T> {
        arbitrary()
    }
}

impl<T: Scalar> core::ops::Mul<T> for ComplexDVector<T> {
    type Output = ComplexDVector<T>;

    /// Every component times the real `rhs`.
    fn mul(self, rhs: T) -> (r: ComplexDVector<T>)
        ensures
            r@.len() == self@.len(),
            forall|i: int| 0 <= i < self@.len() ==> #[trigger] r@[i] == c_scale(self@[i], rhs),
    {
        let n = self.len();
        let a = &self;
        ComplexDVector::from_fn(
            n,
            |i: usize| -> (r: Complex<T>)
                requires
                    i < n
                ensures
                    r == c_scale(elem(a@, i), rhs)
                { core::ops::Mul::mul(a[i], rhs) },
        )
    }
}

// ===========================================================================
// Complex matrices
// ===========================================================================

/// A dynamically sized complex matrix, stored column-major.
#[derive(Clone, PartialEq, Debug)]
pub struct ComplexDMatrix<T> {
    data: DMatrix<Complex<T>>,
}

impl<T> ComplexDMatrix<T> {
    /// The underlying storage, as a dense matrix of complex entries.
    pub closed spec fn dense(&self) -> DMatrix<Complex<T>> {
        self.data
    }

    /// Number of rows.
    pub open spec fn rows_spec(&self) -> nat {
        self.dense().rows_spec()
    }

    /// Number of columns.
    pub open spec fn cols_spec(&self) -> nat {
        self.dense().cols_spec()
    }

    /// Entry `(i, j)`.
    pub open spec fn entry(&self, i: int, j: int) -> Complex<T> {
        self.dense().entry(i, j)
    }

    /// The storage holds exactly `nrows * ncols` entries.
    pub open spec fn well_formed(&self) -> bool {
        self.dense().well_formed()
    }

    /// Every entry `(i, j)` with `i < m`, `j < n` lies within the storage.
    pub open spec fn covers(&self, m: nat, n: nat) -> bool {
        self.dense().covers(m, n)
    }

    /// Builds from a `Vec` laid out column-major: entry `(i, j)` is `data[i + j * nrows]`.
    pub fn from_vec(nrows: usize, ncols: usize, data: Vec<Complex<T>>) -> (r: Self)
        ensures
            r.rows_spec() == nrows,
            r.cols_spec() == ncols,
            r.dense().storage() == data@,
    {
        ComplexDMatrix { data: DMatrix::from_vec(nrows, ncols, data) }
    }

    /// Number of rows.
    pub fn nrows(&self) -> (r: usize)
        ensures
            r == self.rows_spec(),
    {
        self.data.nrows()
    }

    /// Number of columns.
    pub fn ncols(&self) -> (r: usize)
        ensures
            r == self.cols_spec(),
    {
        self.data.ncols()
    }

    /// `true` when there are no rows or no columns.
    pub fn is_empty(&self) -> (r: bool)
        ensures
            r == (self.rows_spec() == 0 || self.cols_spec() == 0),
    {
        self.data.is_empty()
    }

    /// All stored elements, in column-major order.
    pub fn iter(&self) -> (r: &[Complex<T>])
        ensures
            r@ == self.dense().storage(),
    {
        self.data.iter()
    }

}

impl<T: Copy> ComplexDMatrix<T> {
    /// Builds element by element with `f(i, j)` (the shape must fit in memory).
    pub fn from_fn<F: Fn(usize, usize) -> Complex<T>>(nrows: usize, ncols: usize, f: F) -> (r: Self)
        requires
            nrows * ncols <= usize::MAX,
            forall|i: usize, j: usize| i < nrows && j < ncols ==> f.requires((i, j)),
        ensures
            r.rows_spec() == nrows,
            r.cols_spec() == ncols,
            r.well_formed(),
            forall|i: int, j: int| 0 <= i < nrows && 0 <= j < ncols ==> f.ensures((i as usize, j as usize), #[trigger] r.entry(i, j)),
    {
        ComplexDMatrix { data: DMatrix::from_fn(nrows, ncols, f) }
    }
}

impl<T> vstd::std_specs::core::IndexSpecImpl<(usize, usize)> for ComplexDMatrix<T> {
    open spec fn index_req(&self, index: &(usize, usize)) -> bool {
        index.0 + index.1 * self.rows_spec() < self.dense().storage().len()
    }
}

impl<T> core::ops::Index<(usize, usize)> for ComplexDMatrix<T> {
    type Output = Complex<T>;

    /// The entry `(i, j)` (which must lie within the storage).
    fn index(&self, ij: (usize, usize)) -> (r: &Complex<T>)
        ensures
            *r == self.entry(ij.0 as int, ij.1 as int),
    {
        &self.data[ij]
    }
}

/// Entry `(i, j)` of `m` (indices as `usize`).
spec fn entry_at<T>(m: &ComplexDMatrix<T>, i: usize, j: usize) -> Complex<T> {
    m.entry(i as int, j as int)
}

impl<T: Scalar> ComplexDMatrix<T> {
    /// A zero matrix of the given shape (which must fit in memory).
    pub fn zeros(nrows: usize, ncols: usize) -> (r: Self)
        requires
            nrows * ncols <= usize::MAX,
        ensures
            r.rows_spec() == nrows,
            r.cols_spec() == ncols,
            r.well_formed(),
            forall|i: int, j: int| 0 <= i < nrows && 0 <= j < ncols ==> #[trigger] r.entry(i, j) == c_real(T::zero_spec()),
    {
        let z = Complex::from_real(T::zero());
        ComplexDMatrix::from_fn(nrows, ncols, |i: usize, j: usize| -> (r: Complex<T>) ensures r == z { z })
    }

    /// Builds from a row-major slice of complex values (which must hold `nrows * ncols`).
    pub fn from_row_slice(nrows: usize, ncols: usize, data: &[Complex<T>]) -> (r: Self)
        requires
            data@.len() >= nrows * ncols,
        ensures
            r.rows_spec() == nrows,
            r.cols_spec() == ncols,
            r.well_formed(),
            forall|i: int, j: int| 0 <= i < nrows && 0 <= j < ncols ==> #[trigger] r.entry(i, j) == data@[i * ncols + j],
    {
        ComplexDMatrix { data: DMatrix::from_row_slice(nrows, ncols, data) }
    }

    /// Builds from a row-major slice of real values (which must hold `nrows * ncols`), each
    /// as a complex number.
    pub fn from_real_row_slice(nrows: usize, ncols: usize, data: &[T]) -> (r: Self)
        requires
            data@.len() >= nrows * ncols,
        ensures
            r.rows_spec() == nrows,
            r.cols_spec() == ncols,
            r.well_formed(),
            forall|i: int, j: int| 0 <= i < nrows && 0 <= j < ncols ==> #[trigger] r.entry(i, j) == c_real(data@[i * ncols + j]),
    {
        let mut c: Vec<Complex<T>> = Vec::new();
        for k in 0..data.len()
            invariant
                c@.len() == k,
                forall|q: int| 0 <= q < k ==> #[trigger] c@[q] == c_real(data@[q]),
        {
            c.push(Complex::from_real(data[k]));
        }
        let m = DMatrix::from_row_slice(nrows, ncols, c.as_slice());
        proof {
            assert forall|i: int, j: int| 0 <= i < nrows && 0 <= j < ncols implies #[trigger] m.entry(i, j) == c_real(data@[i * ncols + j]) by {
                assert(i * ncols + j < nrows * ncols) by (nonlinear_arith)
                    requires
                        0 <= i < nrows,
                        0 <= j < ncols,
                ;
                assert(0 <= i * ncols) by (nonlinear_arith)
                    requires
                        0 <= i,
                        0 <= ncols,
                ;
            }
        }
        ComplexDMatrix { data: m }
    }

    /// The complex matrix with the entries of the real matrix `m` (which must cover its own
    /// shape).
    pub fn from_real_matrix(m: &DMatrix<T>) -> (r: ComplexDMatrix<T>)
        requires
            m.covers(m.rows_spec(), m.cols_spec()),
        ensures
            r.rows_spec() == m.rows_spec(),
            r.cols_spec() == m.cols_spec(),
            r.well_formed(),
            forall|i: int, j: int| 0 <= i < m.rows_spec() && 0 <= j < m.cols_spec() ==> #[trigger] r.entry(i, j) == c_real(m.entry(i, j)),
    {
        let (rows, cols) = (m.nrows(), m.ncols());
        let len = m.iter().len();
        proof {
            m.lemma_covers_fits(m.cols_spec());
        }
        ComplexDMatrix::from_fn(
            rows,
            cols,
            |i: usize, j: usize| -> (r: Complex<T>)
                requires
                    i < rows,
                    j < cols
                ensures
                    r == c_real(m.entry(i as int, j as int))
                { Complex::from_real(m[(i, j)]) },
        )
    }

    /// The transpose: entry `(i, j)` is entry `(j, i)` of `self`.
    pub fn transpose(&self) -> (r: ComplexDMatrix<T>)
        requires
            self.covers(self.rows_spec(), self.cols_spec()),
            self.rows_spec() * self.cols_spec() <= usize::MAX,
        ensures
            r.rows_spec() == self.cols_spec(),
            r.cols_spec() == self.rows_spec(),
            r.well_formed(),
            forall|i: int, j: int| 0 <= i < self.cols_spec() && 0 <= j < self.rows_spec() ==> #[trigger] r.entry(i, j) == self.entry(j, i),
    {
        ComplexDMatrix { data: self.data.transpose() }
    }
}

/// The entrywise combination `a op b` (`op` being `+` or `-`) over `a`'s shape.
fn zip_cmat<T: Scalar>(minus: bool, a: &ComplexDMatrix<T>, b: &ComplexDMatrix<T>) -> (r: ComplexDMatrix<T>)
    requires
        a.covers(a.rows_spec(), a.cols_spec()),
        b.covers(a.rows_spec(), a.cols_spec()),
    ensures
        r.rows_spec() == a.rows_spec(),
        r.cols_spec() == a.cols_spec(),
        r.well_formed(),
        forall|i: int, j: int| 0 <= i < a.rows_spec() && 0 <= j < a.cols_spec() ==> #[trigger] r.entry(i, j) == if minus {
            c_sub(a.entry(i, j), b.entry(i, j))
        } else {
            c_add(a.entry(i, j), b.entry(i, j))
        },
{
    let (m, n) = (a.nrows(), a.ncols());
    let len = a.iter().len();
    proof {
        a.dense().lemma_covers_fits(a.cols_spec());
    }
    ComplexDMatrix::from_fn(
        m,
        n,
        |i: usize, j: usize| -> (r: Complex<T>)
            requires
                i < m,
                j < n
            ensures
                r == if minus { c_sub(entry_at(a, i, j), entry_at(b, i, j)) } else { c_add(entry_at(a, i, j), entry_at(b, i, j)) }
            {
                if minus {
                    core::ops::Sub::sub(a[(i, j)], b[(i, j)])
                } else {
                    core::ops::Add::add(a[(i, j)], b[(i, j)])
                }
            },
    )
}

impl<T: Scalar> vstd::std_specs::ops::AddSpecImpl for ComplexDMatrix<T> {
    open spec fn obeys_add_spec() -> bool {
        false
    }

    open spec fn add_req(self, rhs: ComplexDMatrix<T>) -> bool {
        self.covers(self.rows_spec(), self.cols_spec()) && rhs.covers(self.rows_spec(), self.cols_spec())
    }

    open spec fn add_spec(self, rhs: ComplexDMatrix<T>) -> ComplexDMatrix<T> {
        arbitrary()
    }
}

impl<T: Scalar> core::ops::Add for ComplexDMatrix<T> {
    type Output = ComplexDMatrix<T>;

    /// Entrywise sum over `self`'s shape (`rhs` must cover it).
    fn add(self, rhs: ComplexDMatrix<T>) -> (r: ComplexDMatrix<T>)
        ensures
            r.rows_spec() == self.rows_spec(),
            r.cols_spec() == self.cols_spec(),
            r.well_formed(),
            forall|i: int, j: int| 0 <= i < self.rows_spec() && 0 <= j < self.cols_spec() ==> #[trigger] r.entry(i, j) == c_add(self.entry(i, j), rhs.entry(i, j)),
    {
        zip_cmat(false, &self, &rhs)
    }
}

impl<T: Scalar> vstd::std_specs::ops::SubSpecImpl for ComplexDMatrix<T> {
    open spec fn obeys_sub_spec() -> bool {
        false
    }

    open spec fn sub_req(self, rhs: ComplexDMatrix<T>) -> bool {
        self.covers(self.rows_spec(), self.cols_spec()) && rhs.covers(self.rows_spec(), self.cols_spec())
    }

    open spec fn sub_spec(self, rhs: ComplexDMatrix<T>) -> ComplexDMatrix<T> {
        arbitrary()
    }
}

impl<T: Scalar> core::ops::Sub for ComplexDMatrix<T> {
    type Output = ComplexDMatrix<T>;

    /// Entrywise difference over `self`'s shape (`rhs` must cover it).
    fn sub(self, rhs: ComplexDMatrix<T>) -> (r: ComplexDMatrix<T>)
        ensures
            r.rows_spec() == self.rows_spec(),
            r.cols_spec() == self.cols_spec(),
            r.well_formed(),
            forall|i: int, j: int| 0 <= i < self.rows_spec() && 0 <= j < self.cols_spec() ==> #[trigger] r.entry(i, j) == c_sub(self.entry(i, j), rhs.entry(i, j)),
    {
        zip_cmat(true, &self, &rhs)
    }
}

impl<T: Scalar> vstd::std_specs::ops::NegSpecImpl for ComplexDMatrix<T> {
    open spec fn obeys_neg_spec() -> bool {
        false
    }

    open spec fn neg_req(self) -> bool {
        self.covers(self.rows_spec(), self.cols_spec())
    }

    open spec fn neg_spec(self) -> ComplexDMatrix<T> {
        arbitrary()
    }
}

impl<T: Scalar> core::ops::Neg for ComplexDMatrix<T> {
    type Output = ComplexDMatrix<T>;

    /// Every entry negated.
    fn neg(self) -> (r: ComplexDMatrix<T>)
        ensures
            r.rows_spec() == self.rows_spec(),
            r.cols_spec() == self.cols_spec(),
            r.well_formed(),
            forall|i: int, j: int| 0 <= i < self.rows_spec() && 0 <= j < self.cols_spec() ==> #[trigger] r.entry(i, j) == c_neg(self.entry(i, j)),
    {
        let (m, n) = (self.nrows(), self.ncols());
        let len = self.iter().len();
        proof {
            self.dense().lemma_covers_fits(self.cols_spec());
        }
        let a = &self;
        ComplexDMatrix::from_fn(
            m,
            n,
            |i: usize, j: usize| -> (r: Complex<T>)
                requires
                    i < m,
                    j < n
                ensures
                    r == c_neg(entry_at(a, i, j))
                { core::ops::Neg::neg(a[(i, j)]) },
        )
    }
}

impl<T: Scalar> vstd::std_specs::ops::MulSpecImpl<T> for ComplexDMatrix<T> {
    open spec fn obeys_mul_spec() -> bool {
        false
    }

    open spec fn mul_req(self, rhs: T) -> bool {
        self.covers(self.rows_spec(), self.cols_spec())
    }

    open spec fn mul_spec(self, rhs: T) -> ComplexDMatrix<T> {
        arbitrary()
    }
}

impl<T: Scalar> core::ops::Mul<T> for ComplexDMatrix<T> {
    type Output = ComplexDMatrix<T>;

    /// Every entry times the real `rhs`.
    fn mul(self, rhs: T) -> (r: ComplexDMatrix<T>)
        ensures
            r.rows_spec() == self.rows_spec(),
            r.cols_spec() == self.cols_spec(),
            r.well_formed(),
            forall|i: int, j: int| 0 <= i < self.rows_spec() && 0 <= j < self.cols_spec() ==> #[trigger] r.entry(i, j) == c_scale(self.entry(i, j), rhs),
    {
        let (m, n) = (self.nrows(), self.ncols());
        let len = self.iter().len();
        proof {
            self.dense().lemma_covers_fits(self.cols_spec());
        }
        let a = &self;
        ComplexDMatrix::from_fn(
            m,
            n,
            |i: usize, j: usize| -> (r: Complex<T>)
                requires
                    i < m,
                    j < n
                ensures
                    r == c_scale(entry_at(a, i, j), rhs)
                { core::ops::Mul::mul(a[(i, j)], rhs) },
        )
    }
}

/// The sum over `kk < k` of `a(i, kk) * b(kk, j)`, accumulated in order from zero.
fn c_row_dot_col<T: Scalar>(a: &ComplexDMatrix<T>, b: &ComplexDMatrix<T>, k: usize, i: usize, j: usize) -> (r: Complex<T>)
    requires
        a.covers(i as nat + 1, k as nat),
        b.covers(k as nat, j as nat + 1),
    ensures
        r == c_dot_prefix(row_of(&a.dense(), i as int, k as nat), col_of(&b.dense(), j as int, k as nat), k as int),
{
    let mut s = Complex::from_real(T::zero());
    for kk in 0..k
        invariant
            a.covers(i as nat + 1, k as nat),
            b.covers(k as nat, j as nat + 1),
            s == c_dot_prefix(row_of(&a.dense(), i as int, k as nat), col_of(&b.dense(), j as int, k as nat), kk as int),
    {
        s = core::ops::Add::add(s, core::ops::Mul::mul(a[(i, kk)], b[(kk, j)]));
    }
    s
}

/// The sum over `kk < k` of `a(i, kk) * v[kk]`, accumulated in order from zero.
fn c_row_dot_vec<T: Scalar>(a: &ComplexDMatrix<T>, v: &ComplexDVector<T>, k: usize, i: usize) -> (r: Complex<T>)
    requires
        a.covers(i as nat + 1, k as nat),
        k <= v@.len(),
    ensures
        r == c_dot_prefix(row_of(&a.dense(), i as int, k as nat), v@, k as int),
{
    let mut s = Complex::from_real(T::zero());
    for kk in 0..k
        invariant
            a.covers(i as nat + 1, k as nat),
            k <= v@.len(),
            s == c_dot_prefix(row_of(&a.dense(), i as int, k as nat), v@, kk as int),
    {
        s = core::ops::Add::add(s, core::ops::Mul::mul(a[(i, kk)], v[kk]));
    }
    s
}

/// Entry `(i, j)` of `a * b` with inner dimension `k`.
spec fn c_product_entry<T: Scalar>(a: &ComplexDMatrix<T>, b: &ComplexDMatrix<T>, k: nat, i: usize, j: usize) -> Complex<T> {
    c_dot_prefix(row_of(&a.dense(), i as int, k), col_of(&b.dense(), j as int, k), k as int)
}

/// Component `i` of `a * v` with inner dimension `k`.
spec fn c_product_component<T: Scalar>(a: &ComplexDMatrix<T>, v: Seq<Complex<T>>, k: nat, i: usize) -> Complex<T> {
    c_dot_prefix(row_of(&a.dense(), i as int, k), v, k as int)
}

impl<T: Scalar> vstd::std_specs::ops::MulSpecImpl<ComplexDMatrix<T>> for ComplexDMatrix<T> {
    open spec fn obeys_mul_spec() -> bool {
        false
    }

    open spec fn mul_req(self, rhs: ComplexDMatrix<T>) -> bool {
        &&& self.covers(self.rows_spec(), self.cols_spec())
        &&& rhs.covers(self.cols_spec(), rhs.cols_spec())
        &&& self.rows_spec() * rhs.cols_spec() <= usize::MAX
    }

    open spec fn mul_spec(self, rhs: ComplexDMatrix<T>) -> ComplexDMatrix<T> {
        arbitrary()
    }
}

impl<T: Scalar> core::ops::Mul<ComplexDMatrix<T>> for ComplexDMatrix<T> {
    type Output = ComplexDMatrix<T>;

    /// The matrix product: entry `(i, j)` is the sum over `kk` of `self(i, kk) * rhs(kk, j)`,
    /// accumulated in order from zero (`rhs` must have `self.ncols()` rows).
    fn mul(self, rhs: ComplexDMatrix<T>) -> (r: ComplexDMatrix<T>)
        ensures
            r.rows_spec() == self.rows_spec(),
            r.cols_spec() == rhs.cols_spec(),
            r.well_formed(),
            forall|i: int, j: int| 0 <= i < self.rows_spec() && 0 <= j < rhs.cols_spec() ==> #[trigger] r.entry(i, j) == c_dot_prefix(row_of(&self.dense(), i, self.cols_spec()), col_of(&rhs.dense(), j, self.cols_spec()), self.cols_spec() as int),
    {
        let m = self.nrows();
        let k = self.ncols();
        let n = rhs.ncols();
        let a = &self;
        let b = &rhs;
        ComplexDMatrix::from_fn(
            m,
            n,
            |i: usize, j: usize| -> (r: Complex<T>)
                requires
                    i < m,
                    j < n
                ensures
                    r == c_product_entry(a, b, k as nat, i, j)
                { c_row_dot_col(a, b, k, i, j) },
        )
    }
}

impl<T: Scalar> vstd::std_specs::ops::MulSpecImpl<ComplexDVector<T>> for ComplexDMatrix<T> {
    open spec fn obeys_mul_spec() -> bool {
        false
    }

    open spec fn mul_req(self, rhs: ComplexDVector<T>) -> bool {
        &&& self.covers(self.rows_spec(), self.cols_spec())
        &&& self.cols_spec() <= rhs@.len()
    }

    open spec fn mul_spec(self, rhs: ComplexDVector<T>) -> ComplexDVector<T> {
        rhs
    }
}

impl<T: Scalar> core::ops::Mul<ComplexDVector<T>> for ComplexDMatrix<T> {
    type Output = ComplexDVector<T>;

    /// The matrix-vector product: component `i` is the sum over `kk` of
    /// `self(i, kk) * rhs[kk]`, accumulated in order from zero (`rhs` must have at least
    /// `self.ncols()` components).
    fn mul(self, rhs: ComplexDVector<T>) -> (r: ComplexDVector<T>)
        ensures
            r@.len() == self.rows_spec(),
            forall|i: int| 0 <= i < self.rows_spec() ==> #[trigger] r@[i] == c_dot_prefix(row_of(&self.dense(), i, self.cols_spec()), rhs@, self.cols_spec() as int),
    {
        let m = self.nrows();
        let k = self.ncols();
        let a = &self;
        let v = &rhs;
        ComplexDVector::from_fn(
            m,
            |i: usize| -> (r: Complex<T>)
                requires
                    i < m
                ensures
                    r == c_product_component(a, v@, k as nat, i)
                { c_row_dot_vec(a, v, k, i) },
        )
    }
}


// ===========================================================================
// Partial-pivot LU: factors, solve and inverse
// ===========================================================================

/// Errors of the fallible complex dense routines.
#[derive(Debug, Clone, PartialEq)]
pub enum ComplexDenseError {
    /// The matrix is (numerically) singular; `what` names the routine that found it.
    Singular { what: &'static str },
    /// The operands' dimensions conflict; `what` describes how.
    DimensionMismatch { what: String },
}

/// The modulus of `z`.
pub open spec fn c_abs<T: Scalar>(z: Complex<T>) -> T {
    c_norm_sqr(z).sqrt_spec()
}

/// The first row in `k .. end` whose column-`k` modulus is largest, with that modulus.
pub open spec fn c_pivot_scan<T: Scalar>(a: Seq<Seq<Complex<T>>>, k: int, end: int) -> (int, T)
    decreases end - k,
{
    if end <= k + 1 {
        (k, c_abs(a[k][k]))
    } else {
        let (p, m) = c_pivot_scan(a, k, end - 1);
        let v = c_abs(a[end - 1][k]);
        if m.lt_spec(v) {
            (end - 1, v)
        } else {
            (p, m)
        }
    }
}

/// Row `ri` after LU step `k` against the pivot row `rk`: column `k` holds the multiplier
/// `ri[k] / rk[k]`, each later column `j` loses the multiplier times `rk[j]`, and the earlier
/// columns are kept.
pub open spec fn c_lu_row<T: Scalar>(ri: Seq<Complex<T>>, rk: Seq<Complex<T>>, k: int) -> Seq<Complex<T>> {
    Seq::new(
        ri.len(),
        |j: int|
            if j == k {
                c_div(ri[k], rk[k])
            } else if j > k {
                c_sub(ri[j], c_mul(c_div(ri[k], rk[k]), rk[j]))
            } else {
                ri[j]
            },
    )
}

/// Every row below `k` updated against row `k`, as [`c_lu_row`] describes.
pub open spec fn c_lu_eliminate<T: Scalar>(a: Seq<Seq<Complex<T>>>, k: int) -> Seq<Seq<Complex<T>>> {
    Seq::new(a.len(), |i: int| if i > k { c_lu_row(a[i], a[k], k) } else { a[i] })
}

/// The partial-pivot LU factorization from step `k` of `n`, carrying the row permutation
/// `piv`: `None` as soon as a pivot column's largest modulus (the first found, scanning down
/// from the diagonal) is not finite or falls below the tolerance `10^-12`; otherwise the packed
/// factors and the permutation.
pub open spec fn c_lu_run<T: Scalar>(a: Seq<Seq<Complex<T>>>, piv: Seq<usize>, k: int, n: int) -> Option<(Seq<Seq<Complex<T>>>, Seq<usize>)>
    decreases n - k,
{
    if k >= n {
        Some((a, piv))
    } else {
        let (p, m) = c_pivot_scan(a, k, n);
        if !m.is_finite_spec() || m.lt_spec(tiny()) {
            None
        } else {
            c_lu_run(c_lu_eliminate(swap_rows(a, k, p), k), swap_at(piv, k, p), k + 1, n)
        }
    }
}

/// The packed partial-pivot LU factorization of the leading `n x n` block of `m`, `n` being
/// its row count.
pub open spec fn c_lu_spec<T: Scalar>(m: &ComplexDMatrix<T>) -> Option<(Seq<Seq<Complex<T>>>, Seq<usize>)> {
    c_lu_run(square_rows(&m.dense(), m.rows_spec()), identity_perm(m.rows_spec()), 0, m.rows_spec() as int)
}

/// The unit lower triangle of the packed factors `a` (`n x n`).
pub open spec fn lower_factor<T: Scalar>(a: Seq<Seq<Complex<T>>>, n: nat) -> Seq<Seq<Complex<T>>> {
    Seq::new(
        n,
        |i: int|
            Seq::new(
                n,
                |j: int|
                    if i == j {
                        c_real(T::one_spec())
                    } else if i > j {
                        a[i][j]
                    } else {
                        c_real(T::zero_spec())
                    },
            ),
    )
}

/// The upper triangle of the packed factors `a` (`n x n`).
pub open spec fn upper_factor<T: Scalar>(a: Seq<Seq<Complex<T>>>, n: nat) -> Seq<Seq<Complex<T>>> {
    Seq::new(n, |i: int| Seq::new(n, |j: int| if i <= j { a[i][j] } else { c_real(T::zero_spec()) }))
}

/// `s` minus `row[j] * xs[j]` for each `j` from `lo` up to `hi`, subtracted in that order.
pub open spec fn c_sub_terms<T: Scalar>(s: Complex<T>, row: Seq<Complex<T>>, xs: Seq<Complex<T>>, lo: int, hi: int) -> Complex<T>
    decreases hi - lo,
{
    if hi <= lo {
        s
    } else {
        c_sub(c_sub_terms(s, row, xs, lo, hi - 1), c_mul(row[hi - 1], xs[hi - 1]))
    }
}

/// The first `i` entries of the forward substitution `L y = P b`.
pub open spec fn c_forward_prefix<T: Scalar>(l: Seq<Seq<Complex<T>>>, piv: Seq<usize>, b: Seq<Complex<T>>, i: int) -> Seq<Complex<T>>
    decreases i,
{
    if i <= 0 {
        Seq::empty()
    } else {
        let y = c_forward_prefix(l, piv, b, i - 1);
        y.push(c_sub_terms(b[piv[i - 1] as int], l[i - 1], y, 0, i - 1))
    }
}

/// The back substitution `U x = y` carried out for the entries from `i` to `n - 1`, the
/// entries before `i` still zero.
pub open spec fn c_backward_from<T: Scalar>(u: Seq<Seq<Complex<T>>>, y: Seq<Complex<T>>, n: int, i: int) -> Seq<Complex<T>>
    decreases n - i,
{
    if i >= n {
        Seq::new(n as nat, |j: int| c_real(T::zero_spec()))
    } else {
        let x = c_backward_from(u, y, n, i + 1);
        x.update(i, c_div(c_sub_terms(y[i], u[i], x, i + 1, n), u[i][i]))
    }
}

/// The solution of `A x = b` from the factors `l`, `u` and permutation `piv` of an `n x n`
/// matrix `A`.
pub open spec fn c_lu_solution<T: Scalar>(l: Seq<Seq<Complex<T>>>, u: Seq<Seq<Complex<T>>>, piv: Seq<usize>, b: Seq<Complex<T>>, n: int) -> Seq<Complex<T>> {
    c_backward_from(u, c_forward_prefix(l, piv, b, n), n, 0)
}

/// The `n`-component complex unit vector along axis `c`.
pub open spec fn c_unit_vector<T: Scalar>(n: nat, c: int) -> Seq<Complex<T>> {
    Seq::new(n, |i: int| if i == c { c_real(T::one_spec()) } else { c_real(T::zero_spec()) })
}

/// The pivot row for column `k` and its modulus, as [`c_pivot_scan`] describes.
fn c_lu_pivot<T: Scalar>(a: &Vec<Vec<Complex<T>>>, k: usize, n: usize) -> (r: (usize, T))
    requires
        k < n,
        a@.len() == n,
        forall|i: int| 0 <= i < n ==> (#[trigger] a@[i])@.len() == n,
    ensures
        k <= r.0 < n,
        (r.0 as int, r.1) == c_pivot_scan(rows_view(a@), k as int, n as int),
{
    let ghost rv = rows_view(a@);
    let mut p = k;
    let mut mx = a[k][k].norm();
    for i in (k + 1)..n
        invariant
            k < n,
            a@.len() == n,
            rv == rows_view(a@),
            forall|r: int| 0 <= r < n ==> (#[trigger] a@[r])@.len() == n,
            k <= p < n,
            (p as int, mx) == c_pivot_scan(rv, k as int, i as int),
    {
        let v = a[i][k].norm();
        assert(v == c_abs(rv[i as int][k as int]));
        if mx.lt(v) {
            mx = v;
            p = i;
        }
    }
    (p, mx)
}

/// Row `ri` updated against the pivot row `rk` at step `k`, as [`c_lu_row`] describes.
fn c_lu_row_exec<T: Scalar>(ri: &Vec<Complex<T>>, rk: &Vec<Complex<T>>, k: usize) -> (r: Vec<Complex<T>>)
    requires
        ri@.len() == rk@.len(),
        k < ri@.len(),
    ensures
        r@ == c_lu_row(ri@, rk@, k as int),
{
    let l = core::ops::Div::div(ri[k], rk[k]);
    let mut out: Vec<Complex<T>> = Vec::new();
    for j in 0..ri.len()
        invariant
            ri@.len() == rk@.len(),
            k < ri@.len(),
            l == c_div(ri@[k as int], rk@[k as int]),
            out@.len() == j,
            forall|c: int| 0 <= c < j ==> #[trigger] out@[c] == c_lu_row(ri@, rk@, k as int)[c],
    {
        if j == k {
            out.push(l);
        } else if j > k {
            out.push(core::ops::Sub::sub(ri[j], core::ops::Mul::mul(l, rk[j])));
        } else {
            out.push(ri[j]);
        }
    }
    assert(out@ =~= c_lu_row(ri@, rk@, k as int));
    out
}

/// The packed partial-pivot LU factorization of `m` (square, `n` its row count), as
/// [`c_lu_spec`] describes; the permutation entries stay below `n`.
fn c_partial_pivot_lu<T: Scalar>(m: &ComplexDMatrix<T>) -> (r: Result<(Vec<Vec<Complex<T>>>, Vec<usize>), ComplexDenseError>)
    requires
        m.covers(m.rows_spec(), m.rows_spec()),
    ensures
        match r {
            Ok((a, piv)) => {
                &&& c_lu_spec(m) == Some((rows_view(a@), piv@))
                &&& a@.len() == m.rows_spec()
                &&& forall|i: int| 0 <= i < m.rows_spec() ==> (#[trigger] a@[i])@.len() == m.rows_spec()
                &&& piv@.len() == m.rows_spec()
                &&& forall|i: int| 0 <= i < m.rows_spec() ==> #[trigger] piv@[i] < m.rows_spec()
            },
            Err(e) => c_lu_spec(m) is None && e == (ComplexDenseError::Singular { what: "lu" }),
        },
{
    let n = m.nrows();
    let eps = tiny_exec::<T>();
    let ghost d = m.dense();
    let mut a: Vec<Vec<Complex<T>>> = Vec::new();
    for i in 0..n
        invariant
            n == m.rows_spec(),
            d == m.dense(),
            m.covers(m.rows_spec(), m.rows_spec()),
            a@.len() == i,
            forall|r: int| 0 <= r < i ==> (#[trigger] a@[r])@ == square_rows(&d, n as nat)[r],
    {
        let mut row: Vec<Complex<T>> = Vec::new();
        for j in 0..n
            invariant
                n == m.rows_spec(),
                d == m.dense(),
                i < n,
                m.covers(m.rows_spec(), m.rows_spec()),
                row@.len() == j,
                forall|c: int| 0 <= c < j ==> #[trigger] row@[c] == m.entry(i as int, c),
        {
            row.push(m[(i, j)]);
        }
        assert(row@ =~= square_rows(&d, n as nat)[i as int]);
        a.push(row);
    }
    let mut piv: Vec<usize> = Vec::new();
    for i in 0..n
        invariant
            piv@ == identity_perm(i as nat),
    {
        piv.push(i);
        assert(piv@ =~= identity_perm((i + 1) as nat));
    }
    assert(rows_view(a@) =~= square_rows(&d, n as nat));
    for k in 0..n
        invariant
            n == m.rows_spec(),
            eps == tiny::<T>(),
            a@.len() == n,
            forall|r: int| 0 <= r < n ==> (#[trigger] a@[r])@.len() == n,
            piv@.len() == n,
            forall|r: int| 0 <= r < n ==> #[trigger] piv@[r] < n,
            c_lu_run(rows_view(a@), piv@, k as int, n as int) == c_lu_spec(m),
    {
        let ghost a0 = rows_view(a@);
        let ghost piv0 = piv@;
        let (p, mx) = c_lu_pivot(&a, k, n);
        if !mx.is_finite() || mx.lt(eps) {
            return Err(ComplexDenseError::Singular { what: "lu" });
        }
        let rk = copy_row(&a[k]);
        let rp = copy_row(&a[p]);
        a.set(k, rp);
        a.set(p, rk);
        let pk = piv[k];
        let pp = piv[p];
        piv.set(k, pp);
        piv.set(p, pk);
        let ghost swapped = rows_view(a@);
        assert(swapped =~= swap_rows(a0, k as int, p as int));
        assert(piv@ =~= swap_at(piv0, k as int, p as int));
        for i in (k + 1)..n
            invariant
                n == m.rows_spec(),
                k < n,
                a@.len() == n,
                forall|r: int| 0 <= r < n ==> (#[trigger] a@[r])@.len() == n,
                swapped.len() == n,
                forall|r: int| 0 <= r < n ==> #[trigger] rows_view(a@)[r] == if k < r < i {
                    c_lu_row(swapped[r], swapped[k as int], k as int)
                } else {
                    swapped[r]
                },
        {
            assert(rows_view(a@)[i as int] == swapped[i as int]);
            assert(rows_view(a@)[k as int] == swapped[k as int]);
            let new_row = c_lu_row_exec(&a[i], &a[k], k);
            let ghost before = a@;
            a.set(i, new_row);
            assert forall|r: int| 0 <= r < n implies #[trigger] rows_view(a@)[r] == if k < r < i + 1 {
                c_lu_row(swapped[r], swapped[k as int], k as int)
            } else {
                swapped[r]
            } by {
                if r != i {
                    assert(a@[r] == before[r]);
                    assert(rows_view(before)[r] == before[r]@);
                }
            }
        }
        assert(rows_view(a@) =~= c_lu_eliminate(swapped, k as int));
    }
    Ok((a, piv))
}

/// The triangular factor of the packed factors `a`: the unit lower triangle when `lower`,
/// the upper triangle otherwise.
fn triangle_factor<T: Scalar>(a: &Vec<Vec<Complex<T>>>, n: usize, lower: bool) -> (r: Vec<Vec<Complex<T>>>)
    requires
        a@.len() == n,
        forall|i: int| 0 <= i < n ==> (#[trigger] a@[i])@.len() == n,
    ensures
        r@.len() == n,
        forall|i: int| 0 <= i < n ==> (#[trigger] r@[i])@.len() == n,
        rows_view(r@) == if lower { lower_factor(rows_view(a@), n as nat) } else { upper_factor(rows_view(a@), n as nat) },
{
    let ghost target = if lower { lower_factor(rows_view(a@), n as nat) } else { upper_factor(rows_view(a@), n as nat) };
    let mut out: Vec<Vec<Complex<T>>> = Vec::new();
    for i in 0..n
        invariant
            a@.len() == n,
            forall|q: int| 0 <= q < n ==> (#[trigger] a@[q])@.len() == n,
            target == if lower { lower_factor(rows_view(a@), n as nat) } else { upper_factor(rows_view(a@), n as nat) },
            out@.len() == i,
            forall|q: int| 0 <= q < i ==> (#[trigger] out@[q])@ == target[q],
    {
        let mut row: Vec<Complex<T>> = Vec::new();
        for j in 0..n
            invariant
                a@.len() == n,
                i < n,
                forall|q: int| 0 <= q < n ==> (#[trigger] a@[q])@.len() == n,
                target == if lower { lower_factor(rows_view(a@), n as nat) } else { upper_factor(rows_view(a@), n as nat) },
                row@.len() == j,
                forall|c: int| 0 <= c < j ==> #[trigger] row@[c] == target[i as int][c],
        {
            let v = if lower {
                if i == j {
                    Complex::from_real(T::one())
                } else if i > j {
                    a[i][j]
                } else {
                    Complex::from_real(T::zero())
                }
            } else {
                if i <= j {
                    a[i][j]
                } else {
                    Complex::from_real(T::zero())
                }
            };
            row.push(v);
        }
        assert(row@ =~= target[i as int]);
        out.push(row);
    }
    assert(rows_view(out@) =~= target);
    out
}

/// [`c_forward_prefix`] up to `i` has `i` entries.
proof fn lemma_c_forward_prefix_len<T: Scalar>(l: Seq<Seq<Complex<T>>>, piv: Seq<usize>, b: Seq<Complex<T>>, i: int)
    requires
        0 <= i,
    ensures
        c_forward_prefix(l, piv, b, i).len() == i,
    decreases i,
{
    if i > 0 {
        lemma_c_forward_prefix_len(l, piv, b, i - 1);
    }
}

/// [`c_backward_from`] always has `n` entries.
proof fn lemma_c_backward_from_len<T: Scalar>(u: Seq<Seq<Complex<T>>>, y: Seq<Complex<T>>, n: int, i: int)
    requires
        0 <= i <= n,
    ensures
        c_backward_from(u, y, n, i).len() == n,
    decreases n - i,
{
    if i < n {
        lemma_c_backward_from_len(u, y, n, i + 1);
    }
}

/// Solves `A x = b` from the factors `l`, `u` and permutation `piv` of `A`, as
/// [`c_lu_solution`] describes.
fn c_solve_with_lu<T: Scalar>(l: &Vec<Vec<Complex<T>>>, u: &Vec<Vec<Complex<T>>>, piv: &Vec<usize>, b: &ComplexDVector<T>) -> (r: Vec<Complex<T>>)
    requires
        u@.len() == l@.len(),
        forall|i: int| 0 <= i < l@.len() ==> (#[trigger] l@[i])@.len() == l@.len(),
        forall|i: int| 0 <= i < u@.len() ==> (#[trigger] u@[i])@.len() == l@.len(),
        piv@.len() == l@.len(),
        forall|i: int| 0 <= i < l@.len() ==> #[trigger] piv@[i] < b@.len(),
    ensures
        r@ == c_lu_solution(rows_view(l@), rows_view(u@), piv@, b@, l@.len() as int),
{
    let n = l.len();
    let ghost lv = rows_view(l@);
    let ghost uv = rows_view(u@);
    let bs = b.iter();
    let mut y: Vec<Complex<T>> = Vec::new();
    for i in 0..n
        invariant
            bs@ == b@,
            n == l@.len(),
            lv == rows_view(l@),
            forall|r: int| 0 <= r < n ==> (#[trigger] l@[r])@.len() == n,
            piv@.len() == n,
            forall|r: int| 0 <= r < n ==> #[trigger] piv@[r] < b@.len(),
            y@ == c_forward_prefix(lv, piv@, b@, i as int),
    {
        proof {
            lemma_c_forward_prefix_len(lv, piv@, b@, i as int);
        }
        let mut s = bs[piv[i]];
        for j in 0..i
            invariant
                n == l@.len(),
                i < n,
                lv == rows_view(l@),
                forall|r: int| 0 <= r < n ==> (#[trigger] l@[r])@.len() == n,
                y@.len() == i,
                s == c_sub_terms(b@[piv@[i as int] as int], lv[i as int], y@, 0, j as int),
        {
            s = core::ops::Sub::sub(s, core::ops::Mul::mul(l[i][j], y[j]));
        }
        y.push(s);
    }
    let mut x: Vec<Complex<T>> = Vec::new();
    for j in 0..n
        invariant
            x@ == Seq::new(j as nat, |c: int| c_real(T::zero_spec())),
    {
        x.push(Complex::from_real(T::zero()));
        assert(x@ =~= Seq::new((j + 1) as nat, |c: int| c_real(T::zero_spec())));
    }
    proof {
        lemma_c_forward_prefix_len(lv, piv@, b@, n as int);
    }
    let mut i = n;
    while i > 0
        invariant
            n == l@.len(),
            n == u@.len(),
            i <= n,
            uv == rows_view(u@),
            forall|r: int| 0 <= r < n ==> (#[trigger] u@[r])@.len() == n,
            y@.len() == n,
            x@ == c_backward_from(uv, y@, n as int, i as int),
            x@.len() == n,
        decreases i,
    {
        i = i - 1;
        let mut s = y[i];
        for j in (i + 1)..n
            invariant
                n == u@.len(),
                i < n,
                uv == rows_view(u@),
                forall|r: int| 0 <= r < n ==> (#[trigger] u@[r])@.len() == n,
                y@.len() == n,
                x@.len() == n,
                s == c_sub_terms(y@[i as int], uv[i as int], x@, i + 1, j as int),
        {
            s = core::ops::Sub::sub(s, core::ops::Mul::mul(u[i][j], x[j]));
        }
        x.set(i, core::ops::Div::div(s, u[i][i]));
        proof {
            lemma_c_backward_from_len(uv, y@, n as int, i as int);
        }
    }
    x
}

impl<T: Scalar> ComplexDMatrix<T> {
    /// The partial-pivot LU factorization `P A = L U` of `self`: the unit lower factor, the
    /// upper factor and the row permutation, as [`c_lu_spec`] describes; a dimension error when
    /// `self` is not square, a singularity error when no usable pivot is found.
    pub fn lu(&self) -> (r: Result<(Vec<Vec<Complex<T>>>, Vec<Vec<Complex<T>>>, Vec<usize>), ComplexDenseError>)
        requires
            self.cols_spec() == self.rows_spec() ==> self.covers(self.rows_spec(), self.rows_spec()),
        ensures
            self.cols_spec() != self.rows_spec() ==> (r matches Err(ComplexDenseError::DimensionMismatch { what }) && what@
                == square_mismatch_text(self.rows_spec() as usize, self.cols_spec() as usize)),
            self.cols_spec() == self.rows_spec() ==> match c_lu_spec(self) {
                None => r == Err::<(Vec<Vec<Complex<T>>>, Vec<Vec<Complex<T>>>, Vec<usize>), ComplexDenseError>(
                    ComplexDenseError::Singular { what: "lu" },
                ),
                Some((a, piv)) => r matches Ok((l, u, p)) && rows_view(l@) == lower_factor(a, self.rows_spec())
                    && rows_view(u@) == upper_factor(a, self.rows_spec()) && p@ == piv,
            },
            r matches Ok((l, u, p)) ==> {
                &&& l@.len() == self.rows_spec()
                &&& u@.len() == self.rows_spec()
                &&& p@.len() == self.rows_spec()
                &&& forall|i: int| 0 <= i < self.rows_spec() ==> (#[trigger] l@[i])@.len() == self.rows_spec()
                &&& forall|i: int| 0 <= i < self.rows_spec() ==> (#[trigger] u@[i])@.len() == self.rows_spec()
                &&& forall|i: int| 0 <= i < self.rows_spec() ==> #[trigger] p@[i] < self.rows_spec()
            },
    {
        let n = self.nrows();
        if self.ncols() != n {
            return Err(ComplexDenseError::DimensionMismatch { what: square_mismatch_message(n, self.ncols()) });
        }
        let (a, piv) = match c_partial_pivot_lu(self) {
            Err(e) => {
                return Err(e);
            },
            Ok(f) => f,
        };
        let l = triangle_factor(&a, n, true);
        let u = triangle_factor(&a, n, false);
        Ok((l, u, piv))
    }

    /// Solves `A x = b` for `x`, `A` being `self`, through [`ComplexDMatrix::lu`] (see
    /// [`c_lu_solution`]): a dimension error when `A` is not square or `b` has the wrong
    /// length, a singularity error when no usable pivot is found.
    pub fn solve(&self, b: &ComplexDVector<T>) -> (r: Result<ComplexDVector<T>, ComplexDenseError>)
        requires
            self.cols_spec() == self.rows_spec() ==> self.covers(self.rows_spec(), self.rows_spec()),
        ensures
            self.cols_spec() != self.rows_spec() ==> (r matches Err(ComplexDenseError::DimensionMismatch { what }) && what@
                == square_mismatch_text(self.rows_spec() as usize, self.cols_spec() as usize)),
            self.cols_spec() == self.rows_spec() && b@.len() != self.rows_spec() ==> (r matches Err(
                ComplexDenseError::DimensionMismatch { what },
            ) && what@ == rhs_mismatch_text(b@.len() as usize, self.rows_spec() as usize)),
            self.cols_spec() == self.rows_spec() && b@.len() == self.rows_spec() ==> match c_lu_spec(self) {
                None => r == Err::<ComplexDVector<T>, ComplexDenseError>(ComplexDenseError::Singular { what: "lu" }),
                Some((a, piv)) => r matches Ok(x) && x@ == c_lu_solution(
                    lower_factor(a, self.rows_spec()),
                    upper_factor(a, self.rows_spec()),
                    piv,
                    b@,
                    self.rows_spec() as int,
                ),
            },
    {
        let n = self.nrows();
        if self.ncols() != n {
            return Err(ComplexDenseError::DimensionMismatch { what: square_mismatch_message(n, self.ncols()) });
        }
        if b.len() != n {
            return Err(ComplexDenseError::DimensionMismatch { what: rhs_mismatch_message(b.len(), n) });
        }
        let (l, u, piv) = match self.lu() {
            Err(e) => {
                return Err(e);
            },
            Ok(f) => f,
        };
        let x = c_solve_with_lu(&l, &u, &piv, b);
        Ok(ComplexDVector::from_vec(x))
    }

    /// The inverse of `self` through [`ComplexDMatrix::lu`]: column `c` is the solution
    /// against the unit vector along `c` (see [`c_lu_solution`]); a dimension error when `self`
    /// is not square, a singularity error when no usable pivot is found.
    pub fn inverse(&self) -> (r: Result<ComplexDMatrix<T>, ComplexDenseError>)
        requires
            self.cols_spec() == self.rows_spec() ==> self.covers(self.rows_spec(), self.rows_spec()),
        ensures
            self.cols_spec() != self.rows_spec() ==> (r matches Err(ComplexDenseError::DimensionMismatch { what }) && what@
                == square_mismatch_text(self.rows_spec() as usize, self.cols_spec() as usize)),
            self.cols_spec() == self.rows_spec() ==> match c_lu_spec(self) {
                None => r == Err::<ComplexDMatrix<T>, ComplexDenseError>(ComplexDenseError::Singular { what: "lu" }),
                Some((a, piv)) => r matches Ok(inv) && inv.rows_spec() == self.rows_spec() && inv.cols_spec()
                    == self.rows_spec() && inv.well_formed() && forall|i: int, c: int|
                    0 <= i < self.rows_spec() && 0 <= c < self.rows_spec() ==> #[trigger] inv.entry(i, c)
                        == c_lu_solution(
                        lower_factor(a, self.rows_spec()),
                        upper_factor(a, self.rows_spec()),
                        piv,
                        c_unit_vector(self.rows_spec(), c),
                        self.rows_spec() as int,
                    )[i],
            },
    {
        let n = self.nrows();
        if self.ncols() != n {
            return Err(ComplexDenseError::DimensionMismatch { what: square_mismatch_message(n, self.ncols()) });
        }
        let len = self.iter().len();
        proof {
            self.dense().lemma_covers_fits(self.rows_spec());
        }
        let (l, u, piv) = match self.lu() {
            Err(e) => {
                return Err(e);
            },
            Ok(f) => f,
        };
        let ghost lv = rows_view(l@);
        let ghost uv = rows_view(u@);
        let mut out: Vec<Complex<T>> = Vec::new();
        assert(0 * n == 0) by (nonlinear_arith);
        for col in 0..n
            invariant
                n == self.rows_spec(),
                n * n <= usize::MAX,
                l@.len() == n,
                u@.len() == n,
                lv == rows_view(l@),
                uv == rows_view(u@),
                forall|i: int| 0 <= i < n ==> (#[trigger] l@[i])@.len() == n,
                forall|i: int| 0 <= i < n ==> (#[trigger] u@[i])@.len() == n,
                piv@.len() == n,
                forall|i: int| 0 <= i < n ==> #[trigger] piv@[i] < n,
                out@.len() == col * n,
                forall|i: int, c: int| 0 <= i < n && 0 <= c < col ==> #[trigger] out@[i + c * n]
                    == c_lu_solution(lv, uv, piv@, c_unit_vector(n as nat, c), n as int)[i],
        {
            let mut e: Vec<Complex<T>> = Vec::new();
            for i in 0..n
                invariant
                    e@.len() == i,
                    forall|r: int| 0 <= r < i ==> #[trigger] e@[r] == c_unit_vector::<T>(n as nat, col as int)[r],
            {
                if i == col {
                    e.push(Complex::from_real(T::one()));
                } else {
                    e.push(Complex::from_real(T::zero()));
                }
            }
            assert(e@ =~= c_unit_vector::<T>(n as nat, col as int));
            let ev = ComplexDVector::from_vec(e);
            let x = c_solve_with_lu(&l, &u, &piv, &ev);
            proof {
                lemma_c_backward_from_len(uv, c_forward_prefix(lv, piv@, ev@, n as int), n as int, 0);
                assert(col * n + n <= n * n) by (nonlinear_arith)
                    requires
                        col < n,
                ;
            }
            let ghost before = out@;
            for t in 0..n
                invariant
                    n == self.rows_spec(),
                    x@.len() == n,
                    out@.len() == col * n + t,
                    forall|r: int| 0 <= r < col * n ==> #[trigger] out@[r] == before[r],
                    forall|r: int| 0 <= r < t ==> #[trigger] out@[col * n + r] == x@[r],
                    col * n + n <= usize::MAX,
            {
                out.push(x[t]);
            }
            assert forall|i: int, c: int| 0 <= i < n && 0 <= c < col + 1 implies #[trigger] out@[i + c * n]
                == c_lu_solution(lv, uv, piv@, c_unit_vector(n as nat, c), n as int)[i] by {
                if c < col {
                    crate::linalg_dense::lemma_column_major_before(i, c, 0, col as int, n as int);
                    assert(out@[i + c * n] == before[i + c * n]);
                } else {
                    assert(i + c * n == col * n + i);
                    assert(out@[col * n + i] == x@[i]);
                }
            }
            assert((col + 1) * n == col * n + n) by (nonlinear_arith);
        }
        let r = ComplexDMatrix::from_vec(n, n, out);
        assert(n * n == r.rows_spec() * r.cols_spec());
        Ok(r)
    }
}


// ===========================================================================
// Cholesky
// ===========================================================================

/// `s` minus `a[k] * conj(b[k])` for each `k < hi`, subtracted in that order.
pub open spec fn conj_terms<T: Scalar>(s: Complex<T>, a: Seq<Complex<T>>, b: Seq<Complex<T>>, hi: int) -> Complex<T>
    decreases hi,
{
    if hi <= 0 {
        s
    } else {
        c_sub(conj_terms(s, a, b, hi - 1), c_mul(a[hi - 1], c_conj(b[hi - 1])))
    }
}

/// The factor `l` after column `j` is filled with diagonal entry `ljj`: entry `(i, j)` below
/// the diagonal becomes `(m(i, j) - sum over k < j of l(i, k) conj(l(j, k))) / ljj`.
pub open spec fn chol_column<T: Scalar>(m: &ComplexDMatrix<T>, l: Seq<Seq<Complex<T>>>, j: int, ljj: Complex<T>) -> Seq<Seq<Complex<T>>> {
    Seq::new(
        l.len(),
        |i: int|
            if i == j {
                l[j].update(j, ljj)
            } else if i > j {
                l[i].update(j, c_div(conj_terms(m.entry(i, j), l[i], l[j], j), ljj))
            } else {
                l[i]
            },
    )
}

/// The Cholesky factorization from column `j` of `n`: `None` as soon as a pivot
/// `d = m(j, j) - sum over k < j of l(j, k) conj(l(j, k))` has a real part at most zero or not
/// finite; otherwise the column is filled with diagonal entry `sqrt(d)` (see [`chol_column`]).
pub open spec fn chol_run<T: Scalar>(m: &ComplexDMatrix<T>, l: Seq<Seq<Complex<T>>>, j: int, n: int) -> Option<Seq<Seq<Complex<T>>>>
    decreases n - j,
{
    if j >= n {
        Some(l)
    } else {
        let d = conj_terms(m.entry(j, j), l[j], l[j], j);
        if d.re.le_spec(T::zero_spec()) || !d.re.is_finite_spec() {
            None
        } else {
            chol_run(m, chol_column(m, l, j, c_sqrt(d)), j + 1, n)
        }
    }
}

/// The `n x n` zero matrix, as rows.
pub open spec fn zero_rows<T: Scalar>(n: nat) -> Seq<Seq<Complex<T>>> {
    Seq::new(n, |i: int| Seq::new(n, |j: int| c_real(T::zero_spec())))
}

/// The Cholesky factor of the leading `n x n` block of `m` (`n` its row count).
pub open spec fn cholesky_spec<T: Scalar>(m: &ComplexDMatrix<T>) -> Option<Seq<Seq<Complex<T>>>> {
    chol_run(m, zero_rows(m.rows_spec()), 0, m.rows_spec() as int)
}

/// A Cholesky factorization `A = L L^H` of a Hermitian positive-definite matrix.
#[derive(Clone, Debug)]
pub struct Cholesky<T> {
    l: Vec<Vec<Complex<T>>>,
    n: usize,
}

impl<T> Cholesky<T> {
    /// The lower-triangular factor `L`, as rows.
    pub closed spec fn factor(&self) -> Seq<Seq<Complex<T>>> {
        rows_view(self.l@)
    }

    /// The order `n` of the factorized matrix.
    pub closed spec fn order(&self) -> nat {
        self.n as nat
    }

    /// The factor is `n x n`.
    pub closed spec fn well_formed(&self) -> bool {
        &&& self.l@.len() == self.n
        &&& forall|i: int| 0 <= i < self.n ==> (#[trigger] self.l@[i])@.len() == self.n
    }

    /// The lower-triangular factor `L`, as rows.
    pub fn l(&self) -> (r: &[Vec<Complex<T>>])
        ensures
            rows_view(r@) == self.factor(),
    {
        self.l.as_slice()
    }
}

/// Row `r` of `l` with entry `j` replaced by `v`.
fn replace_entry<T: Copy>(l: &mut Vec<Vec<Complex<T>>>, r: usize, j: usize, v: Complex<T>)
    requires
        r < old(l)@.len(),
        j < old(l)@[r as int]@.len(),
    ensures
        final(l)@.len() == old(l)@.len(),
        rows_view(final(l)@) == rows_view(old(l)@).update(r as int, old(l)@[r as int]@.update(j as int, v)),
        forall|i: int| 0 <= i < final(l)@.len() ==> (#[trigger] final(l)@[i])@.len() == old(l)@[i]@.len(),
{
    let mut row = copy_row(&l[r]);
    row.set(j, v);
    let ghost before = l@;
    l.set(r, row);
    assert(rows_view(l@) =~= rows_view(before).update(r as int, before[r as int]@.update(j as int, v)));
}

/// `s` minus `a[k] * conj(b[k])` for `k < hi`.
fn conj_terms_exec<T: Scalar>(s: Complex<T>, a: &Vec<Complex<T>>, b: &Vec<Complex<T>>, hi: usize) -> (r: Complex<T>)
    requires
        hi <= a@.len(),
        hi <= b@.len(),
    ensures
        r == conj_terms(s, a@, b@, hi as int),
{
    let mut acc = s;
    for k in 0..hi
        invariant
            hi <= a@.len(),
            hi <= b@.len(),
            acc == conj_terms(s, a@, b@, k as int),
    {
        acc = core::ops::Sub::sub(acc, core::ops::Mul::mul(a[k], b[k].conj()));
    }
    acc
}

impl<T: Scalar> ComplexDMatrix<T> {
    /// The Cholesky factorization `A = L L^H` of a Hermitian positive-definite `self`, as
    /// [`cholesky_spec`] describes: a dimension error when `self` is not square, a singularity
    /// error when a pivot's real part is at most zero or not finite.
    pub fn cholesky(&self) -> (r: Result<Cholesky<T>, ComplexDenseError>)
        requires
            self.cols_spec() == self.rows_spec() ==> self.covers(self.rows_spec(), self.rows_spec()),
        ensures
            self.cols_spec() != self.rows_spec() ==> (r matches Err(ComplexDenseError::DimensionMismatch { what }) && what@
                == square_mismatch_text(self.rows_spec() as usize, self.cols_spec() as usize)),
            self.cols_spec() == self.rows_spec() ==> match cholesky_spec(self) {
                None => r == Err::<Cholesky<T>, ComplexDenseError>(ComplexDenseError::Singular { what: "cholesky" }),
                Some(l) => r matches Ok(c) && c.factor() == l && c.order() == self.rows_spec() && c.well_formed(),
            },
    {
        let n = self.nrows();
        if self.ncols() != n {
            return Err(ComplexDenseError::DimensionMismatch { what: square_mismatch_message(n, self.ncols()) });
        }
        let mut l: Vec<Vec<Complex<T>>> = Vec::new();
        for i in 0..n
            invariant
                l@.len() == i,
                forall|q: int| 0 <= q < i ==> (#[trigger] l@[q])@ == zero_rows::<T>(n as nat)[q],
        {
            let mut row: Vec<Complex<T>> = Vec::new();
            for j in 0..n
                invariant
                    row@.len() == j,
                    forall|c: int| 0 <= c < j ==> #[trigger] row@[c] == c_real(T::zero_spec()),
            {
                row.push(Complex::from_real(T::zero()));
            }
            assert(row@ =~= zero_rows::<T>(n as nat)[i as int]);
            l.push(row);
        }
        assert(rows_view(l@) =~= zero_rows::<T>(n as nat));
        for j in 0..n
            invariant
                n == self.rows_spec(),
                n == self.cols_spec(),
                self.covers(self.rows_spec(), self.rows_spec()),
                l@.len() == n,
                forall|q: int| 0 <= q < n ==> (#[trigger] l@[q])@.len() == n,
                chol_run(self, rows_view(l@), j as int, n as int) == cholesky_spec(self),
        {
            let ghost l0 = rows_view(l@);
            let d = conj_terms_exec(self[(j, j)], &l[j], &l[j], j);
            if d.re.le(T::zero()) || !d.re.is_finite() {
                return Err(ComplexDenseError::Singular { what: "cholesky" });
            }
            let ljj = d.sqrt();
            replace_entry(&mut l, j, j, ljj);
            for i in (j + 1)..n
                invariant
                    n == self.rows_spec(),
                    j < n,
                    self.covers(self.rows_spec(), self.rows_spec()),
                    l@.len() == n,
                    forall|q: int| 0 <= q < n ==> (#[trigger] l@[q])@.len() == n,
                    l0.len() == n,
                    forall|q: int| 0 <= q < n ==> (#[trigger] l0[q]).len() == n,
                    forall|q: int| 0 <= q < n ==> #[trigger] rows_view(l@)[q] == if q == j || (j < q < i) {
                        chol_column(self, l0, j as int, ljj)[q]
                    } else {
                        l0[q]
                    },
            {
                assert(rows_view(l@)[i as int] == l0[i as int]);
                assert(rows_view(l@)[j as int] == l0[j as int].update(j as int, ljj));
                assert forall|k: int| 0 <= k < j implies #[trigger] l@[j as int]@[k] == l0[j as int][k] by {
                    assert(rows_view(l@)[j as int][k] == l0[j as int].update(j as int, ljj)[k]);
                }
                assert(conj_terms(self.entry(i as int, j as int), l@[i as int]@, l@[j as int]@, j as int) == conj_terms(
                    self.entry(i as int, j as int),
                    l0[i as int],
                    l0[j as int],
                    j as int,
                )) by {
                    lemma_conj_terms_prefix(self.entry(i as int, j as int), l@[i as int]@, l0[i as int], l@[j as int]@, l0[j as int], j as int);
                }
                let s = conj_terms_exec(self[(i, j)], &l[i], &l[j], j);
                let v = core::ops::Div::div(s, ljj);
                let ghost before = rows_view(l@);
                replace_entry(&mut l, i, j, v);
                assert forall|q: int| 0 <= q < n implies #[trigger] rows_view(l@)[q] == if q == j || (j < q < i + 1) {
                    chol_column(self, l0, j as int, ljj)[q]
                } else {
                    l0[q]
                } by {
                    if q != i {
                        assert(rows_view(l@)[q] == before[q]);
                    }
                }
            }
            assert(rows_view(l@) =~= chol_column(self, l0, j as int, ljj));
        }
        Ok(Cholesky { l, n })
    }
}

/// Subtraction over the first `hi` terms depends only on those terms.
proof fn lemma_conj_terms_prefix<T: Scalar>(s: Complex<T>, a: Seq<Complex<T>>, a2: Seq<Complex<T>>, b: Seq<Complex<T>>, b2: Seq<Complex<T>>, hi: int)
    requires
        forall|k: int| 0 <= k < hi ==> a[k] == a2[k] && b[k] == b2[k],
    ensures
        conj_terms(s, a, b, hi) == conj_terms(s, a2, b2, hi),
    decreases hi,
{
    if hi > 0 {
        lemma_conj_terms_prefix(s, a, a2, b, b2, hi - 1);
    }
}

/// The first `i` entries of the forward substitution `L y = b`: entry `i` is
/// `(b[i] - sum over j < i of l(i, j) y[j]) / l(i, i)`.
pub open spec fn chol_forward<T: Scalar>(l: Seq<Seq<Complex<T>>>, b: Seq<Complex<T>>, i: int) -> Seq<Complex<T>>
    decreases i,
{
    if i <= 0 {
        Seq::empty()
    } else {
        let y = chol_forward(l, b, i - 1);
        y.push(c_div(c_sub_terms(b[i - 1], l[i - 1], y, 0, i - 1), l[i - 1][i - 1]))
    }
}

/// `s` minus `conj(l(k, i)) * xs[k]` for each `k` from `lo` up to `hi`, in that order.
pub open spec fn conj_col_terms<T: Scalar>(s: Complex<T>, l: Seq<Seq<Complex<T>>>, i: int, xs: Seq<Complex<T>>, lo: int, hi: int) -> Complex<T>
    decreases hi - lo,
{
    if hi <= lo {
        s
    } else {
        c_sub(conj_col_terms(s, l, i, xs, lo, hi - 1), c_mul(c_conj(l[hi - 1][i]), xs[hi - 1]))
    }
}

/// The back substitution `L^H x = y` for the entries from `i` to `n - 1`, the entries before
/// `i` still zero.
pub open spec fn chol_backward<T: Scalar>(l: Seq<Seq<Complex<T>>>, y: Seq<Complex<T>>, n: int, i: int) -> Seq<Complex<T>>
    decreases n - i,
{
    if i >= n {
        Seq::new(n as nat, |j: int| c_real(T::zero_spec()))
    } else {
        let x = chol_backward(l, y, n, i + 1);
        x.update(i, c_div(conj_col_terms(y[i], l, i, x, i + 1, n), c_conj(l[i][i])))
    }
}

proof fn lemma_chol_forward_len<T: Scalar>(l: Seq<Seq<Complex<T>>>, b: Seq<Complex<T>>, i: int)
    requires
        0 <= i,
    ensures
        chol_forward(l, b, i).len() == i,
    decreases i,
{
    if i > 0 {
        lemma_chol_forward_len(l, b, i - 1);
    }
}

proof fn lemma_chol_backward_len<T: Scalar>(l: Seq<Seq<Complex<T>>>, y: Seq<Complex<T>>, n: int, i: int)
    requires
        0 <= i <= n,
    ensures
        chol_backward(l, y, n, i).len() == n,
    decreases n - i,
{
    if i < n {
        lemma_chol_backward_len(l, y, n, i + 1);
    }
}

impl<T: Scalar> Cholesky<T> {
    /// Solves `A x = b` with the factorization: forward substitution with `L`, then back
    /// substitution with `L^H`; a dimension error unless `b` has `n` components.
    pub fn solve(&self, b: &ComplexDVector<T>) -> (r: Result<ComplexDVector<T>, ComplexDenseError>)
        requires
            self.well_formed(),
        ensures
            b@.len() != self.order() ==> (r matches Err(ComplexDenseError::DimensionMismatch { what }) && what@
                == rhs_mismatch_text(b@.len() as usize, self.order() as usize)),
            b@.len() == self.order() ==> (r matches Ok(x) && x@ == chol_backward(
                self.factor(),
                chol_forward(self.factor(), b@, self.order() as int),
                self.order() as int,
                0,
            )),
    {
        let n = self.n;
        if b.len() != n {
            return Err(ComplexDenseError::DimensionMismatch { what: rhs_mismatch_message(b.len(), n) });
        }
        let ghost lv = rows_view(self.l@);
        let bs = b.iter();
        let mut y: Vec<Complex<T>> = Vec::new();
        for i in 0..n
            invariant
                bs@ == b@,
                n == self.n,
                b@.len() == n,
                self.well_formed(),
                lv == rows_view(self.l@),
                y@ == chol_forward(lv, b@, i as int),
        {
            proof {
                lemma_chol_forward_len(lv, b@, i as int);
            }
            let mut s = bs[i];
            for j in 0..i
                invariant
                    n == self.n,
                    i < n,
                    self.well_formed(),
                    lv == rows_view(self.l@),
                    y@.len() == i,
                    s == c_sub_terms(b@[i as int], lv[i as int], y@, 0, j as int),
            {
                s = core::ops::Sub::sub(s, core::ops::Mul::mul(self.l[i][j], y[j]));
            }
            y.push(core::ops::Div::div(s, self.l[i][i]));
        }
        let mut x: Vec<Complex<T>> = Vec::new();
        for j in 0..n
            invariant
                x@ == Seq::new(j as nat, |c: int| c_real(T::zero_spec())),
        {
            x.push(Complex::from_real(T::zero()));
            assert(x@ =~= Seq::new((j + 1) as nat, |c: int| c_real(T::zero_spec())));
        }
        proof {
            lemma_chol_forward_len(lv, b@, n as int);
        }
        let mut i = n;
        while i > 0
            invariant
                n == self.n,
                i <= n,
                self.well_formed(),
                lv == rows_view(self.l@),
                y@.len() == n,
                x@ == chol_backward(lv, y@, n as int, i as int),
                x@.len() == n,
            decreases i,
        {
            i = i - 1;
            let mut s = y[i];
            for j in (i + 1)..n
                invariant
                    n == self.n,
                    i < n,
                    self.well_formed(),
                    lv == rows_view(self.l@),
                    y@.len() == n,
                    x@.len() == n,
                    s == conj_col_terms(y@[i as int], lv, i as int, x@, i + 1, j as int),
            {
                s = core::ops::Sub::sub(s, core::ops::Mul::mul(self.l[j][i].conj(), x[j]));
            }
            x.set(i, core::ops::Div::div(s, self.l[i][i].conj()));
            proof {
                lemma_chol_backward_len(lv, y@, n as int, i as int);
            }
        }
        Ok(ComplexDVector::from_vec(x))
    }
}

} // verus!
