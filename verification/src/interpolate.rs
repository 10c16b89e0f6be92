//! Interpolation and approximation of 1-D data, generic over a [`Scalar`]: shape-preserving
//! piecewise cubic Hermite interpolation (PCHIP), Cox–de Boor B-splines, radial-basis-function
//! interpolation and ordinary Kriging.
use vstd::prelude::*;

use crate::text::{decimal_text, push_decimal};

use crate::linalg_dense::{
    forward_prefix, identity_perm, lemma_backward_from_len, lu_run, lu_solution, square_rows, DMatrix, DVector,
    DenseError,
};
use crate::linalg_fixed::dot_prefix;
use crate::scalar::{two, two_exec, Scalar};

verus! {

// ===========================================================================
// Error messages
// ===========================================================================

/// The text `xs has length {n}, ys has length {m}` for sample abscissae and values of different lengths.
pub open spec fn samples_length_text(n: usize, m: usize) -> Seq<char> {
    "xs has length "@ + decimal_text(n as nat) + ", ys has length "@ + decimal_text(m as nat)
}

/// Builds [`samples_length_text`].
fn samples_length_message(n: usize, m: usize) -> (r: String)
    ensures
        r@ == samples_length_text(n, m),
{
    let mut s = String::from_str("xs has length ");
    push_decimal(&mut s, n);
    s.append(", ys has length ");
    push_decimal(&mut s, m);
    s
}

/// The text `x has length {n}, y has length {m}` for node and value vectors of different lengths.
pub open spec fn pchip_length_text(n: usize, m: usize) -> Seq<char> {
    "x has length "@ + decimal_text(n as nat) + ", y has length "@ + decimal_text(m as nat)
}

/// Builds [`pchip_length_text`].
fn pchip_length_message(n: usize, m: usize) -> (r: String)
    ensures
        r@ == pchip_length_text(n, m),
{
    let mut s = String::from_str("x has length ");
    push_decimal(&mut s, n);
    s.append(", y has length ");
    push_decimal(&mut s, m);
    s
}

/// The text `need at least 2 nodes, got {n}` for too few nodes.
pub open spec fn node_count_text(n: usize) -> Seq<char> {
    "need at least 2 nodes, got "@ + decimal_text(n as nat)
}

/// Builds [`node_count_text`].
fn node_count_message(n: usize) -> (r: String)
    ensures
        r@ == node_count_text(n),
{
    let mut s = String::from_str("need at least 2 nodes, got ");
    push_decimal(&mut s, n);
    s
}

/// The text `abscissae must be strictly increasing at index {i}` for abscissae that stop increasing at `i`.
pub open spec fn increasing_text(i: usize) -> Seq<char> {
    "abscissae must be strictly increasing at index "@ + decimal_text(i as nat)
}

/// Builds [`increasing_text`].
fn increasing_message(i: usize) -> (r: String)
    ensures
        r@ == increasing_text(i),
{
    let mut s = String::from_str("abscissae must be strictly increasing at index ");
    push_decimal(&mut s, i);
    s
}

// ===========================================================================
// PCHIP
// ===========================================================================

/// The constant `3` of a scalar type, as `(1 + 1) + 1`.
pub open spec fn three<T: Scalar>() -> T {
    two::<T>().plus_spec(T::one_spec())
}

/// The interval widths `h[i] = x[i + 1] - x[i]`.
pub open spec fn widths<T: Scalar>(x: Seq<T>) -> Seq<T> {
    Seq::new((x.len() - 1) as nat, |i: int| x[i + 1].minus_spec(x[i]))
}

/// The secant slopes `delta[i] = (y[i + 1] - y[i]) / h[i]`.
pub open spec fn secants<T: Scalar>(x: Seq<T>, y: Seq<T>) -> Seq<T> {
    Seq::new((x.len() - 1) as nat, |i: int| y[i + 1].minus_spec(y[i]).divide_spec(x[i + 1].minus_spec(x[i])))
}

/// Whether interval `i` fails to increase (`h[i] <= 0`).
pub open spec fn not_increasing<T: Scalar>(x: Seq<T>, i: int) -> bool {
    x[i + 1].minus_spec(x[i]).le_spec(T::zero_spec())
}

/// The first interval at or after `i` that fails to increase, if any.
pub open spec fn first_not_increasing<T: Scalar>(x: Seq<T>, i: int) -> Option<int>
    decreases x.len() - 1 - i,
{
    if i >= x.len() - 1 {
        None
    } else if not_increasing(x, i) {
        Some(i)
    } else {
        first_not_increasing(x, i + 1)
    }
}

/// The Fritsch–Carlson harmonic-mean derivative at interior node `i`: zero where the
/// neighbouring secants do not share a strict sign, else the weighted harmonic mean.
pub open spec fn interior_slope<T: Scalar>(h: Seq<T>, delta: Seq<T>, i: int) -> T {
    if delta[i - 1].times_spec(delta[i]).le_spec(T::zero_spec()) {
        T::zero_spec()
    } else {
        let w1 = two::<T>().times_spec(h[i - 1]).plus_spec(h[i]);
        let w2 = h[i - 1].plus_spec(two::<T>().times_spec(h[i]));
        three::<T>().times_spec(h[i - 1].plus_spec(h[i])).divide_spec(
            w1.divide_spec(delta[i - 1]).plus_spec(w2.divide_spec(delta[i])),
        )
    }
}

/// The one-sided three-point derivative at the first node.
pub open spec fn first_slope<T: Scalar>(h: Seq<T>, delta: Seq<T>) -> T {
    two::<T>().times_spec(h[0]).plus_spec(h[1]).times_spec(delta[0]).minus_spec(h[0].times_spec(delta[1])).divide_spec(
        h[0].plus_spec(h[1]),
    )
}

/// The one-sided three-point derivative at the last node `m` (`m = n - 1`).
pub open spec fn last_slope<T: Scalar>(h: Seq<T>, delta: Seq<T>, m: int) -> T {
    two::<T>().times_spec(h[m - 1]).plus_spec(h[m - 2]).times_spec(delta[m - 1]).minus_spec(
        h[m - 1].times_spec(delta[m - 2]),
    ).divide_spec(h[m - 1].plus_spec(h[m - 2]))
}

/// The node derivatives before the monotonicity limiter: with two nodes both are the one
/// secant (the interpolant is then the line through them); otherwise the one-sided
/// three-point derivatives at the ends and the harmonic-mean rule inside.
pub open spec fn initial_slopes<T: Scalar>(x: Seq<T>, y: Seq<T>) -> Seq<T> {
    let h = widths(x);
    let delta = secants(x, y);
    let m = x.len() - 1;
    if x.len() == 2 {
        Seq::new(2, |i: int| delta[0])
    } else {
        Seq::new(
        x.len(),
        |i: int|
            if i == 0 {
                first_slope(h, delta)
            } else if i == m {
                last_slope(h, delta, m)
            } else {
                interior_slope(h, delta, i)
            },
        )
    }
}

/// One step of the Fritsch–Carlson limiter on interval `i` (secant `delta`): a flat interval
/// zeroes both end derivatives; otherwise derivatives of the secant's sign whose squared
/// ratios to it sum past `9` are scaled back onto that circle, and a derivative of the wrong
/// sign is zeroed.
pub open spec fn limit_step<T: Scalar>(d: Seq<T>, delta: T, i: int) -> Seq<T> {
    let z = T::zero_spec();
    if delta.eq_spec(z) {
        d.update(i, z).update(i + 1, z)
    } else {
        let a = d[i].divide_spec(delta);
        let b = d[i + 1].divide_spec(delta);
        let ss = a.times_spec(a).plus_spec(b.times_spec(b));
        let th = three::<T>();
        let d1 = if z.le_spec(a) && z.le_spec(b) && th.times_spec(th).lt_spec(ss) {
            let tau = th.divide_spec(ss.sqrt_spec());
            d.update(i, tau.times_spec(a).times_spec(delta)).update(i + 1, tau.times_spec(b).times_spec(delta))
        } else {
            d
        };
        let d2 = if d1[i].times_spec(delta).lt_spec(z) {
            d1.update(i, z)
        } else {
            d1
        };
        if d2[i + 1].times_spec(delta).lt_spec(z) {
            d2.update(i + 1, z)
        } else {
            d2
        }
    }
}

/// The limiter applied to the intervals before `k`, in order.
pub open spec fn limit_upto<T: Scalar>(d0: Seq<T>, delta: Seq<T>, k: int) -> Seq<T>
    decreases k,
{
    if k <= 0 {
        d0
    } else {
        limit_step(limit_upto(d0, delta, k - 1), delta[k - 1], k - 1)
    }
}

/// The PCHIP node derivatives of the data `(x, y)`.
pub open spec fn pchip_slopes<T: Scalar>(x: Seq<T>, y: Seq<T>) -> Seq<T> {
    limit_upto(initial_slopes(x, y), secants(x, y), x.len() - 1)
}

/// The limiter keeps the number of derivatives.
pub proof fn lemma_limit_upto_len<T: Scalar>(d0: Seq<T>, delta: Seq<T>, k: int)
    requires
        0 <= k < d0.len(),
    ensures
        limit_upto(d0, delta, k).len() == d0.len(),
    decreases k,
{
    if k > 0 {
        lemma_limit_upto_len(d0, delta, k - 1);
    }
}

/// The bisection for the interval that holds `x`, between nodes `lo` and `hi`: the midpoint
/// replaces `lo` when its node is at most `x`, else it replaces `hi`.
pub open spec fn bisect<T: Scalar>(xs: Seq<T>, x: T, lo: int, hi: int) -> int
    decreases hi - lo,
{
    if hi - lo <= 1 {
        lo
    } else {
        let mid = lo + (hi - lo) / 2;
        if xs[mid].le_spec(x) {
            bisect(xs, x, mid, hi)
        } else {
            bisect(xs, x, lo, mid)
        }
    }
}

/// The interval used to evaluate at `x`: the first one at or before the first node, the last
/// one at or after the last node, and the bisection's result in between.
pub open spec fn bracket<T: Scalar>(xs: Seq<T>, x: T) -> int {
    let n = xs.len() as int;
    if x.le_spec(xs[0]) {
        0
    } else if xs[n - 1].le_spec(x) {
        n - 2
    } else {
        bisect(xs, x, 0, n - 1)
    }
}

/// The bisection stays within `[lo, hi)`.
pub proof fn lemma_bisect_range<T: Scalar>(xs: Seq<T>, x: T, lo: int, hi: int)
    requires
        lo < hi,
    ensures
        lo <= bisect(xs, x, lo, hi) < hi,
    decreases hi - lo,
{
    if hi - lo > 1 {
        let mid = lo + (hi - lo) / 2;
        lemma_bisect_range(xs, x, mid, hi);
        lemma_bisect_range(xs, x, lo, mid);
    }
}

/// The cubic Hermite interpolant on interval `k` with end values `y0`, `y1` and end
/// derivatives `d0`, `d1`, evaluated at `x`.
pub open spec fn hermite<T: Scalar>(x0: T, x1: T, y0: T, y1: T, d0: T, d1: T, x: T) -> T {
    let one = T::one_spec();
    let tw = two::<T>();
    let th = three::<T>();
    let h = x1.minus_spec(x0);
    let t = x.minus_spec(x0).divide_spec(h);
    let t2 = t.times_spec(t);
    let t3 = t2.times_spec(t);
    let h00 = tw.times_spec(t3).minus_spec(th.times_spec(t2)).plus_spec(one);
    let h10 = t3.minus_spec(tw.times_spec(t2)).plus_spec(t);
    let h01 = tw.negate_spec().times_spec(t3).plus_spec(th.times_spec(t2));
    let h11 = t3.minus_spec(t2);
    y0.times_spec(h00).plus_spec(d0.times_spec(h10.times_spec(h))).plus_spec(y1.times_spec(h01)).plus_spec(
        d1.times_spec(h11.times_spec(h)),
    )
}

/// The value of the PCHIP interpolant with nodes `xs`, values `ys` and derivatives `ds` at
/// `x`.
pub open spec fn pchip_value<T: Scalar>(xs: Seq<T>, ys: Seq<T>, ds: Seq<T>, x: T) -> T {
    let k = bracket(xs, x);
    hermite(xs[k], xs[k + 1], ys[k], ys[k + 1], ds[k], ds[k + 1], x)
}

/// The field and order facts that interpolation through the nodes rests on (they hold of
/// the real and the rational numbers): zero and one are identities, `a - a` is zero,
/// `a - (a + b) = -b`, `-a + (a + b) = b`, `-a + a = 0`, zero divided by a non-zero value is
/// zero and a non-zero value divided by itself is one; `<=` is reflexive, and `a < b` gives
/// `a <= b`, not `b <= a`, and a non-zero `b - a`.
pub open spec fn interpolation_laws<T: Scalar>() -> bool {
    let z = T::zero_spec();
    let o = T::one_spec();
    &&& forall|a: T| #[trigger] a.plus_spec(z) == a
    &&& forall|a: T| #[trigger] z.plus_spec(a) == a
    &&& forall|a: T| #[trigger] a.times_spec(z) == z
    &&& forall|a: T| #[trigger] z.times_spec(a) == z
    &&& forall|a: T| #[trigger] a.times_spec(o) == a
    &&& forall|a: T| #[trigger] a.minus_spec(a) == z
    &&& forall|a: T| #[trigger] a.minus_spec(z) == a
    &&& forall|a: T, b: T| #[trigger] a.minus_spec(a.plus_spec(b)) == b.negate_spec()
    &&& forall|a: T, b: T| #[trigger] a.negate_spec().plus_spec(a.plus_spec(b)) == b
    &&& forall|a: T| #[trigger] a.negate_spec().plus_spec(a) == z
    &&& forall|b: T| b != z ==> #[trigger] z.divide_spec(b) == z
    &&& forall|b: T| b != z ==> #[trigger] b.divide_spec(b) == o
    &&& forall|a: T| #[trigger] a.le_spec(a)
    &&& forall|a: T, b: T| #[trigger] a.lt_spec(b) ==> a.le_spec(b) && !b.le_spec(a) && b.minus_spec(a) != z
}

/// The nodes strictly increase.
pub open spec fn strictly_increasing<T: Scalar>(xs: Seq<T>) -> bool {
    forall|i: int, k: int| 0 <= i < k < xs.len() ==> (#[trigger] xs[i]).lt_spec(#[trigger] xs[k])
}

/// The Hermite cubic takes the start value at the start of its interval.
proof fn lemma_hermite_start<T: Scalar>(x0: T, x1: T, y0: T, y1: T, d0: T, d1: T)
    requires
        interpolation_laws::<T>(),
        x0.lt_spec(x1),
    ensures
        hermite(x0, x1, y0, y1, d0, d1, x0) == y0,
{
    let z = T::zero_spec();
    let o = T::one_spec();
    let h = x1.minus_spec(x0);
    assert(h != z);
    let t = x0.minus_spec(x0).divide_spec(h);
    assert(x0.minus_spec(x0) == z);
    assert(t == z);
    assert(t.times_spec(t) == z);
    let tw = two::<T>();
    let th = three::<T>();
    assert(tw.times_spec(z) == z && th.times_spec(z) == z);
    assert(z.minus_spec(z) == z);
    assert(z.plus_spec(o) == o);
    assert(tw.negate_spec().times_spec(z) == z);
    assert(z.plus_spec(z) == z);
    assert(y0.times_spec(o) == y0);
    assert(z.times_spec(h) == z);
    assert(d0.times_spec(z) == z && d1.times_spec(z) == z && y1.times_spec(z) == z);
    assert(y0.plus_spec(z) == y0);
}

/// The Hermite cubic takes the end value at the end of its interval.
proof fn lemma_hermite_end<T: Scalar>(x0: T, x1: T, y0: T, y1: T, d0: T, d1: T)
    requires
        interpolation_laws::<T>(),
        x0.lt_spec(x1),
    ensures
        hermite(x0, x1, y0, y1, d0, d1, x1) == y1,
{
    let z = T::zero_spec();
    let o = T::one_spec();
    let h = x1.minus_spec(x0);
    assert(h != z);
    let t = x1.minus_spec(x0).divide_spec(h);
    assert(t == o);
    assert(t.times_spec(t) == o);
    let tw = two::<T>();
    let th = three::<T>();
    assert(tw.times_spec(o) == tw && th.times_spec(o) == th);
    assert(tw.minus_spec(th) == o.negate_spec());
    assert(o.negate_spec().plus_spec(o) == z);
    assert(o.minus_spec(tw) == o.negate_spec());
    assert(tw.negate_spec().times_spec(o) == tw.negate_spec());
    assert(tw.negate_spec().plus_spec(th) == o);
    assert(o.minus_spec(o) == z);
    assert(z.times_spec(h) == z);
    assert(y0.times_spec(z) == z && d0.times_spec(z) == z && d1.times_spec(z) == z);
    assert(y1.times_spec(o) == y1);
    assert(z.plus_spec(z) == z && z.plus_spec(y1) == y1 && y1.plus_spec(z) == y1);
}

/// The bisection finds the interval that starts at the node `j` it is asked about.
proof fn lemma_bisect_node<T: Scalar>(xs: Seq<T>, j: int, lo: int, hi: int)
    requires
        interpolation_laws::<T>(),
        strictly_increasing(xs),
        0 <= lo <= j < hi < xs.len(),
    ensures
        bisect(xs, xs[j], lo, hi) == j,
    decreases hi - lo,
{
    if hi - lo > 1 {
        let mid = lo + (hi - lo) / 2;
        if mid <= j {
            if mid < j {
                assert(xs[mid].lt_spec(xs[j]));
            }
            assert(xs[mid].le_spec(xs[j]));
            lemma_bisect_node(xs, j, mid, hi);
        } else {
            assert(xs[j].lt_spec(xs[mid]));
            lemma_bisect_node(xs, j, lo, mid);
        }
    }
}

/// Interpolation through the nodes: over a scalar type with the field and order facts of
/// [`interpolation_laws`], the PCHIP interpolant of strictly increasing nodes takes the
/// node's value at every node, whatever the node derivatives.
pub proof fn lemma_pchip_interpolates<T: Scalar>(xs: Seq<T>, ys: Seq<T>, ds: Seq<T>, j: int)
    requires
        interpolation_laws::<T>(),
        xs.len() >= 2,
        ys.len() == xs.len(),
        ds.len() == xs.len(),
        strictly_increasing(xs),
        0 <= j < xs.len(),
    ensures
        pchip_value(xs, ys, ds, xs[j]) == ys[j],
{
    let n = xs.len() as int;
    let x = xs[j];
    if j == 0 {
        assert(x.le_spec(xs[0]));
        assert(xs[0].lt_spec(xs[1]));
        lemma_hermite_start(xs[0], xs[1], ys[0], ys[1], ds[0], ds[1]);
    } else if j < n - 1 {
        assert(xs[0].lt_spec(x));
        assert(!x.le_spec(xs[0]));
        assert(x.lt_spec(xs[n - 1]));
        assert(!xs[n - 1].le_spec(x));
        lemma_bisect_node(xs, j, 0, n - 1);
        assert(xs[j].lt_spec(xs[j + 1]));
        lemma_hermite_start(xs[j], xs[j + 1], ys[j], ys[j + 1], ds[j], ds[j + 1]);
    } else {
        assert(xs[0].lt_spec(x));
        assert(!x.le_spec(xs[0]));
        assert(xs[n - 1].le_spec(x));
        assert(xs[n - 2].lt_spec(xs[n - 1]));
        lemma_hermite_end(xs[n - 2], xs[n - 1], ys[n - 2], ys[n - 1], ds[n - 2], ds[n - 1]);
    }
}

/// Shape-preserving piecewise-cubic-Hermite interpolant (PCHIP): node abscissae, values and
/// the Fritsch–Carlson derivatives.
#[derive(Clone, Debug)]
pub struct Pchip<T> {
    x: DVector<T>,
    y: DVector<T>,
    d: DVector<T>,
}

impl<T: Scalar> Pchip<T> {
    /// The node abscissae.
    pub closed spec fn nodes(&self) -> Seq<T> {
        self.x@
    }

    /// The node values.
    pub closed spec fn values(&self) -> Seq<T> {
        self.y@
    }

    /// The node derivatives.
    pub closed spec fn slopes(&self) -> Seq<T> {
        self.d@
    }

    /// At least two nodes, and as many values and derivatives as nodes.
    pub open spec fn well_formed(&self) -> bool {
        &&& self.nodes().len() >= 2
        &&& self.values().len() == self.nodes().len()
        &&& self.slopes().len() == self.nodes().len()
    }

    /// Builds the interpolant of `(x, y)`: a dimension error when the lengths differ, when
    /// there are fewer than two nodes, or at the first interval that does not increase;
    /// otherwise the derivatives are [`pchip_slopes`] (with two nodes, both end derivatives
    /// are the one secant).
    pub fn new(x: DVector<T>, y: DVector<T>) -> (r: Result<Self, DenseError>)
        ensures
            y@.len() != x@.len() ==> (r matches Err(DenseError::DimensionMismatch { what }) && what@
                == pchip_length_text(x@.len() as usize, y@.len() as usize)),
            y@.len() == x@.len() && x@.len() < 2 ==> (r matches Err(DenseError::DimensionMismatch { what })
                && what@ == node_count_text(x@.len() as usize)),
            y@.len() == x@.len() && x@.len() >= 2 ==> match first_not_increasing(x@, 0) {
                Some(i) => r matches Err(DenseError::DimensionMismatch { what }) && what@ == increasing_text(
                    i as usize,
                ),
                None => r matches Ok(p) && p.well_formed() && p.nodes() == x@ && p.values() == y@ && p.slopes()
                    == pchip_slopes(x@, y@),
            },
    {
        let n = x.len();
        if y.len() != n {
            return Err(DenseError::DimensionMismatch { what: pchip_length_message(n, y.len()) });
        }
        if n < 2 {
            return Err(DenseError::DimensionMismatch { what: node_count_message(n) });
        }
        let xs = x.iter();
        let ys = y.iter();
        let one = T::one();
        let tw = two_exec::<T>();
        let th = tw.plus(one);
        let zero = T::zero();
        let ghost hs = widths(xs@);
        let ghost ds = secants(xs@, ys@);
        let mut h: Vec<T> = Vec::new();
        let mut delta: Vec<T> = Vec::new();
        for i in 0..(n - 1)
            invariant
                xs@ == x@,
                ys@ == y@,
                n == xs@.len(),
                n == ys@.len(),
                n >= 2,
                zero == T::zero_spec(),
                hs == widths(xs@),
                ds == secants(xs@, ys@),
                h@ == hs.take(i as int),
                delta@ == ds.take(i as int),
                first_not_increasing(xs@, 0) == first_not_increasing(xs@, i as int),
        {
            let hi = xs[i + 1].minus(xs[i]);
            if hi.le(zero) {
                return Err(DenseError::DimensionMismatch { what: increasing_message(i) });
            }
            h.push(hi);
            delta.push(ys[i + 1].minus(ys[i]).divide(hi));
            assert(h@ =~= hs.take(i + 1));
            assert(delta@ =~= ds.take(i + 1));
        }
        assert(h@ =~= hs);
        assert(delta@ =~= ds);
        let nm = n - 1;
        let ghost d0 = initial_slopes(xs@, ys@);
        let mut d: Vec<T> = Vec::new();
        if n == 2 {
            d.push(delta[0]);
            d.push(delta[0]);
            assert(d@ =~= d0);
        } else {
            let s0 = tw.times(h[0]).plus(h[1]).times(delta[0]).minus(h[0].times(delta[1])).divide(h[0].plus(h[1]));
            d.push(s0);
            for i in 1..nm
                invariant
                    n == xs@.len(),
                    n == ys@.len(),
                    n >= 3,
                    nm == n - 1,
                    tw == two::<T>(),
                    th == three::<T>(),
                    zero == T::zero_spec(),
                    h@ == widths(xs@),
                    delta@ == secants(xs@, ys@),
                    d0 == initial_slopes(xs@, ys@),
                    d@ == d0.take(i as int),
            {
                let si = if delta[i - 1].times(delta[i]).le(zero) {
                    zero
                } else {
                    let w1 = tw.times(h[i - 1]).plus(h[i]);
                    let w2 = h[i - 1].plus(tw.times(h[i]));
                    th.times(h[i - 1].plus(h[i])).divide(w1.divide(delta[i - 1]).plus(w2.divide(delta[i])))
                };
                d.push(si);
                assert(d@ =~= d0.take(i + 1));
            }
            let sl = tw.times(h[nm - 1]).plus(h[nm - 2]).times(delta[nm - 1]).minus(h[nm - 1].times(delta[nm - 2])).divide(
                h[nm - 1].plus(h[nm - 2]),
            );
            d.push(sl);
            assert(d@ =~= d0);
        }
        for i in 0..nm
            invariant
                n == xs@.len(),
                n >= 2,
                nm == n - 1,
                th == three::<T>(),
                zero == T::zero_spec(),
                delta@ == secants(xs@, ys@),
                d0.len() == n,
                d@ == limit_upto(d0, delta@, i as int),
        {
            proof {
                lemma_limit_upto_len(d0, delta@, i as int);
            }
            let di = delta[i];
            if di.eq(zero) {
                d.set(i, zero);
                d.set(i + 1, zero);
            } else {
                let a = d[i].divide(di);
                let b = d[i + 1].divide(di);
                let ss = a.times(a).plus(b.times(b));
                if zero.le(a) && zero.le(b) && th.times(th).lt(ss) {
                    let tau = th.divide(ss.sqrt());
                    d.set(i, tau.times(a).times(di));
                    d.set(i + 1, tau.times(b).times(di));
                }
                if d[i].times(di).lt(zero) {
                    d.set(i, zero);
                }
                if d[i + 1].times(di).lt(zero) {
                    d.set(i + 1, zero);
                }
            }
        }
        proof {
            lemma_limit_upto_len(d0, delta@, nm as int);
        }
        Ok(Pchip { x, y, d: DVector::from_vec(d) })
    }

    /// Evaluates the interpolant at `x` (see [`pchip_value`]): the Hermite cubic of the
    /// interval that [`bracket`] picks, which extends the end intervals' cubics outside the
    /// node range.
    pub fn eval(&self, x: T) -> (r: T)
        requires
            self.well_formed(),
        ensures
            r == pchip_value(self.nodes(), self.values(), self.slopes(), x),
    {
        let xs = self.x.iter();
        let ys = self.y.iter();
        let ds = self.d.iter();
        let n = xs.len();
        let k = if x.le(xs[0]) {
            0
        } else if xs[n - 1].le(x) {
            n - 2
        } else {
            let mut lo: usize = 0;
            let mut hi: usize = n - 1;
            while hi - lo > 1
                invariant
                    n == xs@.len(),
                    lo < hi <= n - 1,
                    bisect(xs@, x, lo as int, hi as int) == bisect(xs@, x, 0, n - 1),
                decreases hi - lo,
            {
                let mid = lo + (hi - lo) / 2;
                if xs[mid].le(x) {
                    lo = mid;
                } else {
                    hi = mid;
                }
            }
            lo
        };
        assert(k == bracket(xs@, x));
        let one = T::one();
        let tw = two_exec::<T>();
        let th = tw.plus(one);
        let h = xs[k + 1].minus(xs[k]);
        let t = x.minus(xs[k]).divide(h);
        let t2 = t.times(t);
        let t3 = t2.times(t);
        let h00 = tw.times(t3).minus(th.times(t2)).plus(one);
        let h10 = t3.minus(tw.times(t2)).plus(t);
        let h01 = tw.negate().times(t3).plus(th.times(t2));
        let h11 = t3.minus(t2);
        ys[k].times(h00).plus(ds[k].times(h10.times(h))).plus(ys[k + 1].times(h01)).plus(ds[k + 1].times(h11.times(h)))
    }
}

// ===========================================================================
// B-splines (Cox–de Boor)
// ===========================================================================

/// The `i`-th B-spline basis function of degree `p` over `knots`, at `x` (Cox–de Boor):
/// zero when the basis needs knots past the end; at degree zero the indicator of
/// `[knots[i], knots[i + 1])`, the last span also holding its right end; above, the blend of
/// the two lower-degree neighbours, a coefficient being zero where its knot span is.
pub open spec fn basis<T: Scalar>(p: nat, knots: Seq<T>, i: int, x: T) -> T
    decreases p,
{
    let n = knots.len() as int;
    let z = T::zero_spec();
    if i + p + 1 >= n {
        z
    } else if p == 0 {
        let a = knots[i];
        let b = knots[i + 1];
        if a.le_spec(x) && x.lt_spec(b) {
            T::one_spec()
        } else if i + 1 == n - 1 && x.eq_spec(b) {
            T::one_spec()
        } else {
            z
        }
    } else {
        let denom1 = knots[i + p].minus_spec(knots[i]);
        let denom2 = knots[i + p + 1].minus_spec(knots[i + 1]);
        let t1 = if !denom1.eq_spec(z) {
            x.minus_spec(knots[i]).divide_spec(denom1)
        } else {
            z
        };
        let t2 = if !denom2.eq_spec(z) {
            knots[i + p + 1].minus_spec(x).divide_spec(denom2)
        } else {
            z
        };
        t1.times_spec(basis((p - 1) as nat, knots, i, x)).plus_spec(t2.times_spec(basis((p - 1) as nat, knots, i + 1, x)))
    }
}

/// Evaluates the `i`-th B-spline basis function of the given `degree` at `x` (see
/// [`basis`]); zero for an index whose basis would need knots past the end.
pub fn bspline_basis<T: Scalar>(degree: usize, knots: &[T], i: usize, x: T) -> (r: T)
    ensures
        r == basis(degree as nat, knots@, i as int, x),
    decreases degree,
{
    let n = knots.len();
    let z = T::zero();
    if i >= n || degree >= n - i - 1 {
        return z;
    }
    if degree == 0 {
        let a = knots[i];
        let b = knots[i + 1];
        if a.le(x) && x.lt(b) {
            T::one()
        } else if i + 1 == n - 1 && x.eq(b) {
            T::one()
        } else {
            z
        }
    } else {
        let denom1 = knots[i + degree].minus(knots[i]);
        let denom2 = knots[i + degree + 1].minus(knots[i + 1]);
        let t1 = if !denom1.eq(z) {
            x.minus(knots[i]).divide(denom1)
        } else {
            z
        };
        let t2 = if !denom2.eq(z) {
            knots[i + degree + 1].minus(x).divide(denom2)
        } else {
            z
        };
        let b1 = bspline_basis(degree - 1, knots, i, x);
        let b2 = bspline_basis(degree - 1, knots, i + 1, x);
        t1.times(b1).plus(t2.times(b2))
    }
}

/// `weights[0] * B_0(x) + ... + weights[m - 1] * B_(m-1)(x)`, accumulated in order from
/// zero, `B_i` the degree-`p` basis functions over `knots`.
pub open spec fn curve_sum<T: Scalar>(p: nat, knots: Seq<T>, weights: Seq<T>, x: T, m: int) -> T
    decreases m,
{
    if m <= 0 {
        T::zero_spec()
    } else {
        curve_sum(p, knots, weights, x, m - 1).plus_spec(weights[m - 1].times_spec(basis(p, knots, m - 1, x)))
    }
}

/// A weighted B-spline curve `C(x) = sum_i w_i * B_(i,p)(x)`.
#[derive(Clone, Debug)]
pub struct BsplineCurve<T> {
    degree: usize,
    knots: Vec<T>,
    weights: Vec<T>,
}

impl<T: Scalar> BsplineCurve<T> {
    /// The degree.
    pub closed spec fn degree_spec(&self) -> nat {
        self.degree as nat
    }

    /// The knot vector.
    pub closed spec fn knots_spec(&self) -> Seq<T> {
        self.knots@
    }

    /// The control weights.
    pub closed spec fn weights_spec(&self) -> Seq<T> {
        self.weights@
    }

    /// Builds the curve of `degree` over `knots` with control `weights`, of which there must
    /// be exactly `knots.len() - degree - 1`.
    pub fn new(degree: usize, knots: &[T], weights: &[T]) -> (r: Self)
        requires
            knots@.len() >= degree + 1,
            weights@.len() == knots@.len() - degree - 1,
        ensures
            r.degree_spec() == degree,
            r.knots_spec() == knots@,
            r.weights_spec() == weights@,
    {
        let mut kv: Vec<T> = Vec::new();
        for i in 0..knots.len()
            invariant
                kv@ == knots@.take(i as int),
        {
            kv.push(knots[i]);
            assert(kv@ =~= knots@.take(i + 1));
        }
        let mut wv: Vec<T> = Vec::new();
        for i in 0..weights.len()
            invariant
                wv@ == weights@.take(i as int),
        {
            wv.push(weights[i]);
            assert(wv@ =~= weights@.take(i + 1));
        }
        assert(kv@ =~= knots@);
        assert(wv@ =~= weights@);
        BsplineCurve { degree, knots: kv, weights: wv }
    }

    /// Evaluates the curve at `x` (see [`curve_sum`]).
    pub fn eval(&self, x: T) -> (r: T)
        ensures
            r == curve_sum(self.degree_spec(), self.knots_spec(), self.weights_spec(), x, self.weights_spec().len() as int),
    {
        let knots = self.knots.as_slice();
        let mut s = T::zero();
        for i in 0..self.weights.len()
            invariant
                knots@ == self.knots@,
                s == curve_sum(self.degree as nat, self.knots@, self.weights@, x, i as int),
        {
            s = s.plus(self.weights[i].times(bspline_basis(self.degree, knots, i, x)));
        }
        s
    }
}

// ===========================================================================
// Radial basis functions
// ===========================================================================

/// The solution of the square system with rows `a` and right-hand side `b` by partial-pivot
/// LU (see [`lu_solution`]), or `None` when the factorization finds no usable pivot.
pub open spec fn lu_solve_rows<T: Scalar>(a: Seq<Seq<T>>, b: Seq<T>) -> Option<Seq<T>> {
    let n = a.len();
    match lu_run(a, identity_perm(n), 0, n as int) {
        None => None,
        Some((lu, piv)) => Some(lu_solution(lu, piv, b, n as int)),
    }
}

/// A solution of an `n x n` system has `n` entries.
pub proof fn lemma_lu_solve_rows_len<T: Scalar>(a: Seq<Seq<T>>, b: Seq<T>)
    ensures
        lu_solve_rows(a, b) matches Some(w) ==> w.len() == a.len(),
{
    let n = a.len() as int;
    if let Some((lu, piv)) = lu_run(a, identity_perm(a.len()), 0, n) {
        lemma_backward_from_len(lu, forward_prefix(lu, piv, b, n), n, 0);
    }
}

/// Radial kernels, each a function of the distance `r` between two sample points with a
/// shape parameter `epsilon`.
#[derive(Clone, Copy, Debug, PartialEq)]
pub enum RbfKernel<T> {
    /// Thin-plate spline `r^2 ln(r^2)` (zero at `r = 0`); `epsilon` is not used.
    ThinPlate { epsilon: T },
    /// Gaussian `exp(-(epsilon r)^2)`.
    Gaussian { epsilon: T },
    /// Multiquadric `sqrt(1 + (epsilon r)^2)`.
    Multiquadric { epsilon: T },
}

/// The value of kernel `k` at distance `r`.
pub open spec fn kernel_value<T: Scalar>(k: RbfKernel<T>, r: T) -> T {
    match k {
        RbfKernel::ThinPlate { .. } => {
            let rr = r.times_spec(r);
            if rr.eq_spec(T::zero_spec()) {
                T::zero_spec()
            } else {
                rr.times_spec(rr.ln_spec())
            }
        },
        RbfKernel::Gaussian { epsilon } => {
            let er = epsilon.times_spec(r);
            er.negate_spec().times_spec(er).exp_spec()
        },
        RbfKernel::Multiquadric { epsilon } => {
            let er = epsilon.times_spec(r);
            T::one_spec().plus_spec(er.times_spec(er)).sqrt_spec()
        },
    }
}

impl<T: Scalar> RbfKernel<T> {
    /// Evaluates the kernel at distance `r` (see [`kernel_value`]).
    pub fn eval(&self, r: T) -> (v: T)
        ensures
            v == kernel_value(*self, r),
    {
        match self {
            RbfKernel::ThinPlate { .. } => {
                let rr = r.times(r);
                if rr.eq(T::zero()) {
                    T::zero()
                } else {
                    rr.times(rr.ln())
                }
            },
            RbfKernel::Gaussian { epsilon } => {
                let er = epsilon.times(r);
                er.negate().times(er).exp()
            },
            RbfKernel::Multiquadric { epsilon } => {
                let er = epsilon.times(r);
                T::one().plus(er.times(er)).sqrt()
            },
        }
    }
}

/// The kernel matrix of the samples `xs`: entry `(i, j)` is the kernel at `|xs[i] - xs[j]|`.
pub open spec fn rbf_rows<T: Scalar>(xs: Seq<T>, k: RbfKernel<T>) -> Seq<Seq<T>> {
    Seq::new(xs.len(), |i: int| Seq::new(xs.len(), |j: int| kernel_value(k, xs[i].minus_spec(xs[j]).abs_spec())))
}

/// The kernel at the distance from `x` to each sample.
pub open spec fn kernel_row<T: Scalar>(xs: Seq<T>, k: RbfKernel<T>, x: T) -> Seq<T> {
    Seq::new(xs.len(), |j: int| kernel_value(k, x.minus_spec(xs[j]).abs_spec()))
}

/// The value at `x` of the interpolant with samples `xs`, weights `w` and kernel `k`: the
/// weighted kernel values, accumulated in order from zero.
pub open spec fn rbf_value<T: Scalar>(xs: Seq<T>, w: Seq<T>, k: RbfKernel<T>, x: T) -> T {
    dot_prefix(w, kernel_row(xs, k, x), xs.len() as int)
}

/// A radial-basis-function interpolant of scattered 1-D data: `s(x) = sum_j w_j phi(|x - x_j|)`
/// with the weights solving the kernel system `A w = y`.
#[derive(Clone, Debug)]
pub struct RbfInterpolator<T> {
    xs: DVector<T>,
    weights: DVector<T>,
    kernel: RbfKernel<T>,
}

impl<T: Scalar> RbfInterpolator<T> {
    /// The sample abscissae.
    pub closed spec fn nodes(&self) -> Seq<T> {
        self.xs@
    }

    /// The solved weights.
    pub closed spec fn weights(&self) -> Seq<T> {
        self.weights@
    }

    /// The kernel.
    pub closed spec fn kernel(&self) -> RbfKernel<T> {
        self.kernel
    }

    /// One weight per sample.
    pub open spec fn well_formed(&self) -> bool {
        self.weights().len() == self.nodes().len()
    }

    /// Builds the interpolant of the samples `(xs, ys)`: a dimension error when the lengths
    /// differ, a singularity error when the kernel system [`rbf_rows`] has no usable pivot,
    /// else the weights solve it against `ys` (the kernel matrix must fit in memory).
    pub fn new(xs: DVector<T>, ys: DVector<T>, kernel: RbfKernel<T>) -> (r: Result<Self, DenseError>)
        requires
            xs@.len() * xs@.len() <= usize::MAX,
        ensures
            ys@.len() != xs@.len() ==> (r matches Err(DenseError::DimensionMismatch { what }) && what@
                == samples_length_text(xs@.len() as usize, ys@.len() as usize)),
            ys@.len() == xs@.len() ==> match lu_solve_rows(rbf_rows(xs@, kernel), ys@) {
                None => r == Err::<Self, DenseError>(DenseError::Singular { what: "partial_pivot_lu" }),
                Some(w) => r matches Ok(ip) && ip.well_formed() && ip.nodes() == xs@ && ip.weights() == w
                    && ip.kernel() == kernel,
            },
    {
        let n = xs.len();
        if ys.len() != n {
            return Err(DenseError::DimensionMismatch { what: samples_length_message(n, ys.len()) });
        }
        let xv = xs.iter();
        let a = DMatrix::from_fn(
            n,
            n,
            |i: usize, j: usize| -> (e: T)
                requires
                    i < xv@.len(),
                    j < xv@.len()
                ensures
                    e == kernel_value(kernel, xv@[i as int].minus_spec(xv@[j as int]).abs_spec())
                { kernel.eval(xv[i].minus(xv[j]).abs()) },
        );
        proof {
            a.lemma_well_formed_covers();
            assert(square_rows(&a, n as nat) =~= rbf_rows(xs@, kernel)) by {
                assert forall|i: int| 0 <= i < n implies #[trigger] square_rows(&a, n as nat)[i] =~= rbf_rows(
                    xs@,
                    kernel,
                )[i] by {
                    assert forall|j: int| 0 <= j < n implies square_rows(&a, n as nat)[i][j] == rbf_rows(
                        xs@,
                        kernel,
                    )[i][j] by {
                        assert(a.entry(i, j) == kernel_value(kernel, xv@[i].minus_spec(xv@[j]).abs_spec()));
                    }
                }
            }
        }
        proof {
            lemma_lu_solve_rows_len(rbf_rows(xs@, kernel), ys@);
        }
        match a.solve(&ys) {
            Err(e) => Err(e),
            Ok(weights) => Ok(RbfInterpolator { xs, weights, kernel }),
        }
    }

    /// Evaluates the interpolant at `x` (see [`rbf_value`]).
    pub fn eval(&self, x: T) -> (r: T)
        requires
            self.well_formed(),
        ensures
            r == rbf_value(self.nodes(), self.weights(), self.kernel(), x),
    {
        let xv = self.xs.iter();
        let wv = self.weights.iter();
        let ghost row = kernel_row(xv@, self.kernel, x);
        let mut s = T::zero();
        for j in 0..xv.len()
            invariant
                xv@ == self.xs@,
                wv@ == self.weights@,
                wv@.len() == xv@.len(),
                row == kernel_row(xv@, self.kernel, x),
                s == dot_prefix(wv@, row, j as int),
        {
            s = s.plus(wv[j].times(self.kernel.eval(x.minus(xv[j]).abs())));
        }
        s
    }

    /// Evaluates the interpolant at each of `points`.
    pub fn interpolate(&self, points: &DVector<T>) -> (r: DVector<T>)
        requires
            self.well_formed(),
        ensures
            r@.len() == points@.len(),
            forall|i: int| 0 <= i < points@.len() ==> #[trigger] r@[i] == rbf_value(
                self.nodes(),
                self.weights(),
                self.kernel(),
                points@[i],
            ),
    {
        let pv = points.iter();
        DVector::from_fn(
            pv.len(),
            |i: usize| -> (v: T)
                requires
                    i < pv@.len(),
                    self.well_formed()
                ensures
                    v == rbf_value(self.nodes(), self.weights(), self.kernel(), pv@[i as int])
                { self.eval(pv[i]) },
        )
    }
}

// ===========================================================================
// Ordinary Kriging
// ===========================================================================

/// A variogram model `gamma(h)` of the spatial correlation of residuals.
#[derive(Clone, Copy, Debug, PartialEq)]
pub enum Variogram<T> {
    /// Spherical: `nugget + sill (1.5 a - 0.5 a^3)` with `a = h / range` below the range,
    /// `nugget + sill` from it on.
    Spherical { sill: T, range: T, nugget: T },
    /// Exponential: `nugget + sill (1 - exp(-h / range))`.
    Exponential { sill: T, range: T, nugget: T },
    /// Gaussian: `nugget + sill (1 - exp(-(h / range)^2))`.
    Gaussian { sill: T, range: T, nugget: T },
    /// Linear: `nugget + slope h`.
    Linear { slope: T, nugget: T },
}

/// The value of variogram `v` at lag `h`; `1.5` is `3 / 2` and `0.5` is `1 / 2` in `T`.
pub open spec fn variogram_value<T: Scalar>(v: Variogram<T>, h: T) -> T {
    let one = T::one_spec();
    match v {
        Variogram::Spherical { sill, range, nugget } => {
            if range.le_spec(h) {
                nugget.plus_spec(sill)
            } else {
                let a = h.divide_spec(range);
                let c15 = T::from_int_spec(3).divide_spec(T::from_int_spec(2));
                let c05 = one.divide_spec(two::<T>());
                nugget.plus_spec(
                    sill.times_spec(c15.times_spec(a).minus_spec(c05.times_spec(a).times_spec(a).times_spec(a))),
                )
            }
        },
        Variogram::Exponential { sill, range, nugget } => nugget.plus_spec(
            sill.times_spec(one.minus_spec(h.negate_spec().divide_spec(range).exp_spec())),
        ),
        Variogram::Gaussian { sill, range, nugget } => {
            let a = h.divide_spec(range);
            nugget.plus_spec(sill.times_spec(one.minus_spec(a.negate_spec().times_spec(a).exp_spec())))
        },
        Variogram::Linear { slope, nugget } => nugget.plus_spec(slope.times_spec(h)),
    }
}

impl<T: Scalar> Variogram<T> {
    /// Evaluates the variogram at lag `h` (see [`variogram_value`]).
    pub fn gamma(&self, h: T) -> (r: T)
        ensures
            r == variogram_value(*self, h),
    {
        let one = T::one();
        match self {
            Variogram::Spherical { sill, range, nugget } => {
                if range.le(h) {
                    nugget.plus(*sill)
                } else {
                    let a = h.divide(*range);
                    let c15 = T::from_int(3).divide(T::from_int(2));
                    let c05 = one.divide(two_exec::<T>());
                    nugget.plus(sill.times(c15.times(a).minus(c05.times(a).times(a).times(a))))
                }
            },
            Variogram::Exponential { sill, range, nugget } => nugget.plus(
                sill.times(one.minus(h.negate().divide(*range).exp())),
            ),
            Variogram::Gaussian { sill, range, nugget } => {
                let a = h.divide(*range);
                nugget.plus(sill.times(one.minus(a.negate().times(a).exp())))
            },
            Variogram::Linear { slope, nugget } => nugget.plus(slope.times(h)),
        }
    }
}

/// Entry `(i, j)` of the bordered Kriging system of the samples `xs`: the variogram at
/// `|xs[i] - xs[j]|` in the `n x n` block, one on the border row and column, zero in the
/// corner.
pub open spec fn kriging_entry<T: Scalar>(xs: Seq<T>, v: Variogram<T>, i: int, j: int) -> T {
    let n = xs.len() as int;
    if i < n && j < n {
        variogram_value(v, xs[i].minus_spec(xs[j]).abs_spec())
    } else if (i < n && j == n) || (i == n && j < n) {
        T::one_spec()
    } else {
        T::zero_spec()
    }
}

/// The rows of the bordered Kriging system.
pub open spec fn kriging_rows<T: Scalar>(xs: Seq<T>, v: Variogram<T>) -> Seq<Seq<T>> {
    Seq::new(xs.len() + 1, |i: int| Seq::new(xs.len() + 1, |j: int| kriging_entry(xs, v, i, j)))
}

/// The right-hand side of the Kriging system at `x`: the variogram at `|xs[i] - x|`, then
/// one.
pub open spec fn kriging_rhs<T: Scalar>(xs: Seq<T>, v: Variogram<T>, x: T) -> Seq<T> {
    Seq::new(
        xs.len() + 1,
        |i: int|
            if i < xs.len() {
                variogram_value(v, xs[i].minus_spec(x).abs_spec())
            } else {
                T::one_spec()
            },
    )
}

/// `s0 + a[0] * b[0] + ... + a[m - 1] * b[m - 1]`, accumulated in order.
pub open spec fn accumulate<T: Scalar>(s0: T, a: Seq<T>, b: Seq<T>, m: int) -> T
    decreases m,
{
    if m <= 0 {
        s0
    } else {
        accumulate(s0, a, b, m - 1).plus_spec(a[m - 1].times_spec(b[m - 1]))
    }
}

/// The Kriging prediction at `x` from the solved weights `w`: the mean `sum_i w_i y_i` and
/// the variance `w_n + sum_i w_i rhs_i`.
pub open spec fn kriging_estimate<T: Scalar>(xs: Seq<T>, ys: Seq<T>, v: Variogram<T>, x: T, w: Seq<T>) -> (T, T) {
    let n = xs.len() as int;
    (dot_prefix(w, ys, n), accumulate(w[n], w, kriging_rhs(xs, v, x), n))
}

/// An ordinary-Kriging surrogate of scattered 1-D data.
#[derive(Clone, Debug)]
pub struct Kriging<T> {
    xs: DVector<T>,
    ys: DVector<T>,
    variogram: Variogram<T>,
}

impl<T: Scalar> Kriging<T> {
    /// The sample abscissae.
    pub closed spec fn nodes(&self) -> Seq<T> {
        self.xs@
    }

    /// The sample values.
    pub closed spec fn values(&self) -> Seq<T> {
        self.ys@
    }

    /// The variogram model.
    pub closed spec fn model(&self) -> Variogram<T> {
        self.variogram
    }

    /// One value per sample.
    pub open spec fn well_formed(&self) -> bool {
        self.values().len() == self.nodes().len()
    }

    /// Builds the surrogate of the samples `(xs, ys)`: a dimension error when the lengths
    /// differ.
    pub fn new(xs: DVector<T>, ys: DVector<T>, variogram: Variogram<T>) -> (r: Result<Self, DenseError>)
        ensures
            ys@.len() != xs@.len() ==> (r matches Err(DenseError::DimensionMismatch { what }) && what@
                == samples_length_text(xs@.len() as usize, ys@.len() as usize)),
            ys@.len() == xs@.len() ==> (r matches Ok(k) && k.well_formed() && k.nodes() == xs@ && k.values()
                == ys@ && k.model() == variogram),
    {
        let n = xs.len();
        if ys.len() != n {
            return Err(DenseError::DimensionMismatch { what: samples_length_message(n, ys.len()) });
        }
        Ok(Kriging { xs, ys, variogram })
    }

    /// Predicts the value and the Kriging variance at `x` (see [`kriging_estimate`]): a
    /// singularity error when the bordered system [`kriging_rows`] has no usable pivot (the
    /// system must fit in memory).
    pub fn predict(&self, x: T) -> (r: Result<(T, T), DenseError>)
        requires
            self.well_formed(),
            (self.nodes().len() + 1) * (self.nodes().len() + 1) <= usize::MAX,
        ensures
            match lu_solve_rows(kriging_rows(self.nodes(), self.model()), kriging_rhs(self.nodes(), self.model(), x)) {
                None => r == Err::<(T, T), DenseError>(DenseError::Singular { what: "partial_pivot_lu" }),
                Some(w) => r == Ok::<(T, T), DenseError>(
                    kriging_estimate(self.nodes(), self.values(), self.model(), x, w),
                ),
            },
    {
        let xv = self.xs.iter();
        let yv = self.ys.iter();
        let v = self.variogram;
        let n = xv.len();
        assert(n + 1 <= usize::MAX) by (nonlinear_arith)
            requires
                (n + 1) * (n + 1) <= usize::MAX,
        ;
        let a = DMatrix::from_fn(
            n + 1,
            n + 1,
            |i: usize, j: usize| -> (e: T)
                requires
                    i <= xv@.len(),
                    j <= xv@.len()
                ensures
                    e == kriging_entry(xv@, v, i as int, j as int)
                {
                    let m = xv.len();
                    if i < m && j < m {
                        v.gamma(xv[i].minus(xv[j]).abs())
                    } else if (i < m && j == m) || (i == m && j < m) {
                        T::one()
                    } else {
                        T::zero()
                    }
                },
        );
        let rhs = DVector::from_fn(
            n + 1,
            |i: usize| -> (e: T)
                requires
                    i <= xv@.len()
                ensures
                    e == kriging_rhs(xv@, v, x)[i as int]
                {
                    if i < xv.len() {
                        v.gamma(xv[i].minus(x).abs())
                    } else {
                        T::one()
                    }
                },
        );
        proof {
            a.lemma_well_formed_covers();
            assert(square_rows(&a, (n + 1) as nat) =~= kriging_rows(xv@, v)) by {
                assert forall|i: int| 0 <= i < n + 1 implies #[trigger] square_rows(&a, (n + 1) as nat)[i]
                    =~= kriging_rows(xv@, v)[i] by {
                    assert forall|j: int| 0 <= j < n + 1 implies square_rows(&a, (n + 1) as nat)[i][j]
                        == kriging_rows(xv@, v)[i][j] by {
                        assert(a.entry(i, j) == kriging_entry(xv@, v, i, j));
                    }
                }
            }
            assert(rhs@ =~= kriging_rhs(xv@, v, x));
            lemma_lu_solve_rows_len(kriging_rows(xv@, v), rhs@);
        }
        let w = match a.solve(&rhs) {
            Err(e) => {
                return Err(e);
            },
            Ok(w) => w,
        };
        let wv = w.iter();
        let rv = rhs.iter();
        let mut mean = T::zero();
        for i in 0..n
            invariant
                n == xv@.len(),
                n == yv@.len(),
                wv@.len() == n + 1,
                mean == dot_prefix(wv@, yv@, i as int),
        {
            mean = mean.plus(wv[i].times(yv[i]));
        }
        let mut variance = wv[n];
        for i in 0..n
            invariant
                n == xv@.len(),
                wv@.len() == n + 1,
                rv@.len() == n + 1,
                variance == accumulate(wv@[n as int], wv@, rv@, i as int),
        {
            variance = variance.plus(wv[i].times(rv[i]));
        }
        Ok((mean, variance))
    }
}

} // verus!
