//! The PCHIP interpolant keeps the monotonicity of its data: over a scalar type with exact
//! real arithmetic ([`real_laws`]), non-decreasing values at strictly increasing nodes give
//! an interpolant that does not decrease anywhere between the first and the last node.
use vstd::prelude::*;

use crate::interpolate::{
    bisect, bracket, first_slope, hermite, initial_slopes, interior_slope, last_slope, limit_step, limit_upto,
    pchip_slopes, pchip_value, secants, strictly_increasing, three, widths,
};
use crate::real_model::{is_real_model, real_laws};
use crate::scalar::{two, Scalar};

verus! {

// ===========================================================================
// The Hermite cubic over the reals
// ===========================================================================

/// The Hermite basis polynomials at `t`.
spec fn b00(t: real) -> real {
    2real * (t * t * t) - 3real * (t * t) + 1real
}

spec fn b10(t: real) -> real {
    (t * t * t) - 2real * (t * t) + t
}

spec fn b01(t: real) -> real {
    (-2real) * (t * t * t) + 3real * (t * t)
}

spec fn b11(t: real) -> real {
    (t * t * t) - (t * t)
}

/// The Hermite cubic of one interval over the reals: end values `y0`, `y1`, end derivatives
/// `d0`, `d1`, width `h`, parameter `t`.
spec fn hermite_real(y0: real, y1: real, d0: real, d1: real, h: real, t: real) -> real {
    y0 * b00(t) + d0 * (b10(t) * h) + y1 * b01(t) + d1 * (b11(t) * h)
}

proof fn lemma_basis_differences(ta: real, tb: real)
    ensures
        b00(tb) - b00(ta) == (tb - ta) * (-(3real * (ta + tb) - 2real * (ta * ta + ta * tb + tb * tb))),
        b01(tb) - b01(ta) == (tb - ta) * (3real * (ta + tb) - 2real * (ta * ta + ta * tb + tb * tb)),
        b10(tb) - b10(ta) == (tb - ta) * (1real - 2real * (ta + tb) + (ta * ta + ta * tb + tb * tb)),
        b11(tb) - b11(ta) == (tb - ta) * ((ta * ta + ta * tb + tb * tb) - (ta + tb)),
{
    assert(tb * tb * tb - ta * ta * ta == (tb - ta) * (ta * ta + ta * tb + tb * tb)) by (nonlinear_arith);
    assert(tb * tb - ta * ta == (tb - ta) * (ta + tb)) by (nonlinear_arith);
    let w = tb - ta;
    let s = ta + tb;
    let q = ta * ta + ta * tb + tb * tb;
    assert(2real * (w * q) - 3real * (w * s) == w * (-(3real * s - 2real * q))) by (nonlinear_arith);
    assert((-2real) * (w * q) + 3real * (w * s) == w * (3real * s - 2real * q)) by (nonlinear_arith);
    assert(w * q - 2real * (w * s) + w == w * (1real - 2real * s + q)) by (nonlinear_arith);
    assert(w * q - w * s == w * (q - s)) by (nonlinear_arith);
}

proof fn lemma_scaled_difference(d: real, h: real, a: real, b: real)
    ensures
        d * (b * h) - d * (a * h) == (d * h) * (b - a),
{
    assert(d * (b * h) - d * (a * h) == (d * h) * (b - a)) by (nonlinear_arith);
}

proof fn lemma_value_difference(y0: real, y1: real, a: real, b: real, w: real, c: real)
    requires
        b - a == w * (-c),
    ensures
        y0 * b - y0 * a == -(w * (y0 * c)),
{
    assert(y0 * b - y0 * a == -(w * (y0 * c))) by (nonlinear_arith)
        requires
            b - a == w * (-c),
    ;
}

proof fn lemma_value_difference2(y1: real, a: real, b: real, w: real, c: real)
    requires
        b - a == w * c,
    ensures
        y1 * b - y1 * a == w * (y1 * c),
{
    assert(y1 * b - y1 * a == w * (y1 * c)) by (nonlinear_arith)
        requires
            b - a == w * c,
    ;
}

/// The difference of the cubic's values at `tb` and `ta` is `(tb - ta)` times a form that is
/// linear in the data.
proof fn lemma_hermite_difference(y0: real, y1: real, d0: real, d1: real, h: real, ta: real, tb: real)
    ensures
        hermite_real(y0, y1, d0, d1, h, tb) - hermite_real(y0, y1, d0, d1, h, ta) == (tb - ta) * ((y1 - y0) * (
        3real * (ta + tb) - 2real * (ta * ta + ta * tb + tb * tb)) + (d0 * h) * (1real - 2real * (ta + tb) + (ta
        * ta + ta * tb + tb * tb)) + (d1 * h) * ((ta * ta + ta * tb + tb * tb) - (ta + tb))),
{
    let w = tb - ta;
    let s = ta + tb;
    let q = ta * ta + ta * tb + tb * tb;
    let c1 = 3real * s - 2real * q;
    let c2 = 1real - 2real * s + q;
    let c3 = q - s;
    lemma_basis_differences(ta, tb);
    lemma_value_difference(y0, y1, b00(ta), b00(tb), w, c1);
    lemma_value_difference2(y1, b01(ta), b01(tb), w, c1);
    lemma_scaled_difference(d0, h, b10(ta), b10(tb));
    lemma_scaled_difference(d1, h, b11(ta), b11(tb));
    let e0 = d0 * h;
    let e1 = d1 * h;
    assert(e0 * (w * c2) == w * (e0 * c2)) by (nonlinear_arith);
    assert(e1 * (w * c3) == w * (e1 * c3)) by (nonlinear_arith);
    assert(y1 * c1 - y0 * c1 == (y1 - y0) * c1) by (nonlinear_arith);
    assert(w * (y1 * c1) - w * (y0 * c1) + w * (e0 * c2) + w * (e1 * c3) == w * ((y1 * c1 - y0 * c1) + e0 * c2
        + e1 * c3)) by (nonlinear_arith);
}

/// A form `dd c1 + e0 c2 + e1 c3` whose coefficients come from `0 <= ta, tb <= 1` is
/// non-negative when `e0` and `e1` lie in `[0, 3 dd]`: it is linear in `(e0, e1)`, and its
/// values at the four corners of that box are `dd` times `c1`, `c1 + 3 c2`, `c1 + 3 c3` and
/// `c1 + 3 c2 + 3 c3`, none of them negative.
proof fn lemma_form_nonneg(dd: real, e0: real, e1: real, ta: real, tb: real)
    requires
        0real <= e0 <= 3real * dd,
        0real <= e1 <= 3real * dd,
        0real <= ta <= 1real,
        0real <= tb <= 1real,
    ensures
        0real <= dd * (3real * (ta + tb) - 2real * (ta * ta + ta * tb + tb * tb)) + e0 * (1real - 2real * (ta
            + tb) + (ta * ta + ta * tb + tb * tb)) + e1 * ((ta * ta + ta * tb + tb * tb) - (ta + tb)),
{
    let c1 = 3real * (ta + tb) - 2real * (ta * ta + ta * tb + tb * tb);
    let c2 = 1real - 2real * (ta + tb) + (ta * ta + ta * tb + tb * tb);
    let c3 = (ta * ta + ta * tb + tb * tb) - (ta + tb);
    assert(0real <= c1) by (nonlinear_arith)
        requires
            0real <= ta <= 1real,
            0real <= tb <= 1real,
            c1 == 3real * (ta + tb) - 2real * (ta * ta + ta * tb + tb * tb),
    {
        assert(c1 == ta * (3real - 2real * ta - tb) + tb * (3real - ta - 2real * tb));
        assert(0real <= ta * (3real - 2real * ta - tb));
        assert(0real <= tb * (3real - ta - 2real * tb));
    }
    assert(0real <= c1 + 3real * c2) by (nonlinear_arith)
        requires
            0real <= ta <= 1real,
            0real <= tb <= 1real,
            c1 == 3real * (ta + tb) - 2real * (ta * ta + ta * tb + tb * tb),
            c2 == 1real - 2real * (ta + tb) + (ta * ta + ta * tb + tb * tb),
    {
        assert(c1 + 3real * c2 == (1real - ta) * (1real - ta) + (1real - ta) * (1real - tb) + (1real - tb) * (
        1real - tb));
        assert(0real <= (1real - ta) * (1real - tb));
    }
    assert(0real <= c1 + 3real * c3) by (nonlinear_arith)
        requires
            0real <= ta,
            0real <= tb,
            c1 == 3real * (ta + tb) - 2real * (ta * ta + ta * tb + tb * tb),
            c3 == (ta * ta + ta * tb + tb * tb) - (ta + tb),
    {
        assert(c1 + 3real * c3 == ta * ta + ta * tb + tb * tb);
        assert(0real <= ta * tb);
    }
    assert(0real <= c1 + 3real * c2 + 3real * c3) by (nonlinear_arith)
        requires
            c1 == 3real * (ta + tb) - 2real * (ta * ta + ta * tb + tb * tb),
            c2 == 1real - 2real * (ta + tb) + (ta * ta + ta * tb + tb * tb),
            c3 == (ta * ta + ta * tb + tb * tb) - (ta + tb),
    {
        assert(c1 + 3real * c2 + 3real * c3 == 3real * ((1real - ta - tb) * (1real - ta - tb)) + (ta - tb) * (ta
            - tb));
        assert(0real <= (1real - ta - tb) * (1real - ta - tb));
        assert(0real <= (ta - tb) * (ta - tb));
    }
    // Each derivative term is at least its value at the worse end of `[0, 3 dd]`.
    let m2 = if c2 < 0real { 3real * c2 } else { 0real };
    let m3 = if c3 < 0real { 3real * c3 } else { 0real };
    assert(dd * m2 <= e0 * c2) by (nonlinear_arith)
        requires
            0real <= e0 <= 3real * dd,
            m2 == (if c2 < 0real { 3real * c2 } else { 0real }),
    ;
    assert(dd * m3 <= e1 * c3) by (nonlinear_arith)
        requires
            0real <= e1 <= 3real * dd,
            m3 == (if c3 < 0real { 3real * c3 } else { 0real }),
    ;
    assert(0real <= c1 + m2 + m3);
    assert(0real <= dd);
    assert(0real <= dd * (c1 + m2 + m3)) by (nonlinear_arith)
        requires
            0real <= dd,
            0real <= c1 + m2 + m3,
    ;
    assert(dd * (c1 + m2 + m3) == dd * c1 + dd * m2 + dd * m3) by (nonlinear_arith);
}

/// The Hermite cubic with derivatives in the Fritsch–Carlson box does not decrease on
/// `[0, 1]`.
proof fn lemma_hermite_real_monotone(y0: real, y1: real, d0: real, d1: real, h: real, ta: real, tb: real)
    requires
        y0 <= y1,
        0real < h,
        0real <= d0 * h <= 3real * (y1 - y0),
        0real <= d1 * h <= 3real * (y1 - y0),
        0real <= ta <= tb,
        tb <= 1real,
    ensures
        hermite_real(y0, y1, d0, d1, h, ta) <= hermite_real(y0, y1, d0, d1, h, tb),
{
    lemma_hermite_difference(y0, y1, d0, d1, h, ta, tb);
    lemma_form_nonneg(y1 - y0, d0 * h, d1 * h, ta, tb);
    let e = (y1 - y0) * (3real * (ta + tb) - 2real * (ta * ta + ta * tb + tb * tb)) + (d0 * h) * (1real - 2real
        * (ta + tb) + (ta * ta + ta * tb + tb * tb)) + (d1 * h) * ((ta * ta + ta * tb + tb * tb) - (ta + tb));
    assert(0real <= (tb - ta) * e) by (nonlinear_arith)
        requires
            0real <= tb - ta,
            0real <= e,
    ;
}

/// At the ends of its interval the cubic takes its end values.
proof fn lemma_hermite_real_ends(y0: real, y1: real, d0: real, d1: real, h: real)
    ensures
        hermite_real(y0, y1, d0, d1, h, 0real) == y0,
        hermite_real(y0, y1, d0, d1, h, 1real) == y1,
{
    assert(b00(0real) == 1real && b10(0real) == 0real && b01(0real) == 0real && b11(0real) == 0real);
    assert(b00(1real) == 0real && b10(1real) == 0real && b01(1real) == 1real && b11(1real) == 0real);
    assert(y0 * 1real + d0 * (0real * h) + y1 * 0real + d1 * (0real * h) == y0) by (nonlinear_arith);
    assert(y0 * 0real + d0 * (0real * h) + y1 * 1real + d1 * (0real * h) == y1) by (nonlinear_arith);
}

/// Through a real model `f`, [`hermite`] is [`hermite_real`] at the parameter
/// `(x - x0) / (x1 - x0)`.
proof fn lemma_hermite_model<T: Scalar>(f: spec_fn(T) -> real, x0: T, x1: T, y0: T, y1: T, d0: T, d1: T, x: T)
    requires
        is_real_model(f),
        f(x0) != f(x1),
    ensures
        f(hermite(x0, x1, y0, y1, d0, d1, x)) == hermite_real(f(y0), f(y1), f(d0), f(d1), f(x1) - f(x0), (f(x)
            - f(x0)) / (f(x1) - f(x0))),
{
    let h = x1.minus_spec(x0);
    let t = x.minus_spec(x0).divide_spec(h);
    let t2 = t.times_spec(t);
    let t3 = t2.times_spec(t);
    let tw = two::<T>();
    let th = three::<T>();
    let o = T::one_spec();
    assert(f(h) == f(x1) - f(x0));
    assert(f(x.minus_spec(x0)) == f(x) - f(x0));
    assert(f(t) == (f(x) - f(x0)) / (f(x1) - f(x0)));
    let ft = f(t);
    assert(f(tw) == 2real);
    assert(f(th) == 3real);
    assert(f(tw.negate_spec()) == -2real);
    assert(f(t2) == ft * ft);
    assert(f(t3) == ft * ft * ft);
    let h00 = tw.times_spec(t3).minus_spec(th.times_spec(t2)).plus_spec(o);
    let h10 = t3.minus_spec(tw.times_spec(t2)).plus_spec(t);
    let h01 = tw.negate_spec().times_spec(t3).plus_spec(th.times_spec(t2));
    let h11 = t3.minus_spec(t2);
    assert(f(h00) == b00(ft));
    assert(f(h10) == b10(ft));
    assert(f(h01) == b01(ft));
    assert(f(h11) == b11(ft));
}

/// On one interval, with end derivatives in the Fritsch–Carlson box of its secant, the
/// Hermite cubic does not decrease.
proof fn lemma_interval_monotone<T: Scalar>(
    f: spec_fn(T) -> real,
    x0: T,
    x1: T,
    y0: T,
    y1: T,
    d0: T,
    d1: T,
    a: T,
    b: T,
)
    requires
        is_real_model(f),
        f(x0) < f(x1),
        f(y0) <= f(y1),
        0real <= f(d0) <= 3real * ((f(y1) - f(y0)) / (f(x1) - f(x0))),
        0real <= f(d1) <= 3real * ((f(y1) - f(y0)) / (f(x1) - f(x0))),
        f(x0) <= f(a) <= f(b) <= f(x1),
    ensures
        f(hermite(x0, x1, y0, y1, d0, d1, a)) <= f(hermite(x0, x1, y0, y1, d0, d1, b)),
{
    let hh = f(x1) - f(x0);
    let dy = f(y1) - f(y0);
    let sec = dy / hh;
    assert(sec * hh == dy) by (nonlinear_arith)
        requires
            0real < hh,
            sec == dy / hh,
    ;
    assert(f(d0) * hh <= 3real * dy) by (nonlinear_arith)
        requires
            0real < hh,
            f(d0) <= 3real * sec,
            sec * hh == dy,
    ;
    assert(f(d1) * hh <= 3real * dy) by (nonlinear_arith)
        requires
            0real < hh,
            f(d1) <= 3real * sec,
            sec * hh == dy,
    ;
    assert(0real <= f(d0) * hh) by (nonlinear_arith)
        requires
            0real < hh,
            0real <= f(d0),
    ;
    assert(0real <= f(d1) * hh) by (nonlinear_arith)
        requires
            0real < hh,
            0real <= f(d1),
    ;
    let ta = (f(a) - f(x0)) / hh;
    let tb = (f(b) - f(x0)) / hh;
    assert(0real <= ta <= tb && tb <= 1real) by (nonlinear_arith)
        requires
            0real < hh,
            hh == f(x1) - f(x0),
            f(x0) <= f(a) <= f(b) <= f(x1),
            ta == (f(a) - f(x0)) / hh,
            tb == (f(b) - f(x0)) / hh,
    {
        assert(ta * hh == f(a) - f(x0));
        assert(tb * hh == f(b) - f(x0));
    }
    lemma_hermite_model(f, x0, x1, y0, y1, d0, d1, a);
    lemma_hermite_model(f, x0, x1, y0, y1, d0, d1, b);
    lemma_hermite_real_monotone(f(y0), f(y1), f(d0), f(d1), hh, ta, tb);
}

/// At the ends of its interval, [`hermite`] takes its end values (through a real model).
proof fn lemma_hermite_model_ends<T: Scalar>(f: spec_fn(T) -> real, x0: T, x1: T, y0: T, y1: T, d0: T, d1: T)
    requires
        is_real_model(f),
        f(x0) != f(x1),
    ensures
        f(hermite(x0, x1, y0, y1, d0, d1, x0)) == f(y0),
        f(hermite(x0, x1, y0, y1, d0, d1, x1)) == f(y1),
{
    let hh = f(x1) - f(x0);
    lemma_hermite_model(f, x0, x1, y0, y1, d0, d1, x0);
    lemma_hermite_model(f, x0, x1, y0, y1, d0, d1, x1);
    assert((f(x0) - f(x0)) / hh == 0real) by (nonlinear_arith)
        requires
            hh != 0real,
    ;
    assert((f(x1) - f(x0)) / hh == 1real) by (nonlinear_arith)
        requires
            hh != 0real,
            hh == f(x1) - f(x0),
    ;
    lemma_hermite_real_ends(f(y0), f(y1), f(d0), f(d1), hh);
}

// ===========================================================================
// The node derivatives lie in the Fritsch–Carlson box
// ===========================================================================

/// Through the real model `f`: at least two nodes, as many values, strictly increasing
/// nodes and values that never decrease from one node to the next.
spec fn data_ok<T: Scalar>(f: spec_fn(T) -> real, xs: Seq<T>, ys: Seq<T>) -> bool {
    &&& is_real_model(f)
    &&& xs.len() >= 2
    &&& ys.len() == xs.len()
    &&& forall|i: int, k: int| #![trigger f(xs[i]), f(xs[k])] 0 <= i < k < xs.len() ==> f(xs[i]) < f(xs[k])
    &&& forall|i: int, k: int|
        #![trigger f(ys[i]), f(ys[k])]
        0 <= i && k == i + 1 && k < ys.len() ==> f(ys[i]) <= f(ys[k])
}

/// `0 <= d <= 3 s`.
spec fn in_box(d: real, s: real) -> bool {
    0real <= d && d <= 3real * s
}

/// The widths are positive and the secants non-negative, and they are what their formulas
/// give over the reals.
proof fn lemma_interval_facts<T: Scalar>(f: spec_fn(T) -> real, xs: Seq<T>, ys: Seq<T>, k: int)
    requires
        data_ok(f, xs, ys),
        0 <= k < xs.len() - 1,
    ensures
        f(widths(xs)[k]) == f(xs[k + 1]) - f(xs[k]),
        0real < f(widths(xs)[k]),
        f(secants(xs, ys)[k]) == (f(ys[k + 1]) - f(ys[k])) / (f(xs[k + 1]) - f(xs[k])),
        0real <= f(secants(xs, ys)[k]),
        f(ys[k]) <= f(ys[k + 1]),
        f(xs[k]) < f(xs[k + 1]),
{
    assert(f(xs[k]) < f(xs[k + 1]));
    assert(f(ys[k]) <= f(ys[k + 1]));
    let hh = f(xs[k + 1]) - f(xs[k]);
    let dy = f(ys[k + 1]) - f(ys[k]);
    assert(0real <= dy / hh) by (nonlinear_arith)
        requires
            0real < hh,
            0real <= dy,
    ;
}

proof fn lemma_harmonic_bound(a: real, b: real, p: real, q: real, val: real, u1: real, u2: real)
    requires
        0real < a,
        0real < b,
        0real < p,
        0real < q,
        u1 == (2real * a + b) / p,
        u2 == (a + 2real * b) / q,
        val == (3real * (a + b)) / (u1 + u2),
    ensures
        0real <= val,
        val <= 3real * p,
        val <= 3real * q,
{
    assert(u1 * p == 2real * a + b) by (nonlinear_arith)
        requires
            0real < p,
            u1 == (2real * a + b) / p,
    ;
    assert(u2 * q == a + 2real * b) by (nonlinear_arith)
        requires
            0real < q,
            u2 == (a + 2real * b) / q,
    ;
    assert(0real < u1 && 0real < u2) by (nonlinear_arith)
        requires
            0real < p,
            0real < q,
            0real < a,
            0real < b,
            u1 * p == 2real * a + b,
            u2 * q == a + 2real * b,
    ;
    let den = u1 + u2;
    assert(val * den == 3real * (a + b)) by (nonlinear_arith)
        requires
            0real < den,
            val == (3real * (a + b)) / den,
    ;
    assert(0real <= val) by (nonlinear_arith)
        requires
            0real < den,
            val * den == 3real * (a + b),
            0real < a,
            0real < b,
    ;
    assert(u1 * p <= den * p) by (nonlinear_arith)
        requires
            0real < p,
            u1 <= den,
    ;
    assert(u2 * q <= den * q) by (nonlinear_arith)
        requires
            0real < q,
            u2 <= den,
    ;
    assert(val <= 3real * p) by (nonlinear_arith)
        requires
            0real < den,
            val * den == 3real * (a + b),
            3real * (a + b) <= 3real * (u1 * p),
            u1 * p <= den * p,
    ;
    assert(val <= 3real * q) by (nonlinear_arith)
        requires
            0real < den,
            val * den == 3real * (a + b),
            3real * (a + b) <= 3real * (u2 * q),
            u2 * q <= den * q,
    ;
}

proof fn lemma_end_bound(a: real, b: real, p: real, q: real, val: real)
    requires
        0real < a,
        0real < b,
        0real <= p,
        0real <= q,
        val == ((2real * a + b) * p - a * q) / (a + b),
    ensures
        val <= 3real * p,
{
    assert(val * (a + b) == (2real * a + b) * p - a * q) by (nonlinear_arith)
        requires
            0real < a + b,
            val == ((2real * a + b) * p - a * q) / (a + b),
    ;
    assert((2real * a + b) * p - a * q <= 3real * p * (a + b)) by (nonlinear_arith)
        requires
            0real < a,
            0real < b,
            0real <= p,
            0real <= q,
    ;
    assert(val <= 3real * p) by (nonlinear_arith)
        requires
            0real < a + b,
            val * (a + b) <= 3real * p * (a + b),
    ;
}

/// The derivatives before the limiter: the first is at most three times the first secant,
/// each later one at most three times the secant on its left, and each interior one lies in
/// the box of the secant on its right.
proof fn lemma_initial_bounds<T: Scalar>(f: spec_fn(T) -> real, xs: Seq<T>, ys: Seq<T>)
    requires
        data_ok(f, xs, ys),
    ensures
        initial_slopes(xs, ys).len() == xs.len(),
        f(initial_slopes(xs, ys)[0]) <= 3real * f(secants(xs, ys)[0]),
        forall|i: int|
            1 <= i < xs.len() ==> #[trigger] f(initial_slopes(xs, ys)[i]) <= 3real * f(secants(xs, ys)[i - 1]),
        forall|i: int|
            1 <= i < xs.len() - 1 ==> in_box(#[trigger] f(initial_slopes(xs, ys)[i]), f(secants(xs, ys)[i])),
{
    let n = xs.len() as int;
    let m = n - 1;
    let d0 = initial_slopes(xs, ys);
    let h = widths(xs);
    let delta = secants(xs, ys);
    lemma_interval_facts(f, xs, ys, 0);
    if n == 2 {
        assert(d0[0] == delta[0] && d0[1] == delta[0]);
    } else {
        lemma_interval_facts(f, xs, ys, 1);
        lemma_interval_facts(f, xs, ys, m - 1);
        lemma_interval_facts(f, xs, ys, m - 2);
        assert(d0[0] == first_slope(h, delta));
        assert(f(two::<T>()) == 2real);
        lemma_end_bound(f(h[0]), f(h[1]), f(delta[0]), f(delta[1]), f(d0[0]));
        assert(d0[m] == last_slope(h, delta, m));
        lemma_end_bound(f(h[m - 1]), f(h[m - 2]), f(delta[m - 1]), f(delta[m - 2]), f(d0[m]));
        assert forall|i: int| 1 <= i < n - 1 implies in_box(#[trigger] f(d0[i]), f(delta[i])) && f(d0[i]) <= 3real
            * f(delta[i - 1]) by {
            lemma_interval_facts(f, xs, ys, i - 1);
            lemma_interval_facts(f, xs, ys, i);
            assert(d0[i] == interior_slope(h, delta, i));
            assert(f(three::<T>()) == 3real);
            if delta[i - 1].times_spec(delta[i]).le_spec(T::zero_spec()) {
                assert(f(d0[i]) == 0real);
            } else {
                let p = f(delta[i - 1]);
                let q = f(delta[i]);
                assert(0real < p * q);
                assert(0real < p && 0real < q) by (nonlinear_arith)
                    requires
                        0real <= p,
                        0real <= q,
                        0real < p * q,
                ;
                let w1 = two::<T>().times_spec(h[i - 1]).plus_spec(h[i]);
                let w2 = h[i - 1].plus_spec(two::<T>().times_spec(h[i]));
                let u1 = f(w1) / p;
                let u2 = f(w2) / q;
                assert(f(w1.divide_spec(delta[i - 1])) == u1);
                assert(f(w2.divide_spec(delta[i])) == u2);
                assert(0real < u1 + u2) by (nonlinear_arith)
                    requires
                        0real < p,
                        0real < q,
                        0real < f(w1),
                        0real < f(w2),
                        u1 == f(w1) / p,
                        u2 == f(w2) / q,
                {
                    assert(u1 * p == f(w1));
                    assert(u2 * q == f(w2));
                }
                lemma_harmonic_bound(f(h[i - 1]), f(h[i]), p, q, f(d0[i]), u1, u2);
            }
        }
    }
}

/// One limiter step on interval `i` with a non-negative secant, whose two derivatives are at
/// most three times the secant: both come out in the box, neither grows unless it was
/// negative (then it becomes zero), and nothing else changes.
proof fn lemma_limit_step_facts<T: Scalar>(f: spec_fn(T) -> real, d: Seq<T>, delta: T, i: int)
    requires
        is_real_model(f),
        0 <= i,
        i + 1 < d.len(),
        0real <= f(delta),
        f(d[i]) <= 3real * f(delta),
        f(d[i + 1]) <= 3real * f(delta),
    ensures
        limit_step(d, delta, i).len() == d.len(),
        forall|j: int| 0 <= j < d.len() && j != i && j != i + 1 ==> limit_step(d, delta, i)[j] == d[j],
        in_box(f(limit_step(d, delta, i)[i]), f(delta)),
        in_box(f(limit_step(d, delta, i)[i + 1]), f(delta)),
        f(limit_step(d, delta, i)[i]) <= f(d[i]) || f(limit_step(d, delta, i)[i]) == 0real,
        f(limit_step(d, delta, i)[i + 1]) <= f(d[i + 1]) || f(limit_step(d, delta, i)[i + 1]) == 0real,
{
    let z = T::zero_spec();
    let r = limit_step(d, delta, i);
    let fd = f(delta);
    if delta.eq_spec(z) {
        assert(r == d.update(i, z).update(i + 1, z));
    } else {
        assert(fd != 0real);
        assert(0real < fd);
        let a = d[i].divide_spec(delta);
        let b = d[i + 1].divide_spec(delta);
        let ss = a.times_spec(a).plus_spec(b.times_spec(b));
        let th = three::<T>();
        assert(f(th) == 3real);
        let fa = f(a);
        let fb = f(b);
        assert(fa == f(d[i]) / fd);
        assert(fb == f(d[i + 1]) / fd);
        assert(fa * fd == f(d[i])) by (nonlinear_arith)
            requires
                0real < fd,
                fa == f(d[i]) / fd,
        ;
        assert(fb * fd == f(d[i + 1])) by (nonlinear_arith)
            requires
                0real < fd,
                fb == f(d[i + 1]) / fd,
        ;
        let cond = z.le_spec(a) && z.le_spec(b) && th.times_spec(th).lt_spec(ss);
        let d1 = if cond {
            let tau = th.divide_spec(ss.sqrt_spec());
            d.update(i, tau.times_spec(a).times_spec(delta)).update(i + 1, tau.times_spec(b).times_spec(delta))
        } else {
            d
        };
        if cond {
            let fs = f(ss);
            assert(fs == fa * fa + fb * fb);
            assert(9real < fs);
            let r0 = f(ss.sqrt_spec());
            assert(0real <= r0 && r0 * r0 == fs);
            assert(3real < r0) by (nonlinear_arith)
                requires
                    0real <= r0,
                    r0 * r0 == fs,
                    9real < fs,
            ;
            let tau = th.divide_spec(ss.sqrt_spec());
            let ft = f(tau);
            assert(ft == 3real / r0);
            assert(0real < ft && ft < 1real && ft * r0 == 3real) by (nonlinear_arith)
                requires
                    3real < r0,
                    ft == 3real / r0,
            ;
            assert(0real <= fa && 0real <= fb);
            assert(fa <= r0 && fb <= r0) by (nonlinear_arith)
                requires
                    0real <= fa,
                    0real <= fb,
                    0real <= r0,
                    r0 * r0 == fa * fa + fb * fb,
            ;
            let na = tau.times_spec(a).times_spec(delta);
            let nb = tau.times_spec(b).times_spec(delta);
            assert(f(na) == ft * fa * fd);
            assert(f(nb) == ft * fb * fd);
            assert(0real <= ft * fa * fd && ft * fa * fd <= fa * fd && ft * fa * fd <= 3real * fd) by (nonlinear_arith)
                requires
                    0real < ft,
                    ft < 1real,
                    ft * r0 == 3real,
                    0real <= fa,
                    fa <= r0,
                    0real < fd,
            {
                assert(ft * fa <= ft * r0);
                assert(ft * fa <= fa);
            }
            assert(0real <= ft * fb * fd && ft * fb * fd <= fb * fd && ft * fb * fd <= 3real * fd) by (nonlinear_arith)
                requires
                    0real < ft,
                    ft < 1real,
                    ft * r0 == 3real,
                    0real <= fb,
                    fb <= r0,
                    0real < fd,
            {
                assert(ft * fb <= ft * r0);
                assert(ft * fb <= fb);
            }
            assert(d1[i] == na && d1[i + 1] == nb);
            assert(0real <= f(na) * fd) by (nonlinear_arith)
                requires
                    0real <= f(na),
                    0real < fd,
            ;
            assert(0real <= f(nb) * fd) by (nonlinear_arith)
                requires
                    0real <= f(nb),
                    0real < fd,
            ;
        }
        let d2 = if d1[i].times_spec(delta).lt_spec(z) {
            d1.update(i, z)
        } else {
            d1
        };
        assert(f(d1[i]) * fd < 0real <==> f(d1[i]) < 0real) by (nonlinear_arith)
            requires
                0real < fd,
        ;
        assert(f(d2[i + 1]) * fd < 0real <==> f(d2[i + 1]) < 0real) by (nonlinear_arith)
            requires
                0real < fd,
        ;
        assert(r == if d2[i + 1].times_spec(delta).lt_spec(z) {
            d2.update(i + 1, z)
        } else {
            d2
        });
    }
}

/// After the limiter has run over the intervals before `k`: those intervals have both end
/// derivatives in their boxes, the derivatives after node `k` are untouched, and the one at
/// node `k` is at most three times the secant on its right.
proof fn lemma_limit_upto_facts<T: Scalar>(f: spec_fn(T) -> real, xs: Seq<T>, ys: Seq<T>, k: int)
    requires
        data_ok(f, xs, ys),
        0 <= k <= xs.len() - 1,
    ensures
        limit_upto(initial_slopes(xs, ys), secants(xs, ys), k).len() == xs.len(),
        forall|j: int|
            0 <= j < k ==> in_box(
                #[trigger] f(limit_upto(initial_slopes(xs, ys), secants(xs, ys), k)[j]),
                f(secants(xs, ys)[j]),
            ) && in_box(f(limit_upto(initial_slopes(xs, ys), secants(xs, ys), k)[j + 1]), f(secants(xs, ys)[j])),
        forall|i: int|
            k < i < xs.len() ==> #[trigger] limit_upto(initial_slopes(xs, ys), secants(xs, ys), k)[i]
                == initial_slopes(xs, ys)[i],
        k < xs.len() - 1 ==> f(limit_upto(initial_slopes(xs, ys), secants(xs, ys), k)[k]) <= 3real * f(
            secants(xs, ys)[k],
        ),
    decreases k,
{
    let d0 = initial_slopes(xs, ys);
    let delta = secants(xs, ys);
    lemma_initial_bounds(f, xs, ys);
    if k > 0 {
        lemma_limit_upto_facts(f, xs, ys, k - 1);
        let prev = limit_upto(d0, delta, k - 1);
        let cur = limit_upto(d0, delta, k);
        assert(cur == limit_step(prev, delta[k - 1], k - 1));
        lemma_interval_facts(f, xs, ys, k - 1);
        assert(prev[k] == d0[k]);
        assert(f(d0[k]) <= 3real * f(delta[k - 1]));
        lemma_limit_step_facts(f, prev, delta[k - 1], k - 1);
        assert forall|j: int| 0 <= j < k implies in_box(#[trigger] f(cur[j]), f(delta[j])) && in_box(
            f(cur[j + 1]),
            f(delta[j]),
        ) by {
            if j < k - 1 {
                lemma_interval_facts(f, xs, ys, j);
                assert(in_box(f(prev[j]), f(delta[j])) && in_box(f(prev[j + 1]), f(delta[j])));
                if j + 1 == k - 1 {
                    assert(cur[j] == prev[j]);
                } else {
                    assert(cur[j] == prev[j] && cur[j + 1] == prev[j + 1]);
                }
            }
        }
        if k < xs.len() - 1 {
            lemma_interval_facts(f, xs, ys, k);
            assert(in_box(f(d0[k]), f(delta[k])));
        }
    } else {
        if 0 < xs.len() - 1 {
            assert(f(d0[0]) <= 3real * f(delta[0]));
        }
    }
}

// ===========================================================================
// Monotonicity across the intervals
// ===========================================================================

/// The bisection finds an interval whose start is at most `x` and whose end exceeds it.
proof fn lemma_bisect_facts<T: Scalar>(f: spec_fn(T) -> real, xs: Seq<T>, x: T, lo: int, hi: int)
    requires
        is_real_model(f),
        0 <= lo < hi < xs.len(),
        f(xs[lo]) <= f(x) < f(xs[hi]),
    ensures
        lo <= bisect(xs, x, lo, hi) < hi,
        f(xs[bisect(xs, x, lo, hi)]) <= f(x) < f(xs[bisect(xs, x, lo, hi) + 1]),
    decreases hi - lo,
{
    if hi - lo > 1 {
        let mid = lo + (hi - lo) / 2;
        if xs[mid].le_spec(x) {
            lemma_bisect_facts(f, xs, x, mid, hi);
        } else {
            lemma_bisect_facts(f, xs, x, lo, mid);
        }
    }
}

/// A point between the first and the last node is evaluated on an interval that holds it.
proof fn lemma_bracket_facts<T: Scalar>(f: spec_fn(T) -> real, xs: Seq<T>, ys: Seq<T>, x: T)
    requires
        data_ok(f, xs, ys),
        f(xs[0]) <= f(x) <= f(xs[xs.len() - 1]),
    ensures
        0 <= bracket(xs, x) < xs.len() - 1,
        f(xs[bracket(xs, x)]) <= f(x) <= f(xs[bracket(xs, x) + 1]),
{
    let n = xs.len() as int;
    assert(f(xs[0]) < f(xs[1]));
    assert(f(xs[n - 2]) < f(xs[n - 1]));
    if !x.le_spec(xs[0]) && !xs[n - 1].le_spec(x) {
        lemma_bisect_facts(f, xs, x, 0, n - 1);
    }
}

/// Values that never decrease from one node to the next never decrease at all.
proof fn lemma_values_chain<T: Scalar>(f: spec_fn(T) -> real, xs: Seq<T>, ys: Seq<T>, i: int, j: int)
    requires
        data_ok(f, xs, ys),
        0 <= i <= j < ys.len(),
    ensures
        f(ys[i]) <= f(ys[j]),
    decreases j - i,
{
    if i < j {
        lemma_values_chain(f, xs, ys, i + 1, j);
        assert(f(ys[i]) <= f(ys[i + 1]));
    }
}

/// The PCHIP interpolant keeps the monotonicity of its data: over a scalar type with exact
/// real arithmetic ([`real_laws`]), if the nodes strictly increase and the values never
/// decrease from one node to the next, then for `a <= b` between the first and the last
/// node the interpolant's value at `a` is at most its value at `b`.
pub proof fn lemma_pchip_monotone<T: Scalar>(xs: Seq<T>, ys: Seq<T>, a: T, b: T)
    requires
        real_laws::<T>(),
        xs.len() >= 2,
        ys.len() == xs.len(),
        strictly_increasing(xs),
        forall|i: int| 0 <= i < ys.len() - 1 ==> #[trigger] ys[i].le_spec(ys[i + 1]),
        xs[0].le_spec(a),
        a.le_spec(b),
        b.le_spec(xs[xs.len() - 1]),
    ensures
        pchip_value(xs, ys, pchip_slopes(xs, ys), a).le_spec(pchip_value(xs, ys, pchip_slopes(xs, ys), b)),
{
    let f = choose|f: spec_fn(T) -> real| is_real_model(f);
    let n = xs.len() as int;
    assert forall|i: int, k: int| 0 <= i < k < xs.len() implies f(xs[i]) < f(xs[k]) by {
        assert(xs[i].lt_spec(xs[k]));
    }
    assert forall|i: int, k: int| 0 <= i && k == i + 1 && k < ys.len() implies f(ys[i]) <= f(ys[k]) by {
        assert(ys[i].le_spec(ys[i + 1]));
    }
    assert(data_ok(f, xs, ys));
    let ds = pchip_slopes(xs, ys);
    let delta = secants(xs, ys);
    lemma_limit_upto_facts(f, xs, ys, n - 1);
    lemma_bracket_facts(f, xs, ys, a);
    lemma_bracket_facts(f, xs, ys, b);
    let ka = bracket(xs, a);
    let kb = bracket(xs, b);
    lemma_interval_facts(f, xs, ys, ka);
    lemma_interval_facts(f, xs, ys, kb);
    assert(in_box(f(ds[ka]), f(delta[ka])) && in_box(f(ds[ka + 1]), f(delta[ka])));
    assert(in_box(f(ds[kb]), f(delta[kb])) && in_box(f(ds[kb + 1]), f(delta[kb])));
    let va = pchip_value(xs, ys, ds, a);
    let vb = pchip_value(xs, ys, ds, b);
    assert(va == hermite(xs[ka], xs[ka + 1], ys[ka], ys[ka + 1], ds[ka], ds[ka + 1], a));
    assert(vb == hermite(xs[kb], xs[kb + 1], ys[kb], ys[kb + 1], ds[kb], ds[kb + 1], b));
    lemma_hermite_model_ends(f, xs[ka], xs[ka + 1], ys[ka], ys[ka + 1], ds[ka], ds[ka + 1]);
    lemma_hermite_model_ends(f, xs[kb], xs[kb + 1], ys[kb], ys[kb + 1], ds[kb], ds[kb + 1]);
    if ka == kb {
        lemma_interval_monotone(f, xs[ka], xs[ka + 1], ys[ka], ys[ka + 1], ds[ka], ds[ka + 1], a, b);
    } else if ka < kb {
        lemma_interval_monotone(f, xs[ka], xs[ka + 1], ys[ka], ys[ka + 1], ds[ka], ds[ka + 1], a, xs[ka + 1]);
        lemma_values_chain(f, xs, ys, ka + 1, kb);
        lemma_interval_monotone(f, xs[kb], xs[kb + 1], ys[kb], ys[kb + 1], ds[kb], ds[kb + 1], xs[kb], b);
    } else {
        if kb + 1 < ka {
            assert(f(xs[kb + 1]) < f(xs[ka]));
        }
        assert(kb + 1 == ka);
        assert(f(a) == f(xs[ka]));
        assert(a == xs[ka]);
        assert(f(b) == f(xs[kb + 1]));
        assert(b == xs[kb + 1]);
    }
}

} // verus!
