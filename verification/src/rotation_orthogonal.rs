//! Every rotation constructor gives an orthogonal matrix: over a scalar type with exact
//! real arithmetic ([`real_laws`]) whose cosine and sine satisfy [`pythagorean_laws`], the
//! matrices of the axis-angle constructor, of the Euler-angle constructor, of `powf` (from an
//! orthogonal matrix) and of a unit quaternion satisfy `R R^T = I`.
use vstd::prelude::*;

use crate::geometry::{axis_angle_rows, basis3, euler_rows, power_axis, quat_rows, rodrigues_rows, trace_angle, unit_axis};
use crate::linalg_fixed::{column, dot_prefix, dot_seq, identity_rows, mat_mul_spec, norm_seq, transpose_rows};
use crate::real_model::{is_real_model, real_laws};
use crate::scalar::{tiny, Scalar};

verus! {

// ===========================================================================
// Rodrigues' formula over the reals
// ===========================================================================

proof fn lemma_square_sum(x: real, y: real)
    ensures
        (x + y) * (x + y) == x * x + 2real * (x * y) + y * y,
        (x - y) * (x - y) == x * x - 2real * (x * y) + y * y,
{
    assert((x + y) * (x + y) == x * x + 2real * (x * y) + y * y) by (nonlinear_arith);
    assert((x - y) * (x - y) == x * x - 2real * (x * y) + y * y) by (nonlinear_arith);
}

proof fn lemma_product_sum(x: real, y: real, z: real, w: real)
    ensures
        (x + y) * (z + w) == x * z + x * w + y * z + y * w,
        (x + y) * (z - w) == x * z - x * w + y * z - y * w,
        (x - y) * (z + w) == x * z + x * w - y * z - y * w,
{
    assert((x + y) * (z + w) == x * z + x * w + y * z + y * w) by (nonlinear_arith);
    assert((x + y) * (z - w) == x * z - x * w + y * z - y * w) by (nonlinear_arith);
    assert((x - y) * (z + w) == x * z + x * w - y * z - y * w) by (nonlinear_arith);
}

/// `(p q)(r w) = (p r)(q w)`.
proof fn lemma_swap_middle(p: real, q: real, r: real, w: real)
    ensures
        (p * q) * (r * w) == (p * r) * (q * w),
{
    assert((p * q) * (r * w) == (p * r) * (q * w)) by (nonlinear_arith);
}

/// `x y = y x` and `x (y z) = (x y) z`.
proof fn lemma_mul_facts(x: real, y: real, z: real)
    ensures
        x * y == y * x,
        x * (y * z) == (x * y) * z,
        x * (y + z) == x * y + x * z,
        x * (y - z) == x * y - x * z,
{
    assert(x * y == y * x) by (nonlinear_arith);
    assert(x * (y * z) == (x * y) * z) by (nonlinear_arith);
    assert(x * (y + z) == x * y + x * z) by (nonlinear_arith);
    assert(x * (y - z) == x * y - x * z) by (nonlinear_arith);
}

/// `x m = x` when `m = 1`.
proof fn lemma_times_one(x: real, m: real)
    requires
        m == 1real,
    ensures
        x * m == x,
{
}

/// `2 c t + t t = 1 - c c` when `t = 1 - c`.
proof fn lemma_cosine_complement(c: real, t: real)
    requires
        t == 1real - c,
    ensures
        2real * (c * t) + t * t == 1real - c * c,
{
    assert(2real * (c * t) + t * t == 1real - c * c) by (nonlinear_arith)
        requires
            t == 1real - c,
    ;
}

/// A row of Rodrigues' matrix dotted with itself is one: `c, s` on the unit circle, `(a, b, g)`
/// a unit vector, and the row `[c + t a a, t a b - s g, t a g + s b]` with `t = 1 - c`.
proof fn lemma_rodrigues_row_unit(c: real, s: real, t: real, a: real, b: real, g: real)
    requires
        t == 1real - c,
        c * c + s * s == 1real,
        a * a + b * b + g * g == 1real,
    ensures
        (c + (t * a) * a) * (c + (t * a) * a) + ((t * a) * b - s * g) * ((t * a) * b - s * g) + ((t * a) * g + s
            * b) * ((t * a) * g + s * b) == 1real,
{
    let p = t * a;
    lemma_square_sum(c, p * a);
    lemma_square_sum(p * b, s * g);
    lemma_square_sum(p * g, s * b);
    lemma_swap_middle(p, b, s, g);
    lemma_swap_middle(p, g, s, b);
    lemma_mul_facts(b, g, a);
    lemma_swap_middle(p, a, p, a);
    lemma_swap_middle(p, b, p, b);
    lemma_swap_middle(p, g, p, g);
    lemma_swap_middle(s, g, s, g);
    lemma_swap_middle(s, b, s, b);
    // (p p)(a a + b b + g g) = p p, and (s s)(b b + g g) = s s - (s s)(a a).
    lemma_mul_facts(p * p, a * a, b * b);
    lemma_mul_facts(p * p, a * a + b * b, g * g);
    lemma_times_one(p * p, a * a + b * b + g * g);
    lemma_mul_facts(s * s, b * b, g * g);
    lemma_mul_facts(s * s, 1real, a * a);
    assert((s * s) * (b * b + g * g) == (s * s) * (1real - a * a));
    lemma_times_one(s * s, 1real);
    // c (p a) = (c t)(a a) and p p = (t t)(a a).
    lemma_mul_facts(t, a, a);
    lemma_mul_facts(c, t, a * a);
    lemma_swap_middle(t, a, t, a);
    lemma_cosine_complement(c, t);
    lemma_mul_facts(a * a, 2real * (c * t), t * t);
    lemma_mul_facts(a * a, 1real, c * c);
    lemma_mul_facts(a * a, 1real - c * c, s * s);
    lemma_mul_facts(2real, c * t, a * a);
    lemma_mul_facts(a * a, c * t, 2real);
    lemma_mul_facts(a * a, t * t, 1real);
    lemma_times_one(a * a, 1real);
    let u = c * c + s * s;
    assert((a * a) * (1real - c * c - s * s) == 0real) by (nonlinear_arith)
        requires
            c * c + s * s == 1real,
    ;
}

/// Two different rows of Rodrigues' matrix are orthogonal: `[c + P a, P b - s g, P g + s b]`
/// and `[Q a + s g, c + Q b, Q g - s a]` with `P = t a`, `Q = t b`, `t = 1 - c`.
proof fn lemma_rodrigues_rows_orthogonal(c: real, s: real, t: real, a: real, b: real, g: real)
    requires
        t == 1real - c,
        c * c + s * s == 1real,
        a * a + b * b + g * g == 1real,
    ensures
        (c + (t * a) * a) * ((t * b) * a + s * g) + ((t * a) * b - s * g) * (c + (t * b) * b) + ((t * a) * g + s
            * b) * ((t * b) * g - s * a) == 0real,
{
    let p = t * a;
    let q = t * b;
    lemma_product_sum(c, p * a, q * a, s * g);
    lemma_product_sum(p * b, s * g, c, q * b);
    lemma_product_sum(p * g, s * b, q * g, s * a);
    lemma_mul_facts(c, s * g, 0real);
    lemma_swap_middle(p, a, s, g);
    lemma_swap_middle(p, g, s, a);
    lemma_mul_facts(a, g, 0real);
    lemma_swap_middle(s, g, q, b);
    lemma_swap_middle(s, b, q, g);
    lemma_mul_facts(g, b, 0real);
    lemma_swap_middle(p, a, q, a);
    lemma_swap_middle(p, b, q, b);
    lemma_swap_middle(p, g, q, g);
    lemma_mul_facts(p * q, a * a, b * b);
    lemma_mul_facts(p * q, a * a + b * b, g * g);
    lemma_times_one(p * q, a * a + b * b + g * g);
    lemma_swap_middle(t, a, t, b);
    // c (q a) = (c t)(a b), (p b) c = (c t)(a b), (s b)(s a) = (s s)(a b).
    lemma_mul_facts(t, b, a);
    lemma_mul_facts(c, t, b * a);
    lemma_mul_facts(b, a, 0real);
    lemma_mul_facts(t, a, b);
    lemma_mul_facts(p * b, c, 0real);
    lemma_mul_facts(c, t, a * b);
    lemma_swap_middle(s, b, s, a);
    lemma_cosine_complement(c, t);
    lemma_mul_facts(a * b, 2real * (c * t), t * t);
    lemma_mul_facts(a * b, 1real - c * c, s * s);
    lemma_mul_facts(a * b, 1real, c * c);
    lemma_mul_facts(a * b, c * t, 2real);
    lemma_mul_facts(2real, c * t, a * b);
    lemma_mul_facts(a * b, t * t, 1real);
    lemma_times_one(a * b, 1real);
    assert((a * b) * (1real - c * c - s * s) == 0real) by (nonlinear_arith)
        requires
            c * c + s * s == 1real,
    ;
}

/// A vector divided by its (non-zero) length has length one.
proof fn lemma_unit_vector(x: real, y: real, z: real, r: real)
    requires
        0real < r,
        r * r == x * x + y * y + z * z,
    ensures
        (x / r) * (x / r) + (y / r) * (y / r) + (z / r) * (z / r) == 1real,
{
    let a = x / r;
    let b = y / r;
    let g = z / r;
    assert(a * r == x && b * r == y && g * r == z) by (nonlinear_arith)
        requires
            0real < r,
            a == x / r,
            b == y / r,
            g == z / r,
    ;
    lemma_swap_middle(a, r, a, r);
    lemma_swap_middle(b, r, b, r);
    lemma_swap_middle(g, r, g, r);
    let m = a * a + b * b + g * g;
    lemma_mul_facts(r * r, a * a, b * b);
    lemma_mul_facts(r * r, a * a + b * b, g * g);
    lemma_mul_facts(a * a, r * r, 0real);
    lemma_mul_facts(b * b, r * r, 0real);
    lemma_mul_facts(g * g, r * r, 0real);
    assert((r * r) * m == r * r);
    assert(m == 1real) by (nonlinear_arith)
        requires
            0real < r,
            (r * r) * m == r * r,
    ;
}

// ===========================================================================
// Orthogonality of the rotation matrices
// ===========================================================================

/// Cosine and sine lie on the unit circle: `cos^2 x + sin^2 x = 1` for every `x`.
pub open spec fn pythagorean_laws<T: Scalar>() -> bool {
    forall|x: T|
        #[trigger] x.cos_spec().times_spec(x.cos_spec()).plus_spec(x.sin_spec().times_spec(x.sin_spec()))
            == T::one_spec()
}

/// `R R^T = I` for the rows `r` of a 3 x 3 matrix.
pub open spec fn orthogonal3<T: Scalar>(r: Seq<Seq<T>>) -> bool {
    mat_mul_spec(r, transpose_rows(r, 3), 3) == identity_rows::<T>(3)
}

/// The dot product of two 3-vectors through the real model, summed as [`dot_prefix`] sums.
spec fn real_dot3<T: Scalar>(f: spec_fn(T) -> real, u: Seq<T>, v: Seq<T>) -> real {
    ((0real + f(u[0]) * f(v[0])) + f(u[1]) * f(v[1])) + f(u[2]) * f(v[2])
}

proof fn lemma_real_dot3_symmetric<T: Scalar>(f: spec_fn(T) -> real, u: Seq<T>, v: Seq<T>)
    ensures
        real_dot3(f, u, v) == real_dot3(f, v, u),
{
    lemma_mul_facts(f(u[0]), f(v[0]), 0real);
    lemma_mul_facts(f(u[1]), f(v[1]), 0real);
    lemma_mul_facts(f(u[2]), f(v[2]), 0real);
}

/// Rows whose real dot products are those of the identity are orthogonal.
proof fn lemma_orthogonal_from_dots<T: Scalar>(f: spec_fn(T) -> real, r: Seq<Seq<T>>)
    requires
        is_real_model(f),
        r.len() == 3,
        forall|i: int| 0 <= i < 3 ==> #[trigger] r[i].len() == 3,
        forall|i: int, j: int|
            0 <= i < 3 && 0 <= j < 3 ==> #[trigger] real_dot3(f, r[i], r[j]) == if i == j {
                1real
            } else {
                0real
            },
    ensures
        orthogonal3(r),
{
    let rt = transpose_rows(r, 3);
    let m = mat_mul_spec(r, rt, 3);
    let id = identity_rows::<T>(3);
    assert forall|i: int, j: int| 0 <= i < 3 && 0 <= j < 3 implies m[i][j] == id[i][j] by {
        assert(column(rt, j) =~= r[j]);
        reveal_with_fuel(dot_prefix, 4);
        assert(m[i][j] == dot_seq(r[i], r[j]));
        assert(f(m[i][j]) == real_dot3(f, r[i], r[j]));
        if i == j {
            assert(f(m[i][j]) == f(T::one_spec()));
        } else {
            assert(f(m[i][j]) == f(T::zero_spec()));
        }
    }
    assert(m =~= id) by {
        assert forall|i: int| 0 <= i < 3 implies m[i] =~= id[i] by {}
    }
}

/// The rows of Rodrigues' matrix about a unit direction `k` are orthogonal.
proof fn lemma_rodrigues_orthogonal<T: Scalar>(f: spec_fn(T) -> real, k: Seq<T>, angle: T)
    requires
        is_real_model(f),
        pythagorean_laws::<T>(),
        k.len() == 3,
        f(k[0]) * f(k[0]) + f(k[1]) * f(k[1]) + f(k[2]) * f(k[2]) == 1real,
    ensures
        orthogonal3(rodrigues_rows(k, angle)),
{
    let r = rodrigues_rows(k, angle);
    let cs = angle.cos_spec();
    let sn = angle.sin_spec();
    let c = f(cs);
    let s = f(sn);
    let t = f(T::one_spec().minus_spec(cs));
    assert(t == 1real - c);
    assert(f(cs.times_spec(cs).plus_spec(sn.times_spec(sn))) == f(T::one_spec()));
    assert(c * c + s * s == 1real);
    let (a, b, g) = (f(k[0]), f(k[1]), f(k[2]));
    assert(a * a + b * b + g * g == 1real);
    assert(b * b + g * g + a * a == 1real);
    assert(g * g + a * a + b * b == 1real);
    lemma_rodrigues_row_unit(c, s, t, a, b, g);
    lemma_rodrigues_row_unit(c, s, t, b, g, a);
    lemma_rodrigues_row_unit(c, s, t, g, a, b);
    lemma_rodrigues_rows_orthogonal(c, s, t, a, b, g);
    lemma_rodrigues_rows_orthogonal(c, s, t, b, g, a);
    lemma_rodrigues_rows_orthogonal(c, s, t, g, a, b);
    assert(real_dot3(f, r[0], r[0]) == 1real);
    assert(real_dot3(f, r[1], r[1]) == 1real);
    assert(real_dot3(f, r[2], r[2]) == 1real);
    assert(real_dot3(f, r[0], r[1]) == 0real);
    assert(real_dot3(f, r[1], r[2]) == 0real);
    assert(real_dot3(f, r[2], r[0]) == 0real);
    lemma_real_dot3_symmetric(f, r[0], r[1]);
    lemma_real_dot3_symmetric(f, r[1], r[2]);
    lemma_real_dot3_symmetric(f, r[2], r[0]);
    lemma_orthogonal_from_dots(f, r);
}

/// The rows of the identity are orthogonal.
proof fn lemma_identity_orthogonal<T: Scalar>(f: spec_fn(T) -> real)
    requires
        is_real_model(f),
    ensures
        orthogonal3(identity_rows::<T>(3)),
{
    let r = identity_rows::<T>(3);
    assert(f(T::one_spec()) * f(T::one_spec()) == 1real) by (nonlinear_arith)
        requires
            f(T::one_spec()) == 1real,
    ;
    assert(f(T::one_spec()) * f(T::zero_spec()) == 0real) by (nonlinear_arith)
        requires
            f(T::zero_spec()) == 0real,
    ;
    assert(f(T::zero_spec()) * f(T::one_spec()) == 0real) by (nonlinear_arith)
        requires
            f(T::zero_spec()) == 0real,
    ;
    assert(f(T::zero_spec()) * f(T::zero_spec()) == 0real) by (nonlinear_arith)
        requires
            f(T::zero_spec()) == 0real,
    ;
    assert forall|i: int, j: int| 0 <= i < 3 && 0 <= j < 3 implies #[trigger] real_dot3(f, r[i], r[j]) == if i
        == j {
        1real
    } else {
        0real
    } by {}
    lemma_orthogonal_from_dots(f, r);
}

/// Every 3-D axis-angle rotation is orthogonal: over a scalar type with exact real
/// arithmetic ([`real_laws`]) whose cosine and sine satisfy [`pythagorean_laws`], the rows
/// that [`crate::geometry::Rotation::from_axis_angle`] builds satisfy `R R^T = I`, for every
/// axis (a zero axis gives the identity) and every angle.
pub proof fn lemma_axis_angle_orthogonal<T: Scalar>(axis: Seq<T>, angle: T)
    requires
        real_laws::<T>(),
        pythagorean_laws::<T>(),
        axis.len() == 3,
    ensures
        orthogonal3(axis_angle_rows(axis, angle)),
{
    let f = choose|f: spec_fn(T) -> real| is_real_model(f);
    let n = norm_seq(axis);
    if n.eq_spec(T::zero_spec()) {
        lemma_identity_orthogonal(f);
    } else {
        let (x, y, z) = (f(axis[0]), f(axis[1]), f(axis[2]));
        reveal_with_fuel(dot_prefix, 4);
        let d = dot_seq(axis, axis);
        assert(f(d) == ((0real + x * x) + y * y) + z * z);
        assert(0real <= x * x && 0real <= y * y && 0real <= z * z) by (nonlinear_arith);
        let r = f(n);
        assert(0real <= r && r * r == f(d));
        assert(r != 0real);
        let k = unit_axis(axis);
        assert(f(k[0]) == x / r && f(k[1]) == y / r && f(k[2]) == z / r);
        lemma_unit_vector(x, y, z, r);
        lemma_rodrigues_orthogonal(f, k, angle);
    }
}

/// A 3-D rotation raised to a power is orthogonal when the rotation is: over a scalar type
/// with exact real arithmetic and [`pythagorean_laws`], the rows that
/// [`crate::geometry::Rotation::powf`] gives (the rotation itself below the angle tolerance,
/// else the axis-angle rotation about [`power_axis`] by `angle * t`) satisfy `R R^T = I`.
pub proof fn lemma_powf_orthogonal<T: Scalar>(m: Seq<Seq<T>>, t: T)
    requires
        real_laws::<T>(),
        pythagorean_laws::<T>(),
        orthogonal3(m),
    ensures
        orthogonal3(
            if trace_angle(m).lt_spec(tiny::<T>()) {
                m
            } else {
                axis_angle_rows(power_axis(m), trace_angle(m).times_spec(t))
            },
        ),
{
    if !trace_angle(m).lt_spec(tiny::<T>()) {
        lemma_axis_angle_orthogonal(power_axis(m), trace_angle(m).times_spec(t));
    }
}

// ===========================================================================
// Products of orthogonal matrices
// ===========================================================================

proof fn lemma_sum3_product(x0: real, x1: real, x2: real, y0: real, y1: real, y2: real)
    ensures
        (((0real + x0) + x1) + x2) * (((0real + y0) + y1) + y2) == x0 * y0 + x0 * y1 + x0 * y2 + x1 * y0 + x1 * y1
            + x1 * y2 + x2 * y0 + x2 * y1 + x2 * y2,
{
    assert((((0real + x0) + x1) + x2) * (((0real + y0) + y1) + y2) == x0 * y0 + x0 * y1 + x0 * y2 + x1 * y0 + x1
        * y1 + x1 * y2 + x2 * y0 + x2 * y1 + x2 * y2) by (nonlinear_arith);
}

proof fn lemma_factor3(x: real, u: real, v: real, w: real)
    ensures
        x * u + x * v + x * w == x * (((0real + u) + v) + w),
{
    assert(x * u + x * v + x * w == x * (((0real + u) + v) + w)) by (nonlinear_arith);
}

/// `x m = 0` when `m = 0`.
proof fn lemma_times_zero(x: real, m: real)
    requires
        m == 0real,
    ensures
        x * m == 0real,
{
    assert(x * m == 0real) by (nonlinear_arith)
        requires
            m == 0real,
    ;
}

/// The rows `i` and `j` of a product `A B` dot to what rows `i` and `j` of `A` dot to, when
/// the rows of `B` are orthonormal.
proof fn lemma_product_rows_dot(ai0: real, ai1: real, ai2: real, aj0: real, aj1: real, aj2: real, b00: real, b01: real, b02: real, b10: real, b11: real, b12: real, b20: real, b21: real, b22: real)
    requires
        ((0real + b00 * b00) + b01 * b01) + b02 * b02 == 1real,
        ((0real + b00 * b10) + b01 * b11) + b02 * b12 == 0real,
        ((0real + b00 * b20) + b01 * b21) + b02 * b22 == 0real,
        ((0real + b10 * b00) + b11 * b01) + b12 * b02 == 0real,
        ((0real + b10 * b10) + b11 * b11) + b12 * b12 == 1real,
        ((0real + b10 * b20) + b11 * b21) + b12 * b22 == 0real,
        ((0real + b20 * b00) + b21 * b01) + b22 * b02 == 0real,
        ((0real + b20 * b10) + b21 * b11) + b22 * b12 == 0real,
        ((0real + b20 * b20) + b21 * b21) + b22 * b22 == 1real,
    ensures
        ((0real + (((0real + ai0 * b00) + ai1 * b10) + ai2 * b20) * (((0real + aj0 * b00) + aj1 * b10) + aj2 * b20)) + (((0real + ai0 * b01) + ai1 * b11) + ai2 * b21) * (((0real + aj0 * b01) + aj1 * b11) + aj2 * b21)) + (((0real + ai0 * b02) + ai1 * b12) + ai2 * b22) * (((0real + aj0 * b02) + aj1 * b12) + aj2 * b22) == ((0real + ai0 * aj0) + ai1 * aj1) + ai2 * aj2,
{
    lemma_sum3_product(ai0 * b00, ai1 * b10, ai2 * b20, aj0 * b00, aj1 * b10, aj2 * b20);
    lemma_swap_middle(ai0, b00, aj0, b00);
    lemma_swap_middle(ai0, b00, aj1, b10);
    lemma_swap_middle(ai0, b00, aj2, b20);
    lemma_swap_middle(ai1, b10, aj0, b00);
    lemma_swap_middle(ai1, b10, aj1, b10);
    lemma_swap_middle(ai1, b10, aj2, b20);
    lemma_swap_middle(ai2, b20, aj0, b00);
    lemma_swap_middle(ai2, b20, aj1, b10);
    lemma_swap_middle(ai2, b20, aj2, b20);
    lemma_sum3_product(ai0 * b01, ai1 * b11, ai2 * b21, aj0 * b01, aj1 * b11, aj2 * b21);
    lemma_swap_middle(ai0, b01, aj0, b01);
    lemma_swap_middle(ai0, b01, aj1, b11);
    lemma_swap_middle(ai0, b01, aj2, b21);
    lemma_swap_middle(ai1, b11, aj0, b01);
    lemma_swap_middle(ai1, b11, aj1, b11);
    lemma_swap_middle(ai1, b11, aj2, b21);
    lemma_swap_middle(ai2, b21, aj0, b01);
    lemma_swap_middle(ai2, b21, aj1, b11);
    lemma_swap_middle(ai2, b21, aj2, b21);
    lemma_sum3_product(ai0 * b02, ai1 * b12, ai2 * b22, aj0 * b02, aj1 * b12, aj2 * b22);
    lemma_swap_middle(ai0, b02, aj0, b02);
    lemma_swap_middle(ai0, b02, aj1, b12);
    lemma_swap_middle(ai0, b02, aj2, b22);
    lemma_swap_middle(ai1, b12, aj0, b02);
    lemma_swap_middle(ai1, b12, aj1, b12);
    lemma_swap_middle(ai1, b12, aj2, b22);
    lemma_swap_middle(ai2, b22, aj0, b02);
    lemma_swap_middle(ai2, b22, aj1, b12);
    lemma_swap_middle(ai2, b22, aj2, b22);
    lemma_factor3(ai0 * aj0, b00 * b00, b01 * b01, b02 * b02);
    lemma_times_one(ai0 * aj0, ((0real + b00 * b00) + b01 * b01) + b02 * b02);
    lemma_factor3(ai0 * aj1, b00 * b10, b01 * b11, b02 * b12);
    lemma_times_zero(ai0 * aj1, ((0real + b00 * b10) + b01 * b11) + b02 * b12);
    lemma_factor3(ai0 * aj2, b00 * b20, b01 * b21, b02 * b22);
    lemma_times_zero(ai0 * aj2, ((0real + b00 * b20) + b01 * b21) + b02 * b22);
    lemma_factor3(ai1 * aj0, b10 * b00, b11 * b01, b12 * b02);
    lemma_times_zero(ai1 * aj0, ((0real + b10 * b00) + b11 * b01) + b12 * b02);
    lemma_factor3(ai1 * aj1, b10 * b10, b11 * b11, b12 * b12);
    lemma_times_one(ai1 * aj1, ((0real + b10 * b10) + b11 * b11) + b12 * b12);
    lemma_factor3(ai1 * aj2, b10 * b20, b11 * b21, b12 * b22);
    lemma_times_zero(ai1 * aj2, ((0real + b10 * b20) + b11 * b21) + b12 * b22);
    lemma_factor3(ai2 * aj0, b20 * b00, b21 * b01, b22 * b02);
    lemma_times_zero(ai2 * aj0, ((0real + b20 * b00) + b21 * b01) + b22 * b02);
    lemma_factor3(ai2 * aj1, b20 * b10, b21 * b11, b22 * b12);
    lemma_times_zero(ai2 * aj1, ((0real + b20 * b10) + b21 * b11) + b22 * b12);
    lemma_factor3(ai2 * aj2, b20 * b20, b21 * b21, b22 * b22);
    lemma_times_one(ai2 * aj2, ((0real + b20 * b20) + b21 * b21) + b22 * b22);
}

/// 3 x 3 rows.
spec fn square3<T>(r: Seq<Seq<T>>) -> bool {
    r.len() == 3 && forall|i: int| 0 <= i < 3 ==> #[trigger] r[i].len() == 3
}

/// The real dot products of the rows of an orthogonal matrix are those of the identity.
proof fn lemma_dots_from_orthogonal<T: Scalar>(f: spec_fn(T) -> real, r: Seq<Seq<T>>, i: int, j: int)
    requires
        is_real_model(f),
        square3(r),
        orthogonal3(r),
        0 <= i < 3,
        0 <= j < 3,
    ensures
        real_dot3(f, r[i], r[j]) == if i == j {
            1real
        } else {
            0real
        },
{
    let rt = transpose_rows(r, 3);
    let m = mat_mul_spec(r, rt, 3);
    assert(column(rt, j) =~= r[j]);
    reveal_with_fuel(dot_prefix, 4);
    assert(m[i][j] == dot_seq(r[i], r[j]));
    assert(m[i][j] == identity_rows::<T>(3)[i][j]);
    assert(f(m[i][j]) == real_dot3(f, r[i], r[j]));
}

/// The product of two orthogonal 3 x 3 matrices is orthogonal.
proof fn lemma_product_orthogonal<T: Scalar>(f: spec_fn(T) -> real, a: Seq<Seq<T>>, b: Seq<Seq<T>>)
    requires
        is_real_model(f),
        square3(a),
        square3(b),
        orthogonal3(a),
        orthogonal3(b),
    ensures
        square3(mat_mul_spec(a, b, 3)),
        orthogonal3(mat_mul_spec(a, b, 3)),
{
    let p = mat_mul_spec(a, b, 3);
    reveal_with_fuel(dot_prefix, 4);
    assert forall|i: int, j: int| 0 <= i < 3 && 0 <= j < 3 implies #[trigger] real_dot3(f, p[i], p[j]) == if i
        == j {
        1real
    } else {
        0real
    } by {
        assert forall|l: int| 0 <= l < 3 implies f(#[trigger] p[i][l]) == ((0real + f(a[i][0]) * f(b[0][l])) + f(
            a[i][1],
        ) * f(b[1][l])) + f(a[i][2]) * f(b[2][l]) by {
            assert(column(b, l)[0] == b[0][l] && column(b, l)[1] == b[1][l] && column(b, l)[2] == b[2][l]);
        }
        assert forall|l: int| 0 <= l < 3 implies f(#[trigger] p[j][l]) == ((0real + f(a[j][0]) * f(b[0][l])) + f(
            a[j][1],
        ) * f(b[1][l])) + f(a[j][2]) * f(b[2][l]) by {
            assert(column(b, l)[0] == b[0][l] && column(b, l)[1] == b[1][l] && column(b, l)[2] == b[2][l]);
        }
        assert forall|x: int, y: int| 0 <= x < 3 && 0 <= y < 3 implies #[trigger] real_dot3(f, b[x], b[y]) == if x
            == y {
            1real
        } else {
            0real
        } by {
            lemma_dots_from_orthogonal(f, b, x, y);
        }
        assert(real_dot3(f, b[0], b[0]) == 1real && real_dot3(f, b[0], b[1]) == 0real && real_dot3(f, b[0], b[2])
            == 0real);
        assert(real_dot3(f, b[1], b[0]) == 0real && real_dot3(f, b[1], b[1]) == 1real && real_dot3(f, b[1], b[2])
            == 0real);
        assert(real_dot3(f, b[2], b[0]) == 0real && real_dot3(f, b[2], b[1]) == 0real && real_dot3(f, b[2], b[2])
            == 1real);
        lemma_product_rows_dot(
            f(a[i][0]),
            f(a[i][1]),
            f(a[i][2]),
            f(a[j][0]),
            f(a[j][1]),
            f(a[j][2]),
            f(b[0][0]),
            f(b[0][1]),
            f(b[0][2]),
            f(b[1][0]),
            f(b[1][1]),
            f(b[1][2]),
            f(b[2][0]),
            f(b[2][1]),
            f(b[2][2]),
        );
        lemma_dots_from_orthogonal(f, a, i, j);
    }
    lemma_orthogonal_from_dots(f, p);
}

/// The Euler-angle rotation is orthogonal: over a scalar type with exact real arithmetic
/// and [`pythagorean_laws`], the rows `Rz(yaw) Ry(pitch) Rx(roll)` that
/// [`crate::geometry::Rotation::from_euler`] builds satisfy `R R^T = I`.
pub proof fn lemma_euler_orthogonal<T: Scalar>(roll: T, pitch: T, yaw: T)
    requires
        real_laws::<T>(),
        pythagorean_laws::<T>(),
    ensures
        orthogonal3(euler_rows(roll, pitch, yaw)),
{
    let f = choose|f: spec_fn(T) -> real| is_real_model(f);
    let rz = axis_angle_rows(basis3::<T>(2), yaw);
    let ry = axis_angle_rows(basis3::<T>(1), pitch);
    let rx = axis_angle_rows(basis3::<T>(0), roll);
    lemma_axis_angle_orthogonal(basis3::<T>(2), yaw);
    lemma_axis_angle_orthogonal(basis3::<T>(1), pitch);
    lemma_axis_angle_orthogonal(basis3::<T>(0), roll);
    assert(square3(rz) && square3(ry) && square3(rx));
    lemma_product_orthogonal(f, rz, ry);
    lemma_product_orthogonal(f, mat_mul_spec(rz, ry, 3), rx);
}

// ===========================================================================
// Unit quaternions
// ===========================================================================

proof fn lemma_one_minus_twice_square(a: real)
    ensures
        (1real - 2real * a) * (1real - 2real * a) == 1real - 4real * a + 4real * (a * a),
{
    assert((1real - 2real * a) * (1real - 2real * a) == 1real - 4real * a + 4real * (a * a)) by (nonlinear_arith);
}

proof fn lemma_twice_square(u: real)
    ensures
        (2real * u) * (2real * u) == 4real * (u * u),
{
    assert((2real * u) * (2real * u) == 4real * (u * u)) by (nonlinear_arith);
}

proof fn lemma_twice_products(a: real, b: real, c: real, d: real, e: real)
    ensures
        (1real - 2real * a) * (2real * (b + c)) == 2real * (b + c) - 4real * (a * b + a * c),
        (2real * (b - c)) * (1real - 2real * a) == 2real * (b - c) - 4real * (a * b - a * c),
        (2real * (b + c)) * (2real * (d - e)) == 4real * (b * d - b * e + c * d - c * e),
{
    assert((1real - 2real * a) * (2real * (b + c)) == 2real * (b + c) - 4real * (a * b + a * c)) by (nonlinear_arith);
    assert((2real * (b - c)) * (1real - 2real * a) == 2real * (b - c) - 4real * (a * b - a * c)) by (nonlinear_arith);
    assert((2real * (b + c)) * (2real * (d - e)) == 4real * (b * d - b * e + c * d - c * e)) by (nonlinear_arith);
}

proof fn lemma_distribute(a: real, b: real, c: real)
    ensures
        (a + b) * c == a * c + b * c,
{
    assert((a + b) * c == a * c + b * c) by (nonlinear_arith);
}

proof fn lemma_sum4_times(a: real, b: real, c: real, d: real, p: real)
    requires
        a + b + c + d == 1real,
    ensures
        a * p + b * p + c * p + d * p == p,
{
    assert(a * p + b * p + c * p + d * p == (a + b + c + d) * p) by (nonlinear_arith);
    lemma_mul_facts(a + b + c + d, p, 0real);
    lemma_times_one(p, a + b + c + d);
}

proof fn lemma_square_sum_times(a: real, b: real, c: real, d: real)
    requires
        a + b + c + d == 1real,
    ensures
        (a + b) * (a + b) + a * c + a * d + b * c + b * d == a + b,
{
    assert((a + b) * (a + b) + a * c + a * d + b * c + b * d == (a + b) * (a + b + c + d)) by (nonlinear_arith);
    lemma_times_one(a + b, a + b + c + d);
}

/// The degree-four monomials of `x, y, z, w` that the quaternion rows produce, in the
/// groupings in which they appear.
proof fn lemma_quat_monomials(x: real, y: real, z: real, w: real)
    ensures
        (x * y) * (x * y) == (x * x) * (y * y),
        (w * z) * (w * z) == (w * w) * (z * z),
        (x * z) * (x * z) == (x * x) * (z * z),
        (w * y) * (w * y) == (w * w) * (y * y),
        (y * z) * (y * z) == (y * y) * (z * z),
        (w * x) * (w * x) == (w * w) * (x * x),
        (x * y) * (w * z) == (x * z) * (w * y),
        (x * y) * (w * z) == (y * z) * (w * x),
        (x * z) * (w * y) == (y * z) * (w * x),
        (x * z) * (y * z) == (z * z) * (x * y),
        (x * z) * (w * x) == (x * x) * (w * z),
        (w * y) * (y * z) == (y * y) * (w * z),
        (w * y) * (w * x) == (w * w) * (x * y),
        (x * y) * (x * z) == (x * x) * (y * z),
        (x * y) * (w * y) == (y * y) * (w * x),
        (w * z) * (x * z) == (z * z) * (w * x),
        (w * z) * (w * y) == (w * w) * (y * z),
        (y * z) * (x * y) == (y * y) * (x * z),
        (y * z) * (w * z) == (z * z) * (w * y),
        (w * x) * (x * y) == (x * x) * (w * y),
        (w * x) * (w * z) == (w * w) * (x * z),
{
    assert((x * y) * (x * y) == (x * x) * (y * y)) by (nonlinear_arith);
    assert((w * z) * (w * z) == (w * w) * (z * z)) by (nonlinear_arith);
    assert((x * z) * (x * z) == (x * x) * (z * z)) by (nonlinear_arith);
    assert((w * y) * (w * y) == (w * w) * (y * y)) by (nonlinear_arith);
    assert((y * z) * (y * z) == (y * y) * (z * z)) by (nonlinear_arith);
    assert((w * x) * (w * x) == (w * w) * (x * x)) by (nonlinear_arith);
    assert((x * y) * (w * z) == (x * z) * (w * y)) by (nonlinear_arith);
    assert((x * y) * (w * z) == (y * z) * (w * x)) by (nonlinear_arith);
    assert((x * z) * (y * z) == (z * z) * (x * y)) by (nonlinear_arith);
    assert((x * z) * (w * x) == (x * x) * (w * z)) by (nonlinear_arith);
    assert((w * y) * (y * z) == (y * y) * (w * z)) by (nonlinear_arith);
    assert((w * y) * (w * x) == (w * w) * (x * y)) by (nonlinear_arith);
    assert((x * y) * (x * z) == (x * x) * (y * z)) by (nonlinear_arith);
    assert((x * y) * (w * y) == (y * y) * (w * x)) by (nonlinear_arith);
    assert((w * z) * (x * z) == (z * z) * (w * x)) by (nonlinear_arith);
    assert((w * z) * (w * y) == (w * w) * (y * z)) by (nonlinear_arith);
    assert((y * z) * (x * y) == (y * y) * (x * z)) by (nonlinear_arith);
    assert((y * z) * (w * z) == (z * z) * (w * y)) by (nonlinear_arith);
    assert((w * x) * (x * y) == (x * x) * (w * y)) by (nonlinear_arith);
    assert((w * x) * (w * z) == (w * w) * (x * z)) by (nonlinear_arith);
}

/// The rows of the rotation matrix of a unit quaternion `(x, y, z, w)` are orthonormal over
/// the reals.
proof fn lemma_quat_rows_real(x: real, y: real, z: real, w: real)
    requires
        x * x + y * y + z * z + w * w == 1real,
    ensures
        ({
            let (xx, yy, zz, ww) = (x * x, y * y, z * z, w * w);
            let (xy, xz, yz, wx, wy, wz) = (x * y, x * z, y * z, w * x, w * y, w * z);
            let (q00, q01, q02) = (1real - 2real * (yy + zz), 2real * (xy - wz), 2real * (xz + wy));
            let (q10, q11, q12) = (2real * (xy + wz), 1real - 2real * (xx + zz), 2real * (yz - wx));
            let (q20, q21, q22) = (2real * (xz - wy), 2real * (yz + wx), 1real - 2real * (xx + yy));
            &&& ((0real + q00 * q00) + q01 * q01) + q02 * q02 == 1real
            &&& ((0real + q10 * q10) + q11 * q11) + q12 * q12 == 1real
            &&& ((0real + q20 * q20) + q21 * q21) + q22 * q22 == 1real
            &&& ((0real + q00 * q10) + q01 * q11) + q02 * q12 == 0real
            &&& ((0real + q10 * q20) + q11 * q21) + q12 * q22 == 0real
            &&& ((0real + q20 * q00) + q21 * q01) + q22 * q02 == 0real
        }),
{
    let (xx, yy, zz, ww) = (x * x, y * y, z * z, w * w);
    let (xy, xz, yz, wx, wy, wz) = (x * y, x * z, y * z, w * x, w * y, w * z);
    lemma_quat_monomials(x, y, z, w);
    // Diagonal entries.
    lemma_one_minus_twice_square(yy + zz);
    lemma_one_minus_twice_square(xx + zz);
    lemma_one_minus_twice_square(xx + yy);
    lemma_twice_square(xy - wz);
    lemma_twice_square(xz + wy);
    lemma_twice_square(xy + wz);
    lemma_twice_square(yz - wx);
    lemma_twice_square(xz - wy);
    lemma_twice_square(yz + wx);
    lemma_square_sum(xy, wz);
    lemma_square_sum(xz, wy);
    lemma_square_sum(yz, wx);
    assert(yy + zz + xx + ww == 1real);
    lemma_square_sum_times(yy, zz, xx, ww);
    assert(xx + zz + yy + ww == 1real);
    lemma_square_sum_times(xx, zz, yy, ww);
    assert(xx + yy + zz + ww == 1real);
    lemma_square_sum_times(xx, yy, zz, ww);
    lemma_mul_facts(yy, xx, 0real);
    lemma_mul_facts(zz, xx, 0real);
    lemma_mul_facts(zz, ww, 0real);
    lemma_mul_facts(yy, ww, 0real);
    lemma_mul_facts(xx, ww, 0real);
    lemma_mul_facts(xx, zz, 0real);
    lemma_mul_facts(yy, zz, 0real);
    lemma_mul_facts(zz, yy, 0real);
    lemma_mul_facts(ww, xx, 0real);
    lemma_mul_facts(ww, yy, 0real);
    lemma_mul_facts(ww, zz, 0real);
    lemma_mul_facts(xx, yy, 0real);
    // Entry (0, 1).
    lemma_twice_products(yy + zz, xy, wz, 0real, 0real);
    lemma_twice_products(xx + zz, xy, wz, 0real, 0real);
    lemma_twice_products(0real, xz, wy, yz, wx);
    lemma_distribute(yy, zz, xy);
    lemma_distribute(yy, zz, wz);
    lemma_distribute(xx, zz, xy);
    lemma_distribute(xx, zz, wz);
    lemma_sum4_times(xx, yy, zz, ww, xy);
    // Entry (1, 2).
    lemma_twice_products(0real, xy, wz, xz, wy);
    lemma_twice_products(xx + zz, yz, wx, 0real, 0real);
    lemma_twice_products(xx + yy, yz, wx, 0real, 0real);
    lemma_distribute(xx, zz, yz);
    lemma_distribute(xx, zz, wx);
    lemma_distribute(xx, yy, yz);
    lemma_distribute(xx, yy, wx);
    lemma_sum4_times(xx, yy, zz, ww, yz);
    // Entry (2, 0).
    lemma_twice_products(yy + zz, xz, wy, 0real, 0real);
    lemma_twice_products(0real, yz, wx, xy, wz);
    lemma_twice_products(xx + yy, xz, wy, 0real, 0real);
    lemma_distribute(yy, zz, xz);
    lemma_distribute(yy, zz, wy);
    lemma_distribute(xx, yy, xz);
    lemma_distribute(xx, yy, wy);
    lemma_sum4_times(xx, yy, zz, ww, xz);
}

/// The rotation matrix of a unit quaternion is orthogonal: over a scalar type with exact
/// real arithmetic ([`real_laws`]), if `q = [x, y, z, w]` has `x^2 + y^2 + z^2 + w^2 = 1`,
/// the rows that [`crate::geometry::Rotation::from_quaternion`] builds satisfy `R R^T = I`.
pub proof fn lemma_quaternion_orthogonal<T: Scalar>(q: Seq<T>)
    requires
        real_laws::<T>(),
        q.len() == 4,
        dot_seq(q, q) == T::one_spec(),
    ensures
        orthogonal3(quat_rows(q)),
{
    let f = choose|f: spec_fn(T) -> real| is_real_model(f);
    reveal_with_fuel(dot_prefix, 5);
    let (x, y, z, w) = (f(q[0]), f(q[1]), f(q[2]), f(q[3]));
    assert(f(dot_seq(q, q)) == (((0real + x * x) + y * y) + z * z) + w * w);
    assert(x * x + y * y + z * z + w * w == 1real);
    assert(f(crate::scalar::two::<T>()) == 2real);
    lemma_quat_rows_real(x, y, z, w);
    let r = quat_rows(q);
    assert(real_dot3(f, r[0], r[0]) == 1real);
    assert(real_dot3(f, r[1], r[1]) == 1real);
    assert(real_dot3(f, r[2], r[2]) == 1real);
    assert(real_dot3(f, r[0], r[1]) == 0real);
    assert(real_dot3(f, r[1], r[2]) == 0real);
    assert(real_dot3(f, r[2], r[0]) == 0real);
    lemma_real_dot3_symmetric(f, r[0], r[1]);
    lemma_real_dot3_symmetric(f, r[1], r[2]);
    lemma_real_dot3_symmetric(f, r[2], r[0]);
    lemma_orthogonal_from_dots(f, r);
}

} // verus!
