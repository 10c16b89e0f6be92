//! Eigenvalues of complex matrices by the shifted QR algorithm, with QR factorizations by
//! Householder reflections.
use vstd::prelude::*;

use crate::linalg_complex::{
    c_abs, c_add, c_div, c_dot_prefix, c_mul, c_real, c_sqrt, c_sub, conj_dot_prefix, sum_norm_sqr,
    Complex, ComplexDMatrix,
};
use crate::linalg_dense::{copy_row, rows_view, square_rows};
use crate::scalar::{two, two_exec, Scalar};

verus! {

// ===========================================================================
// Householder QR
// ===========================================================================

/// The tolerance `10^-14` below which a Householder column counts as zero, as `1 / 10^14`.
pub open spec fn reflector_tol<T: Scalar>() -> T {
    T::from_int_spec(1).divide_spec(T::from_int_spec(100_000_000_000_000))
}

/// Rows `k .. k + len` of column `j` of `a`.
pub open spec fn column_segment<T>(a: Seq<Seq<Complex<T>>>, k: int, j: int, len: int) -> Seq<Complex<T>> {
    Seq::new(len as nat, |i: int| a[k + i][j])
}

/// The coefficient that the reflection along `x` (acting on rows `k ..`) gives column `j`:
/// `(x^H a[k.., j]) / den`.
pub open spec fn reflect_coeff<T: Scalar>(a: Seq<Seq<Complex<T>>>, x: Seq<Complex<T>>, k: int, j: int, den: Complex<T>) -> Complex<T> {
    c_div(conj_dot_prefix(x, column_segment(a, k, j, x.len() as int), x.len() as int), den)
}

/// `a` after the reflection `I - x x^H / den` on rows `k ..`, applied to the columns in
/// `jlo .. w`: each such entry loses `x[i - k]` times its column's coefficient.
pub open spec fn reflect<T: Scalar>(a: Seq<Seq<Complex<T>>>, x: Seq<Complex<T>>, k: int, jlo: int, w: int, den: Complex<T>) -> Seq<Seq<Complex<T>>> {
    Seq::new(
        a.len(),
        |i: int|
            if i < k {
                a[i]
            } else {
                Seq::new(
                    a[i].len(),
                    |j: int|
                        if jlo <= j < w {
                            c_sub(a[i][j], c_mul(x[i - k], reflect_coeff(a, x, k, j, den)))
                        } else {
                            a[i][j]
                        },
                )
            },
    )
}

/// Householder step `k` on the factors `(q, r)` of an `n x m` matrix (`n` the row count of
/// `r`): the column below the diagonal is `x`; a column of modulus below the tolerance is
/// skipped, else `x[0]` is pushed away from zero by `sign(re x[0]) |x|` and, unless the result
/// is below the tolerance too, the reflection along it is applied to columns `k .. m` of `r`
/// and to all columns of `q`.
pub open spec fn householder_step<T: Scalar>(q: Seq<Seq<Complex<T>>>, r: Seq<Seq<Complex<T>>>, k: int, m: int) -> (Seq<Seq<Complex<T>>>, Seq<Seq<Complex<T>>>) {
    let n = r.len() as int;
    let x0 = column_segment(r, k, k, n - k);
    let norm_x = sum_norm_sqr(x0, n - k).sqrt_spec();
    if norm_x.lt_spec(reflector_tol()) {
        (q, r)
    } else {
        let one = T::one_spec();
        let sign = if x0[0].re.lt_spec(T::zero_spec()) {
            one.negate_spec()
        } else {
            one
        };
        let x = x0.update(0, c_add(x0[0], c_real(sign.times_spec(norm_x))));
        let norm_u = sum_norm_sqr(x, n - k).sqrt_spec();
        if norm_u.lt_spec(reflector_tol()) {
            (q, r)
        } else {
            let den = c_real(norm_u.times_spec(norm_u).divide_spec(two()));
            (reflect(q, x, k, 0, n, den), reflect(r, x, k, k, m, den))
        }
    }
}

/// The Householder steps from `k` up to `kend`, in order.
pub open spec fn householder_run<T: Scalar>(q: Seq<Seq<Complex<T>>>, r: Seq<Seq<Complex<T>>>, k: int, kend: int, m: int) -> (Seq<Seq<Complex<T>>>, Seq<Seq<Complex<T>>>)
    decreases kend - k,
{
    if k >= kend {
        (q, r)
    } else {
        let (q1, r1) = householder_step(q, r, k, m);
        householder_run(q1, r1, k + 1, kend, m)
    }
}

/// The `n x n` identity matrix, as rows.
pub open spec fn identity_rows<T: Scalar>(n: nat) -> Seq<Seq<Complex<T>>> {
    Seq::new(n, |i: int| Seq::new(n, |j: int| if i == j { c_real(T::one_spec()) } else { c_real(T::zero_spec()) }))
}

/// The factors `(Q, R)` of the `n x m` matrix `a` (rows), after the Householder steps over
/// the first `min(n, m)` columns, `Q` starting from the identity and `R` from `a`.
pub open spec fn householder_qr_spec<T: Scalar>(a: Seq<Seq<Complex<T>>>, m: int) -> (Seq<Seq<Complex<T>>>, Seq<Seq<Complex<T>>>) {
    let n = a.len() as int;
    householder_run(identity_rows(a.len()), a, 0, if m <= n { m } else { n }, m)
}

/// Every row of `a` has `w` entries.
pub open spec fn rows_have_width<T>(a: Seq<Seq<T>>, w: int) -> bool {
    forall|i: int| 0 <= i < a.len() ==> (#[trigger] a[i]).len() == w
}

/// A reflection keeps the shape.
proof fn lemma_reflect_shape<T: Scalar>(a: Seq<Seq<Complex<T>>>, x: Seq<Complex<T>>, k: int, jlo: int, w: int, den: Complex<T>)
    requires
        rows_have_width(a, w),
    ensures
        reflect(a, x, k, jlo, w, den).len() == a.len(),
        rows_have_width(reflect(a, x, k, jlo, w, den), w),
{
    let b = reflect(a, x, k, jlo, w, den);
    assert forall|i: int| 0 <= i < b.len() implies (#[trigger] b[i]).len() == w by {
        assert(a[i].len() == w);
    }
}

/// A Householder run keeps the shapes: `q` stays `n x n`, `r` stays `n x m`.
proof fn lemma_householder_run_shape<T: Scalar>(q: Seq<Seq<Complex<T>>>, r: Seq<Seq<Complex<T>>>, k: int, kend: int, m: int)
    requires
        q.len() == r.len(),
        rows_have_width(q, r.len() as int),
        rows_have_width(r, m),
        0 <= k,
        kend <= r.len(),
    ensures
        ({
            let (q1, r1) = householder_run(q, r, k, kend, m);
            &&& q1.len() == r.len()
            &&& r1.len() == r.len()
            &&& rows_have_width(q1, r.len() as int)
            &&& rows_have_width(r1, m)
        }),
    decreases kend - k,
{
    if k < kend {
        let n = r.len() as int;
        let x0 = column_segment(r, k, k, n - k);
        let norm_x = sum_norm_sqr(x0, n - k).sqrt_spec();
        if !norm_x.lt_spec(reflector_tol()) {
            let one = T::one_spec();
            let sign = if x0[0].re.lt_spec(T::zero_spec()) {
                one.negate_spec()
            } else {
                one
            };
            let x = x0.update(0, c_add(x0[0], c_real(sign.times_spec(norm_x))));
            let norm_u = sum_norm_sqr(x, n - k).sqrt_spec();
            let den = c_real(norm_u.times_spec(norm_u).divide_spec(two()));
            lemma_reflect_shape(q, x, k, 0, n, den);
            lemma_reflect_shape(r, x, k, k, m, den);
        }
        let (q1, r1) = householder_step(q, r, k, m);
        lemma_householder_run_shape(q1, r1, k + 1, kend, m);
    }
}

/// Rows `k .. k + len` of column `j` of `a`.
fn column_segment_exec<T: Scalar>(a: &Vec<Vec<Complex<T>>>, k: usize, j: usize, len: usize) -> (r: Vec<Complex<T>>)
    requires
        k + len <= a@.len(),
        forall|i: int| k <= i < k + len ==> j < (#[trigger] a@[i])@.len(),
    ensures
        r@ == column_segment(rows_view(a@), k as int, j as int, len as int),
{
    let mut out: Vec<Complex<T>> = Vec::new();
    let n = a.len();
    for i in 0..len
        invariant
            n == a@.len(),
            k + len <= a@.len(),
            forall|t: int| k <= t < k + len ==> j < (#[trigger] a@[t])@.len(),
            out@ == column_segment(rows_view(a@), k as int, j as int, len as int).take(i as int),
    {
        out.push(a[k + i][j]);
        assert(out@ =~= column_segment(rows_view(a@), k as int, j as int, len as int).take(i + 1));
    }
    assert(out@ =~= column_segment(rows_view(a@), k as int, j as int, len as int));
    out
}

/// The sum of the squared moduli of `x`, accumulated in order from zero.
fn sum_norm_sqr_exec<T: Scalar>(x: &Vec<Complex<T>>) -> (r: T)
    ensures
        r == sum_norm_sqr(x@, x@.len() as int),
{
    let mut acc = T::zero();
    for i in 0..x.len()
        invariant
            acc == sum_norm_sqr(x@, i as int),
    {
        acc = acc.plus(x[i].norm_sqr());
    }
    acc
}

/// `s + conj(x[i]) * a[k + i][j]` over `i < x.len()`, accumulated in order from zero.
fn conj_dot_column<T: Scalar>(a: &Vec<Vec<Complex<T>>>, x: &Vec<Complex<T>>, k: usize, j: usize) -> (r: Complex<T>)
    requires
        k + x@.len() <= a@.len(),
        forall|i: int| k <= i < k + x@.len() ==> j < (#[trigger] a@[i])@.len(),
    ensures
        r == conj_dot_prefix(x@, column_segment(rows_view(a@), k as int, j as int, x@.len() as int), x@.len() as int),
{
    let ghost col = column_segment(rows_view(a@), k as int, j as int, x@.len() as int);
    let mut dot = Complex::from_real(T::zero());
    let n = a.len();
    for i in 0..x.len()
        invariant
            n == a@.len(),
            k + x@.len() <= a@.len(),
            forall|t: int| k <= t < k + x@.len() ==> j < (#[trigger] a@[t])@.len(),
            col == column_segment(rows_view(a@), k as int, j as int, x@.len() as int),
            dot == conj_dot_prefix(x@, col, i as int),
    {
        assert(col[i as int] == a@[k + i]@[j as int]);
        dot = core::ops::Add::add(dot, core::ops::Mul::mul(x[i].conj(), a[k + i][j]));
    }
    dot
}

/// The reflection along `x` on rows `k ..`, columns `jlo .. w` of `a` (see [`reflect`]).
fn reflect_rows<T: Scalar>(a: &Vec<Vec<Complex<T>>>, x: &Vec<Complex<T>>, k: usize, jlo: usize, w: usize, den: Complex<T>) -> (r: Vec<Vec<Complex<T>>>)
    requires
        k + x@.len() == a@.len(),
        jlo <= w,
        rows_have_width(rows_view(a@), w as int),
    ensures
        r@.len() == a@.len(),
        rows_view(r@) == reflect(rows_view(a@), x@, k as int, jlo as int, w as int, den),
{
    let ghost av = rows_view(a@);
    let mut coeffs: Vec<Complex<T>> = Vec::new();
    for j in jlo..w
        invariant
            k + x@.len() == a@.len(),
            jlo <= w,
            av == rows_view(a@),
            rows_have_width(av, w as int),
            coeffs@.len() == j - jlo,
            forall|t: int| 0 <= t < j - jlo ==> #[trigger] coeffs@[t] == reflect_coeff(av, x@, k as int, jlo + t, den),
    {
        assert forall|i: int| k <= i < k + x@.len() implies j < (#[trigger] a@[i])@.len() by {
            assert(av[i].len() == w);
        }
        let dot = conj_dot_column(a, x, k, j);
        coeffs.push(core::ops::Div::div(dot, den));
    }
    let mut out: Vec<Vec<Complex<T>>> = Vec::new();
    for i in 0..a.len()
        invariant
            k + x@.len() == a@.len(),
            jlo <= w,
            av == rows_view(a@),
            rows_have_width(av, w as int),
            coeffs@.len() == w - jlo,
            forall|t: int| 0 <= t < w - jlo ==> #[trigger] coeffs@[t] == reflect_coeff(av, x@, k as int, jlo + t, den),
            out@.len() == i,
            forall|t: int| 0 <= t < i ==> (#[trigger] out@[t])@ == reflect(av, x@, k as int, jlo as int, w as int, den)[t],
    {
        assert(av[i as int].len() == w);
        if i < k {
            out.push(copy_row(&a[i]));
        } else {
            let mut row: Vec<Complex<T>> = Vec::new();
            for j in 0..w
                invariant
                    k + x@.len() == a@.len(),
                    k <= i < a@.len(),
                    jlo <= w,
                    av == rows_view(a@),
                    av[i as int].len() == w,
                    coeffs@.len() == w - jlo,
                    forall|t: int| 0 <= t < w - jlo ==> #[trigger] coeffs@[t] == reflect_coeff(av, x@, k as int, jlo + t, den),
                    row@ == reflect(av, x@, k as int, jlo as int, w as int, den)[i as int].take(j as int),
            {
                let v = if j >= jlo {
                    assert(coeffs@[j - jlo] == reflect_coeff(av, x@, k as int, j as int, den));
                    core::ops::Sub::sub(a[i][j], core::ops::Mul::mul(x[i - k], coeffs[j - jlo]))
                } else {
                    a[i][j]
                };
                row.push(v);
                assert(row@ =~= reflect(av, x@, k as int, jlo as int, w as int, den)[i as int].take(j + 1));
            }
            assert(row@ =~= reflect(av, x@, k as int, jlo as int, w as int, den)[i as int]);
            out.push(row);
        }
    }
    assert(rows_view(out@) =~= reflect(av, x@, k as int, jlo as int, w as int, den));
    out
}

/// The `n x n` identity matrix.
fn identity_exec<T: Scalar>(n: usize) -> (r: Vec<Vec<Complex<T>>>)
    ensures
        r@.len() == n,
        rows_view(r@) == identity_rows::<T>(n as nat),
{
    let mut out: Vec<Vec<Complex<T>>> = Vec::new();
    for i in 0..n
        invariant
            out@.len() == i,
            forall|t: int| 0 <= t < i ==> (#[trigger] out@[t])@ == identity_rows::<T>(n as nat)[t],
    {
        let mut row: Vec<Complex<T>> = Vec::new();
        for j in 0..n
            invariant
                i < n,
                row@ == identity_rows::<T>(n as nat)[i as int].take(j as int),
        {
            if i == j {
                row.push(Complex::from_real(T::one()));
            } else {
                row.push(Complex::from_real(T::zero()));
            }
            assert(row@ =~= identity_rows::<T>(n as nat)[i as int].take(j + 1));
        }
        assert(row@ =~= identity_rows::<T>(n as nat)[i as int]);
        out.push(row);
    }
    assert(rows_view(out@) =~= identity_rows::<T>(n as nat));
    out
}

/// A copy of the rows of `a`.
fn copy_rows<T: Copy>(a: &Vec<Vec<T>>) -> (r: Vec<Vec<T>>)
    ensures
        r@.len() == a@.len(),
        rows_view(r@) == rows_view(a@),
{
    let mut out: Vec<Vec<T>> = Vec::new();
    for i in 0..a.len()
        invariant
            out@.len() == i,
            forall|t: int| 0 <= t < i ==> (#[trigger] out@[t])@ == a@[t]@,
    {
        out.push(copy_row(&a[i]));
    }
    assert(rows_view(out@) =~= rows_view(a@));
    out
}

/// The QR factorization of the `n x m` matrix `a` (rows, `n >= 1`) by Householder reflections
/// (see [`householder_qr_spec`]): the unitary factor `Q` (`n x n`) and `R` (`n x m`).
fn householder_qr<T: Scalar>(a: &Vec<Vec<Complex<T>>>) -> (r: (Vec<Vec<Complex<T>>>, Vec<Vec<Complex<T>>>))
    requires
        a@.len() >= 1,
        rows_have_width(rows_view(a@), a@[0]@.len() as int),
    ensures
        r.0@.len() == a@.len(),
        r.1@.len() == a@.len(),
        (rows_view(r.0@), rows_view(r.1@)) == householder_qr_spec(rows_view(a@), a@[0]@.len() as int),
{
    let n = a.len();
    let m = a[0].len();
    let ghost spec = householder_qr_spec(rows_view(a@), m as int);
    let mut r = copy_rows(a);
    let mut q = identity_exec::<T>(n);
    let kend = if m <= n {
        m
    } else {
        n
    };
    let tol = T::from_int(1).divide(T::from_int(100_000_000_000_000));
    let zero = T::zero();
    assert(rows_have_width(rows_view(q@), n as int));
    for k in 0..kend
        invariant
            n == a@.len(),
            kend <= n,
            kend <= m,
            tol == reflector_tol::<T>(),
            zero == T::zero_spec(),
            q@.len() == n,
            r@.len() == n,
            rows_have_width(rows_view(q@), n as int),
            rows_have_width(rows_view(r@), m as int),
            householder_run(rows_view(q@), rows_view(r@), k as int, kend as int, m as int) == spec,
    {
        let ghost qv = rows_view(q@);
        let ghost rv = rows_view(r@);
        assert forall|i: int| k <= i < k + (n - k) implies k < (#[trigger] r@[i])@.len() by {
            assert(rv[i].len() == m);
        }
        let x0 = column_segment_exec(&r, k, k, n - k);
        let norm_x = sum_norm_sqr_exec(&x0).sqrt();
        if !norm_x.lt(tol) {
            let one = T::one();
            let sign = if x0[0].re.lt(zero) {
                one.negate()
            } else {
                one
            };
            let mut x = x0;
            let first = core::ops::Add::add(x[0], Complex::from_real(sign.times(norm_x)));
            x.set(0, first);
            let norm_u = sum_norm_sqr_exec(&x).sqrt();
            if !norm_u.lt(tol) {
                let den = Complex::from_real(norm_u.times(norm_u).divide(two_exec::<T>()));
                let r2 = reflect_rows(&r, &x, k, k, m, den);
                let q2 = reflect_rows(&q, &x, k, 0, n, den);
                proof {
                    lemma_reflect_shape(rv, x@, k as int, k as int, m as int, den);
                    lemma_reflect_shape(qv, x@, k as int, 0, n as int, den);
                }
                r = r2;
                q = q2;
            }
        }
        assert(householder_step(qv, rv, k as int, m as int) == (rows_view(q@), rows_view(r@)));
    }
    (q, r)
}

/// The product of `a` (rows) and `b` (rows, each of `m` entries): entry `(i, j)` is
/// `sum_p a[i][p] b[p][j]`, accumulated in order from zero.
pub open spec fn mat_mul_rows<T: Scalar>(a: Seq<Seq<Complex<T>>>, b: Seq<Seq<Complex<T>>>, m: int) -> Seq<Seq<Complex<T>>> {
    Seq::new(
        a.len(),
        |i: int| Seq::new(m as nat, |j: int| c_dot_prefix(a[i], column_segment(b, 0, j, b.len() as int), b.len() as int)),
    )
}

/// The product of `a` and `b` (see [`mat_mul_rows`]), `b` having at least one row.
fn mul_mm<T: Scalar>(a: &Vec<Vec<Complex<T>>>, b: &Vec<Vec<Complex<T>>>) -> (r: Vec<Vec<Complex<T>>>)
    requires
        b@.len() >= 1,
        rows_have_width(rows_view(b@), b@[0]@.len() as int),
        rows_have_width(rows_view(a@), b@.len() as int),
    ensures
        r@.len() == a@.len(),
        rows_view(r@) == mat_mul_rows(rows_view(a@), rows_view(b@), b@[0]@.len() as int),
{
    let n = a.len();
    let m = b[0].len();
    let kk = b.len();
    let ghost av = rows_view(a@);
    let ghost bv = rows_view(b@);
    let ghost spec = mat_mul_rows(av, bv, m as int);
    let mut out: Vec<Vec<Complex<T>>> = Vec::new();
    for i in 0..n
        invariant
            n == a@.len(),
            kk == b@.len(),
            av == rows_view(a@),
            bv == rows_view(b@),
            spec == mat_mul_rows(av, bv, m as int),
            rows_have_width(bv, m as int),
            rows_have_width(av, kk as int),
            out@.len() == i,
            forall|t: int| 0 <= t < i ==> (#[trigger] out@[t])@ == spec[t],
    {
        let mut row: Vec<Complex<T>> = Vec::new();
        for j in 0..m
            invariant
                i < n,
                n == a@.len(),
                kk == b@.len(),
                av == rows_view(a@),
                bv == rows_view(b@),
                spec == mat_mul_rows(av, bv, m as int),
                rows_have_width(bv, m as int),
                rows_have_width(av, kk as int),
                row@ == spec[i as int].take(j as int),
        {
            let ghost col = column_segment(bv, 0, j as int, kk as int);
            let mut s = Complex::from_real(T::zero());
            for p in 0..kk
                invariant
                    i < n,
                    j < m,
                    n == a@.len(),
                    kk == b@.len(),
                    av == rows_view(a@),
                    bv == rows_view(b@),
                    col == column_segment(bv, 0, j as int, kk as int),
                    rows_have_width(bv, m as int),
                    rows_have_width(av, kk as int),
                    s == c_dot_prefix(av[i as int], col, p as int),
            {
                assert(av[i as int].len() == kk);
                assert(bv[p as int].len() == m);
                s = core::ops::Add::add(s, core::ops::Mul::mul(a[i][p], b[p][j]));
            }
            row.push(s);
            assert(row@ =~= spec[i as int].take(j + 1));
        }
        assert(row@ =~= spec[i as int]);
        out.push(row);
    }
    assert(rows_view(out@) =~= spec);
    out
}

// ===========================================================================
// Shifted QR eigenvalues
// ===========================================================================

/// The convergence tolerance `10^-10` of the shifted QR iteration, as `1 / 10^10`.
pub open spec fn qr_tol<T: Scalar>() -> T {
    T::from_int_spec(1).divide_spec(T::from_int_spec(10_000_000_000))
}

/// `mu` on the diagonal, complex zero elsewhere.
pub open spec fn diag_or_zero<T: Scalar>(i: int, j: int, mu: Complex<T>) -> Complex<T> {
    if i == j {
        mu
    } else {
        c_real(T::zero_spec())
    }
}

/// One shifted QR step on the `n x n` matrix `a` (rows), shifted by its last diagonal entry
/// `mu`: with `A - mu I = Q R` (see [`householder_qr_spec`]), the result is `R Q + mu I`.
pub open spec fn qr_step<T: Scalar>(a: Seq<Seq<Complex<T>>>) -> Seq<Seq<Complex<T>>> {
    let n = a.len() as int;
    let mu = a[n - 1][n - 1];
    let shifted = Seq::new(n as nat, |i: int| Seq::new(n as nat, |j: int| c_sub(a[i][j], diag_or_zero(i, j, mu))));
    let (q, r) = householder_qr_spec(shifted, n);
    let rq = mat_mul_rows(r, q, n);
    Seq::new(n as nat, |i: int| Seq::new(n as nat, |j: int| c_add(rq[i][j], diag_or_zero(i, j, mu))))
}

/// The shifted QR steps on `a` from iteration `iter`: at most `1000` in all, stopping after
/// the first step whose entry `(n - 1, n - 2)` has modulus below [`qr_tol`].
pub open spec fn qr_iterate<T: Scalar>(a: Seq<Seq<Complex<T>>>, iter: int) -> Seq<Seq<Complex<T>>>
    decreases 1000 - iter,
{
    if iter >= 1000 {
        a
    } else {
        let a1 = qr_step(a);
        let n = a.len() as int;
        if c_abs(a1[n - 1][n - 2]).lt_spec(qr_tol()) {
            a1
        } else {
            qr_iterate(a1, iter + 1)
        }
    }
}

/// The leading `n x n` block of `a`.
pub open spec fn truncate_rows<T>(a: Seq<Seq<T>>, n: int) -> Seq<Seq<T>> {
    Seq::new(n as nat, |i: int| a[i].take(n))
}

/// The eigenvalues of a `2 x 2` block from its characteristic polynomial:
/// `(tr +- sqrt(tr^2 - 4 det)) / 2`.
pub open spec fn eigenvalues_2x2<T: Scalar>(a: Seq<Seq<Complex<T>>>) -> Seq<Complex<T>> {
    let tr = c_add(a[0][0], a[1][1]);
    let det = c_sub(c_mul(a[0][0], a[1][1]), c_mul(a[0][1], a[1][0]));
    let disc = c_sqrt(c_sub(c_mul(tr, tr), c_mul(c_real(T::from_int_spec(4)), det)));
    let half = c_real(T::one_spec().divide_spec(two()));
    seq![c_mul(c_add(tr, disc), half), c_mul(c_sub(tr, disc), half)]
}

/// The eigenvalues found by deflation from the `n x n` matrix `a`, after those in `out`:
/// while `n > 2`, iterate (see [`qr_iterate`]), take the last diagonal entry and drop the
/// last row and column; a `2 x 2` remainder is solved in closed form, a `1 x 1` one is its
/// entry.
pub open spec fn deflate<T: Scalar>(a: Seq<Seq<Complex<T>>>, n: int, out: Seq<Complex<T>>) -> Seq<Complex<T>>
    decreases n,
{
    if n > 2 {
        let a1 = qr_iterate(a, 0);
        deflate(truncate_rows(a1, n - 1), n - 1, out.push(a1[n - 1][n - 1]))
    } else if n == 2 {
        out + eigenvalues_2x2(a)
    } else if n == 1 {
        out.push(a[0][0])
    } else {
        out
    }
}

/// The eigenvalues that the shifted QR algorithm reports for `m`: none for a non-square or
/// empty matrix, else [`deflate`] from its entries.
pub open spec fn eigenvalues_spec<T: Scalar>(m: &ComplexDMatrix<T>) -> Seq<Complex<T>> {
    let n = m.rows_spec();
    if m.cols_spec() != n || n == 0 {
        Seq::empty()
    } else {
        deflate(square_rows(&m.dense(), n), n as int, Seq::empty())
    }
}

/// The shifted iterations keep the shape `n x n`.
proof fn lemma_qr_iterate_shape<T: Scalar>(a: Seq<Seq<Complex<T>>>, iter: int)
    requires
        rows_have_width(a, a.len() as int),
    ensures
        qr_iterate(a, iter).len() == a.len(),
        rows_have_width(qr_iterate(a, iter), a.len() as int),
    decreases 1000 - iter,
{
    if iter < 1000 {
        let a1 = qr_step(a);
        assert(rows_have_width(a1, a.len() as int));
        lemma_qr_iterate_shape(a1, iter + 1);
    }
}

/// One shifted QR step (see [`qr_step`]) on the `n x n` matrix `a`, `n >= 2`.
fn qr_step_exec<T: Scalar>(a: &Vec<Vec<Complex<T>>>) -> (r: Vec<Vec<Complex<T>>>)
    requires
        a@.len() >= 2,
        rows_have_width(rows_view(a@), a@.len() as int),
    ensures
        r@.len() == a@.len(),
        rows_view(r@) == qr_step(rows_view(a@)),
{
    let n = a.len();
    let ghost av = rows_view(a@);
    assert(av[n - 1].len() == n);
    let mu = a[n - 1][n - 1];
    let ghost shifted = Seq::new(
        n as nat,
        |i: int| Seq::new(n as nat, |j: int| c_sub(av[i][j], diag_or_zero(i, j, mu))),
    );
    let mut sh: Vec<Vec<Complex<T>>> = Vec::new();
    for i in 0..n
        invariant
            n == a@.len(),
            av == rows_view(a@),
            rows_have_width(av, n as int),
            mu == av[n - 1][n - 1],
            shifted == Seq::new(n as nat, |i: int| Seq::new(n as nat, |j: int| c_sub(av[i][j], diag_or_zero(i, j, mu)))),
            sh@.len() == i,
            forall|t: int| 0 <= t < i ==> (#[trigger] sh@[t])@ == shifted[t],
    {
        assert(av[i as int].len() == n);
        let mut row: Vec<Complex<T>> = Vec::new();
        for j in 0..n
            invariant
                i < n,
                n == a@.len(),
                av == rows_view(a@),
                av[i as int].len() == n,
                shifted == Seq::new(n as nat, |i: int| Seq::new(n as nat, |j: int| c_sub(av[i][j], diag_or_zero(i, j, mu)))),
                row@ == shifted[i as int].take(j as int),
        {
            let d = if i == j {
                mu
            } else {
                Complex::from_real(T::zero())
            };
            row.push(core::ops::Sub::sub(a[i][j], d));
            assert(row@ =~= shifted[i as int].take(j + 1));
        }
        assert(row@ =~= shifted[i as int]);
        sh.push(row);
    }
    assert(rows_view(sh@) =~= shifted);
    assert(rows_have_width(rows_view(sh@), n as int));
    let (q, r) = householder_qr(&sh);
    proof {
        assert(rows_view(sh@)[0] == shifted[0]);
        assert(sh@[0]@.len() == n);
        assert(rows_have_width(identity_rows::<T>(n as nat), n as int));
        lemma_householder_run_shape(identity_rows::<T>(n as nat), shifted, 0, n as int, n as int);
        assert(rows_view(q@)[0].len() == n);
    }
    let rq = mul_mm(&r, &q);
    let ghost rqv = rows_view(rq@);
    assert(rows_have_width(rqv, n as int));
    let ghost target = qr_step(av);
    let mut out: Vec<Vec<Complex<T>>> = Vec::new();
    for i in 0..n
        invariant
            n == a@.len(),
            rq@.len() == n,
            rqv == rows_view(rq@),
            rows_have_width(rqv, n as int),
            mu == av[n - 1][n - 1],
            target == Seq::new(n as nat, |i: int| Seq::new(n as nat, |j: int| c_add(rqv[i][j], diag_or_zero(i, j, mu)))),
            out@.len() == i,
            forall|t: int| 0 <= t < i ==> (#[trigger] out@[t])@ == target[t],
    {
        assert(rqv[i as int].len() == n);
        let mut row: Vec<Complex<T>> = Vec::new();
        for j in 0..n
            invariant
                i < n,
                rq@.len() == n,
                rqv == rows_view(rq@),
                rqv[i as int].len() == n,
                target == Seq::new(n as nat, |i: int| Seq::new(n as nat, |j: int| c_add(rqv[i][j], diag_or_zero(i, j, mu)))),
                row@ == target[i as int].take(j as int),
        {
            let d = if i == j {
                mu
            } else {
                Complex::from_real(T::zero())
            };
            row.push(core::ops::Add::add(rq[i][j], d));
            assert(row@ =~= target[i as int].take(j + 1));
        }
        assert(row@ =~= target[i as int]);
        out.push(row);
    }
    assert(rows_view(out@) =~= target);
    out
}

/// The leading `n x n` block of `a`.
fn truncate_exec<T: Copy>(a: &Vec<Vec<T>>, n: usize) -> (r: Vec<Vec<T>>)
    requires
        n <= a@.len(),
        forall|i: int| 0 <= i < n ==> n <= (#[trigger] a@[i])@.len(),
    ensures
        r@.len() == n,
        rows_view(r@) == truncate_rows(rows_view(a@), n as int),
{
    let mut out: Vec<Vec<T>> = Vec::new();
    for i in 0..n
        invariant
            n <= a@.len(),
            forall|t: int| 0 <= t < n ==> n <= (#[trigger] a@[t])@.len(),
            out@.len() == i,
            forall|t: int| 0 <= t < i ==> (#[trigger] out@[t])@ == a@[t]@.take(n as int),
    {
        let mut row: Vec<T> = Vec::new();
        for j in 0..n
            invariant
                i < n,
                n <= a@.len(),
                n <= a@[i as int]@.len(),
                row@ == a@[i as int]@.take(j as int),
        {
            row.push(a[i][j]);
            assert(row@ =~= a@[i as int]@.take(j + 1));
        }
        out.push(row);
    }
    assert(rows_view(out@) =~= truncate_rows(rows_view(a@), n as int));
    out
}

impl<T: Scalar> ComplexDMatrix<T> {
    /// All eigenvalues of `self` by the shifted QR algorithm with deflation (see
    /// [`eigenvalues_spec`]): one per row of a square matrix, none for a non-square or empty
    /// one.
    pub fn eigenvalues(&self) -> (r: Vec<Complex<T>>)
        requires
            self.cols_spec() == self.rows_spec() ==> self.covers(self.rows_spec(), self.rows_spec()),
        ensures
            r@ == eigenvalues_spec(self),
    {
        let mut n = self.nrows();
        if self.ncols() != n || n == 0 {
            return Vec::new();
        }
        let ghost d = self.dense();
        let mut a: Vec<Vec<Complex<T>>> = Vec::new();
        for i in 0..n
            invariant
                n == self.rows_spec(),
                d == self.dense(),
                self.covers(self.rows_spec(), self.rows_spec()),
                a@.len() == i,
                forall|t: int| 0 <= t < i ==> (#[trigger] a@[t])@ == square_rows(&d, n as nat)[t],
        {
            let mut row: Vec<Complex<T>> = Vec::new();
            for j in 0..n
                invariant
                    n == self.rows_spec(),
                    d == self.dense(),
                    i < n,
                    self.covers(self.rows_spec(), self.rows_spec()),
                    row@.len() == j,
                    forall|c: int| 0 <= c < j ==> #[trigger] row@[c] == self.entry(i as int, c),
            {
                row.push(self[(i, j)]);
            }
            assert(row@ =~= square_rows(&d, n as nat)[i as int]);
            a.push(row);
        }
        assert(rows_view(a@) =~= square_rows(&d, n as nat));
        let ghost spec = eigenvalues_spec(self);
        let tol = T::from_int(1).divide(T::from_int(10_000_000_000));
        let mut out: Vec<Complex<T>> = Vec::new();
        while n > 2
            invariant
                a@.len() == n,
                rows_have_width(rows_view(a@), n as int),
                tol == qr_tol::<T>(),
                deflate(rows_view(a@), n as int, out@) == spec,
            decreases n,
        {
            let ghost a0 = rows_view(a@);
            let mut iter: usize = 0;
            let mut converged = false;
            while iter < 1000 && !converged
                invariant
                    n > 2,
                    a@.len() == n,
                    rows_have_width(rows_view(a@), n as int),
                    tol == qr_tol::<T>(),
                    iter <= 1000,
                    (if converged { rows_view(a@) } else { qr_iterate(rows_view(a@), iter as int) }) == qr_iterate(a0, 0),
                decreases 1000 - iter,
            {
                iter += 1;
                let a1 = qr_step_exec(&a);
                proof {
                    assert(rows_have_width(qr_step(rows_view(a@)), n as int));
                }
                a = a1;
                assert(rows_view(a@)[n - 1].len() == n);
                if a[n - 1][n - 2].norm().lt(tol) {
                    converged = true;
                }
            }
            let ghost a1 = rows_view(a@);
            assert(a1[n - 1].len() == n);
            out.push(a[n - 1][n - 1]);
            n = n - 1;
            assert forall|i: int| 0 <= i < n implies n <= (#[trigger] a@[i])@.len() by {
                assert(a1[i].len() == n + 1);
            }
            a = truncate_exec(&a, n);
            proof {
                let tr = truncate_rows(a1, n as int);
                assert forall|i: int| 0 <= i < n implies (#[trigger] tr[i]).len() == n by {
                    assert(a1[i].len() == n + 1);
                }
            }
        }
        let ghost av = rows_view(a@);
        if n == 2 {
            assert(av[0].len() == 2 && av[1].len() == 2);
            let a00 = a[0][0];
            let a01 = a[0][1];
            let a10 = a[1][0];
            let a11 = a[1][1];
            let tr = core::ops::Add::add(a00, a11);
            let det = core::ops::Sub::sub(core::ops::Mul::mul(a00, a11), core::ops::Mul::mul(a01, a10));
            let disc = core::ops::Sub::sub(
                core::ops::Mul::mul(tr, tr),
                core::ops::Mul::mul(Complex::from_real(T::from_int(4)), det),
            ).sqrt();
            let half = Complex::from_real(T::one().divide(two_exec::<T>()));
            let ghost before = out@;
            out.push(core::ops::Mul::mul(core::ops::Add::add(tr, disc), half));
            out.push(core::ops::Mul::mul(core::ops::Sub::sub(tr, disc), half));
            assert(out@ =~= before + eigenvalues_2x2(av));
        } else if n == 1 {
            assert(av[0].len() == 1);
            out.push(a[0][0]);
        }
        out
    }
}

} // verus!
