//! Convex quadratic programs
//!
//! ```text
//! minimize    1/2 x^T P x + q^T x
//! subject to  A_eq x = b_eq,  A_ineq x <= b_ineq,  l <= x <= u
//! ```
//!
//! solved by a dense primal-dual interior-point method (Mehrotra predictor-corrector) over a
//! [`Scalar`], the KKT systems going through the dense LU solver.
use vstd::prelude::*;

use crate::text::{decimal_text, push_decimal};

use crate::interpolate::{accumulate, lemma_lu_solve_rows_len, lu_solve_rows};
use crate::linalg_dense::{rows_view, square_rows, DMatrix, DVector};
use crate::linalg_fixed::dot_prefix;
use crate::scalar::{two, two_exec, Scalar};

verus! {

// ===========================================================================
// Errors and outcomes
// ===========================================================================

/// Errors of the QP solvers.
#[derive(Debug, Clone, PartialEq)]
pub enum ConvexError {
    /// A matrix or vector has a dimension that conflicts with the number of variables.
    DimensionMismatch { what: String },
    /// An input holds a non-finite entry; `what` names the input.
    NotFinite { what: String },
    /// The interior-point method did not reach an optimum; `status` says why.
    Solver { status: String },
}

/// The outcome of an interior-point solve.
#[derive(Debug, Clone, PartialEq)]
pub enum QpStatus {
    /// Converged within the tolerance.
    Solved,
    /// Converged within ten times the tolerance.
    AlmostSolved,
    /// Stopped without an optimum, for the reason given.
    Failed(String),
}

/// A solution of a quadratic program.
#[derive(Debug, Clone)]
pub struct QpSolution<T> {
    /// The primal variables `x`.
    pub x: DVector<T>,
    /// The objective `1/2 x^T P x + q^T x` at `x` (with `P` symmetrized).
    pub objective: T,
    /// The outcome.
    pub status: QpStatus,
}

/// The text `P is {r}x{c}, expected {n}x{n}` for an objective matrix of the wrong shape.
pub open spec fn p_shape_text(r: usize, c: usize, n: usize) -> Seq<char> {
    "P is "@ + decimal_text(r as nat) + "x"@ + decimal_text(c as nat) + ", expected "@ + decimal_text(n as nat) + "x"@ + decimal_text(n as nat)
}

/// Builds [`p_shape_text`].
fn p_shape_message(r: usize, c: usize, n: usize) -> (t: String)
    ensures
        t@ == p_shape_text(r, c, n),
{
    let mut s = String::from_str("P is ");
    push_decimal(&mut s, r);
    s.append("x");
    push_decimal(&mut s, c);
    s.append(", expected ");
    push_decimal(&mut s, n);
    s.append("x");
    push_decimal(&mut s, n);
    s
}

/// The text `A_eq has {c} columns, expected {n}` for an equality matrix with the wrong column count.
pub open spec fn eq_cols_text(c: usize, n: usize) -> Seq<char> {
    "A_eq has "@ + decimal_text(c as nat) + " columns, expected "@ + decimal_text(n as nat)
}

/// Builds [`eq_cols_text`].
fn eq_cols_message(c: usize, n: usize) -> (t: String)
    ensures
        t@ == eq_cols_text(c, n),
{
    let mut s = String::from_str("A_eq has ");
    push_decimal(&mut s, c);
    s.append(" columns, expected ");
    push_decimal(&mut s, n);
    s
}

/// The text `A_eq has {r} rows but b_eq has {m} entries` for an equality system whose row and right-hand-side counts differ.
pub open spec fn eq_rows_text(r: usize, m: usize) -> Seq<char> {
    "A_eq has "@ + decimal_text(r as nat) + " rows but b_eq has "@ + decimal_text(m as nat) + " entries"@
}

/// Builds [`eq_rows_text`].
fn eq_rows_message(r: usize, m: usize) -> (t: String)
    ensures
        t@ == eq_rows_text(r, m),
{
    let mut s = String::from_str("A_eq has ");
    push_decimal(&mut s, r);
    s.append(" rows but b_eq has ");
    push_decimal(&mut s, m);
    s.append(" entries");
    s
}

/// The text `A_ineq has {c} columns, expected {n}` for an inequality matrix with the wrong column count.
pub open spec fn ineq_cols_text(c: usize, n: usize) -> Seq<char> {
    "A_ineq has "@ + decimal_text(c as nat) + " columns, expected "@ + decimal_text(n as nat)
}

/// Builds [`ineq_cols_text`].
fn ineq_cols_message(c: usize, n: usize) -> (t: String)
    ensures
        t@ == ineq_cols_text(c, n),
{
    let mut s = String::from_str("A_ineq has ");
    push_decimal(&mut s, c);
    s.append(" columns, expected ");
    push_decimal(&mut s, n);
    s
}

/// The text `A_ineq has {r} rows but b_ineq has {m} entries` for an inequality system whose row and right-hand-side counts differ.
pub open spec fn ineq_rows_text(r: usize, m: usize) -> Seq<char> {
    "A_ineq has "@ + decimal_text(r as nat) + " rows but b_ineq has "@ + decimal_text(m as nat) + " entries"@
}

/// Builds [`ineq_rows_text`].
fn ineq_rows_message(r: usize, m: usize) -> (t: String)
    ensures
        t@ == ineq_rows_text(r, m),
{
    let mut s = String::from_str("A_ineq has ");
    push_decimal(&mut s, r);
    s.append(" rows but b_ineq has ");
    push_decimal(&mut s, m);
    s.append(" entries");
    s
}

/// The text `bounds has {k} entries, expected {n} or empty` for a bound list of the wrong length.
pub open spec fn bounds_len_text(k: usize, n: usize) -> Seq<char> {
    "bounds has "@ + decimal_text(k as nat) + " entries, expected "@ + decimal_text(n as nat) + " or empty"@
}

/// Builds [`bounds_len_text`].
fn bounds_len_message(k: usize, n: usize) -> (t: String)
    ensures
        t@ == bounds_len_text(k, n),
{
    let mut s = String::from_str("bounds has ");
    push_decimal(&mut s, k);
    s.append(" entries, expected ");
    push_decimal(&mut s, n);
    s.append(" or empty");
    s
}

// ===========================================================================
// Dense helpers over rows
// ===========================================================================

/// The constant `1/2` of a scalar type, as `1 / (1 + 1)`.
pub open spec fn half<T: Scalar>() -> T {
    T::one_spec().divide_spec(two())
}

/// A dense matrix as values: its shape and its column-major storage.
pub struct DenseView<T> {
    pub rows: nat,
    pub cols: nat,
    pub store: Seq<T>,
}

/// The values of `m`.
pub open spec fn dense_view<T>(m: &DMatrix<T>) -> DenseView<T> {
    DenseView { rows: m.rows_spec(), cols: m.cols_spec(), store: m.storage() }
}

/// Entry `(i, j)` of `v`.
pub open spec fn view_entry<T>(v: DenseView<T>, i: int, j: int) -> T {
    v.store[i + j * v.rows]
}

/// The rows of `v`, each read to `w` entries.
pub open spec fn rows_of_width<T>(v: DenseView<T>, w: nat) -> Seq<Seq<T>> {
    Seq::new(v.rows, |i: int| Seq::new(w, |j: int| view_entry(v, i, j)))
}

/// The symmetric part `(M + M^T) / 2` of the square matrix `v`, entry by entry
/// `1/2 (v[i][j] + v[j][i])`.
pub open spec fn symmetrized<T: Scalar>(v: DenseView<T>) -> Seq<Seq<T>> {
    Seq::new(
        v.rows,
        |i: int| Seq::new(v.cols, |j: int| half::<T>().times_spec(view_entry(v, i, j).plus_spec(view_entry(v, j, i)))),
    )
}

/// The dot product over the common length, accumulated in order from zero.
pub open spec fn zip_dot<T: Scalar>(a: Seq<T>, b: Seq<T>) -> T {
    dot_prefix(a, b, if a.len() <= b.len() { a.len() as int } else { b.len() as int })
}

/// The Euclidean norm: the square root of the sum of squares, accumulated in order.
pub open spec fn norm2<T: Scalar>(v: Seq<T>) -> T {
    dot_prefix(v, v, v.len() as int).sqrt_spec()
}

/// `sum_{i < k} (p[i] . x) x[i]`, each row product over the first `n` entries, accumulated
/// in order.
pub open spec fn quad_form<T: Scalar>(p: Seq<Seq<T>>, x: Seq<T>, k: int) -> T
    decreases k,
{
    if k <= 0 {
        T::zero_spec()
    } else {
        quad_form(p, x, k - 1).plus_spec(dot_prefix(p[k - 1], x, x.len() as int).times_spec(x[k - 1]))
    }
}

/// The objective `1/2 x^T P x + q . x`.
pub open spec fn qp_objective_value<T: Scalar>(p: Seq<Seq<T>>, q: Seq<T>, x: Seq<T>) -> T {
    half::<T>().times_spec(quad_form(p, x, x.len() as int)).plus_spec(zip_dot(q, x))
}

/// Every element is finite.
pub open spec fn all_finite<T: Scalar>(s: Seq<T>) -> bool {
    forall|k: int| 0 <= k < s.len() ==> (#[trigger] s[k]).is_finite_spec()
}

/// The row of `n` entries with `v` at column `j` and zeros elsewhere.
pub open spec fn unit_row<T: Scalar>(n: nat, j: int, v: T) -> Seq<T> {
    Seq::new(n, |c: int| if c == j { v } else { T::zero_spec() })
}

/// The nonnegative-cone rows of the first `k` bounds: a finite lower bound `l` on `x_j`
/// gives `-x_j + s = -l`, a finite upper bound `u` gives `x_j + s = u`.
pub open spec fn bound_rows<T: Scalar>(bounds: Seq<(T, T)>, n: nat, k: int) -> (Seq<Seq<T>>, Seq<T>)
    decreases k,
{
    if k <= 0 {
        (Seq::empty(), Seq::empty())
    } else {
        let (rows, rhs) = bound_rows(bounds, n, k - 1);
        let (l, u) = bounds[k - 1];
        let (rows1, rhs1) = if l.is_finite_spec() {
            (rows.push(unit_row(n, k - 1, T::one_spec().negate_spec())), rhs.push(l.negate_spec()))
        } else {
            (rows, rhs)
        };
        if u.is_finite_spec() {
            (rows1.push(unit_row(n, k - 1, T::one_spec())), rhs1.push(u))
        } else {
            (rows1, rhs1)
        }
    }
}

/// The bound rows have `n` entries each, one right-hand side apiece.
pub proof fn lemma_bound_rows_shape<T: Scalar>(bounds: Seq<(T, T)>, n: nat, k: int)
    ensures
        bound_rows(bounds, n, k).0.len() == bound_rows(bounds, n, k).1.len(),
        forall|i: int| 0 <= i < bound_rows(bounds, n, k).0.len() ==> (#[trigger] bound_rows(bounds, n, k).0[i]).len() == n,
    decreases k,
{
    if k > 0 {
        lemma_bound_rows_shape(bounds, n, k - 1);
    }
}

/// The nonnegative-cone system `A x + s = b` of the inequality rows followed by the bound
/// rows.
pub open spec fn inequality_system<T: Scalar>(a_ineq: DenseView<T>, b_ineq: Seq<T>, bounds: Seq<(T, T)>, n: nat) -> (Seq<Seq<T>>, Seq<T>) {
    let (br, bb) = bound_rows(bounds, n, bounds.len() as int);
    (rows_of_width(a_ineq, n) + br, b_ineq + bb)
}

/// The largest step in `[0, cap]` by `dv` from `v` that the first `k` ratio tests allow: the
/// running minimum of `cap` and `-v[i] / dv[i]` over the `i` with `dv[i] < 0`.
pub open spec fn step_scan<T: Scalar>(v: Seq<T>, dv: Seq<T>, cap: T, k: int) -> T
    decreases k,
{
    if k <= 0 {
        cap
    } else {
        let a = step_scan(v, dv, cap, k - 1);
        if dv[k - 1].lt_spec(T::zero_spec()) {
            a.min_spec(v[k - 1].negate_spec().divide_spec(dv[k - 1]))
        } else {
            a
        }
    }
}

/// The step length keeping `v + alpha dv` nonnegative: [`step_scan`] over all of `v`, then
/// at least zero.
pub open spec fn step_length_value<T: Scalar>(v: Seq<T>, dv: Seq<T>, cap: T) -> T {
    step_scan(v, dv, cap, v.len() as int).max_spec(T::zero_spec())
}

/// The entries of `m` as rows (`m` well formed).
fn matrix_to_vec<T: Scalar>(m: &DMatrix<T>) -> (r: Vec<Vec<T>>)
    requires
        m.well_formed(),
    ensures
        r@.len() == m.rows_spec(),
        rows_view(r@) == rows_of_width(dense_view(m), m.cols_spec()),
{
    proof {
        m.lemma_well_formed_covers();
    }
    rows_to_width(m, m.ncols())
}

/// The rows of `m`, each read to `w` entries (which `m` must cover).
fn rows_to_width<T: Scalar>(m: &DMatrix<T>, w: usize) -> (r: Vec<Vec<T>>)
    requires
        m.covers(m.rows_spec(), w as nat),
    ensures
        r@.len() == m.rows_spec(),
        rows_view(r@) == rows_of_width(dense_view(m), w as nat),
{
    let ghost spec = rows_of_width(dense_view(m), w as nat);
    let mut out: Vec<Vec<T>> = Vec::new();
    let nr = m.nrows();
    for i in 0..nr
        invariant
            nr == m.rows_spec(),
            m.covers(m.rows_spec(), w as nat),
            spec == rows_of_width(dense_view(m), w as nat),
            out@.len() == i,
            forall|t: int| 0 <= t < i ==> (#[trigger] out@[t])@ == spec[t],
    {
        let mut row: Vec<T> = Vec::new();
        for j in 0..w
            invariant
                i < m.rows_spec(),
                m.covers(m.rows_spec(), w as nat),
                spec == rows_of_width(dense_view(m), w as nat),
                row@ == spec[i as int].take(j as int),
        {
            assert(i + j * m.rows_spec() < m.storage().len());
            row.push(m.get(i, j));
            assert(row@ =~= spec[i as int].take(j + 1));
        }
        assert(row@ =~= spec[i as int]);
        out.push(row);
    }
    assert(rows_view(out@) =~= spec);
    out
}

/// The symmetric part of the square, well-formed `m` (see [`symmetrized`]).
fn symmetrize<T: Scalar>(m: &DMatrix<T>) -> (r: Vec<Vec<T>>)
    requires
        m.well_formed(),
        m.rows_spec() == m.cols_spec(),
    ensures
        r@.len() == m.rows_spec(),
        rows_view(r@) == symmetrized(dense_view(m)),
{
    proof {
        m.lemma_well_formed_covers();
    }
    let n = m.nrows();
    let h = T::one().divide(two_exec::<T>());
    let ghost spec = symmetrized(dense_view(m));
    let mut out: Vec<Vec<T>> = Vec::new();
    for i in 0..n
        invariant
            n == m.rows_spec(),
            n == m.cols_spec(),
            h == half::<T>(),
            m.covers(m.rows_spec(), m.cols_spec()),
            spec == symmetrized(dense_view(m)),
            out@.len() == i,
            forall|t: int| 0 <= t < i ==> (#[trigger] out@[t])@ == spec[t],
    {
        let mut row: Vec<T> = Vec::new();
        for j in 0..n
            invariant
                i < n,
                n == m.rows_spec(),
                n == m.cols_spec(),
                h == half::<T>(),
                m.covers(m.rows_spec(), m.cols_spec()),
                spec == symmetrized(dense_view(m)),
                row@ == spec[i as int].take(j as int),
        {
            assert(i + j * m.rows_spec() < m.storage().len());
            assert(j + i * m.rows_spec() < m.storage().len());
            row.push(h.times(m.get(i, j).plus(m.get(j, i))));
            assert(row@ =~= spec[i as int].take(j + 1));
        }
        assert(row@ =~= spec[i as int]);
        out.push(row);
    }
    assert(rows_view(out@) =~= spec);
    out
}

/// The dot product over the common length (see [`zip_dot`]).
fn dot<T: Scalar>(a: &[T], b: &[T]) -> (r: T)
    ensures
        r == zip_dot(a@, b@),
{
    let n = if a.len() <= b.len() {
        a.len()
    } else {
        b.len()
    };
    let mut s = T::zero();
    for i in 0..n
        invariant
            n <= a@.len(),
            n <= b@.len(),
            s == dot_prefix(a@, b@, i as int),
    {
        s = s.plus(a[i].times(b[i]));
    }
    s
}

/// The Euclidean norm (see [`norm2`]).
fn norm<T: Scalar>(v: &[T]) -> (r: T)
    ensures
        r == norm2(v@),
{
    let mut s = T::zero();
    for i in 0..v.len()
        invariant
            s == dot_prefix(v@, v@, i as int),
    {
        s = s.plus(v[i].times(v[i]));
    }
    s.sqrt()
}

/// The objective `1/2 x^T P x + q . x` (see [`qp_objective_value`]); `p` has a row of at
/// least `x.len()` entries for each entry of `x`.
fn qp_objective<T: Scalar>(p: &Vec<Vec<T>>, q: &[T], x: &[T]) -> (r: T)
    requires
        p@.len() >= x@.len(),
        forall|i: int| 0 <= i < x@.len() ==> (#[trigger] p@[i])@.len() >= x@.len(),
    ensures
        r == qp_objective_value(rows_view(p@), q@, x@),
{
    let n = x.len();
    let ghost pv = rows_view(p@);
    let mut quad = T::zero();
    for i in 0..n
        invariant
            n == x@.len(),
            pv == rows_view(p@),
            p@.len() >= n,
            forall|t: int| 0 <= t < n ==> (#[trigger] p@[t])@.len() >= n,
            quad == quad_form(pv, x@, i as int),
    {
        let mut row = T::zero();
        for k in 0..n
            invariant
                i < n,
                n == x@.len(),
                pv == rows_view(p@),
                p@.len() >= n,
                p@[i as int]@.len() >= n,
                row == dot_prefix(pv[i as int], x@, k as int),
        {
            row = row.plus(p[i][k].times(x[k]));
        }
        quad = quad.plus(row.times(x[i]));
    }
    T::one().divide(two_exec::<T>()).times(quad).plus(dot(q, x))
}

/// `Ok` when every stored entry of `m` is finite, else the non-finite error naming `what`.
fn check_finite_matrix<T: Scalar>(m: &DMatrix<T>, what: &str) -> (r: Result<(), ConvexError>)
    ensures
        all_finite(m.storage()) ==> r is Ok,
        !all_finite(m.storage()) ==> (r matches Err(ConvexError::NotFinite { what: w }) && w@ == what@),
{
    let vals = m.iter();
    for i in 0..vals.len()
        invariant
            vals@ == m.storage(),
            forall|k: int| 0 <= k < i ==> (#[trigger] vals@[k]).is_finite_spec(),
    {
        if !vals[i].is_finite() {
            return Err(ConvexError::NotFinite { what: String::from_str(what) });
        }
    }
    Ok(())
}

/// `Ok` when every entry of `v` is finite, else the non-finite error naming `what`.
fn check_finite_vector<T: Scalar>(v: &DVector<T>, what: &str) -> (r: Result<(), ConvexError>)
    ensures
        all_finite(v@) ==> r is Ok,
        !all_finite(v@) ==> (r matches Err(ConvexError::NotFinite { what: w }) && w@ == what@),
{
    let vals = v.iter();
    for i in 0..vals.len()
        invariant
            vals@ == v@,
            forall|k: int| 0 <= k < i ==> (#[trigger] vals@[k]).is_finite_spec(),
    {
        if !vals[i].is_finite() {
            return Err(ConvexError::NotFinite { what: String::from_str(what) });
        }
    }
    Ok(())
}

/// The nonnegative-cone system of the inequality rows and the finite bounds (see
/// [`inequality_system`]).
fn build_inequality_system<T: Scalar>(a_ineq: &DMatrix<T>, b_ineq: &DVector<T>, bounds: &[(T, T)], n: usize) -> (r: (Vec<Vec<T>>, Vec<T>))
    requires
        a_ineq.well_formed(),
        a_ineq.rows_spec() == b_ineq@.len(),
        a_ineq.rows_spec() > 0 ==> a_ineq.cols_spec() == n,
        bounds@.len() <= n,
    ensures
        (rows_view(r.0@), r.1@) == inequality_system(dense_view(a_ineq), b_ineq@, bounds@, n as nat),
        r.0@.len() == r.1@.len(),
{
    proof {
        a_ineq.lemma_well_formed_covers();
    }
    let mut rows = rows_to_width(a_ineq, n);
    let mut rhs: Vec<T> = Vec::new();
    let bv = b_ineq.iter();
    for r in 0..bv.len()
        invariant
            rhs@ == bv@.take(r as int),
    {
        rhs.push(bv[r]);
        assert(rhs@ =~= bv@.take(r + 1));
    }
    assert(rhs@ =~= b_ineq@);
    let ghost base_rows = rows_view(rows@);
    let zero = T::zero();
    let one = T::one();
    for j in 0..bounds.len()
        invariant
            n == n,
            bounds@.len() <= n,
            zero == T::zero_spec(),
            one == T::one_spec(),
            base_rows == rows_of_width(dense_view(a_ineq), n as nat),
            rows@.len() == rhs@.len(),
            rows_view(rows@) == base_rows + bound_rows(bounds@, n as nat, j as int).0,
            rhs@ == b_ineq@ + bound_rows(bounds@, n as nat, j as int).1,
    {
        let (l, u) = bounds[j];
        let ghost r0 = rows_view(rows@);
        let ghost b0 = rhs@;
        let ghost rows1 = if l.is_finite_spec() {
            r0.push(unit_row(n as nat, j as int, one.negate_spec()))
        } else {
            r0
        };
        let ghost rhs1 = if l.is_finite_spec() {
            b0.push(l.negate_spec())
        } else {
            b0
        };
        if l.is_finite() {
            let mut row: Vec<T> = Vec::new();
            for c in 0..n
                invariant
                    j < n,
                    zero == T::zero_spec(),
                    one == T::one_spec(),
                    row@ == unit_row(n as nat, j as int, one.negate_spec()).take(c as int),
            {
                if c == j {
                    row.push(one.negate());
                } else {
                    row.push(zero);
                }
                assert(row@ =~= unit_row(n as nat, j as int, one.negate_spec()).take(c + 1));
            }
            assert(row@ =~= unit_row(n as nat, j as int, one.negate_spec()));
            rows.push(row);
            rhs.push(l.negate());
        }
        assert(rows_view(rows@) =~= rows1);
        assert(rhs@ =~= rhs1);
        let ghost r2 = rows_view(rows@);
        if u.is_finite() {
            let mut row: Vec<T> = Vec::new();
            for c in 0..n
                invariant
                    j < n,
                    zero == T::zero_spec(),
                    one == T::one_spec(),
                    row@ == unit_row(n as nat, j as int, one).take(c as int),
            {
                if c == j {
                    row.push(one);
                } else {
                    row.push(zero);
                }
                assert(row@ =~= unit_row(n as nat, j as int, one).take(c + 1));
            }
            assert(row@ =~= unit_row(n as nat, j as int, one));
            rows.push(row);
            rhs.push(u);
            assert(rows_view(rows@) =~= r2.push(unit_row(n as nat, j as int, one)));
        }
        assert(rows_view(rows@) =~= base_rows + bound_rows(bounds@, n as nat, j + 1).0);
        assert(rhs@ =~= b_ineq@ + bound_rows(bounds@, n as nat, j + 1).1);
    }
    (rows, rhs)
}

/// The step length in `[0, cap]` keeping `v + alpha dv` nonnegative (see
/// [`step_length_value`]).
fn step_length<T: Scalar>(v: &[T], dv: &[T], cap: T) -> (r: T)
    requires
        dv@.len() >= v@.len(),
    ensures
        r == step_length_value(v@, dv@, cap),
{
    let zero = T::zero();
    let mut alpha = cap;
    for i in 0..v.len()
        invariant
            dv@.len() >= v@.len(),
            zero == T::zero_spec(),
            alpha == step_scan(v@, dv@, cap, i as int),
    {
        if dv[i].lt(zero) {
            alpha = alpha.min(v[i].negate().divide(dv[i]));
        }
    }
    alpha.max(zero)
}

// ===========================================================================
// Residuals, KKT systems and Newton steps
// ===========================================================================

/// Column `i` of the rows `m`.
pub open spec fn column_of<T>(m: Seq<Seq<T>>, i: int) -> Seq<T> {
    Seq::new(m.len(), |e: int| m[e][i])
}

/// The dual residual `P x + q + A_eq^T y + A^T z`, entry `i` accumulated as
/// `q[i] + sum_k p[i][k] x[k] + sum_e a_eq[e][i] y[e] + sum_j a[j][i] z[j]` in that order.
pub open spec fn dual_residual<T: Scalar>(p: Seq<Seq<T>>, q: Seq<T>, a_eq: Seq<Seq<T>>, y: Seq<T>, a: Seq<Seq<T>>, z: Seq<T>, x: Seq<T>) -> Seq<T> {
    Seq::new(
        x.len(),
        |i: int|
            accumulate(
                accumulate(accumulate(q[i], p[i], x, x.len() as int), column_of(a_eq, i), y, a_eq.len() as int),
                column_of(a, i),
                z,
                a.len() as int,
            ),
    )
}

/// The equality residual `A_eq x - b_eq`.
pub open spec fn primal_eq_residual<T: Scalar>(a_eq: Seq<Seq<T>>, x: Seq<T>, b_eq: Seq<T>) -> Seq<T> {
    Seq::new(a_eq.len(), |e: int| zip_dot(a_eq[e], x).minus_spec(b_eq[e]))
}

/// The cone residual `A x + s - b`.
pub open spec fn primal_cone_residual<T: Scalar>(a: Seq<Seq<T>>, x: Seq<T>, s: Seq<T>, b: Seq<T>) -> Seq<T> {
    Seq::new(a.len(), |j: int| zip_dot(a[j], x).plus_spec(s[j]).minus_spec(b[j]))
}

/// `v0 + sum_{k' < k} a[k'][i] sigma[k'] a[k'][j]`, accumulated in order.
pub open spec fn cone_terms<T: Scalar>(v0: T, a: Seq<Seq<T>>, sigma: Seq<T>, i: int, j: int, k: int) -> T
    decreases k,
{
    if k <= 0 {
        v0
    } else {
        cone_terms(v0, a, sigma, i, j, k - 1).plus_spec(a[k - 1][i].times_spec(sigma[k - 1]).times_spec(a[k - 1][j]))
    }
}

/// Entry `(i, j)` of the reduced KKT matrix `[P + A^T diag(sigma) A, A_eq^T; A_eq, 0]` (`n`
/// the row count of `p`).
pub open spec fn kkt_entry<T: Scalar>(p: Seq<Seq<T>>, a_eq: Seq<Seq<T>>, a: Seq<Seq<T>>, sigma: Seq<T>, i: int, j: int) -> T {
    let n = p.len() as int;
    let m_eq = a_eq.len() as int;
    if i < n && j < n {
        cone_terms(p[i][j], a, sigma, i, j, a.len() as int)
    } else if i < n && j >= n {
        if j - n < m_eq {
            a_eq[j - n][i]
        } else {
            T::zero_spec()
        }
    } else if i >= n && j < n {
        if i - n < m_eq {
            a_eq[i - n][j]
        } else {
            T::zero_spec()
        }
    } else {
        T::zero_spec()
    }
}

/// The rows of the reduced KKT matrix, of order `n + m_eq`.
pub open spec fn kkt_rows<T: Scalar>(p: Seq<Seq<T>>, a_eq: Seq<Seq<T>>, a: Seq<Seq<T>>, sigma: Seq<T>) -> Seq<Seq<T>> {
    let dim = p.len() + a_eq.len();
    Seq::new(dim, |i: int| Seq::new(dim, |j: int| kkt_entry(p, a_eq, a, sigma, i, j)))
}

/// Entry `i` (`i < n`) of the Newton right-hand side: `-r_dual[i]` plus, for each cone row
/// `j` in order, `a[j][i] z[j] - a[j][i] sigma[j] r_pri2[j] + a[j][i] (w[j] / s[j])`.
pub open spec fn rhs_terms<T: Scalar>(v0: T, a: Seq<Seq<T>>, z: Seq<T>, sigma: Seq<T>, r_pri2: Seq<T>, w: Seq<T>, s: Seq<T>, i: int, k: int) -> T
    decreases k,
{
    if k <= 0 {
        v0
    } else {
        let j = k - 1;
        rhs_terms(v0, a, z, sigma, r_pri2, w, s, i, k - 1).plus_spec(a[j][i].times_spec(z[j])).minus_spec(
            a[j][i].times_spec(sigma[j]).times_spec(r_pri2[j]),
        ).plus_spec(a[j][i].times_spec(w[j].divide_spec(s[j])))
    }
}

/// The iterate and the quantities a Newton step is built from.
pub struct NewtonInput<T> {
    pub z: Seq<T>,
    pub s: Seq<T>,
    pub sigma: Seq<T>,
    pub r_dual: Seq<T>,
    pub r_pri_eq: Seq<T>,
    pub r_pri2: Seq<T>,
    pub w: Seq<T>,
}

/// The right-hand side of the reduced KKT system, `n` dual entries then `-r_pri_eq`.
pub open spec fn newton_rhs<T: Scalar>(a: Seq<Seq<T>>, n: int, m_eq: int, v: NewtonInput<T>) -> Seq<T> {
    Seq::new(
        (n + m_eq) as nat,
        |i: int|
            if i < n {
                rhs_terms(v.r_dual[i].negate_spec(), a, v.z, v.sigma, v.r_pri2, v.w, v.s, i, a.len() as int)
            } else {
                v.r_pri_eq[i - n].negate_spec()
            },
    )
}

/// The Newton step `(dx, dy, ds, dz)` for corrector `w` (zero for the predictor): `(dx, dy)`
/// solve the reduced KKT system, then `ds = -r_pri2 - A dx` and
/// `dz = -z + w / s - sigma ds`; `None` when the KKT system is singular.
pub open spec fn newton_step<T: Scalar>(p: Seq<Seq<T>>, a_eq: Seq<Seq<T>>, a: Seq<Seq<T>>, v: NewtonInput<T>) -> Option<(Seq<T>, Seq<T>, Seq<T>, Seq<T>)> {
    let n = p.len() as int;
    let m_eq = a_eq.len() as int;
    match lu_solve_rows(kkt_rows(p, a_eq, a, v.sigma), newton_rhs(a, n, m_eq, v)) {
        None => None,
        Some(delta) => {
            let dx = delta.subrange(0, n);
            let dy = delta.subrange(n, n + m_eq);
            let ds = Seq::new(a.len(), |j: int| v.r_pri2[j].negate_spec().minus_spec(zip_dot(a[j], dx)));
            let dz = Seq::new(
                a.len(),
                |j: int| v.z[j].negate_spec().plus_spec(v.w[j].divide_spec(v.s[j])).minus_spec(v.sigma[j].times_spec(ds[j])),
            );
            Some((dx, dy, ds, dz))
        },
    }
}

/// Every row of `m` has exactly `w` entries.
pub open spec fn width_is<T>(m: Seq<Seq<T>>, w: int) -> bool {
    forall|i: int| 0 <= i < m.len() ==> (#[trigger] m[i]).len() == w
}

/// `v0 + sum_{k < m} u[k] w[k]`, accumulated in order (see [`accumulate`]).
fn accumulate_exec<T: Scalar>(v0: T, u: &[T], w: &[T], m: usize) -> (r: T)
    requires
        m <= u@.len(),
        m <= w@.len(),
    ensures
        r == accumulate(v0, u@, w@, m as int),
{
    let mut v = v0;
    for k in 0..m
        invariant
            m <= u@.len(),
            m <= w@.len(),
            v == accumulate(v0, u@, w@, k as int),
    {
        v = v.plus(u[k].times(w[k]));
    }
    v
}

/// Column `i` of the rows `m` (each longer than `i`).
fn column_exec<T: Copy>(m: &Vec<Vec<T>>, i: usize) -> (r: Vec<T>)
    requires
        forall|e: int| 0 <= e < m@.len() ==> i < (#[trigger] m@[e])@.len(),
    ensures
        r@ == column_of(rows_view(m@), i as int),
{
    let mut out: Vec<T> = Vec::new();
    for e in 0..m.len()
        invariant
            forall|t: int| 0 <= t < m@.len() ==> i < (#[trigger] m@[t])@.len(),
            out@ == column_of(rows_view(m@), i as int).take(e as int),
    {
        out.push(m[e][i]);
        assert(out@ =~= column_of(rows_view(m@), i as int).take(e + 1));
    }
    assert(out@ =~= column_of(rows_view(m@), i as int));
    out
}

/// The dual residual (see [`dual_residual`]).
fn resid_dual<T: Scalar>(p: &Vec<Vec<T>>, q: &Vec<T>, a_eq: &Vec<Vec<T>>, y: &Vec<T>, a: &Vec<Vec<T>>, z: &Vec<T>, x: &Vec<T>) -> (r: Vec<T>)
    requires
        p@.len() == x@.len(),
        q@.len() == x@.len(),
        y@.len() == a_eq@.len(),
        z@.len() == a@.len(),
        width_is(rows_view(p@), x@.len() as int),
        width_is(rows_view(a_eq@), x@.len() as int),
        width_is(rows_view(a@), x@.len() as int),
    ensures
        r@ == dual_residual(rows_view(p@), q@, rows_view(a_eq@), y@, rows_view(a@), z@, x@),
{
    let n = x.len();
    let ghost spec = dual_residual(rows_view(p@), q@, rows_view(a_eq@), y@, rows_view(a@), z@, x@);
    let mut out: Vec<T> = Vec::new();
    for i in 0..n
        invariant
            n == x@.len(),
            p@.len() == n,
            q@.len() == n,
            y@.len() == a_eq@.len(),
            z@.len() == a@.len(),
            width_is(rows_view(p@), n as int),
            width_is(rows_view(a_eq@), n as int),
            width_is(rows_view(a@), n as int),
            spec == dual_residual(rows_view(p@), q@, rows_view(a_eq@), y@, rows_view(a@), z@, x@),
            out@ == spec.take(i as int),
    {
        assert(rows_view(p@)[i as int].len() == n);
        assert forall|e: int| 0 <= e < a_eq@.len() implies i < (#[trigger] a_eq@[e])@.len() by {
            assert(rows_view(a_eq@)[e].len() == n);
        }
        assert forall|e: int| 0 <= e < a@.len() implies i < (#[trigger] a@[e])@.len() by {
            assert(rows_view(a@)[e].len() == n);
        }
        let v1 = accumulate_exec(q[i], p[i].as_slice(), x.as_slice(), n);
        let ce = column_exec(a_eq, i);
        let v2 = accumulate_exec(v1, ce.as_slice(), y.as_slice(), a_eq.len());
        let ca = column_exec(a, i);
        let v3 = accumulate_exec(v2, ca.as_slice(), z.as_slice(), a.len());
        out.push(v3);
        assert(out@ =~= spec.take(i + 1));
    }
    assert(out@ =~= spec);
    out
}

/// The equality residual (see [`primal_eq_residual`]).
fn resid_pri_eq<T: Scalar>(a_eq: &Vec<Vec<T>>, x: &Vec<T>, b_eq: &Vec<T>) -> (r: Vec<T>)
    requires
        b_eq@.len() == a_eq@.len(),
    ensures
        r@ == primal_eq_residual(rows_view(a_eq@), x@, b_eq@),
{
    let ghost spec = primal_eq_residual(rows_view(a_eq@), x@, b_eq@);
    let mut out: Vec<T> = Vec::new();
    for e in 0..a_eq.len()
        invariant
            b_eq@.len() == a_eq@.len(),
            spec == primal_eq_residual(rows_view(a_eq@), x@, b_eq@),
            out@ == spec.take(e as int),
    {
        out.push(dot(a_eq[e].as_slice(), x.as_slice()).minus(b_eq[e]));
        assert(out@ =~= spec.take(e + 1));
    }
    assert(out@ =~= spec);
    out
}

/// The cone residual (see [`primal_cone_residual`]).
fn resid_pri2<T: Scalar>(a: &Vec<Vec<T>>, x: &Vec<T>, s: &Vec<T>, b: &Vec<T>) -> (r: Vec<T>)
    requires
        s@.len() == a@.len(),
        b@.len() == a@.len(),
    ensures
        r@ == primal_cone_residual(rows_view(a@), x@, s@, b@),
{
    let ghost spec = primal_cone_residual(rows_view(a@), x@, s@, b@);
    let mut out: Vec<T> = Vec::new();
    for j in 0..a.len()
        invariant
            s@.len() == a@.len(),
            b@.len() == a@.len(),
            spec == primal_cone_residual(rows_view(a@), x@, s@, b@),
            out@ == spec.take(j as int),
    {
        out.push(dot(a[j].as_slice(), x.as_slice()).plus(s[j]).minus(b[j]));
        assert(out@ =~= spec.take(j + 1));
    }
    assert(out@ =~= spec);
    out
}

/// Entry `(i, j)` of the reduced KKT matrix (see [`kkt_entry`]).
fn kkt_entry_exec<T: Scalar>(p: &Vec<Vec<T>>, a_eq: &Vec<Vec<T>>, a: &Vec<Vec<T>>, sigma: &Vec<T>, i: usize, j: usize) -> (r: T)
    requires
        width_is(rows_view(p@), p@.len() as int),
        width_is(rows_view(a_eq@), p@.len() as int),
        width_is(rows_view(a@), p@.len() as int),
        sigma@.len() == a@.len(),
        i < p@.len() + a_eq@.len(),
        j < p@.len() + a_eq@.len(),
    ensures
        r == kkt_entry(rows_view(p@), rows_view(a_eq@), rows_view(a@), sigma@, i as int, j as int),
{
    let n = p.len();
    let m_eq = a_eq.len();
    let ghost av = rows_view(a@);
    if i < n && j < n {
        assert(rows_view(p@)[i as int].len() == n);
        let mut v = p[i][j];
        for k in 0..a.len()
            invariant
                i < n,
                j < n,
                n == p@.len(),
                av == rows_view(a@),
                width_is(av, n as int),
                sigma@.len() == a@.len(),
                v == cone_terms(rows_view(p@)[i as int][j as int], av, sigma@, i as int, j as int, k as int),
        {
            assert(av[k as int].len() == n);
            v = v.plus(a[k][i].times(sigma[k]).times(a[k][j]));
        }
        v
    } else if i < n && j >= n {
        if j - n < m_eq {
            assert(rows_view(a_eq@)[(j - n) as int].len() == n);
            a_eq[j - n][i]
        } else {
            T::zero()
        }
    } else if i >= n && j < n {
        if i - n < m_eq {
            assert(rows_view(a_eq@)[(i - n) as int].len() == n);
            a_eq[i - n][j]
        } else {
            T::zero()
        }
    } else {
        T::zero()
    }
}

/// The message of the singular-KKT failure.
pub open spec fn singular_kkt_text() -> Seq<char> {
    "singular KKT system (infeasible or ill-posed)"@
}

/// Solves the reduced KKT system against `rhs` with the dense LU solver: a solver error when
/// the system is singular (see [`lu_solve_rows`]).
fn solve_kkt<T: Scalar>(p: &Vec<Vec<T>>, a_eq: &Vec<Vec<T>>, a: &Vec<Vec<T>>, sigma: &Vec<T>, rhs: &Vec<T>) -> (r: Result<Vec<T>, ConvexError>)
    requires
        width_is(rows_view(p@), p@.len() as int),
        width_is(rows_view(a_eq@), p@.len() as int),
        width_is(rows_view(a@), p@.len() as int),
        sigma@.len() == a@.len(),
        rhs@.len() == p@.len() + a_eq@.len(),
        (p@.len() + a_eq@.len()) * (p@.len() + a_eq@.len()) <= usize::MAX,
    ensures
        match lu_solve_rows(kkt_rows(rows_view(p@), rows_view(a_eq@), rows_view(a@), sigma@), rhs@) {
            None => r matches Err(ConvexError::Solver { status }) && status@ == singular_kkt_text(),
            Some(delta) => r matches Ok(d) && d@ == delta,
        },
{
    assert(p@.len() + a_eq@.len() <= usize::MAX) by (nonlinear_arith)
        requires
            (p@.len() + a_eq@.len()) * (p@.len() + a_eq@.len()) <= usize::MAX,
    ;
    let dim = p.len() + a_eq.len();
    let ghost rows = kkt_rows(rows_view(p@), rows_view(a_eq@), rows_view(a@), sigma@);
    let k = DMatrix::from_fn(
        dim,
        dim,
        |i: usize, j: usize| -> (e: T)
            requires
                i < dim,
                j < dim,
                dim == p@.len() + a_eq@.len(),
                width_is(rows_view(p@), p@.len() as int),
                width_is(rows_view(a_eq@), p@.len() as int),
                width_is(rows_view(a@), p@.len() as int),
                sigma@.len() == a@.len()
            ensures
                e == kkt_entry(rows_view(p@), rows_view(a_eq@), rows_view(a@), sigma@, i as int, j as int)
            { kkt_entry_exec(p, a_eq, a, sigma, i, j) },
    );
    proof {
        k.lemma_well_formed_covers();
        assert(square_rows(&k, dim as nat) =~= rows) by {
            assert forall|i: int| 0 <= i < dim implies #[trigger] square_rows(&k, dim as nat)[i] =~= rows[i] by {
                assert forall|j: int| 0 <= j < dim implies square_rows(&k, dim as nat)[i][j] == rows[i][j] by {
                    assert(k.entry(i, j) == kkt_entry(rows_view(p@), rows_view(a_eq@), rows_view(a@), sigma@, i, j));
                }
            }
        }
    }
    let rh = DVector::from_vec(copy_vec(rhs));
    match k.solve(&rh) {
        Err(_) => Err(ConvexError::Solver { status: String::from_str("singular KKT system (infeasible or ill-posed)") }),
        Ok(delta) => Ok(delta.into_vec()),
    }
}

/// The elements of `v`, in a new vector.
fn slice_to_vec<T: Copy>(v: &[T]) -> (r: Vec<T>)
    ensures
        r@ == v@,
{
    let mut out: Vec<T> = Vec::new();
    for i in 0..v.len()
        invariant
            out@ == v@.take(i as int),
    {
        out.push(v[i]);
        assert(out@ =~= v@.take(i + 1));
    }
    assert(out@ =~= v@);
    out
}

/// A copy of `v`.
fn copy_vec<T: Copy>(v: &Vec<T>) -> (r: Vec<T>)
    ensures
        r@ == v@,
{
    let mut out: Vec<T> = Vec::new();
    for i in 0..v.len()
        invariant
            out@ == v@.take(i as int),
    {
        out.push(v[i]);
        assert(out@ =~= v@.take(i + 1));
    }
    assert(out@ =~= v@);
    out
}

/// The Newton step for corrector `w` (see [`newton_step`]): a solver error when the KKT
/// system is singular.
fn compute_step<T: Scalar>(
    p: &Vec<Vec<T>>,
    a_eq: &Vec<Vec<T>>,
    a: &Vec<Vec<T>>,
    s: &Vec<T>,
    z: &Vec<T>,
    sigma: &Vec<T>,
    r_dual: &Vec<T>,
    r_pri_eq: &Vec<T>,
    r_pri2: &Vec<T>,
    w: &Vec<T>,
) -> (r: Result<(Vec<T>, Vec<T>, Vec<T>, Vec<T>), ConvexError>)
    requires
        width_is(rows_view(p@), p@.len() as int),
        width_is(rows_view(a_eq@), p@.len() as int),
        width_is(rows_view(a@), p@.len() as int),
        s@.len() == a@.len(),
        z@.len() == a@.len(),
        sigma@.len() == a@.len(),
        r_pri2@.len() == a@.len(),
        w@.len() == a@.len(),
        r_dual@.len() == p@.len(),
        r_pri_eq@.len() == a_eq@.len(),
        (p@.len() + a_eq@.len()) * (p@.len() + a_eq@.len()) <= usize::MAX,
    ensures
        match newton_step(
            rows_view(p@),
            rows_view(a_eq@),
            rows_view(a@),
            NewtonInput { z: z@, s: s@, sigma: sigma@, r_dual: r_dual@, r_pri_eq: r_pri_eq@, r_pri2: r_pri2@, w: w@ },
        ) {
            None => r matches Err(ConvexError::Solver { status }) && status@ == singular_kkt_text(),
            Some((dx, dy, ds, dz)) => r matches Ok((rx, ry, rs, rz)) && rx@ == dx && ry@ == dy && rs@ == ds && rz@
                == dz,
        },
        r matches Ok((rx, ry, rs, rz)) ==> rx@.len() == p@.len() && ry@.len() == a_eq@.len() && rs@.len() == a@.len()
            && rz@.len() == a@.len(),
{
    let n = p.len();
    let m_eq = a_eq.len();
    let m_c = a.len();
    assert(n + m_eq <= usize::MAX) by (nonlinear_arith)
        requires
            (n + m_eq) * (n + m_eq) <= usize::MAX,
    ;
    let ghost av = rows_view(a@);
    let ghost v = NewtonInput { z: z@, s: s@, sigma: sigma@, r_dual: r_dual@, r_pri_eq: r_pri_eq@, r_pri2: r_pri2@, w: w@ };
    let ghost rhs_spec = newton_rhs(av, n as int, m_eq as int, v);
    let mut rhs: Vec<T> = Vec::new();
    for i in 0..n
        invariant
            n == p@.len(),
            m_c == a@.len(),
            av == rows_view(a@),
            width_is(av, n as int),
            s@.len() == m_c,
            z@.len() == m_c,
            sigma@.len() == m_c,
            r_pri2@.len() == m_c,
            w@.len() == m_c,
            r_dual@.len() == n,
            v == (NewtonInput { z: z@, s: s@, sigma: sigma@, r_dual: r_dual@, r_pri_eq: r_pri_eq@, r_pri2: r_pri2@, w: w@ }),
            rhs_spec == newton_rhs(av, n as int, m_eq as int, v),
            rhs@ == rhs_spec.take(i as int),
    {
        let v0 = r_dual[i].negate();
        let mut val = v0;
        for j in 0..m_c
            invariant
                i < n,
                n == p@.len(),
                m_c == a@.len(),
                av == rows_view(a@),
                width_is(av, n as int),
                s@.len() == m_c,
                z@.len() == m_c,
                sigma@.len() == m_c,
                r_pri2@.len() == m_c,
                w@.len() == m_c,
                val == rhs_terms(v0, av, z@, sigma@, r_pri2@, w@, s@, i as int, j as int),
        {
            assert(av[j as int].len() == n);
            let aji = a[j][i];
            val = val.plus(aji.times(z[j])).minus(aji.times(sigma[j]).times(r_pri2[j])).plus(aji.times(w[j].divide(s[j])));
        }
        rhs.push(val);
        assert(rhs@ =~= rhs_spec.take(i + 1));
    }
    for e in 0..m_eq
        invariant
            n == p@.len(),
            r_pri_eq@.len() == m_eq,
            rhs_spec == newton_rhs(av, n as int, m_eq as int, v),
            v.r_pri_eq == r_pri_eq@,
            rhs@ == rhs_spec.take(n + e),
    {
        rhs.push(r_pri_eq[e].negate());
        assert(rhs@ =~= rhs_spec.take(n + e + 1));
    }
    assert(rhs@ =~= rhs_spec);
    let ghost kr = kkt_rows(rows_view(p@), rows_view(a_eq@), av, sigma@);
    proof {
        lemma_lu_solve_rows_len(kr, rhs@);
    }
    let delta = match solve_kkt(p, a_eq, a, sigma, &rhs) {
        Err(e) => {
            return Err(e);
        },
        Ok(d) => d,
    };
    let mut dx: Vec<T> = Vec::new();
    for i in 0..n
        invariant
            delta@.len() == n + m_eq,
            dx@ == delta@.subrange(0, i as int),
    {
        dx.push(delta[i]);
        assert(dx@ =~= delta@.subrange(0, i + 1));
    }
    let mut dy: Vec<T> = Vec::new();
    for e in 0..m_eq
        invariant
            n + m_eq <= usize::MAX,
            delta@.len() == n + m_eq,
            dy@ == delta@.subrange(n as int, n + e),
    {
        dy.push(delta[n + e]);
        assert(dy@ =~= delta@.subrange(n as int, n + e + 1));
    }
    let ghost ds_spec = Seq::new(m_c as nat, |j: int| r_pri2@[j].negate_spec().minus_spec(zip_dot(av[j], dx@)));
    let ghost dz_spec = Seq::new(
        m_c as nat,
        |j: int| z@[j].negate_spec().plus_spec(w@[j].divide_spec(s@[j])).minus_spec(sigma@[j].times_spec(ds_spec[j])),
    );
    let mut ds: Vec<T> = Vec::new();
    let mut dz: Vec<T> = Vec::new();
    for j in 0..m_c
        invariant
            m_c == a@.len(),
            av == rows_view(a@),
            s@.len() == m_c,
            z@.len() == m_c,
            sigma@.len() == m_c,
            r_pri2@.len() == m_c,
            w@.len() == m_c,
            ds_spec == Seq::new(m_c as nat, |j: int| r_pri2@[j].negate_spec().minus_spec(zip_dot(av[j], dx@))),
            dz_spec == Seq::new(
                m_c as nat,
                |j: int| z@[j].negate_spec().plus_spec(w@[j].divide_spec(s@[j])).minus_spec(sigma@[j].times_spec(ds_spec[j])),
            ),
            ds@ == ds_spec.take(j as int),
            dz@ == dz_spec.take(j as int),
    {
        let ax = dot(a[j].as_slice(), dx.as_slice());
        let dsj = r_pri2[j].negate().minus(ax);
        ds.push(dsj);
        dz.push(z[j].negate().plus(w[j].divide(s[j])).minus(sigma[j].times(dsj)));
        assert(ds@ =~= ds_spec.take(j + 1));
        assert(dz@ =~= dz_spec.take(j + 1));
    }
    assert(ds@ =~= ds_spec);
    assert(dz@ =~= dz_spec);
    Ok((dx, dy, ds, dz))
}

// ===========================================================================
// The interior-point method
// ===========================================================================

/// A conic QP: the (symmetrized) objective `p`, `q`, the equality system `a_eq x = b_eq` and
/// the cone system `a x + s = b`, `s >= 0`.
pub struct QpData<T> {
    pub p: Seq<Seq<T>>,
    pub q: Seq<T>,
    pub a_eq: Seq<Seq<T>>,
    pub b_eq: Seq<T>,
    pub a: Seq<Seq<T>>,
    pub b: Seq<T>,
}

/// An interior-point iterate: primal `x`, equality multipliers `y`, slacks `s`, cone
/// multipliers `z`.
pub struct IpIterate<T> {
    pub x: Seq<T>,
    pub y: Seq<T>,
    pub s: Seq<T>,
    pub z: Seq<T>,
}

/// How the interior-point method ends.
pub enum IpOutcome<T> {
    /// Converged within the tolerance, at `x`.
    Converged(Seq<T>),
    /// Converged within ten times the tolerance, at `x`.
    NearlyConverged(Seq<T>),
    /// A KKT system was singular.
    Singular,
    /// The primal iterate left the finite range or grew past `10^14`.
    Unbounded,
    /// A slack or multiplier left the finite range.
    Infeasible,
    /// The iteration budget ran out.
    Exhausted,
}

/// One iteration's result: an end, or the next iterate.
pub enum IpStep<T> {
    Stop(IpOutcome<T>),
    Next(IpIterate<T>),
}

/// The data and iterate shapes the method works with, `n` variables.
pub open spec fn qp_shapes<T>(d: QpData<T>, n: nat) -> bool {
    &&& d.p.len() == n
    &&& width_is(d.p, n as int)
    &&& d.q.len() == n
    &&& width_is(d.a_eq, n as int)
    &&& d.b_eq.len() == d.a_eq.len()
    &&& width_is(d.a, n as int)
    &&& d.b.len() == d.a.len()
    &&& (n + d.a_eq.len()) * (n + d.a_eq.len()) <= usize::MAX
}

/// The iterate has one entry per variable, equality row and cone row.
pub open spec fn iterate_shapes<T>(d: QpData<T>, it: IpIterate<T>) -> bool {
    &&& it.x.len() == d.q.len()
    &&& it.y.len() == d.a_eq.len()
    &&& it.s.len() == d.a.len()
    &&& it.z.len() == d.a.len()
}

/// The convergence tolerance `10^-8`, as `1 / 10^8`.
pub open spec fn ip_tol<T: Scalar>() -> T {
    T::from_int_spec(1).divide_spec(T::from_int_spec(100_000_000))
}

/// The fraction `99 / 100` of the step to the cone boundary that is taken.
pub open spec fn ip_tau<T: Scalar>() -> T {
    T::from_int_spec(99).divide_spec(T::from_int_spec(100))
}

/// The primal size `10^14` past which the problem counts as unbounded.
pub open spec fn ip_huge<T: Scalar>() -> T {
    T::from_int_spec(100_000_000_000_000)
}

/// The floor `10^-300` (computed as `10.powi(-300)`) that the complementarity measure is
/// raised to before it divides.
pub open spec fn ip_floor<T: Scalar>() -> T {
    T::from_int_spec(10).powi_spec(-300i32)
}

/// The mean `s . z / m_c` over the `m_c` cone rows, zero without cone rows.
pub open spec fn mean_product<T: Scalar>(s: Seq<T>, z: Seq<T>, m_c: nat) -> T {
    if m_c > 0 {
        zip_dot(s, z).divide_spec(T::from_int_spec(m_c as i64))
    } else {
        T::zero_spec()
    }
}

/// One Mehrotra predictor-corrector iteration from `it`: stop as converged when the primal
/// and dual residual norms and the complementarity mean are below the tolerance (or ten
/// times it); otherwise take the affine step, choose the centring weight
/// `(mu_aff / max(mu, floor))^3` clamped to `[0, 1]`, take the corrected step scaled by
/// [`ip_tau`] of the longest feasible one, and stop when the new iterate is not finite or too
/// large.
pub open spec fn ip_step<T: Scalar>(d: QpData<T>, it: IpIterate<T>) -> IpStep<T> {
    let n = it.x.len();
    let m_c = d.a.len();
    let z0 = T::zero_spec();
    let one = T::one_spec();
    let r_dual = dual_residual(d.p, d.q, d.a_eq, it.y, d.a, it.z, it.x);
    let r_pri_eq = primal_eq_residual(d.a_eq, it.x, d.b_eq);
    let r_pri2 = primal_cone_residual(d.a, it.x, it.s, d.b);
    let mu = mean_product(it.s, it.z, m_c);
    let prim = norm2(r_pri_eq).plus_spec(norm2(r_pri2));
    let dual = norm2(r_dual);
    let tol = ip_tol::<T>();
    let tol10 = tol.times_spec(T::from_int_spec(10));
    if prim.lt_spec(tol) && dual.lt_spec(tol) && (m_c == 0 || mu.lt_spec(tol)) {
        IpStep::Stop(IpOutcome::Converged(it.x))
    } else if prim.lt_spec(tol10) && dual.lt_spec(tol10) && (m_c == 0 || mu.lt_spec(tol10)) {
        IpStep::Stop(IpOutcome::NearlyConverged(it.x))
    } else {
        let sigma = Seq::new(m_c, |j: int| it.z[j].divide_spec(it.s[j]));
        let pred = NewtonInput {
            z: it.z,
            s: it.s,
            sigma,
            r_dual,
            r_pri_eq,
            r_pri2,
            w: Seq::new(m_c, |j: int| z0),
        };
        match newton_step(d.p, d.a_eq, d.a, pred) {
            None => IpStep::Stop(IpOutcome::Singular),
            Some((_dx, _dy, ds_aff, dz_aff)) => {
                let a_aff = step_length_value(it.s, ds_aff, one).min_spec(step_length_value(it.z, dz_aff, one)).min_spec(
                    one,
                );
                let sp = Seq::new(m_c, |j: int| it.s[j].plus_spec(a_aff.times_spec(ds_aff[j])));
                let zp = Seq::new(m_c, |j: int| it.z[j].plus_spec(a_aff.times_spec(dz_aff[j])));
                let mu_aff = mean_product(sp, zp, m_c);
                let sigma_cent = if m_c > 0 {
                    mu_aff.divide_spec(mu.max_spec(ip_floor())).max_spec(z0).min_spec(one).powi_spec(3)
                } else {
                    z0
                };
                let corr = NewtonInput {
                    z: it.z,
                    s: it.s,
                    sigma,
                    r_dual,
                    r_pri_eq,
                    r_pri2,
                    w: Seq::new(m_c, |j: int| sigma_cent.times_spec(ds_aff[j]).times_spec(dz_aff[j])),
                };
                match newton_step(d.p, d.a_eq, d.a, corr) {
                    None => IpStep::Stop(IpOutcome::Singular),
                    Some((dx, dy, ds, dz)) => {
                        let a_pri = ip_tau::<T>().times_spec(step_length_value(it.s, ds, one));
                        let a_dual = ip_tau::<T>().times_spec(step_length_value(it.z, dz, one));
                        let x2 = Seq::new(n, |i: int| it.x[i].plus_spec(a_pri.times_spec(dx[i])));
                        let y2 = Seq::new(it.y.len(), |e: int| it.y[e].plus_spec(a_dual.times_spec(dy[e])));
                        let s2 = Seq::new(m_c, |j: int| it.s[j].plus_spec(a_pri.times_spec(ds[j])));
                        let z2 = Seq::new(m_c, |j: int| it.z[j].plus_spec(a_dual.times_spec(dz[j])));
                        if !all_finite(x2) || ip_huge::<T>().lt_spec(norm2(x2)) {
                            IpStep::Stop(IpOutcome::Unbounded)
                        } else if !all_finite(s2) || !all_finite(z2) {
                            IpStep::Stop(IpOutcome::Infeasible)
                        } else {
                            IpStep::Next(IpIterate { x: x2, y: y2, s: s2, z: z2 })
                        }
                    },
                }
            },
        }
    }
}

/// The iterations from `it`, the `iter`-th of a budget of `200`.
pub open spec fn ip_run<T: Scalar>(d: QpData<T>, it: IpIterate<T>, iter: int) -> IpOutcome<T>
    decreases 200 - iter,
{
    if iter >= 200 {
        IpOutcome::Exhausted
    } else {
        match ip_step(d, it) {
            IpStep::Stop(o) => o,
            IpStep::Next(it2) => ip_run(d, it2, iter + 1),
        }
    }
}

/// The starting slack for a cone row: its residual `b - a . 0` where that is finite and
/// positive, else one.
pub open spec fn start_slack<T: Scalar>(v: T) -> T {
    if !v.is_finite_spec() || v.le_spec(T::zero_spec()) {
        T::one_spec()
    } else {
        v
    }
}

/// The starting iterate: `x = 0`, `y = 0`, slacks by [`start_slack`], `z = 1`.
pub open spec fn ip_start<T: Scalar>(d: QpData<T>) -> IpIterate<T> {
    let n = d.q.len();
    let x0 = Seq::new(n, |i: int| T::zero_spec());
    IpIterate {
        x: x0,
        y: Seq::new(d.a_eq.len(), |e: int| T::zero_spec()),
        s: Seq::new(d.a.len(), |j: int| start_slack(d.b[j].minus_spec(zip_dot(d.a[j], x0)))),
        z: Seq::new(d.a.len(), |j: int| T::one_spec()),
    }
}

/// The messages of the solver failures.
pub open spec fn unbounded_text() -> Seq<char> {
    "primal iterate diverged (problem is unbounded)"@
}

pub open spec fn infeasible_text() -> Seq<char> {
    "dual iterate diverged (problem is infeasible)"@
}

pub open spec fn exhausted_text() -> Seq<char> {
    "did not converge within the iteration budget"@
}

/// `r` reports the outcome `o`: the point and [`QpStatus::Solved`] or
/// [`QpStatus::AlmostSolved`] on convergence, else the solver error with its message.
pub open spec fn reports<T>(o: IpOutcome<T>, r: Result<(Vec<T>, QpStatus), ConvexError>) -> bool {
    match o {
        IpOutcome::Converged(x) => r matches Ok((v, st)) && v@ == x && st == QpStatus::Solved,
        IpOutcome::NearlyConverged(x) => r matches Ok((v, st)) && v@ == x && st == QpStatus::AlmostSolved,
        IpOutcome::Singular => r matches Err(ConvexError::Solver { status }) && status@ == singular_kkt_text(),
        IpOutcome::Unbounded => r matches Err(ConvexError::Solver { status }) && status@ == unbounded_text(),
        IpOutcome::Infeasible => r matches Err(ConvexError::Solver { status }) && status@ == infeasible_text(),
        IpOutcome::Exhausted => r matches Err(ConvexError::Solver { status }) && status@ == exhausted_text(),
    }
}

/// The result of one iteration, as values.
enum IterResult<T> {
    Done(Vec<T>, QpStatus),
    Fail(ConvexError),
    Next(Vec<T>, Vec<T>, Vec<T>, Vec<T>),
}

/// `r` is the iteration result `st`.
spec fn iteration_matches<T>(st: IpStep<T>, r: IterResult<T>) -> bool {
    match st {
        IpStep::Stop(o) => match r {
            IterResult::Done(v, status) => reports(o, Ok((v, status))),
            IterResult::Fail(e) => reports(o, Err(e)),
            IterResult::Next(..) => false,
        },
        IpStep::Next(it) => r matches IterResult::Next(x, y, s, z) && x@ == it.x && y@ == it.y && s@ == it.s && z@
            == it.z,
    }
}

/// The data of the exec inputs, as sequences.
spec fn data_of<T>(p: &Vec<Vec<T>>, q: &Vec<T>, a_eq: &Vec<Vec<T>>, b_eq: &Vec<T>, a: &Vec<Vec<T>>, b: &Vec<T>) -> QpData<T> {
    QpData { p: rows_view(p@), q: q@, a_eq: rows_view(a_eq@), b_eq: b_eq@, a: rows_view(a@), b: b@ }
}

/// `v + alpha dv`, entry by entry over `v`.
fn axpy<T: Scalar>(v: &Vec<T>, alpha: T, dv: &Vec<T>) -> (r: Vec<T>)
    requires
        dv@.len() >= v@.len(),
    ensures
        r@ == Seq::new(v@.len(), |i: int| v@[i].plus_spec(alpha.times_spec(dv@[i]))),
{
    let ghost spec = Seq::new(v@.len(), |i: int| v@[i].plus_spec(alpha.times_spec(dv@[i])));
    let mut out: Vec<T> = Vec::new();
    for i in 0..v.len()
        invariant
            dv@.len() >= v@.len(),
            spec == Seq::new(v@.len(), |i: int| v@[i].plus_spec(alpha.times_spec(dv@[i]))),
            out@ == spec.take(i as int),
    {
        out.push(v[i].plus(alpha.times(dv[i])));
        assert(out@ =~= spec.take(i + 1));
    }
    assert(out@ =~= spec);
    out
}

/// `m` copies of `c`.
fn filled<T: Copy>(m: usize, c: T) -> (r: Vec<T>)
    ensures
        r@ == Seq::new(m as nat, |j: int| c),
{
    let mut out: Vec<T> = Vec::new();
    for j in 0..m
        invariant
            out@ == Seq::new(j as nat, |t: int| c),
    {
        out.push(c);
        assert(out@ =~= Seq::new((j + 1) as nat, |t: int| c));
    }
    out
}

/// Whether every entry of `v` is finite.
fn all_finite_exec<T: Scalar>(v: &Vec<T>) -> (r: bool)
    ensures
        r == all_finite(v@),
{
    for i in 0..v.len()
        invariant
            forall|k: int| 0 <= k < i ==> (#[trigger] v@[k]).is_finite_spec(),
    {
        if !v[i].is_finite() {
            return false;
        }
    }
    true
}

/// One predictor-corrector iteration (see [`ip_step`]).
fn ip_iteration<T: Scalar>(
    p: &Vec<Vec<T>>,
    q: &Vec<T>,
    a_eq: &Vec<Vec<T>>,
    b_eq: &Vec<T>,
    a: &Vec<Vec<T>>,
    b: &Vec<T>,
    x: &Vec<T>,
    y: &Vec<T>,
    s: &Vec<T>,
    z: &Vec<T>,
) -> (r: IterResult<T>)
    requires
        qp_shapes(data_of(p, q, a_eq, b_eq, a, b), q@.len()),
        iterate_shapes(data_of(p, q, a_eq, b_eq, a, b), IpIterate { x: x@, y: y@, s: s@, z: z@ }),
    ensures
        iteration_matches(ip_step(data_of(p, q, a_eq, b_eq, a, b), IpIterate { x: x@, y: y@, s: s@, z: z@ }), r),
        r matches IterResult::Next(x2, y2, s2, z2) ==> iterate_shapes(
            data_of(p, q, a_eq, b_eq, a, b),
            IpIterate { x: x2@, y: y2@, s: s2@, z: z2@ },
        ),
{
    let ghost d = data_of(p, q, a_eq, b_eq, a, b);
    let ghost it = IpIterate { x: x@, y: y@, s: s@, z: z@ };
    let m_c = a.len();
    let zero = T::zero();
    let one = T::one();
    let r_dual = resid_dual(p, q, a_eq, y, a, z, x);
    let r_pri_eq = resid_pri_eq(a_eq, x, b_eq);
    let r_pri2 = resid_pri2(a, x, s, b);
    let mu = if m_c > 0 {
        dot(s.as_slice(), z.as_slice()).divide(T::from_int(m_c as i64))
    } else {
        zero
    };
    let prim = norm(r_pri_eq.as_slice()).plus(norm(r_pri2.as_slice()));
    let dual = norm(r_dual.as_slice());
    let tol = T::from_int(1).divide(T::from_int(100_000_000));
    let tol10 = tol.times(T::from_int(10));
    if prim.lt(tol) && dual.lt(tol) && (m_c == 0 || mu.lt(tol)) {
        return IterResult::Done(copy_vec(x), QpStatus::Solved);
    }
    if prim.lt(tol10) && dual.lt(tol10) && (m_c == 0 || mu.lt(tol10)) {
        return IterResult::Done(copy_vec(x), QpStatus::AlmostSolved);
    }
    let ghost sigma_spec = Seq::new(m_c as nat, |j: int| z@[j].divide_spec(s@[j]));
    let mut sigma: Vec<T> = Vec::new();
    for j in 0..m_c
        invariant
            s@.len() == m_c,
            z@.len() == m_c,
            sigma_spec == Seq::new(m_c as nat, |j: int| z@[j].divide_spec(s@[j])),
            sigma@ == sigma_spec.take(j as int),
    {
        sigma.push(z[j].divide(s[j]));
        assert(sigma@ =~= sigma_spec.take(j + 1));
    }
    assert(sigma@ =~= sigma_spec);
    let w_zero = filled(m_c, zero);
    let (_dx_aff, _dy_aff, ds_aff, dz_aff) = match compute_step(
        p,
        a_eq,
        a,
        s,
        z,
        &sigma,
        &r_dual,
        &r_pri_eq,
        &r_pri2,
        &w_zero,
    ) {
        Err(e) => {
            return IterResult::Fail(e);
        },
        Ok(t) => t,
    };
    let a_aff = step_length(s.as_slice(), ds_aff.as_slice(), one).min(step_length(z.as_slice(), dz_aff.as_slice(), one)).min(
        one,
    );
    let mu_aff = if m_c > 0 {
        let sp = axpy(s, a_aff, &ds_aff);
        let zp = axpy(z, a_aff, &dz_aff);
        dot(sp.as_slice(), zp.as_slice()).divide(T::from_int(m_c as i64))
    } else {
        zero
    };
    let sigma_cent = if m_c > 0 {
        mu_aff.divide(mu.max(T::from_int(10).powi(-300i32))).max(zero).min(one).powi(3)
    } else {
        zero
    };
    let ghost w_spec = Seq::new(m_c as nat, |j: int| sigma_cent.times_spec(ds_aff@[j]).times_spec(dz_aff@[j]));
    let mut w: Vec<T> = Vec::new();
    for j in 0..m_c
        invariant
            ds_aff@.len() == m_c,
            dz_aff@.len() == m_c,
            w_spec == Seq::new(m_c as nat, |j: int| sigma_cent.times_spec(ds_aff@[j]).times_spec(dz_aff@[j])),
            w@ == w_spec.take(j as int),
    {
        w.push(sigma_cent.times(ds_aff[j]).times(dz_aff[j]));
        assert(w@ =~= w_spec.take(j + 1));
    }
    assert(w@ =~= w_spec);
    let (dx, dy, ds, dz) = match compute_step(p, a_eq, a, s, z, &sigma, &r_dual, &r_pri_eq, &r_pri2, &w) {
        Err(e) => {
            return IterResult::Fail(e);
        },
        Ok(t) => t,
    };
    let tau = T::from_int(99).divide(T::from_int(100));
    let a_pri = tau.times(step_length(s.as_slice(), ds.as_slice(), one));
    let a_dual = tau.times(step_length(z.as_slice(), dz.as_slice(), one));
    let x2 = axpy(x, a_pri, &dx);
    let y2 = axpy(y, a_dual, &dy);
    let s2 = axpy(s, a_pri, &ds);
    let z2 = axpy(z, a_dual, &dz);
    if !all_finite_exec(&x2) || T::from_int(100_000_000_000_000).lt(norm(x2.as_slice())) {
        return IterResult::Fail(
            ConvexError::Solver { status: String::from_str("primal iterate diverged (problem is unbounded)") },
        );
    }
    if !all_finite_exec(&s2) || !all_finite_exec(&z2) {
        return IterResult::Fail(
            ConvexError::Solver { status: String::from_str("dual iterate diverged (problem is infeasible)") },
        );
    }
    IterResult::Next(x2, y2, s2, z2)
}

/// The predictor-corrector method from [`ip_start`] for at most `200` iterations (see
/// [`ip_run`]), reported as [`reports`] describes.
fn interior_point<T: Scalar>(
    p: &Vec<Vec<T>>,
    q: &Vec<T>,
    a_eq: &Vec<Vec<T>>,
    b_eq: &Vec<T>,
    a: &Vec<Vec<T>>,
    b: &Vec<T>,
) -> (r: Result<(Vec<T>, QpStatus), ConvexError>)
    requires
        qp_shapes(data_of(p, q, a_eq, b_eq, a, b), q@.len()),
    ensures
        reports(ip_run(data_of(p, q, a_eq, b_eq, a, b), ip_start(data_of(p, q, a_eq, b_eq, a, b)), 0), r),
{
    let ghost d = data_of(p, q, a_eq, b_eq, a, b);
    let ghost start = ip_start(d);
    let n = q.len();
    let m_c = a.len();
    let zero = T::zero();
    let one = T::one();
    let mut x = filled(n, zero);
    let mut y = filled(a_eq.len(), zero);
    let mut s: Vec<T> = Vec::new();
    for j in 0..m_c
        invariant
            m_c == a@.len(),
            b@.len() == m_c,
            d == data_of(p, q, a_eq, b_eq, a, b),
            start == ip_start(d),
            x@ == start.x,
            zero == T::zero_spec(),
            one == T::one_spec(),
            s@ == start.s.take(j as int),
    {
        let ax = dot(a[j].as_slice(), x.as_slice());
        let sj0 = b[j].minus(ax);
        let sj = if !sj0.is_finite() || sj0.le(zero) {
            one
        } else {
            sj0
        };
        s.push(sj);
        assert(s@ =~= start.s.take(j + 1));
    }
    assert(s@ =~= start.s);
    let mut z = filled(m_c, one);
    assert(z@ =~= start.z);
    assert(y@ =~= start.y);
    let mut iter: usize = 0;
    while iter < 200
        invariant
            d == data_of(p, q, a_eq, b_eq, a, b),
            start == ip_start(d),
            qp_shapes(d, q@.len()),
            iterate_shapes(d, IpIterate { x: x@, y: y@, s: s@, z: z@ }),
            ip_run(d, IpIterate { x: x@, y: y@, s: s@, z: z@ }, iter as int) == ip_run(d, start, 0),
        decreases 200 - iter,
    {
        match ip_iteration(p, q, a_eq, b_eq, a, b, &x, &y, &s, &z) {
            IterResult::Done(v, st) => {
                return Ok((v, st));
            },
            IterResult::Fail(e) => {
                return Err(e);
            },
            IterResult::Next(x2, y2, s2, z2) => {
                x = x2;
                y = y2;
                s = s2;
                z = z2;
            },
        }
        iter = iter + 1;
    }
    Err(ConvexError::Solver { status: String::from_str("did not converge within the iteration budget") })
}

/// The converged point of a run has one entry per variable.
proof fn lemma_ip_run_shape<T: Scalar>(d: QpData<T>, it: IpIterate<T>, iter: int)
    requires
        iterate_shapes(d, it),
    ensures
        ip_run(d, it, iter) matches IpOutcome::Converged(x) ==> x.len() == d.q.len(),
        ip_run(d, it, iter) matches IpOutcome::NearlyConverged(x) ==> x.len() == d.q.len(),
    decreases 200 - iter,
{
    if iter < 200 {
        if let IpStep::Next(it2) = ip_step(d, it) {
            lemma_ip_run_shape(d, it2, iter + 1);
        }
    }
}

// ===========================================================================
// Solving quadratic programs
// ===========================================================================

/// The first dimension conflict among the inputs (`n` variables), in the order they are
/// checked: `P` not `n x n`; a non-empty `A_eq` without `n` columns; `A_eq` and `b_eq`
/// disagreeing on the row count; the same two for `A_ineq`, `b_ineq`; a bound list neither
/// empty nor of length `n`.
pub open spec fn qp_dimension_error<T>(p: DenseView<T>, n: nat, a_eq: DenseView<T>, b_eq_len: nat, a_ineq: DenseView<T>, b_ineq_len: nat, bounds_len: nat) -> Option<Seq<char>> {
    if p.rows != n || p.cols != n {
        Some(p_shape_text(p.rows as usize, p.cols as usize, n as usize))
    } else if !(a_eq.rows == 0 || a_eq.cols == 0) && a_eq.cols != n {
        Some(eq_cols_text(a_eq.cols as usize, n as usize))
    } else if a_eq.rows != b_eq_len {
        Some(eq_rows_text(a_eq.rows as usize, b_eq_len as usize))
    } else if !(a_ineq.rows == 0 || a_ineq.cols == 0) && a_ineq.cols != n {
        Some(ineq_cols_text(a_ineq.cols as usize, n as usize))
    } else if a_ineq.rows != b_ineq_len {
        Some(ineq_rows_text(a_ineq.rows as usize, b_ineq_len as usize))
    } else if bounds_len != n && bounds_len != 0 {
        Some(bounds_len_text(bounds_len as usize, n as usize))
    } else {
        None
    }
}

/// The first input holding a non-finite entry, by name, in the order `P`, `q`, `A_eq`,
/// `b_eq`, `A_ineq`, `b_ineq`.
pub open spec fn qp_nonfinite<T: Scalar>(p: DenseView<T>, q: Seq<T>, a_eq: DenseView<T>, b_eq: Seq<T>, a_ineq: DenseView<T>, b_ineq: Seq<T>) -> Option<Seq<char>> {
    if !all_finite(p.store) {
        Some("P"@)
    } else if !all_finite(q) {
        Some("q"@)
    } else if !all_finite(a_eq.store) {
        Some("A_eq"@)
    } else if !all_finite(b_eq) {
        Some("b_eq"@)
    } else if !all_finite(a_ineq.store) {
        Some("A_ineq"@)
    } else if !all_finite(b_ineq) {
        Some("b_ineq"@)
    } else {
        None
    }
}

/// The conic problem the solver works on: `P` symmetrized, the equality rows, and the
/// inequality rows followed by the finite bounds (see [`inequality_system`]).
pub open spec fn qp_problem<T: Scalar>(p: DenseView<T>, q: Seq<T>, a_eq: DenseView<T>, b_eq: Seq<T>, a_ineq: DenseView<T>, b_ineq: Seq<T>, bounds: Seq<(T, T)>) -> QpData<T> {
    let (a, b) = inequality_system(a_ineq, b_ineq, bounds, q.len());
    QpData { p: symmetrized(p), q, a_eq: rows_of_width(a_eq, a_eq.cols), b_eq, a, b }
}

/// An equality or inequality matrix with rows but no columns, while there are variables
/// (the rows then cannot be read against `x`).
pub open spec fn degenerate<T>(m: DenseView<T>, n: nat) -> bool {
    m.rows > 0 && m.cols == 0 && n > 0
}

/// The inputs the solver accepts (given as values): where the checks pass, no degenerate
/// constraint matrix and a KKT system whose order squared fits in `usize`.
pub open spec fn qp_accepts_views<T: Scalar>(p: DenseView<T>, q: Seq<T>, a_eq: DenseView<T>, b_eq: Seq<T>, a_ineq: DenseView<T>, b_ineq: Seq<T>, bounds: Seq<(T, T)>) -> bool {
    (qp_dimension_error(p, q.len(), a_eq, b_eq.len(), a_ineq, b_ineq.len(), bounds.len()) is None
        && qp_nonfinite(p, q, a_eq, b_eq, a_ineq, b_ineq) is None) ==> {
        &&& !degenerate(a_eq, q.len())
        &&& !degenerate(a_ineq, q.len())
        &&& (q.len() + a_eq.rows) * (q.len() + a_eq.rows) <= usize::MAX
    }
}

/// The inputs the solver accepts: well-formed matrices and [`qp_accepts_views`].
pub open spec fn qp_accepts<T: Scalar>(p: &DMatrix<T>, q: Seq<T>, a_eq: &DMatrix<T>, b_eq: Seq<T>, a_ineq: &DMatrix<T>, b_ineq: Seq<T>, bounds: Seq<(T, T)>) -> bool {
    &&& p.well_formed()
    &&& a_eq.well_formed()
    &&& a_ineq.well_formed()
    &&& qp_accepts_views(dense_view(p), q, dense_view(a_eq), b_eq, dense_view(a_ineq), b_ineq, bounds)
}

/// What solving a QP comes to.
pub enum QpAnswer<T> {
    /// A dimension error with this message.
    Dimension(Seq<char>),
    /// A non-finite input, by name.
    NotFinite(Seq<char>),
    /// The interior-point outcome on this problem.
    Outcome(QpData<T>, IpOutcome<T>),
}

/// What solving the QP comes to: the first dimension error, else the first non-finite
/// input, else the interior-point outcome on [`qp_problem`].
pub open spec fn qp_answer<T: Scalar>(p: DenseView<T>, q: Seq<T>, a_eq: DenseView<T>, b_eq: Seq<T>, a_ineq: DenseView<T>, b_ineq: Seq<T>, bounds: Seq<(T, T)>) -> QpAnswer<T> {
    match qp_dimension_error(p, q.len(), a_eq, b_eq.len(), a_ineq, b_ineq.len(), bounds.len()) {
        Some(t) => QpAnswer::Dimension(t),
        None => match qp_nonfinite(p, q, a_eq, b_eq, a_ineq, b_ineq) {
            Some(t) => QpAnswer::NotFinite(t),
            None => {
                let d = qp_problem(p, q, a_eq, b_eq, a_ineq, b_ineq, bounds);
                QpAnswer::Outcome(d, ip_run(d, ip_start(d), 0))
            },
        },
    }
}

/// `r` carries the failure message of the outcome `o` (which is no convergence).
pub open spec fn failure_reports<T, A>(o: IpOutcome<T>, r: Result<A, ConvexError>) -> bool {
    match o {
        IpOutcome::Singular => r matches Err(ConvexError::Solver { status }) && status@ == singular_kkt_text(),
        IpOutcome::Unbounded => r matches Err(ConvexError::Solver { status }) && status@ == unbounded_text(),
        IpOutcome::Infeasible => r matches Err(ConvexError::Solver { status }) && status@ == infeasible_text(),
        IpOutcome::Exhausted => r matches Err(ConvexError::Solver { status }) && status@ == exhausted_text(),
        _ => false,
    }
}

/// `r` is the answer `a` as a [`QpSolution`]: on convergence the point, its objective and
/// [`QpStatus::Solved`] or [`QpStatus::AlmostSolved`]; otherwise the error with its message.
pub open spec fn qp_result<T: Scalar>(a: QpAnswer<T>, r: Result<QpSolution<T>, ConvexError>) -> bool {
    match a {
        QpAnswer::Dimension(t) => r matches Err(ConvexError::DimensionMismatch { what }) && what@ == t,
        QpAnswer::NotFinite(t) => r matches Err(ConvexError::NotFinite { what }) && what@ == t,
        QpAnswer::Outcome(d, o) => match o {
            IpOutcome::Converged(x) => r matches Ok(sol) && sol.x@ == x && sol.objective == qp_objective_value(
                d.p,
                d.q,
                x,
            ) && sol.status == QpStatus::Solved,
            IpOutcome::NearlyConverged(x) => r matches Ok(sol) && sol.x@ == x && sol.objective
                == qp_objective_value(d.p, d.q, x) && sol.status == QpStatus::AlmostSolved,
            _ => failure_reports(o, r),
        },
    }
}

/// `r` is the point of the answer `a`, or its error.
pub open spec fn qp_point_result<T: Scalar>(a: QpAnswer<T>, r: Result<DVector<T>, ConvexError>) -> bool {
    match a {
        QpAnswer::Dimension(t) => r matches Err(ConvexError::DimensionMismatch { what }) && what@ == t,
        QpAnswer::NotFinite(t) => r matches Err(ConvexError::NotFinite { what }) && what@ == t,
        QpAnswer::Outcome(d, o) => match o {
            IpOutcome::Converged(x) => r matches Ok(v) && v@ == x,
            IpOutcome::NearlyConverged(x) => r matches Ok(v) && v@ == x,
            _ => failure_reports(o, r),
        },
    }
}

/// A `0 x n` matrix, as values.
pub open spec fn no_rows<T>(n: nat) -> DenseView<T> {
    DenseView { rows: 0, cols: n, store: Seq::empty() }
}

/// Solves the QP with equality constraints, inequality constraints and per-variable bounds
/// (see [`qp_answer`] and [`qp_result`]).
pub fn solve_qp_internal<T: Scalar>(
    p: &DMatrix<T>,
    q: &DVector<T>,
    a_eq: &DMatrix<T>,
    b_eq: &DVector<T>,
    a_ineq: &DMatrix<T>,
    b_ineq: &DVector<T>,
    bounds: &[(T, T)],
) -> (r: Result<QpSolution<T>, ConvexError>)
    requires
        qp_accepts(p, q@, a_eq, b_eq@, a_ineq, b_ineq@, bounds@),
    ensures
        qp_result(qp_answer(dense_view(p), q@, dense_view(a_eq), b_eq@, dense_view(a_ineq), b_ineq@, bounds@), r),
{
    let n = q.len();
    if p.nrows() != n || p.ncols() != n {
        return Err(ConvexError::DimensionMismatch { what: p_shape_message(p.nrows(), p.ncols(), n) });
    }
    if !a_eq.is_empty() && a_eq.ncols() != n {
        return Err(ConvexError::DimensionMismatch { what: eq_cols_message(a_eq.ncols(), n) });
    }
    if a_eq.nrows() != b_eq.len() {
        return Err(ConvexError::DimensionMismatch { what: eq_rows_message(a_eq.nrows(), b_eq.len()) });
    }
    if !a_ineq.is_empty() && a_ineq.ncols() != n {
        return Err(ConvexError::DimensionMismatch { what: ineq_cols_message(a_ineq.ncols(), n) });
    }
    if a_ineq.nrows() != b_ineq.len() {
        return Err(ConvexError::DimensionMismatch { what: ineq_rows_message(a_ineq.nrows(), b_ineq.len()) });
    }
    if bounds.len() != n && bounds.len() != 0 {
        return Err(ConvexError::DimensionMismatch { what: bounds_len_message(bounds.len(), n) });
    }
    match check_finite_matrix(p, "P") {
        Err(e) => { return Err(e); },
        Ok(()) => {},
    }
    match check_finite_vector(q, "q") {
        Err(e) => { return Err(e); },
        Ok(()) => {},
    }
    match check_finite_matrix(a_eq, "A_eq") {
        Err(e) => { return Err(e); },
        Ok(()) => {},
    }
    match check_finite_vector(b_eq, "b_eq") {
        Err(e) => { return Err(e); },
        Ok(()) => {},
    }
    match check_finite_matrix(a_ineq, "A_ineq") {
        Err(e) => { return Err(e); },
        Ok(()) => {},
    }
    match check_finite_vector(b_ineq, "b_ineq") {
        Err(e) => { return Err(e); },
        Ok(()) => {},
    }
    let ghost d = qp_problem(dense_view(p), q@, dense_view(a_eq), b_eq@, dense_view(a_ineq), b_ineq@, bounds@);
    let (a, b) = build_inequality_system(a_ineq, b_ineq, bounds, n);
    let p_sym = symmetrize(p);
    let qv = slice_to_vec(q.iter());
    let a_eqv = matrix_to_vec(a_eq);
    let b_eqv = slice_to_vec(b_eq.iter());
    assert(data_of(&p_sym, &qv, &a_eqv, &b_eqv, &a, &b) == d);
    proof {
        let nn = n as nat;
        lemma_bound_rows_shape(bounds@, nn, bounds@.len() as int);
        assert(width_is(d.p, n as int));
        assert(width_is(d.a_eq, n as int)) by {
            if a_eq.rows_spec() > 0 {
                assert(a_eq.cols_spec() == n);
            }
        }
        let br = bound_rows(bounds@, nn, bounds@.len() as int).0;
        let base = rows_of_width(dense_view(a_ineq), nn);
        assert(d.a == base + br);
        assert forall|i: int| 0 <= i < d.a.len() implies (#[trigger] d.a[i]).len() == n by {
            if i < base.len() {
                assert(d.a[i] == base[i]);
            } else {
                assert(d.a[i] == br[i - base.len()]);
            }
        }
        assert(qp_shapes(d, nn));
    }
    let res = interior_point(&p_sym, &qv, &a_eqv, &b_eqv, &a, &b);
    proof {
        lemma_ip_run_shape(d, ip_start(d), 0);
    }
    match res {
        Err(e) => Err(e),
        Ok((x, status)) => {
            proof {
                assert(x@.len() == n) by {
                    match ip_run(d, ip_start(d), 0) {
                        IpOutcome::Converged(xs) => {},
                        IpOutcome::NearlyConverged(xs) => {},
                        _ => {},
                    }
                }
                assert forall|i: int| 0 <= i < x@.len() implies (#[trigger] p_sym@[i])@.len() >= x@.len() by {
                    assert(rows_view(p_sym@)[i].len() == n);
                }
            }
            let objective = qp_objective(&p_sym, qv.as_slice(), x.as_slice());
            Ok(QpSolution { x: DVector::from_vec(x), objective, status })
        },
    }
}

/// Solves the QP with equality constraints and per-variable bounds (no inequality rows):
/// the point of [`solve_qp_internal`] with a `0 x n` inequality system.
pub fn solve_qp<T: Scalar>(p: &DMatrix<T>, q: &DVector<T>, a_eq: &DMatrix<T>, b_eq: &DVector<T>, bounds: &[(T, T)]) -> (r: Result<DVector<T>, ConvexError>)
    requires
        p.well_formed(),
        a_eq.well_formed(),
        qp_accepts_views(dense_view(p), q@, dense_view(a_eq), b_eq@, no_rows(q@.len()), Seq::empty(), bounds@),
    ensures
        qp_point_result(qp_answer(dense_view(p), q@, dense_view(a_eq), b_eq@, no_rows(q@.len()), Seq::empty(), bounds@), r),
{
    let a_ineq = DMatrix::<T>::zeros(0, q.len());
    let b_ineq = DVector::<T>::zeros(0);
    assert(dense_view(&a_ineq) == no_rows::<T>(q@.len())) by {
        assert(a_ineq.storage() =~= Seq::<T>::empty());
    }
    assert(b_ineq@ =~= Seq::<T>::empty());
    match solve_qp_internal(p, q, a_eq, b_eq, &a_ineq, &b_ineq, bounds) {
        Ok(sol) => Ok(sol.x),
        Err(e) => Err(e),
    }
}

/// A quadratic program under construction: objective, equality and inequality systems and
/// per-variable bounds.
#[derive(Clone, Debug)]
pub struct QuadraticProgram<T> {
    p: DMatrix<T>,
    q: DVector<T>,
    a_eq: DMatrix<T>,
    b_eq: DVector<T>,
    a_ineq: DMatrix<T>,
    b_ineq: DVector<T>,
    bounds: Vec<(T, T)>,
}

impl<T: Scalar> QuadraticProgram<T> {
    /// The quadratic cost matrix `P`.
    pub closed spec fn cost_matrix(&self) -> DMatrix<T> {
        self.p
    }

    /// The linear cost `q`.
    pub closed spec fn cost_vector(&self) -> Seq<T> {
        self.q@
    }

    /// The equality matrix `A_eq`.
    pub closed spec fn eq_matrix(&self) -> DMatrix<T> {
        self.a_eq
    }

    /// The equality right-hand side `b_eq`.
    pub closed spec fn eq_rhs(&self) -> Seq<T> {
        self.b_eq@
    }

    /// The inequality matrix `A_ineq`.
    pub closed spec fn ineq_matrix(&self) -> DMatrix<T> {
        self.a_ineq
    }

    /// The inequality right-hand side `b_ineq`.
    pub closed spec fn ineq_rhs(&self) -> Seq<T> {
        self.b_ineq@
    }

    /// The per-variable bounds `(lower, upper)`.
    pub closed spec fn bound_list(&self) -> Seq<(T, T)> {
        self.bounds@
    }

    /// A program in `n = q.len()` variables with linear cost `q`, zero quadratic cost, no
    /// constraints (`0 x n` systems) and no bounds.
    pub fn new(q: DVector<T>) -> (r: Self)
        requires
            q@.len() * q@.len() <= usize::MAX,
        ensures
            r.cost_vector() == q@,
            r.cost_matrix().well_formed(),
            r.cost_matrix().rows_spec() == q@.len(),
            r.cost_matrix().cols_spec() == q@.len(),
            forall|i: int, j: int| 0 <= i < q@.len() && 0 <= j < q@.len() ==> #[trigger] r.cost_matrix().entry(i, j)
                == T::zero_spec(),
            dense_view(&r.eq_matrix()) == no_rows::<T>(q@.len()),
            r.eq_rhs() == Seq::<T>::empty(),
            dense_view(&r.ineq_matrix()) == no_rows::<T>(q@.len()),
            r.ineq_rhs() == Seq::<T>::empty(),
            r.bound_list() == Seq::<(T, T)>::empty(),
    {
        let n = q.len();
        let a_eq = DMatrix::zeros(0, n);
        let a_ineq = DMatrix::zeros(0, n);
        let b_eq = DVector::zeros(0);
        let b_ineq = DVector::zeros(0);
        assert(a_eq.storage() =~= Seq::<T>::empty());
        assert(a_ineq.storage() =~= Seq::<T>::empty());
        assert(b_eq@ =~= Seq::<T>::empty());
        assert(b_ineq@ =~= Seq::<T>::empty());
        QuadraticProgram { p: DMatrix::zeros(n, n), q, a_eq, b_eq, a_ineq, b_ineq, bounds: Vec::new() }
    }

    /// Sets the quadratic cost matrix `P` (`n x n`; it is symmetrized when solving).
    pub fn objective(self, p: DMatrix<T>) -> (r: Self)
        ensures
            r.cost_matrix() == p,
            r.cost_vector() == self.cost_vector(),
            r.eq_matrix() == self.eq_matrix(),
            r.eq_rhs() == self.eq_rhs(),
            r.ineq_matrix() == self.ineq_matrix(),
            r.ineq_rhs() == self.ineq_rhs(),
            r.bound_list() == self.bound_list(),
    {
        let mut s = self;
        s.p = p;
        s
    }

    /// Sets the linear cost `q`.
    pub fn linear_cost(self, q: DVector<T>) -> (r: Self)
        ensures
            r.cost_matrix() == self.cost_matrix(),
            r.cost_vector() == q@,
            r.eq_matrix() == self.eq_matrix(),
            r.eq_rhs() == self.eq_rhs(),
            r.ineq_matrix() == self.ineq_matrix(),
            r.ineq_rhs() == self.ineq_rhs(),
            r.bound_list() == self.bound_list(),
    {
        let mut s = self;
        s.q = q;
        s
    }

    /// Sets the equality constraints `A_eq x = b_eq`.
    pub fn equality(self, a_eq: DMatrix<T>, b_eq: DVector<T>) -> (r: Self)
        ensures
            r.cost_matrix() == self.cost_matrix(),
            r.cost_vector() == self.cost_vector(),
            r.eq_matrix() == a_eq,
            r.eq_rhs() == b_eq@,
            r.ineq_matrix() == self.ineq_matrix(),
            r.ineq_rhs() == self.ineq_rhs(),
            r.bound_list() == self.bound_list(),
    {
        let mut s = self;
        s.a_eq = a_eq;
        s.b_eq = b_eq;
        s
    }

    /// Sets the inequality constraints `A_ineq x <= b_ineq`.
    pub fn inequality(self, a_ineq: DMatrix<T>, b_ineq: DVector<T>) -> (r: Self)
        ensures
            r.cost_matrix() == self.cost_matrix(),
            r.cost_vector() == self.cost_vector(),
            r.eq_matrix() == self.eq_matrix(),
            r.eq_rhs() == self.eq_rhs(),
            r.ineq_matrix() == a_ineq,
            r.ineq_rhs() == b_ineq@,
            r.bound_list() == self.bound_list(),
    {
        let mut s = self;
        s.a_ineq = a_ineq;
        s.b_ineq = b_ineq;
        s
    }

    /// Sets the per-variable bounds `(lower, upper)` (a non-finite bound is no bound).
    pub fn bounds(self, bounds: &[(T, T)]) -> (r: Self)
        ensures
            r.cost_matrix() == self.cost_matrix(),
            r.cost_vector() == self.cost_vector(),
            r.eq_matrix() == self.eq_matrix(),
            r.eq_rhs() == self.eq_rhs(),
            r.ineq_matrix() == self.ineq_matrix(),
            r.ineq_rhs() == self.ineq_rhs(),
            r.bound_list() == bounds@,
    {
        let mut s = self;
        s.bounds = slice_to_vec(bounds);
        s
    }

    /// Solves the program (see [`solve_qp_internal`]).
    pub fn solve(self) -> (r: Result<QpSolution<T>, ConvexError>)
        requires
            qp_accepts(
                &self.cost_matrix(),
                self.cost_vector(),
                &self.eq_matrix(),
                self.eq_rhs(),
                &self.ineq_matrix(),
                self.ineq_rhs(),
                self.bound_list(),
            ),
        ensures
            qp_result(
                qp_answer(
                    dense_view(&self.cost_matrix()),
                    self.cost_vector(),
                    dense_view(&self.eq_matrix()),
                    self.eq_rhs(),
                    dense_view(&self.ineq_matrix()),
                    self.ineq_rhs(),
                    self.bound_list(),
                ),
                r,
            ),
    {
        solve_qp_internal(&self.p, &self.q, &self.a_eq, &self.b_eq, &self.a_ineq, &self.b_ineq, self.bounds.as_slice())
    }
}

} // verus!
