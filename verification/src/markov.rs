//! Finite Markov chains and discrete hidden Markov models over a [`Scalar`]: transition
//! matrices as rows of probabilities, their normalization and validation, power iteration
//! for stationary distributions, simulation, Viterbi decoding and the scaled forward pass.
use vstd::prelude::*;

use crate::linalg_dense::{copy_row, rows_view};
use crate::prob::Rng;
use crate::sampler::{unit_from_bits, unit_from_draw};
use crate::scalar::{two, two_exec, Scalar};

verus! {

// ===========================================================================
// Errors and tolerances
// ===========================================================================

/// Errors of the checked entry points.
#[derive(Clone, Copy, Debug, PartialEq)]
#[non_exhaustive]
pub enum MarkovError<T> {
    /// The model has no states.
    ZeroStates,
    /// The model has no observation symbols.
    ZeroObservations,
    /// A state index is not below the number of states.
    StateOutOfRange { state: usize, states: usize },
    /// An observation symbol is not below the number of symbols.
    ObservationOutOfRange { observation: usize, observations: usize },
    /// A probability is negative or not finite.
    InvalidProbability { value: T },
    /// A matrix or vector does not have the length the model needs.
    DimensionMismatch { expected: usize, found: usize },
    /// A row (or the initial distribution, row `0`) sums to zero or to a non-finite value.
    DegenerateRow { row: usize },
    /// A row (or the initial distribution, row `0`) does not sum to one.
    NotStochastic { row: usize, sum: T },
    /// Power iteration stopped at its cap before reaching the tolerance.
    NotConverged { iterations: usize, residual: T },
}

/// How far a row sum may be from one before validation rejects it: `10^-9`, as `1 / 10^9`.
pub open spec fn probability_tolerance<T: Scalar>() -> T {
    T::from_int_spec(1).divide_spec(T::from_int_spec(1_000_000_000))
}

/// Computes [`probability_tolerance`].
pub fn probability_tolerance_exec<T: Scalar>() -> (r: T)
    ensures
        r == probability_tolerance::<T>(),
{
    T::from_int(1).divide(T::from_int(1_000_000_000))
}

/// The tolerance of [`MarkovChain::stationary`]: `10^-12`, as `1 / 10^12`.
pub open spec fn stationary_tolerance<T: Scalar>() -> T {
    T::from_int_spec(1).divide_spec(T::from_int_spec(1_000_000_000_000))
}

/// The iteration cap of [`MarkovChain::stationary`].
pub const DEFAULT_STATIONARY_MAX_ITER: usize = 10_000;

// ===========================================================================
// Sums and categorical draws
// ===========================================================================

/// The sum of the first `k` elements, accumulated in order from negative zero (the start of
/// an IEEE sum).
pub open spec fn sum_upto<T: Scalar>(s: Seq<T>, k: int) -> T
    decreases k,
{
    if k <= 0 {
        T::zero_spec().negate_spec()
    } else {
        sum_upto(s, k - 1).plus_spec(s[k - 1])
    }
}

/// The sum of all elements (see [`sum_upto`]).
pub open spec fn seq_sum<T: Scalar>(s: Seq<T>) -> T {
    sum_upto(s, s.len() as int)
}

/// A weight that carries mass: finite and positive.
pub open spec fn usable<T: Scalar>(w: T) -> bool {
    w.is_finite_spec() && T::zero_spec().lt_spec(w)
}

/// The sum of the usable weights among the first `k`, accumulated in order from negative
/// zero.
pub open spec fn usable_sum<T: Scalar>(s: Seq<T>, k: int) -> T
    decreases k,
{
    if k <= 0 {
        T::zero_spec().negate_spec()
    } else if usable(s[k - 1]) {
        usable_sum(s, k - 1).plus_spec(s[k - 1])
    } else {
        usable_sum(s, k - 1)
    }
}

/// A total that can be drawn against: finite and positive.
pub open spec fn drawable<T: Scalar>(total: T) -> bool {
    total.is_finite_spec() && T::zero_spec().lt_spec(total)
}

/// A total that cannot be drawn against or rescaled by: not finite, or at most zero.
pub open spec fn degenerate_total<T: Scalar>(total: T) -> bool {
    !total.is_finite_spec() || total.le_spec(T::zero_spec())
}

/// A weight that the scan counts: finite and not at most zero.
pub open spec fn counted<T: Scalar>(w: T) -> bool {
    w.is_finite_spec() && !w.le_spec(T::zero_spec())
}

/// The categorical choice for `target` from index `i` on, with `cum` the running sum of the
/// counted weights so far and `last` the last counted index: the first counted index whose
/// running sum exceeds `target`, else the last counted one.
pub open spec fn pick_from<T: Scalar>(ws: Seq<T>, target: T, i: int, cum: T, last: Option<usize>) -> Option<usize>
    decreases ws.len() - i,
{
    if i < 0 || i >= ws.len() {
        last
    } else if !counted(ws[i]) {
        pick_from(ws, target, i + 1, cum, last)
    } else {
        let c = cum.plus_spec(ws[i]);
        if target.lt_spec(c) {
            Some(i as usize)
        } else {
            pick_from(ws, target, i + 1, c, Some(i as usize))
        }
    }
}

/// The categorical choice for `target` over all of `ws` (see [`pick_from`]).
pub open spec fn categorical_pick<T: Scalar>(ws: Seq<T>, target: T) -> Option<usize> {
    pick_from(ws, target, 0, T::zero_spec(), None)
}

/// The choice is a counted index (when `last` is).
proof fn lemma_pick_from_usable<T: Scalar>(ws: Seq<T>, target: T, i: int, cum: T, last: Option<usize>)
    requires
        ws.len() <= usize::MAX,
        last matches Some(l) ==> l < ws.len() && counted(ws[l as int]),
    ensures
        pick_from(ws, target, i, cum, last) matches Some(l) ==> l < ws.len() && counted(ws[l as int]),
    decreases ws.len() - i,
{
    if 0 <= i < ws.len() {
        if !counted(ws[i]) {
            lemma_pick_from_usable(ws, target, i + 1, cum, last);
        } else {
            let c = cum.plus_spec(ws[i]);
            lemma_pick_from_usable(ws, target, i + 1, c, Some(i as usize));
        }
    }
}

/// The sum of `s` (see [`seq_sum`]).
pub fn sum_exec<T: Scalar>(s: &[T]) -> (r: T)
    ensures
        r == seq_sum(s@),
{
    let mut acc = T::zero().negate();
    for i in 0..s.len()
        invariant
            acc == sum_upto(s@, i as int),
    {
        acc = acc.plus(s[i]);
    }
    acc
}

/// Whether `w` carries mass (see [`usable`]).
fn usable_exec<T: Scalar>(w: T) -> (r: bool)
    ensures
        r == usable(w),
{
    w.is_finite() && T::zero().lt(w)
}

/// Whether the scan counts `w` (see [`counted`]).
fn counted_exec<T: Scalar>(w: T) -> (r: bool)
    ensures
        r == counted(w),
{
    !(!w.is_finite() || w.le(T::zero()))
}

/// The categorical choice for `target` (see [`categorical_pick`]): the index whose stretch of
/// the running sum of the counted weights holds `target`.
pub fn categorical_index<T: Scalar>(weights: &[T], target: T) -> (r: Option<usize>)
    ensures
        r == categorical_pick(weights@, target),
        r matches Some(i) ==> i < weights@.len() && counted(weights@[i as int]),
{
    let mut cum = T::zero();
    let mut last: Option<usize> = None;
    proof {
        lemma_pick_from_usable(weights@, target, 0, cum, last);
    }
    for i in 0..weights.len()
        invariant
            pick_from(weights@, target, i as int, cum, last) == categorical_pick(weights@, target),
            last matches Some(l) ==> l < weights@.len() && counted(weights@[l as int]),
    {
        let w = weights[i];
        if counted_exec(w) {
            cum = cum.plus(w);
            last = Some(i);
            if target.lt(cum) {
                return Some(i);
            }
        }
    }
    last
}

/// Draws an index from unnormalized weights with one uniform draw from `rng`: `None` exactly
/// when the usable weights (see [`usable`]) add up to a degenerate total (see
/// [`degenerate_total`]) or no weight is counted; otherwise the choice (see
/// [`categorical_index`]) for the uniform times that total, a counted index.
pub fn sample_categorical<T: Scalar, R: Rng>(rng: &mut R, weights: &[T]) -> (r: Option<usize>)
    ensures
        r is None <==> (degenerate_total(usable_sum(weights@, weights@.len() as int)) || forall|i: int|
            0 <= i < weights@.len() ==> !counted(#[trigger] weights@[i])),
        r matches Some(i) ==> i < weights@.len() && counted(weights@[i as int]) && exists|x: u64|
            r == categorical_pick(weights@, unit_from_bits::<T>(x).times_spec(usable_sum(weights@, weights@.len() as int))),
{
    let mut total = T::zero().negate();
    for i in 0..weights.len()
        invariant
            total == usable_sum(weights@, i as int),
    {
        if usable_exec(weights[i]) {
            total = total.plus(weights[i]);
        }
    }
    if !total.is_finite() || total.le(T::zero()) {
        return None;
    }
    let x = rng.next_u64();
    let uniform = unit_from_draw::<T>(x);
    let r = categorical_index(weights, uniform.times(total));
    proof {
        if r is None {
            lemma_pick_none_no_usable(weights@, uniform.times_spec(total), 0, T::zero_spec(), None);
        }
        if forall|i: int| 0 <= i < weights@.len() ==> !counted(#[trigger] weights@[i]) {
            lemma_pick_all_unusable(weights@, uniform.times_spec(total), 0, T::zero_spec(), None);
        }
    }
    r
}

/// No usable weight at or after `i`, and none chosen before, when the choice is `None`.
proof fn lemma_pick_none_no_usable<T: Scalar>(ws: Seq<T>, target: T, i: int, cum: T, last: Option<usize>)
    requires
        0 <= i,
        ws.len() <= usize::MAX,
        pick_from(ws, target, i, cum, last) is None,
    ensures
        forall|k: int| i <= k < ws.len() ==> !counted(ws[k]),
        last is None,
    decreases ws.len() - i,
{
    if i < ws.len() {
        if !counted(ws[i]) {
            lemma_pick_none_no_usable(ws, target, i + 1, cum, last);
        } else {
            let c = cum.plus_spec(ws[i]);
            if !target.lt_spec(c) {
                lemma_pick_none_no_usable(ws, target, i + 1, c, Some(i as usize));
            }
        }
    }
}

/// With no usable weight at or after `i`, the choice is `last`.
proof fn lemma_pick_all_unusable<T: Scalar>(ws: Seq<T>, target: T, i: int, cum: T, last: Option<usize>)
    requires
        0 <= i,
        forall|k: int| 0 <= k < ws.len() ==> !counted(#[trigger] ws[k]),
    ensures
        pick_from(ws, target, i, cum, last) == last,
    decreases ws.len() - i,
{
    if i < ws.len() {
        lemma_pick_all_unusable(ws, target, i + 1, cum, last);
    }
}

// ===========================================================================
// Rows of probabilities
// ===========================================================================

/// Entry `(i, j)` of the rows `m`, zero where there is none.
pub open spec fn prob_at<T: Scalar>(m: Seq<Seq<T>>, i: int, j: int) -> T {
    if 0 <= i < m.len() && 0 <= j < m[i].len() {
        m[i][j]
    } else {
        T::zero_spec()
    }
}

/// `n` rows of `w` copies of `v`.
pub open spec fn const_rows<T>(n: nat, w: nat, v: T) -> Seq<Seq<T>> {
    Seq::new(n, |i: int| Seq::new(w, |j: int| v))
}

/// `1 / n` in `T` (zero for `n = 0`).
pub open spec fn inverse_count<T: Scalar>(n: nat) -> T {
    if n == 0 {
        T::zero_spec()
    } else {
        T::one_spec().divide_spec(T::from_int_spec(n as i64))
    }
}

/// `row` rescaled to sum to one when its sum (see [`seq_sum`]) is finite and positive, else
/// the uniform distribution over its length; an empty row stays empty.
pub open spec fn normalized_or_uniform<T: Scalar>(row: Seq<T>) -> Seq<T> {
    if row.len() == 0 {
        row
    } else if drawable(seq_sum(row)) {
        Seq::new(row.len(), |k: int| row[k].divide_spec(seq_sum(row)))
    } else {
        Seq::new(row.len(), |k: int| inverse_count::<T>(row.len()))
    }
}

/// A probability that is negative or not finite.
pub open spec fn bad_probability<T: Scalar>(p: T) -> bool {
    !p.is_finite_spec() || p.lt_spec(T::zero_spec())
}

/// The first bad entry of `row` at or after `k`, as an error.
pub open spec fn entry_error<T: Scalar>(row: Seq<T>, k: int) -> Option<MarkovError<T>>
    decreases row.len() - k,
{
    if k < 0 || k >= row.len() {
        None
    } else if bad_probability(row[k]) {
        Some(MarkovError::InvalidProbability { value: row[k] })
    } else {
        entry_error(row, k + 1)
    }
}

/// The first row at or after `i` that does not have `width` entries or holds a bad entry,
/// as an error.
pub open spec fn row_error<T: Scalar>(m: Seq<Seq<T>>, width: usize, i: int) -> Option<MarkovError<T>>
    decreases m.len() - i,
{
    if i < 0 || i >= m.len() {
        None
    } else if m[i].len() != width {
        Some(MarkovError::DimensionMismatch { expected: width, found: m[i].len() as usize })
    } else {
        match entry_error(m[i], 0) {
            Some(e) => Some(e),
            None => row_error(m, width, i + 1),
        }
    }
}

/// The first rule of the shape that a chain breaks: no states, not `states` rows, or a
/// row as [`row_error`] finds it.
pub open spec fn shape_error<T: Scalar>(states: usize, m: Seq<Seq<T>>) -> Option<MarkovError<T>> {
    if states == 0 {
        Some(MarkovError::ZeroStates)
    } else if m.len() != states {
        Some(MarkovError::DimensionMismatch { expected: states, found: m.len() as usize })
    } else {
        row_error(m, states, 0)
    }
}

/// A row sum farther than the tolerance from one.
pub open spec fn off_one<T: Scalar>(sum: T) -> bool {
    probability_tolerance::<T>().lt_spec(sum.minus_spec(T::one_spec()).abs_spec())
}

/// The first row at or after `i` whose sum is off one, as an error.
pub open spec fn sum_error<T: Scalar>(m: Seq<Seq<T>>, i: int) -> Option<MarkovError<T>>
    decreases m.len() - i,
{
    if i < 0 || i >= m.len() {
        None
    } else if off_one(seq_sum(m[i])) {
        Some(MarkovError::NotStochastic { row: i as usize, sum: seq_sum(m[i]) })
    } else {
        sum_error(m, i + 1)
    }
}

/// The validation verdict on a chain: a shape error, else a sum error, else none.
pub open spec fn chain_error<T: Scalar>(states: usize, m: Seq<Seq<T>>) -> Option<MarkovError<T>> {
    match shape_error(states, m) {
        Some(e) => Some(e),
        None => sum_error(m, 0),
    }
}

/// `Ok` or the error, as a result.
pub open spec fn as_result<T>(e: Option<MarkovError<T>>) -> Result<(), MarkovError<T>> {
    match e {
        Some(x) => Err(x),
        None => Ok(()),
    }
}

/// The first bad entry of `row` (see [`entry_error`]).
fn entry_error_exec<T: Scalar>(row: &Vec<T>) -> (r: Option<MarkovError<T>>)
    ensures
        r == entry_error(row@, 0),
{
    for k in 0..row.len()
        invariant
            entry_error(row@, k as int) == entry_error(row@, 0),
    {
        let p = row[k];
        if !p.is_finite() || p.lt(T::zero()) {
            return Some(MarkovError::InvalidProbability { value: p });
        }
    }
    None
}

/// The first bad row (see [`row_error`]).
fn row_error_exec<T: Scalar>(m: &Vec<Vec<T>>, width: usize) -> (r: Option<MarkovError<T>>)
    ensures
        r == row_error(rows_view(m@), width, 0),
{
    let ghost mv = rows_view(m@);
    for i in 0..m.len()
        invariant
            mv == rows_view(m@),
            row_error(mv, width, i as int) == row_error(mv, width, 0),
    {
        assert(mv[i as int] == m@[i as int]@);
        if m[i].len() != width {
            return Some(MarkovError::DimensionMismatch { expected: width, found: m[i].len() });
        }
        match entry_error_exec(&m[i]) {
            Some(e) => {
                return Some(e);
            },
            None => {},
        }
    }
    None
}

/// The shape verdict (see [`shape_error`]).
fn shape_error_exec<T: Scalar>(states: usize, m: &Vec<Vec<T>>) -> (r: Option<MarkovError<T>>)
    ensures
        r == shape_error(states, rows_view(m@)),
{
    if states == 0 {
        return Some(MarkovError::ZeroStates);
    }
    if m.len() != states {
        return Some(MarkovError::DimensionMismatch { expected: states, found: m.len() });
    }
    row_error_exec(m, states)
}

/// The sum verdict (see [`sum_error`]).
fn sum_error_exec<T: Scalar>(m: &Vec<Vec<T>>) -> (r: Option<MarkovError<T>>)
    ensures
        r == sum_error(rows_view(m@), 0),
{
    let ghost mv = rows_view(m@);
    let tol = probability_tolerance_exec::<T>();
    for i in 0..m.len()
        invariant
            mv == rows_view(m@),
            tol == probability_tolerance::<T>(),
            sum_error(mv, i as int) == sum_error(mv, 0),
    {
        assert(mv[i as int] == m@[i as int]@);
        let sum = sum_exec(m[i].as_slice());
        if tol.lt(sum.minus(T::one()).abs()) {
            return Some(MarkovError::NotStochastic { row: i, sum });
        }
    }
    None
}

/// `row` rescaled or made uniform (see [`normalized_or_uniform`]).
fn normalized_or_uniform_exec<T: Scalar>(row: &Vec<T>) -> (r: Vec<T>)
    ensures
        r@ == normalized_or_uniform(row@),
{
    if row.len() == 0 {
        return Vec::new();
    }
    let sum = sum_exec(row.as_slice());
    let n = row.len();
    let ghost target = normalized_or_uniform(row@);
    let drawable_sum = sum.is_finite() && T::zero().lt(sum);
    let fill = T::one().divide(T::from_int(n as i64));
    let mut out: Vec<T> = Vec::new();
    for k in 0..n
        invariant
            n == row@.len(),
            n > 0,
            sum == seq_sum(row@),
            drawable_sum == drawable(sum),
            fill == inverse_count::<T>(n as nat),
            target == normalized_or_uniform(row@),
            out@ == target.take(k as int),
    {
        if drawable_sum {
            out.push(row[k].divide(sum));
        } else {
            out.push(fill);
        }
        assert(out@ =~= target.take(k + 1));
    }
    assert(out@ =~= target);
    out
}

/// `n` rows of `w` copies of `v`.
fn const_rows_exec<T: Copy>(n: usize, w: usize, v: T) -> (r: Vec<Vec<T>>)
    ensures
        r@.len() == n,
        rows_view(r@) == const_rows(n as nat, w as nat, v),
{
    let mut out: Vec<Vec<T>> = Vec::new();
    for i in 0..n
        invariant
            out@.len() == i,
            forall|t: int| 0 <= t < i ==> (#[trigger] out@[t])@ == Seq::new(w as nat, |j: int| v),
    {
        let mut row: Vec<T> = Vec::new();
        for j in 0..w
            invariant
                row@ == Seq::new(j as nat, |t: int| v),
        {
            row.push(v);
            assert(row@ =~= Seq::new((j + 1) as nat, |t: int| v));
        }
        out.push(row);
    }
    assert(rows_view(out@) =~= const_rows(n as nat, w as nat, v));
    out
}

/// `1 / n` (see [`inverse_count`]).
fn inverse_count_exec<T: Scalar>(n: usize) -> (r: T)
    ensures
        r == inverse_count::<T>(n as nat),
{
    if n == 0 {
        T::zero()
    } else {
        T::one().divide(T::from_int(n as i64))
    }
}

// ===========================================================================
// Markov chains
// ===========================================================================

/// A time-homogeneous chain over `states` states: `transition[i][j]` is the probability of
/// moving from `i` to `j`. The fields are open; [`MarkovChain::validate`] checks that the
/// matrix is square, finite, non-negative and row-stochastic.
#[derive(Clone, Debug, PartialEq)]
pub struct MarkovChain<T> {
    /// The number of states.
    pub states: usize,
    /// The transition matrix, by rows.
    pub transition: Vec<Vec<T>>,
}

/// The distribution after one step from `dist`, over the first `i` states of `dist` (those
/// below `states`): each state with nonzero mass adds mass times its row to the columns its
/// row has, in order from zero.
pub open spec fn step_upto<T: Scalar>(m: Seq<Seq<T>>, states: nat, dist: Seq<T>, i: int) -> Seq<T>
    decreases i,
{
    if i <= 0 {
        Seq::new(states, |j: int| T::zero_spec())
    } else {
        let prev = step_upto(m, states, dist, i - 1);
        let mass = dist[i - 1];
        if mass.eq_spec(T::zero_spec()) || i - 1 >= m.len() {
            prev
        } else {
            Seq::new(states, |j: int| if j < m[i - 1].len() { prev[j].plus_spec(mass.times_spec(m[i - 1][j])) } else { prev[j] })
        }
    }
}

/// The distribution after one step from `dist` (see [`step_upto`]).
pub open spec fn step_dist<T: Scalar>(m: Seq<Seq<T>>, states: nat, dist: Seq<T>) -> Seq<T> {
    step_upto(m, states, dist, if dist.len() <= states { dist.len() as int } else { states as int })
}

/// The distribution after `k` steps from `dist`.
pub open spec fn steps_from<T: Scalar>(m: Seq<Seq<T>>, states: nat, dist: Seq<T>, k: int) -> Seq<T>
    decreases k,
{
    if k <= 0 {
        dist
    } else {
        step_dist(m, states, steps_from(m, states, dist, k - 1))
    }
}

/// The state of power iteration: the iterate, the iterations done and the last residual.
pub struct PowerState<T> {
    pub pi: Seq<T>,
    pub iterations: nat,
    pub residual: T,
}

/// The L1 distance between `a` and `b` over their common length, summed in order from
/// negative zero.
pub open spec fn l1_upto<T: Scalar>(a: Seq<T>, b: Seq<T>, k: int) -> T
    decreases k,
{
    if k <= 0 {
        T::zero_spec().negate_spec()
    } else {
        l1_upto(a, b, k - 1).plus_spec(a[k - 1].minus_spec(b[k - 1]).abs_spec())
    }
}

/// Power iteration from iteration `k` of at most `max_iter`: step, renormalize (falling back
/// to the uniform vector with an infinite residual when the mass vanishes), and stop once
/// the L1 change is at most `tol`.
pub open spec fn power_from<T: Scalar>(m: Seq<Seq<T>>, states: nat, st: PowerState<T>, tol: T, k: int, max_iter: int) -> PowerState<T>
    decreases max_iter - k,
{
    if k >= max_iter {
        st
    } else {
        let next0 = step_dist(m, states, st.pi);
        let sum = seq_sum(next0);
        let it = st.iterations + 1;
        if !drawable(sum) {
            PowerState { pi: Seq::new(states, |j: int| inverse_count::<T>(states)), iterations: it, residual: T::infinity_spec() }
        } else {
            let next = Seq::new(next0.len(), |j: int| next0[j].divide_spec(sum));
            let res = l1_upto(st.pi, next, if st.pi.len() <= next.len() { st.pi.len() as int } else { next.len() as int });
            let st2 = PowerState { pi: next, iterations: it, residual: res };
            if res.le_spec(tol) {
                st2
            } else {
                power_from(m, states, st2, tol, k + 1, max_iter)
            }
        }
    }
}

/// Power iteration from the uniform distribution (nothing for a chain without states).
pub open spec fn power_iteration<T: Scalar>(m: Seq<Seq<T>>, states: nat, tol: T, max_iter: nat) -> PowerState<T> {
    if states == 0 {
        PowerState { pi: Seq::empty(), iterations: 0, residual: T::zero_spec() }
    } else {
        power_from(
            m,
            states,
            PowerState { pi: Seq::new(states, |j: int| inverse_count::<T>(states)), iterations: 0, residual: T::infinity_spec() },
            tol,
            0,
            max_iter as int,
        )
    }
}

/// Row `cur` of `m`, empty out of range.
pub open spec fn state_row<T>(m: Seq<Seq<T>>, cur: usize) -> Seq<T> {
    if cur < m.len() {
        m[cur as int]
    } else {
        Seq::empty()
    }
}

/// `next` is a possible draw from `row` by [`sample_categorical`], falling back to `cur`:
/// `cur` when the row has no mass to draw from, else a counted index that some uniform draw
/// picks.
pub open spec fn draw_ok<T: Scalar>(row: Seq<T>, cur: usize, next: usize) -> bool {
    let total = usable_sum(row, row.len() as int);
    if degenerate_total(total) || forall|i: int| 0 <= i < row.len() ==> !counted(#[trigger] row[i]) {
        next == cur
    } else {
        next < row.len() && counted(row[next as int]) && exists|x: u64|
            Some(next) == categorical_pick(row, unit_from_bits::<T>(x).times_spec(total))
    }
}

/// `next` is a possible step of the chain with rows `m` from `cur` (see [`draw_ok`] on the
/// row of `cur`).
pub open spec fn chain_step_ok<T: Scalar>(m: Seq<Seq<T>>, cur: usize, next: usize) -> bool {
    draw_ok(state_row(m, cur), cur, next)
}

/// A draw from `row` (see [`sample_categorical`]), or `fallback` when it has no mass to draw
/// from.
fn draw_or<T: Scalar, R: Rng>(rng: &mut R, row: &[T], fallback: usize) -> (r: usize)
    ensures
        draw_ok(row@, fallback, r),
{
    let res = sample_categorical(rng, row);
    proof {
        let total = usable_sum(row@, row@.len() as int);
        if let Some(i) = res {
            let x = choose|x: u64| res == categorical_pick(row@, unit_from_bits::<T>(x).times_spec(total));
            assert(Some(i) == categorical_pick(row@, unit_from_bits::<T>(x).times_spec(total)));
            assert(exists|x: u64| Some(i) == categorical_pick(row@, unit_from_bits::<T>(x).times_spec(total)));
        }
    }
    match res {
        Some(i) => i,
        None => fallback,
    }
}

/// `path` is a possible walk of `n` states from `init`.
pub open spec fn walk_ok<T: Scalar>(m: Seq<Seq<T>>, init: usize, n: nat, path: Seq<usize>) -> bool {
    &&& path.len() == n
    &&& n > 0 ==> path[0] == init
    &&& forall|t: int| 1 <= t < n ==> chain_step_ok(m, #[trigger] path[t - 1], path[t])
}

/// How often each of `states` states occurs among the first `k` entries of `path`, counted
/// in `T` from zero.
pub open spec fn visits<T: Scalar>(path: Seq<usize>, s: int, k: int) -> T
    decreases k,
{
    if k <= 0 {
        T::zero_spec()
    } else if path[k - 1] == s {
        visits::<T>(path, s, k - 1).plus_spec(T::one_spec())
    } else {
        visits::<T>(path, s, k - 1)
    }
}

/// The visit frequencies of a walk of `n` states: visit counts divided by `n` (left as
/// counts when `n` is zero).
pub open spec fn frequencies<T: Scalar>(path: Seq<usize>, states: nat, n: nat) -> Seq<T> {
    Seq::new(
        states,
        |s: int|
            if n > 0 {
                visits::<T>(path, s, path.len() as int).divide_spec(T::from_int_spec(n as i64))
            } else {
                visits::<T>(path, s, path.len() as int)
            },
    )
}

/// The visit frequencies of `path` over `states` states for a walk of length `n` (see
/// [`frequencies`]).
pub fn visit_frequencies<T: Scalar>(path: &[usize], states: usize, n: usize) -> (r: Vec<T>)
    ensures
        r@ == frequencies::<T>(path@, states as nat, n as nat),
{
    let mut counts: Vec<T> = Vec::new();
    for s in 0..states
        invariant
            counts@.len() == s,
            forall|t: int| 0 <= t < s ==> #[trigger] counts@[t] == visits::<T>(path@, t, path@.len() as int),
    {
        let mut c = T::zero();
        for k in 0..path.len()
            invariant
                c == visits::<T>(path@, s as int, k as int),
        {
            if path[k] == s {
                c = c.plus(T::one());
            }
        }
        counts.push(c);
    }
    let ghost target = frequencies::<T>(path@, states as nat, n as nat);
    if n > 0 {
        let d = T::from_int(n as i64);
        let mut out: Vec<T> = Vec::new();
        for s in 0..states
            invariant
                n > 0,
                d == T::from_int_spec(n as i64),
                counts@.len() == states,
                forall|t: int| 0 <= t < states ==> #[trigger] counts@[t] == visits::<T>(path@, t, path@.len() as int),
                target == frequencies::<T>(path@, states as nat, n as nat),
                out@ == target.take(s as int),
        {
            out.push(counts[s].divide(d));
            assert(out@ =~= target.take(s + 1));
        }
        assert(out@ =~= target);
        out
    } else {
        assert(counts@ =~= target);
        counts
    }
}

impl<T: Scalar> MarkovChain<T> {
    /// The transition matrix, as rows.
    pub open spec fn matrix(&self) -> Seq<Seq<T>> {
        rows_view(self.transition@)
    }

    /// A chain over `states` states with an all-zero matrix (not yet stochastic).
    pub fn new(states: usize) -> (r: Self)
        ensures
            r.states == states,
            r.matrix() == const_rows(states as nat, states as nat, T::zero_spec()),
    {
        MarkovChain { states, transition: const_rows_exec(states, states, T::zero()) }
    }

    /// The chain that jumps to a uniformly random state at every step: every entry `1 / states`.
    pub fn uniform(states: usize) -> (r: Self)
        ensures
            r.states == states,
            r.matrix() == const_rows(states as nat, states as nat, inverse_count::<T>(states as nat)),
    {
        MarkovChain { states, transition: const_rows_exec(states, states, inverse_count_exec::<T>(states)) }
    }

    /// The chain in which every state is absorbing: the identity matrix.
    pub fn identity(states: usize) -> (r: Self)
        ensures
            r.states == states,
            r.matrix() == Seq::new(
                states as nat,
                |i: int| Seq::new(states as nat, |j: int| if i == j { T::one_spec() } else { T::zero_spec() }),
            ),
    {
        let mut transition: Vec<Vec<T>> = Vec::new();
        for i in 0..states
            invariant
                transition@.len() == i,
                forall|t: int| 0 <= t < i ==> (#[trigger] transition@[t])@ == Seq::new(
                    states as nat,
                    |j: int| if t == j { T::one_spec() } else { T::zero_spec() },
                ),
        {
            let mut row: Vec<T> = Vec::new();
            for j in 0..states
                invariant
                    row@ == Seq::new(j as nat, |c: int| if i == c { T::one_spec() } else { T::zero_spec() }),
            {
                if i == j {
                    row.push(T::one());
                } else {
                    row.push(T::zero());
                }
                assert(row@ =~= Seq::new((j + 1) as nat, |c: int| if i == c { T::one_spec() } else { T::zero_spec() }));
            }
            transition.push(row);
        }
        let r = MarkovChain { states, transition };
        assert(r.matrix() =~= Seq::new(
            states as nat,
            |i: int| Seq::new(states as nat, |j: int| if i == j { T::one_spec() } else { T::zero_spec() }),
        ));
        r
    }

    /// Checks the chain (see [`chain_error`]): no states, a wrong shape, a bad entry, or a row
    /// whose sum is more than `10^-9` from one.
    pub fn validate(&self) -> (r: Result<(), MarkovError<T>>)
        ensures
            r == as_result(chain_error(self.states, self.matrix())),
    {
        match shape_error_exec(self.states, &self.transition) {
            Some(e) => Err(e),
            None => match sum_error_exec(&self.transition) {
                Some(e) => Err(e),
                None => Ok(()),
            },
        }
    }

    /// The chain of an already stochastic square matrix, checked as [`Self::validate`] does.
    pub fn from_rows(rows: Vec<Vec<T>>) -> (r: Result<Self, MarkovError<T>>)
        ensures
            match chain_error(rows@.len() as usize, rows_view(rows@)) {
                Some(e) => r == Err::<Self, MarkovError<T>>(e),
                None => r matches Ok(c) && c.states == rows@.len() && c.matrix() == rows_view(rows@),
            },
    {
        let chain = MarkovChain { states: rows.len(), transition: rows };
        match chain.validate() {
            Err(e) => Err(e),
            Ok(()) => Ok(chain),
        }
    }

    /// The probability of moving from `from` to `to`, zero out of range.
    pub fn transition_prob(&self, from: usize, to: usize) -> (r: T)
        ensures
            r == prob_at(self.matrix(), from as int, to as int),
    {
        if from < self.transition.len() && to < self.transition[from].len() {
            self.transition[from][to]
        } else {
            T::zero()
        }
    }

    /// The outgoing distribution of `from`, empty out of range.
    pub fn row(&self, from: usize) -> (r: &[T])
        ensures
            r@ == state_row(self.matrix(), from),
    {
        if from < self.transition.len() {
            self.transition[from].as_slice()
        } else {
            &[]
        }
    }
}

impl<T: Scalar> MarkovChain<T> {
    /// Sets the probability of `from -> to` (without renormalizing): an invalid-probability
    /// error for a negative or non-finite `prob`, a state error when row `from` or entry `to`
    /// does not exist (the chain is then unchanged).
    pub fn try_set_transition(&mut self, from: usize, to: usize, prob: T) -> (r: Result<(), MarkovError<T>>)
        ensures
            bad_probability(prob) ==> r == Err::<(), MarkovError<T>>(MarkovError::InvalidProbability { value: prob }),
            !bad_probability(prob) && from >= old(self).matrix().len() ==> r == Err::<(), MarkovError<T>>(
                MarkovError::StateOutOfRange { state: from, states: old(self).states },
            ),
            !bad_probability(prob) && from < old(self).matrix().len() && to >= old(self).matrix()[from as int].len() ==> r
                == Err::<(), MarkovError<T>>(MarkovError::StateOutOfRange { state: to, states: old(self).states }),
            !bad_probability(prob) && from < old(self).matrix().len() && to < old(self).matrix()[from as int].len() ==> r
                is Ok,
            r is Err ==> *final(self) == *old(self),
            r is Ok ==> final(self).states == old(self).states && final(self).matrix() == old(self).matrix().update(
                from as int,
                old(self).matrix()[from as int].update(to as int, prob),
            ),
    {
        if !prob.is_finite() || prob.lt(T::zero()) {
            return Err(MarkovError::InvalidProbability { value: prob });
        }
        let states = self.states;
        if from >= self.transition.len() {
            return Err(MarkovError::StateOutOfRange { state: from, states });
        }
        if to >= self.transition[from].len() {
            return Err(MarkovError::StateOutOfRange { state: to, states });
        }
        let ghost before = self.matrix();
        let mut row = copy_row(&self.transition[from]);
        row.set(to, prob);
        self.transition.set(from, row);
        assert(self.matrix() =~= before.update(from as int, before[from as int].update(to as int, prob)));
        Ok(())
    }

    /// Sets the probability of `from -> to` (see [`Self::try_set_transition`]), for a valid
    /// probability and an existing entry.
    pub fn set_transition(&mut self, from: usize, to: usize, prob: T)
        requires
            !bad_probability(prob),
            from < old(self).matrix().len(),
            to < old(self).matrix()[from as int].len(),
        ensures
            final(self).states == old(self).states,
            final(self).matrix() == old(self).matrix().update(from as int, old(self).matrix()[from as int].update(to as int, prob)),
    {
        let r = self.try_set_transition(from, to, prob);
    }

    /// Rescales row `from` to sum to one, or makes it uniform when its sum is not finite and
    /// positive (see [`normalized_or_uniform`]); row `from` must exist.
    pub fn normalize_row(&mut self, from: usize)
        requires
            from < old(self).matrix().len(),
        ensures
            final(self).states == old(self).states,
            final(self).matrix() == old(self).matrix().update(from as int, normalized_or_uniform(old(self).matrix()[from as int])),
    {
        let ghost before = self.matrix();
        let row = normalized_or_uniform_exec(&self.transition[from]);
        self.transition.set(from, row);
        assert(self.matrix() =~= before.update(from as int, normalized_or_uniform(before[from as int])));
    }

    /// Rescales row `from` to sum to one: a state error when the row does not exist, a
    /// degenerate-row error when its sum is not finite or at most zero (the chain is then
    /// unchanged).
    pub fn try_normalize_row(&mut self, from: usize) -> (r: Result<(), MarkovError<T>>)
        ensures
            from >= old(self).matrix().len() ==> r == Err::<(), MarkovError<T>>(
                MarkovError::StateOutOfRange { state: from, states: old(self).states },
            ),
            from < old(self).matrix().len() && degenerate_total(seq_sum(old(self).matrix()[from as int])) ==> r
                == Err::<(), MarkovError<T>>(MarkovError::DegenerateRow { row: from }),
            from < old(self).matrix().len() && !degenerate_total(seq_sum(old(self).matrix()[from as int])) ==> r is Ok,
            r is Err ==> *final(self) == *old(self),
            r is Ok ==> final(self).states == old(self).states && from < old(self).matrix().len() && final(self).matrix()
                == old(self).matrix().update(
                from as int,
                Seq::new(
                    old(self).matrix()[from as int].len(),
                    |k: int| old(self).matrix()[from as int][k].divide_spec(seq_sum(old(self).matrix()[from as int])),
                ),
            ),
    {
        if from >= self.transition.len() {
            return Err(MarkovError::StateOutOfRange { state: from, states: self.states });
        }
        let ghost before = self.matrix();
        let sum = sum_exec(self.transition[from].as_slice());
        if !sum.is_finite() || sum.le(T::zero()) {
            return Err(MarkovError::DegenerateRow { row: from });
        }
        let ghost target = Seq::new(before[from as int].len(), |k: int| before[from as int][k].divide_spec(sum));
        let mut row: Vec<T> = Vec::new();
        let n = self.transition[from].len();
        for k in 0..n
            invariant
                from < self.transition@.len(),
                self.matrix() == before,
                n == before[from as int].len(),
                target == Seq::new(before[from as int].len(), |k: int| before[from as int][k].divide_spec(sum)),
                row@ == target.take(k as int),
        {
            assert(before[from as int] == self.transition@[from as int]@);
            row.push(self.transition[from][k].divide(sum));
            assert(row@ =~= target.take(k + 1));
        }
        assert(row@ =~= target);
        self.transition.set(from, row);
        assert(self.matrix() =~= before.update(from as int, target));
        Ok(())
    }

    /// Rescales every row to sum to one, making rows without finite positive mass uniform
    /// (see [`normalized_or_uniform`]).
    pub fn normalize(&mut self)
        ensures
            final(self).states == old(self).states,
            final(self).matrix() == Seq::new(old(self).matrix().len(), |i: int| normalized_or_uniform(old(self).matrix()[i])),
    {
        let ghost before = self.matrix();
        let n = self.transition.len();
        for i in 0..n
            invariant
                n == before.len(),
                self.states == old(self).states,
                before == old(self).matrix(),
                self.transition@.len() == n,
                forall|t: int| 0 <= t < i ==> #[trigger] self.matrix()[t] == normalized_or_uniform(before[t]),
                forall|t: int| i <= t < n ==> #[trigger] self.matrix()[t] == before[t],
        {
            assert(self.matrix()[i as int] == before[i as int]);
            let row = normalized_or_uniform_exec(&self.transition[i]);
            let ghost mid = self.matrix();
            self.transition.set(i, row);
            assert(self.matrix() =~= mid.update(i as int, normalized_or_uniform(before[i as int])));
        }
        assert(self.matrix() =~= Seq::new(before.len(), |i: int| normalized_or_uniform(before[i])));
    }

    /// The chain of a square matrix of non-negative weights, each row rescaled to sum to one:
    /// a shape error (see [`shape_error`]), else a state or degenerate-row error from the
    /// first row that cannot be rescaled (see [`Self::try_normalize_row`]).
    pub fn from_rows_normalized(rows: Vec<Vec<T>>) -> (r: Result<Self, MarkovError<T>>)
        ensures
            shape_error(rows@.len() as usize, rows_view(rows@)) matches Some(e) ==> r == Err::<Self, MarkovError<T>>(e),
            shape_error(rows@.len() as usize, rows_view(rows@)) is None ==> match first_degenerate(rows_view(rows@), 0) {
                Some(i) => r == Err::<Self, MarkovError<T>>(MarkovError::DegenerateRow { row: i as usize }),
                None => r matches Ok(c) && c.states == rows@.len() && c.matrix() == Seq::new(
                    rows@.len(),
                    |i: int| Seq::new(rows_view(rows@)[i].len(), |k: int| rows_view(rows@)[i][k].divide_spec(seq_sum(rows_view(rows@)[i]))),
                ),
            },
    {
        let ghost m0 = rows_view(rows@);
        let mut chain = MarkovChain { states: rows.len(), transition: rows };
        match shape_error_exec(chain.states, &chain.transition) {
            Some(e) => {
                return Err(e);
            },
            None => {},
        }
        let n = chain.states;
        for row in 0..n
            invariant
                n == chain.states,
                n == m0.len(),
                m0 == rows_view(rows@),
                shape_error(n, m0) is None,
                chain.transition@.len() == n,
                first_degenerate(m0, 0) == first_degenerate(m0, row as int),
                forall|t: int| 0 <= t < row ==> #[trigger] chain.matrix()[t] == Seq::new(m0[t].len(), |k: int| m0[t][k].divide_spec(seq_sum(m0[t]))),
                forall|t: int| row <= t < n ==> #[trigger] chain.matrix()[t] == m0[t],
        {
            assert(chain.matrix()[row as int] == m0[row as int]);
            let ghost mid = chain.matrix();
            match chain.try_normalize_row(row) {
                Err(e) => {
                    return Err(e);
                },
                Ok(()) => {},
            }
            assert(chain.matrix().len() == mid.len());
            assert(chain.transition@.len() == n);
            assert(forall|t: int| 0 <= t < n && t != row ==> #[trigger] chain.matrix()[t] == mid[t]);
        }
        assert(chain.matrix() =~= Seq::new(
            m0.len(),
            |i: int| Seq::new(m0[i].len(), |k: int| m0[i][k].divide_spec(seq_sum(m0[i]))),
        ));
        Ok(chain)
    }
}

/// The first row at or after `i` whose sum is degenerate (see [`degenerate_total`]).
pub open spec fn first_degenerate<T: Scalar>(m: Seq<Seq<T>>, i: int) -> Option<int>
    decreases m.len() - i,
{
    if i < 0 || i >= m.len() {
        None
    } else if degenerate_total(seq_sum(m[i])) {
        Some(i)
    } else {
        first_degenerate(m, i + 1)
    }
}

/// Row `row` has `states` finite non-negative entries summing to within `tol` of one.
pub open spec fn row_within<T: Scalar>(row: Seq<T>, states: usize, tol: T) -> bool {
    &&& row.len() == states
    &&& forall|k: int| 0 <= k < row.len() ==> (#[trigger] row[k]).is_finite_spec() && T::zero_spec().le_spec(row[k])
    &&& seq_sum(row).minus_spec(T::one_spec()).abs_spec().le_spec(tol)
}

/// The chain has states, `states` rows, and every row is stochastic within `tol`.
pub open spec fn stochastic_within<T: Scalar>(states: usize, m: Seq<Seq<T>>, tol: T) -> bool {
    &&& states > 0
    &&& m.len() == states
    &&& forall|i: int| 0 <= i < m.len() ==> row_within(#[trigger] m[i], states, tol)
}

/// The lazy chain `(P + I) / 2`: entry `(i, j)` is `[i = j] 1/2 + 1/2 P[i][j]` (with
/// `1/2` as `1 / (1 + 1)` and missing entries zero).
pub open spec fn lazy_matrix<T: Scalar>(m: Seq<Seq<T>>, states: nat) -> Seq<Seq<T>> {
    let half = T::one_spec().divide_spec(two());
    Seq::new(
        states,
        |i: int|
            Seq::new(states, |j: int| (if i == j { half } else { T::zero_spec() }).plus_spec(half.times_spec(prob_at(m, i, j)))),
    )
}

/// A step keeps the number of states.
proof fn lemma_step_upto_len<T: Scalar>(m: Seq<Seq<T>>, states: nat, dist: Seq<T>, i: int)
    ensures
        step_upto(m, states, dist, i).len() == states,
    decreases i,
{
    if i > 0 {
        lemma_step_upto_len(m, states, dist, i - 1);
    }
}

/// `initial` cut or padded with zeros to `states` entries.
pub open spec fn fitted<T: Scalar>(initial: Seq<T>, states: nat) -> Seq<T> {
    Seq::new(states, |k: int| if k < initial.len() { initial[k] } else { T::zero_spec() })
}

impl<T: Scalar> MarkovChain<T> {
    /// Whether the chain has states, is square, and has finite non-negative rows each summing
    /// to within `tol` of one (see [`stochastic_within`]).
    pub fn is_stochastic(&self, tol: T) -> (r: bool)
        ensures
            r == stochastic_within(self.states, self.matrix(), tol),
    {
        if self.states == 0 || self.transition.len() != self.states {
            return false;
        }
        let ghost m = self.matrix();
        for i in 0..self.transition.len()
            invariant
                m == self.matrix(),
                self.transition@.len() == self.states,
                forall|t: int| 0 <= t < i ==> row_within(#[trigger] m[t], self.states, tol),
        {
            assert(m[i as int] == self.transition@[i as int]@);
            let row = &self.transition[i];
            if row.len() != self.states {
                assert(!row_within(m[i as int], self.states, tol));
                return false;
            }
            for k in 0..row.len()
                invariant
                    i < m.len(),
                    m == self.matrix(),
                    self.transition@.len() == self.states,
                    row@ == m[i as int],
                    forall|c: int| 0 <= c < k ==> (#[trigger] row@[c]).is_finite_spec() && T::zero_spec().le_spec(row@[c]),
            {
                if !(row[k].is_finite() && T::zero().le(row[k])) {
                    assert(!row_within(m[i as int], self.states, tol));
                    return false;
                }
            }
            let sum = sum_exec(row.as_slice());
            if !sum.minus(T::one()).abs().le(tol) {
                assert(!row_within(m[i as int], self.states, tol));
                return false;
            }
        }
        true
    }

    /// The lazy chain `(P + I) / 2` (see [`lazy_matrix`]): it stays put with probability one
    /// half, else follows `P`.
    pub fn lazy(&self) -> (r: MarkovChain<T>)
        ensures
            r.states == self.states,
            r.matrix() == lazy_matrix(self.matrix(), self.states as nat),
    {
        let n = self.states;
        let half = T::one().divide(two_exec::<T>());
        let ghost target = lazy_matrix(self.matrix(), n as nat);
        let mut transition: Vec<Vec<T>> = Vec::new();
        for i in 0..n
            invariant
                n == self.states,
                half == T::one_spec().divide_spec(two::<T>()),
                target == lazy_matrix(self.matrix(), n as nat),
                transition@.len() == i,
                forall|t: int| 0 <= t < i ==> (#[trigger] transition@[t])@ == target[t],
        {
            let mut row: Vec<T> = Vec::new();
            for j in 0..n
                invariant
                    i < n,
                    n == self.states,
                    half == T::one_spec().divide_spec(two::<T>()),
                    target == lazy_matrix(self.matrix(), n as nat),
                    row@ == target[i as int].take(j as int),
            {
                let stay = if i == j {
                    half
                } else {
                    T::zero()
                };
                row.push(stay.plus(half.times(self.transition_prob(i, j))));
                assert(row@ =~= target[i as int].take(j + 1));
            }
            assert(row@ =~= target[i as int]);
            transition.push(row);
        }
        let r = MarkovChain { states: n, transition };
        assert(r.matrix() =~= target);
        r
    }

    /// One step of a distribution: `dist * P` over the states (see [`step_dist`]).
    pub fn step_distribution(&self, dist: &[T]) -> (r: Vec<T>)
        ensures
            r@ == step_dist(self.matrix(), self.states as nat, dist@),
    {
        let n = self.states;
        let ghost m = self.matrix();
        let mut out: Vec<T> = Vec::new();
        for j in 0..n
            invariant
                out@ == Seq::new(j as nat, |t: int| T::zero_spec()),
        {
            out.push(T::zero());
            assert(out@ =~= Seq::new((j + 1) as nat, |t: int| T::zero_spec()));
        }
        let upto = if dist.len() <= n {
            dist.len()
        } else {
            n
        };
        for i in 0..upto
            invariant
                n == self.states,
                m == self.matrix(),
                upto <= dist@.len(),
                out@ == step_upto(m, n as nat, dist@, i as int),
        {
            proof {
                lemma_step_upto_len(m, n as nat, dist@, i as int);
            }
            let mass = dist[i];
            if !mass.eq(T::zero()) && i < self.transition.len() {
                let row = &self.transition[i];
                assert(row@ == m[i as int]);
                let ghost prev = out@;
                assert(out@ =~= Seq::new(n as nat, |c: int| if c < 0 && c < row@.len() { prev[c].plus_spec(mass.times_spec(row@[c])) } else { prev[c] }));
                let w = if n <= row.len() {
                    n
                } else {
                    row.len()
                };
                for j in 0..w
                    invariant
                        w <= n,
                        w <= row@.len(),
                        prev.len() == n,
                        out@ == Seq::new(n as nat, |c: int| if c < j && c < row@.len() { prev[c].plus_spec(mass.times_spec(row@[c])) } else { prev[c] }),
                {
                    let v = out[j].plus(mass.times(row[j]));
                    out.set(j, v);
                    assert(out@ =~= Seq::new(n as nat, |c: int| if c < j + 1 && c < row@.len() { prev[c].plus_spec(mass.times_spec(row@[c])) } else { prev[c] }));
                }
                assert(out@ =~= step_upto(m, n as nat, dist@, i + 1));
            }
        }
        out
    }

    /// The distribution after `steps` steps from `initial`, cut or padded with zeros to the
    /// states (see [`fitted`] and [`steps_from`]).
    pub fn distribution_after(&self, initial: &[T], steps: usize) -> (r: Vec<T>)
        ensures
            r@ == steps_from(self.matrix(), self.states as nat, fitted(initial@, self.states as nat), steps as int),
    {
        let n = self.states;
        let mut dist: Vec<T> = Vec::new();
        for k in 0..n
            invariant
                dist@ == fitted(initial@, n as nat).take(k as int),
        {
            if k < initial.len() {
                dist.push(initial[k]);
            } else {
                dist.push(T::zero());
            }
            assert(dist@ =~= fitted(initial@, n as nat).take(k + 1));
        }
        assert(dist@ =~= fitted(initial@, n as nat));
        for s in 0..steps
            invariant
                n == self.states,
                dist@ == steps_from(self.matrix(), n as nat, fitted(initial@, n as nat), s as int),
        {
            dist = self.step_distribution(dist.as_slice());
        }
        dist
    }

    /// Power iteration from the uniform distribution (see [`power_iteration`]): the iterate,
    /// the iterations done and the last residual.
    fn power_iterate(&self, tol: T, max_iter: usize) -> (r: (Vec<T>, usize, T))
        ensures
            r.0@ == power_iteration(self.matrix(), self.states as nat, tol, max_iter as nat).pi,
            r.1 == power_iteration(self.matrix(), self.states as nat, tol, max_iter as nat).iterations,
            r.2 == power_iteration(self.matrix(), self.states as nat, tol, max_iter as nat).residual,
    {
        let n = self.states;
        if n == 0 {
            return (Vec::new(), 0, T::zero());
        }
        let ghost m = self.matrix();
        let ghost spec = power_iteration(m, n as nat, tol, max_iter as nat);
        let u = inverse_count_exec::<T>(n);
        let mut pi: Vec<T> = Vec::new();
        for j in 0..n
            invariant
                pi@ == Seq::new(j as nat, |t: int| u),
        {
            pi.push(u);
            assert(pi@ =~= Seq::new((j + 1) as nat, |t: int| u));
        }
        let mut residual = T::infinity();
        let mut iterations: usize = 0;
        let mut k: usize = 0;
        let mut done = false;
        while k < max_iter && !done
            invariant
                n == self.states,
                n > 0,
                m == self.matrix(),
                u == inverse_count::<T>(n as nat),
                iterations == k,
                k <= max_iter,
                spec == power_iteration(m, n as nat, tol, max_iter as nat),
                done ==> spec == (PowerState { pi: pi@, iterations: iterations as nat, residual }),
                !done ==> power_from(m, n as nat, PowerState { pi: pi@, iterations: iterations as nat, residual }, tol, k as int, max_iter as int) == spec,
            decreases max_iter - k,
        {
            iterations = iterations + 1;
            let next0 = self.step_distribution(pi.as_slice());
            let sum = sum_exec(next0.as_slice());
            if !(sum.is_finite() && T::zero().lt(sum)) {
                let mut uni: Vec<T> = Vec::new();
                for j in 0..n
                    invariant
                        uni@ == Seq::new(j as nat, |t: int| u),
                {
                    uni.push(u);
                    assert(uni@ =~= Seq::new((j + 1) as nat, |t: int| u));
                }
                return (uni, iterations, T::infinity());
            }
            let mut next: Vec<T> = Vec::new();
            for j in 0..next0.len()
                invariant
                    next@ == Seq::new(j as nat, |t: int| next0@[t].divide_spec(sum)),
            {
                next.push(next0[j].divide(sum));
                assert(next@ =~= Seq::new((j + 1) as nat, |t: int| next0@[t].divide_spec(sum)));
            }
            let w = if pi.len() <= next.len() {
                pi.len()
            } else {
                next.len()
            };
            let mut res = T::zero().negate();
            for j in 0..w
                invariant
                    w <= pi@.len(),
                    w <= next@.len(),
                    res == l1_upto(pi@, next@, j as int),
            {
                res = res.plus(pi[j].minus(next[j]).abs());
            }
            residual = res;
            pi = next;
            if residual.le(tol) {
                done = true;
            }
            k = k + 1;
        }
        (pi, iterations, residual)
    }

    /// The stationary distribution by power iteration with tolerance `tol` and at most
    /// `max_iter` iterations (see [`power_iteration`]); the iterate is returned even when it
    /// has not converged.
    pub fn stationary_with(&self, tol: T, max_iter: usize) -> (r: Vec<T>)
        ensures
            r@ == power_iteration(self.matrix(), self.states as nat, tol, max_iter as nat).pi,
    {
        self.power_iterate(tol, max_iter).0
    }

    /// The stationary distribution with the tolerance [`stationary_tolerance`] and at most
    /// [`DEFAULT_STATIONARY_MAX_ITER`] iterations.
    pub fn stationary(&self) -> (r: Vec<T>)
        ensures
            r@ == power_iteration(self.matrix(), self.states as nat, stationary_tolerance::<T>(), DEFAULT_STATIONARY_MAX_ITER as nat).pi,
    {
        self.stationary_with(T::from_int(1).divide(T::from_int(1_000_000_000_000)), DEFAULT_STATIONARY_MAX_ITER)
    }

    /// The stationary distribution, checked: any validation error (see
    /// [`Self::validate`]), or a not-converged error carrying the iterations and residual when
    /// the residual is still above `tol`.
    pub fn try_stationary(&self, tol: T, max_iter: usize) -> (r: Result<Vec<T>, MarkovError<T>>)
        ensures
            chain_error(self.states, self.matrix()) matches Some(e) ==> r == Err::<Vec<T>, MarkovError<T>>(e),
            chain_error(self.states, self.matrix()) is None ==> ({
                let p = power_iteration(self.matrix(), self.states as nat, tol, max_iter as nat);
                if tol.lt_spec(p.residual) {
                    r == Err::<Vec<T>, MarkovError<T>>(
                        MarkovError::NotConverged { iterations: p.iterations as usize, residual: p.residual },
                    )
                } else {
                    r matches Ok(pi) && pi@ == p.pi
                }
            }),
    {
        match self.validate() {
            Err(e) => {
                return Err(e);
            },
            Ok(()) => {},
        }
        let (pi, iterations, residual) = self.power_iterate(tol, max_iter);
        if tol.lt(residual) {
            return Err(MarkovError::NotConverged { iterations, residual });
        }
        Ok(pi)
    }

    /// The next state from `current`: a draw from its row (see [`sample_categorical`]), or
    /// `current` itself when the row (empty out of range) has no mass to draw from.
    pub fn step<R: Rng>(&self, rng: &mut R, current: usize) -> (r: usize)
        ensures
            chain_step_ok(self.matrix(), current, r),
    {
        draw_or(rng, self.row(current), current)
    }

    /// A simulated walk of exactly `n` states from `init` (see [`walk_ok`]).
    pub fn run<R: Rng>(&self, rng: &mut R, init: usize, n: usize) -> (r: Vec<usize>)
        ensures
            walk_ok(self.matrix(), init, n as nat, r@),
    {
        let mut path: Vec<usize> = Vec::new();
        if n == 0 {
            return path;
        }
        let mut current = init;
        path.push(current);
        for t in 1..n
            invariant
                path@.len() == t,
                path@[0] == init,
                current == path@[t - 1],
                forall|s: int| 1 <= s < t ==> chain_step_ok(self.matrix(), #[trigger] path@[s - 1], path@[s]),
        {
            current = self.step(rng, current);
            path.push(current);
        }
        path
    }

    /// The visit frequencies of a simulated walk of `n` states from `init`: the frequencies
    /// (see [`visit_frequencies`]) of some walk that [`Self::run`] could take.
    pub fn empirical_distribution<R: Rng>(&self, rng: &mut R, init: usize, n: usize) -> (r: Vec<T>)
        ensures
            exists|path: Seq<usize>| walk_ok(self.matrix(), init, n as nat, path) && r@ == frequencies::<T>(path, self.states as nat, n as nat),
    {
        let path = self.run(rng, init, n);
        visit_frequencies(path.as_slice(), self.states, n)
    }
}

// ===========================================================================
// Hidden Markov models
// ===========================================================================

/// A discrete hidden Markov model: `states` hidden states, `observations` symbols, the hidden
/// chain's `transition` rows, the per-state `emission` rows and the `initial` distribution.
/// The fields are open; [`Hmm::validate`] checks them.
#[derive(Clone, Debug, PartialEq)]
pub struct Hmm<T> {
    pub states: usize,
    pub observations: usize,
    pub transition: Vec<Vec<T>>,
    pub emission: Vec<Vec<T>>,
    pub initial: Vec<T>,
}

/// Element `i` of `s`, zero out of range.
pub open spec fn at_or_zero<T: Scalar>(s: Seq<T>, i: int) -> T {
    if 0 <= i < s.len() {
        s[i]
    } else {
        T::zero_spec()
    }
}

/// The long name of [`Hmm`].
pub type HiddenMarkovModel<T> = Hmm<T>;

/// The checks of a distribution of `expected` entries (row `row` of its matrix): the length,
/// the entries (see [`entry_error`]), then the sum (see [`off_one`]).
pub open spec fn dist_error<T: Scalar>(dist: Seq<T>, expected: usize, row: usize) -> Option<MarkovError<T>> {
    if dist.len() != expected {
        Some(MarkovError::DimensionMismatch { expected, found: dist.len() as usize })
    } else {
        match entry_error(dist, 0) {
            Some(e) => Some(e),
            None => if off_one(seq_sum(dist)) {
                Some(MarkovError::NotStochastic { row, sum: seq_sum(dist) })
            } else {
                None
            },
        }
    }
}

/// The first failing row at or after `i` (see [`dist_error`]).
pub open spec fn rows_dist_error<T: Scalar>(rows: Seq<Seq<T>>, width: usize, i: int) -> Option<MarkovError<T>>
    decreases rows.len() - i,
{
    if i < 0 || i >= rows.len() {
        None
    } else {
        match dist_error(rows[i], width, i as usize) {
            Some(e) => Some(e),
            None => rows_dist_error(rows, width, i + 1),
        }
    }
}

/// The checks of a `height x width` stochastic matrix.
pub open spec fn matrix_error<T: Scalar>(rows: Seq<Seq<T>>, height: usize, width: usize) -> Option<MarkovError<T>> {
    if rows.len() != height {
        Some(MarkovError::DimensionMismatch { expected: height, found: rows.len() as usize })
    } else {
        rows_dist_error(rows, width, 0)
    }
}

/// The first check a model fails: no states, no symbols, the initial distribution, the
/// transition matrix, the emission matrix.
pub open spec fn hmm_error<T: Scalar>(h: Hmm<T>) -> Option<MarkovError<T>> {
    if h.states == 0 {
        Some(MarkovError::ZeroStates)
    } else if h.observations == 0 {
        Some(MarkovError::ZeroObservations)
    } else {
        match dist_error(h.initial@, h.states, 0) {
            Some(e) => Some(e),
            None => match matrix_error(rows_view(h.transition@), h.states, h.states) {
                Some(e) => Some(e),
                None => matrix_error(rows_view(h.emission@), h.states, h.observations),
            },
        }
    }
}

/// The first symbol at or after `k` that is not below `observations`.
pub open spec fn symbol_error<T>(obs: Seq<usize>, observations: usize, k: int) -> Option<MarkovError<T>>
    decreases obs.len() - k,
{
    if k < 0 || k >= obs.len() {
        None
    } else if obs[k] >= observations {
        Some(MarkovError::ObservationOutOfRange { observation: obs[k], observations })
    } else {
        symbol_error(obs, observations, k + 1)
    }
}

/// The checks before decoding or filtering: the model has states, and every symbol is in
/// range.
pub open spec fn decode_error<T>(states: usize, observations: usize, obs: Seq<usize>) -> Option<MarkovError<T>> {
    if states == 0 {
        Some(MarkovError::ZeroStates)
    } else {
        symbol_error(obs, observations, 0)
    }
}

/// The logarithm of a probability: `ln p` for `p > 0`, else negative infinity.
pub open spec fn log_prob<T: Scalar>(p: T) -> T {
    if T::zero_spec().lt_spec(p) {
        p.ln_spec()
    } else {
        T::infinity_spec().negate_spec()
    }
}

/// The best predecessor of `j` among the first `k` states: the running maximum of
/// `delta[i] + ln P[i][j]` from negative infinity, kept on ties, with its state.
pub open spec fn best_prev<T: Scalar>(delta: Seq<T>, m: Seq<Seq<T>>, j: int, k: int) -> (T, usize)
    decreases k,
{
    if k <= 0 {
        (T::infinity_spec().negate_spec(), 0usize)
    } else {
        let (b, a) = best_prev(delta, m, j, k - 1);
        let c = delta[k - 1].plus_spec(log_prob(prob_at(m, k - 1, j)));
        if b.lt_spec(c) {
            (c, (k - 1) as usize)
        } else {
            (b, a)
        }
    }
}

/// The Viterbi scores and back-pointers after the first `t` symbols of `obs` (`t >= 1`),
/// over `n` states.
pub open spec fn viterbi_scores<T: Scalar>(h: Hmm<T>, obs: Seq<usize>, n: nat, t: int) -> (Seq<T>, Seq<Seq<usize>>)
    decreases t,
{
    let tr = rows_view(h.transition@);
    let em = rows_view(h.emission@);
    if t <= 1 {
        (
            Seq::new(n, |i: int| log_prob(at_or_zero(h.initial@, i)).plus_spec(log_prob(prob_at(em, i, obs[0] as int)))),
            Seq::empty(),
        )
    } else {
        let (delta, bp) = viterbi_scores(h, obs, n, t - 1);
        let symbol = obs[t - 1];
        (
            Seq::new(n, |j: int| best_prev(delta, tr, j, n as int).0.plus_spec(log_prob(prob_at(em, j, symbol as int)))),
            bp.push(Seq::new(n, |j: int| best_prev(delta, tr, j, n as int).1)),
        )
    }
}

/// The first index of the largest value among the first `k` (strictly larger wins), from
/// negative infinity at index zero.
pub open spec fn argmax_upto<T: Scalar>(values: Seq<T>, k: int) -> (usize, T)
    decreases k,
{
    if k <= 0 {
        (0usize, T::infinity_spec().negate_spec())
    } else {
        let (i, b) = argmax_upto(values, k - 1);
        if b.lt_spec(values[k - 1]) {
            ((k - 1) as usize, values[k - 1])
        } else {
            (i, b)
        }
    }
}

/// The state at time `t` of the path traced back through the back-pointers `bp` from `last`
/// at time `steps - 1`.
pub open spec fn trace_back(bp: Seq<Seq<usize>>, last: usize, steps: int, t: int) -> usize
    decreases steps - 1 - t,
{
    if t >= steps - 1 {
        last
    } else {
        bp[t][trace_back(bp, last, steps, t + 1) as int]
    }
}

/// The Viterbi path and its log-probability for the (checked) observations `obs`: empty
/// with log-probability zero for no observations.
pub open spec fn viterbi_result<T: Scalar>(h: Hmm<T>, obs: Seq<usize>) -> (Seq<usize>, T) {
    let steps = obs.len() as int;
    if steps == 0 {
        (Seq::empty(), T::zero_spec())
    } else {
        let (delta, bp) = viterbi_scores(h, obs, h.states as nat, steps);
        let (last, lp) = argmax_upto(delta, delta.len() as int);
        (Seq::new(steps as nat, |t: int| trace_back(bp, last, steps, t)), lp)
    }
}

/// `sum_i alpha[i] P[i][j]` over the first `k` entries of `alpha`, from negative zero.
pub open spec fn predicted_upto<T: Scalar>(alpha: Seq<T>, m: Seq<Seq<T>>, j: int, k: int) -> T
    decreases k,
{
    if k <= 0 {
        T::zero_spec().negate_spec()
    } else {
        predicted_upto(alpha, m, j, k - 1).plus_spec(alpha[k - 1].times_spec(prob_at(m, k - 1, j)))
    }
}

/// The scaled forward pass from time `t`: the unnormalized filter `next[j]` is the
/// prediction (the initial probability at `t = 0`, else `sum_i alpha[i] P[i][j]`) times the
/// emission probability of the symbol; when its sum is degenerate the remaining filtered
/// distributions are zero and the log-likelihood is negative infinity, else it is rescaled,
/// recorded, and the log of the scale is added.
pub open spec fn forward_run<T: Scalar>(h: Hmm<T>, obs: Seq<usize>, n: nat, t: int, alpha: Seq<T>, filtered: Seq<Seq<T>>, ll: T) -> (Seq<Seq<T>>, T)
    decreases obs.len() - t,
{
    let tr = rows_view(h.transition@);
    let em = rows_view(h.emission@);
    if t < 0 || t >= obs.len() {
        (filtered, ll)
    } else {
        let symbol = obs[t] as int;
        let next0 = Seq::new(
            n,
            |j: int|
                (if t == 0 { at_or_zero(h.initial@, j) } else { predicted_upto(alpha, tr, j, alpha.len() as int) }).times_spec(
                    prob_at(em, j, symbol),
                ),
        );
        let scale = seq_sum(next0);
        if degenerate_total(scale) {
            (filtered + Seq::new((obs.len() - t) as nat, |k: int| Seq::new(n, |j: int| T::zero_spec())), T::infinity_spec().negate_spec())
        } else {
            let next = Seq::new(n, |j: int| next0[j].divide_spec(scale));
            forward_run(h, obs, n, t + 1, next, filtered.push(next), ll.plus_spec(scale.ln_spec()))
        }
    }
}

/// The filtered distributions and the log-likelihood of the (checked) observations.
pub open spec fn forward_result<T: Scalar>(h: Hmm<T>, obs: Seq<usize>) -> (Seq<Seq<T>>, T) {
    forward_run(h, obs, h.states as nat, 0, Seq::new(h.states as nat, |j: int| T::zero_spec()), Seq::empty(), T::zero_spec())
}

/// The first failing distribution (see [`dist_error`]).
fn dist_error_exec<T: Scalar>(dist: &Vec<T>, expected: usize, row: usize) -> (r: Option<MarkovError<T>>)
    ensures
        r == dist_error(dist@, expected, row),
{
    if dist.len() != expected {
        return Some(MarkovError::DimensionMismatch { expected, found: dist.len() });
    }
    match entry_error_exec(dist) {
        Some(e) => Some(e),
        None => {
            let sum = sum_exec(dist.as_slice());
            if probability_tolerance_exec::<T>().lt(sum.minus(T::one()).abs()) {
                Some(MarkovError::NotStochastic { row, sum })
            } else {
                None
            }
        },
    }
}

/// The matrix checks (see [`matrix_error`]).
fn matrix_error_exec<T: Scalar>(rows: &Vec<Vec<T>>, height: usize, width: usize) -> (r: Option<MarkovError<T>>)
    ensures
        r == matrix_error(rows_view(rows@), height, width),
{
    if rows.len() != height {
        return Some(MarkovError::DimensionMismatch { expected: height, found: rows.len() });
    }
    let ghost rv = rows_view(rows@);
    for i in 0..rows.len()
        invariant
            rv == rows_view(rows@),
            rows@.len() == height,
            rows_dist_error(rv, width, i as int) == rows_dist_error(rv, width, 0),
    {
        assert(rv[i as int] == rows@[i as int]@);
        match dist_error_exec(&rows[i], width, i) {
            Some(e) => {
                return Some(e);
            },
            None => {},
        }
    }
    None
}

/// Replaces entry `j` of row `i`.
fn set_entry<T: Copy>(m: &mut Vec<Vec<T>>, i: usize, j: usize, v: T)
    requires
        i < old(m)@.len(),
        j < old(m)@[i as int]@.len(),
    ensures
        rows_view(final(m)@) == rows_view(old(m)@).update(i as int, rows_view(old(m)@)[i as int].update(j as int, v)),
{
    let ghost before = rows_view(m@);
    let mut row = copy_row(&m[i]);
    row.set(j, v);
    m.set(i, row);
    assert(rows_view(m@) =~= before.update(i as int, before[i as int].update(j as int, v)));
}

/// Every row of `m` rescaled or made uniform (see [`normalized_or_uniform`]).
fn normalize_rows<T: Scalar>(m: &Vec<Vec<T>>) -> (r: Vec<Vec<T>>)
    ensures
        rows_view(r@) == Seq::new(m@.len(), |i: int| normalized_or_uniform(rows_view(m@)[i])),
{
    let ghost target = Seq::new(m@.len(), |i: int| normalized_or_uniform(rows_view(m@)[i]));
    let mut out: Vec<Vec<T>> = Vec::new();
    for i in 0..m.len()
        invariant
            target == Seq::new(m@.len(), |i: int| normalized_or_uniform(rows_view(m@)[i])),
            out@.len() == i,
            forall|t: int| 0 <= t < i ==> (#[trigger] out@[t])@ == target[t],
    {
        out.push(normalized_or_uniform_exec(&m[i]));
    }
    assert(rows_view(out@) =~= target);
    out
}

impl<T: Scalar> Hmm<T> {
    /// A model with all-zero probabilities (not yet valid).
    pub fn new(states: usize, observations: usize) -> (r: Self)
        ensures
            r.states == states,
            r.observations == observations,
            rows_view(r.transition@) == const_rows(states as nat, states as nat, T::zero_spec()),
            rows_view(r.emission@) == const_rows(states as nat, observations as nat, T::zero_spec()),
            r.initial@ == Seq::new(states as nat, |i: int| T::zero_spec()),
    {
        let mut initial: Vec<T> = Vec::new();
        for i in 0..states
            invariant
                initial@ == Seq::new(i as nat, |t: int| T::zero_spec()),
        {
            initial.push(T::zero());
            assert(initial@ =~= Seq::new((i + 1) as nat, |t: int| T::zero_spec()));
        }
        Hmm {
            states,
            observations,
            transition: const_rows_exec(states, states, T::zero()),
            emission: const_rows_exec(states, observations, T::zero()),
            initial,
        }
    }

    /// The model with uniform initial, transition and emission distributions.
    pub fn uniform(states: usize, observations: usize) -> (r: Self)
        ensures
            r.states == states,
            r.observations == observations,
            rows_view(r.transition@) == const_rows(states as nat, states as nat, inverse_count::<T>(states as nat)),
            rows_view(r.emission@) == const_rows(states as nat, observations as nat, inverse_count::<T>(observations as nat)),
            r.initial@ == Seq::new(states as nat, |i: int| inverse_count::<T>(states as nat)),
    {
        let ps = inverse_count_exec::<T>(states);
        let po = inverse_count_exec::<T>(observations);
        let mut initial: Vec<T> = Vec::new();
        for i in 0..states
            invariant
                initial@ == Seq::new(i as nat, |t: int| ps),
        {
            initial.push(ps);
            assert(initial@ =~= Seq::new((i + 1) as nat, |t: int| ps));
        }
        Hmm {
            states,
            observations,
            transition: const_rows_exec(states, states, ps),
            emission: const_rows_exec(states, observations, po),
            initial,
        }
    }

    /// Checks the model (see [`hmm_error`]).
    pub fn validate(&self) -> (r: Result<(), MarkovError<T>>)
        ensures
            r == as_result(hmm_error(*self)),
    {
        if self.states == 0 {
            return Err(MarkovError::ZeroStates);
        }
        if self.observations == 0 {
            return Err(MarkovError::ZeroObservations);
        }
        match dist_error_exec(&self.initial, self.states, 0) {
            Some(e) => {
                return Err(e);
            },
            None => {},
        }
        match matrix_error_exec(&self.transition, self.states, self.states) {
            Some(e) => {
                return Err(e);
            },
            None => {},
        }
        match matrix_error_exec(&self.emission, self.states, self.observations) {
            Some(e) => Err(e),
            None => Ok(()),
        }
    }

    /// The model of the given parts, checked (see [`hmm_error`]): as many states as initial
    /// probabilities, as many symbols as the first emission row has entries (none without
    /// emission rows).
    pub fn from_parts(initial: Vec<T>, transition: Vec<Vec<T>>, emission: Vec<Vec<T>>) -> (r: Result<Self, MarkovError<T>>)
        ensures
            ({
                let h = Hmm {
                    states: initial@.len() as usize,
                    observations: if emission@.len() == 0 { 0usize } else { emission@[0]@.len() as usize },
                    transition,
                    emission,
                    initial,
                };
                match hmm_error(h) {
                    Some(e) => r == Err::<Self, MarkovError<T>>(e),
                    None => r == Ok::<Self, MarkovError<T>>(h),
                }
            }),
    {
        let states = initial.len();
        let observations = if emission.len() == 0 {
            0
        } else {
            emission[0].len()
        };
        let model = Hmm { states, observations, transition, emission, initial };
        match model.validate() {
            Err(e) => Err(e),
            Ok(()) => Ok(model),
        }
    }

    /// The initial probability of `state`, zero out of range.
    pub fn initial_prob(&self, state: usize) -> (r: T)
        ensures
            r == at_or_zero(self.initial@, state as int),
    {
        if state < self.initial.len() {
            self.initial[state]
        } else {
            T::zero()
        }
    }

    /// The probability of moving from `from` to `to`, zero out of range.
    pub fn transition_prob(&self, from: usize, to: usize) -> (r: T)
        ensures
            r == prob_at(rows_view(self.transition@), from as int, to as int),
    {
        if from < self.transition.len() && to < self.transition[from].len() {
            self.transition[from][to]
        } else {
            T::zero()
        }
    }

    /// The probability that `state` emits `observation`, zero out of range.
    pub fn emission_prob(&self, state: usize, observation: usize) -> (r: T)
        ensures
            r == prob_at(rows_view(self.emission@), state as int, observation as int),
    {
        if state < self.emission.len() && observation < self.emission[state].len() {
            self.emission[state][observation]
        } else {
            T::zero()
        }
    }

    /// Sets the initial probability of `state`: an invalid-probability error for a negative
    /// or non-finite `prob`, a state error out of range (the model is then unchanged).
    pub fn try_set_initial(&mut self, state: usize, prob: T) -> (r: Result<(), MarkovError<T>>)
        ensures
            bad_probability(prob) ==> r == Err::<(), MarkovError<T>>(MarkovError::InvalidProbability { value: prob }),
            !bad_probability(prob) && state >= old(self).initial@.len() ==> r == Err::<(), MarkovError<T>>(
                MarkovError::StateOutOfRange { state, states: old(self).states },
            ),
            !bad_probability(prob) && state < old(self).initial@.len() ==> r is Ok,
            r is Err ==> *final(self) == *old(self),
            r is Ok ==> *final(self) == (Hmm { initial: final(self).initial, ..*old(self) }) && final(self).initial@
                == old(self).initial@.update(state as int, prob),
    {
        if !prob.is_finite() || prob.lt(T::zero()) {
            return Err(MarkovError::InvalidProbability { value: prob });
        }
        if state >= self.initial.len() {
            return Err(MarkovError::StateOutOfRange { state, states: self.states });
        }
        self.initial.set(state, prob);
        Ok(())
    }

    /// Sets the initial probability of `state` (see [`Self::try_set_initial`]), for a valid
    /// probability and state.
    pub fn set_initial(&mut self, state: usize, prob: T)
        requires
            !bad_probability(prob),
            state < old(self).initial@.len(),
        ensures
            *final(self) == (Hmm { initial: final(self).initial, ..*old(self) }),
            final(self).initial@ == old(self).initial@.update(state as int, prob),
    {
        let r = self.try_set_initial(state, prob);
    }

    /// Sets the probability of `from -> to`: an invalid-probability error, or a state error
    /// when row `from` or entry `to` does not exist (the model is then unchanged).
    pub fn try_set_transition(&mut self, from: usize, to: usize, prob: T) -> (r: Result<(), MarkovError<T>>)
        ensures
            bad_probability(prob) ==> r == Err::<(), MarkovError<T>>(MarkovError::InvalidProbability { value: prob }),
            !bad_probability(prob) && from >= old(self).transition@.len() ==> r == Err::<(), MarkovError<T>>(
                MarkovError::StateOutOfRange { state: from, states: old(self).states },
            ),
            !bad_probability(prob) && from < old(self).transition@.len() && to >= old(self).transition@[from as int]@.len()
                ==> r == Err::<(), MarkovError<T>>(MarkovError::StateOutOfRange { state: to, states: old(self).states }),
            !bad_probability(prob) && from < old(self).transition@.len() && to < old(self).transition@[from as int]@.len()
                ==> r is Ok,
            r is Err ==> *final(self) == *old(self),
            r is Ok ==> *final(self) == (Hmm { transition: final(self).transition, ..*old(self) }) && rows_view(
                final(self).transition@,
            ) == rows_view(old(self).transition@).update(
                from as int,
                rows_view(old(self).transition@)[from as int].update(to as int, prob),
            ),
    {
        if !prob.is_finite() || prob.lt(T::zero()) {
            return Err(MarkovError::InvalidProbability { value: prob });
        }
        if from >= self.transition.len() {
            return Err(MarkovError::StateOutOfRange { state: from, states: self.states });
        }
        if to >= self.transition[from].len() {
            return Err(MarkovError::StateOutOfRange { state: to, states: self.states });
        }
        set_entry(&mut self.transition, from, to, prob);
        Ok(())
    }

    /// Sets the probability of `from -> to` (see [`Self::try_set_transition`]), for a valid
    /// probability and an existing entry.
    pub fn set_transition(&mut self, from: usize, to: usize, prob: T)
        requires
            !bad_probability(prob),
            from < old(self).transition@.len(),
            to < old(self).transition@[from as int]@.len(),
        ensures
            *final(self) == (Hmm { transition: final(self).transition, ..*old(self) }),
            rows_view(final(self).transition@) == rows_view(old(self).transition@).update(
                from as int,
                rows_view(old(self).transition@)[from as int].update(to as int, prob),
            ),
    {
        let r = self.try_set_transition(from, to, prob);
    }

    /// Sets the probability that `state` emits `observation`: an invalid-probability error, a
    /// state error when row `state` does not exist, or an observation error when the entry
    /// does not (the model is then unchanged).
    pub fn try_set_emission(&mut self, state: usize, observation: usize, prob: T) -> (r: Result<(), MarkovError<T>>)
        ensures
            bad_probability(prob) ==> r == Err::<(), MarkovError<T>>(MarkovError::InvalidProbability { value: prob }),
            !bad_probability(prob) && state >= old(self).emission@.len() ==> r == Err::<(), MarkovError<T>>(
                MarkovError::StateOutOfRange { state, states: old(self).states },
            ),
            !bad_probability(prob) && state < old(self).emission@.len() && observation >= old(self).emission@[state as int]@.len()
                ==> r == Err::<(), MarkovError<T>>(
                MarkovError::ObservationOutOfRange { observation, observations: old(self).observations },
            ),
            !bad_probability(prob) && state < old(self).emission@.len() && observation < old(self).emission@[state as int]@.len()
                ==> r is Ok,
            r is Err ==> *final(self) == *old(self),
            r is Ok ==> *final(self) == (Hmm { emission: final(self).emission, ..*old(self) }) && rows_view(
                final(self).emission@,
            ) == rows_view(old(self).emission@).update(
                state as int,
                rows_view(old(self).emission@)[state as int].update(observation as int, prob),
            ),
    {
        if !prob.is_finite() || prob.lt(T::zero()) {
            return Err(MarkovError::InvalidProbability { value: prob });
        }
        if state >= self.emission.len() {
            return Err(MarkovError::StateOutOfRange { state, states: self.states });
        }
        if observation >= self.emission[state].len() {
            return Err(MarkovError::ObservationOutOfRange { observation, observations: self.observations });
        }
        set_entry(&mut self.emission, state, observation, prob);
        Ok(())
    }

    /// Sets the probability that `state` emits `observation` (see
    /// [`Self::try_set_emission`]), for a valid probability and an existing entry.
    pub fn set_emission(&mut self, state: usize, observation: usize, prob: T)
        requires
            !bad_probability(prob),
            state < old(self).emission@.len(),
            observation < old(self).emission@[state as int]@.len(),
        ensures
            *final(self) == (Hmm { emission: final(self).emission, ..*old(self) }),
            rows_view(final(self).emission@) == rows_view(old(self).emission@).update(
                state as int,
                rows_view(old(self).emission@)[state as int].update(observation as int, prob),
            ),
    {
        let r = self.try_set_emission(state, observation, prob);
    }

    /// Rescales the initial distribution and every transition and emission row to sum to
    /// one, making those without finite positive mass uniform (see
    /// [`normalized_or_uniform`]).
    pub fn normalize(&mut self)
        ensures
            final(self).states == old(self).states,
            final(self).observations == old(self).observations,
            final(self).initial@ == normalized_or_uniform(old(self).initial@),
            rows_view(final(self).transition@) == Seq::new(
                old(self).transition@.len(),
                |i: int| normalized_or_uniform(rows_view(old(self).transition@)[i]),
            ),
            rows_view(final(self).emission@) == Seq::new(
                old(self).emission@.len(),
                |i: int| normalized_or_uniform(rows_view(old(self).emission@)[i]),
            ),
    {
        self.initial = normalized_or_uniform_exec(&self.initial);
        self.transition = normalize_rows(&self.transition);
        self.emission = normalize_rows(&self.emission);
    }

    /// The hidden chain: the same states and transition matrix.
    pub fn hidden_chain(&self) -> (r: MarkovChain<T>)
        ensures
            r.states == self.states,
            r.matrix() == rows_view(self.transition@),
    {
        let mut transition: Vec<Vec<T>> = Vec::new();
        for i in 0..self.transition.len()
            invariant
                transition@.len() == i,
                forall|t: int| 0 <= t < i ==> (#[trigger] transition@[t])@ == self.transition@[t]@,
        {
            transition.push(copy_row(&self.transition[i]));
        }
        let r = MarkovChain { states: self.states, transition };
        assert(r.matrix() =~= rows_view(self.transition@));
        r
    }

    /// The first symbol out of range (see [`symbol_error`]).
    fn check_observations(&self, observations: &[usize]) -> (r: Option<MarkovError<T>>)
        ensures
            r == symbol_error::<T>(observations@, self.observations, 0),
    {
        for k in 0..observations.len()
            invariant
                symbol_error::<T>(observations@, self.observations, k as int) == symbol_error::<T>(observations@, self.observations, 0),
        {
            if observations[k] >= self.observations {
                return Some(MarkovError::ObservationOutOfRange { observation: observations[k], observations: self.observations });
            }
        }
        None
    }
}

/// The best predecessor is a state (there being states).
proof fn lemma_best_prev_bound<T: Scalar>(delta: Seq<T>, m: Seq<Seq<T>>, j: int, k: int, n: nat)
    requires
        0 < n,
        k <= n,
    ensures
        best_prev(delta, m, j, k).1 < n,
    decreases k,
{
    if k > 0 {
        lemma_best_prev_bound(delta, m, j, k - 1, n);
    }
}

/// The maximizing index is a state (there being states).
proof fn lemma_argmax_bound<T: Scalar>(values: Seq<T>, k: int, n: nat)
    requires
        0 < n,
        k <= n,
    ensures
        argmax_upto(values, k).0 < n,
    decreases k,
{
    if k > 0 {
        lemma_argmax_bound(values, k - 1, n);
    }
}

/// The Viterbi scores cover the `n` states, with `t - 1` rows of back-pointers to states.
proof fn lemma_viterbi_shape<T: Scalar>(h: Hmm<T>, obs: Seq<usize>, n: nat, t: int)
    requires
        0 < n,
        1 <= t,
    ensures
        viterbi_scores(h, obs, n, t).0.len() == n,
        viterbi_scores(h, obs, n, t).1.len() == t - 1,
        forall|s: int| 0 <= s < t - 1 ==> (#[trigger] viterbi_scores(h, obs, n, t).1[s]).len() == n,
        forall|s: int, j: int| 0 <= s < t - 1 && 0 <= j < n ==> #[trigger] viterbi_scores(h, obs, n, t).1[s][j] < n,
    decreases t,
{
    if t > 1 {
        lemma_viterbi_shape(h, obs, n, t - 1);
        let (delta, bp) = viterbi_scores(h, obs, n, t - 1);
        let tr = rows_view(h.transition@);
        assert forall|j: int| 0 <= j < n implies #[trigger] best_prev(delta, tr, j, n as int).1 < n by {
            lemma_best_prev_bound(delta, tr, j, n as int, n);
        }
    }
}

/// The traced path stays among the states.
proof fn lemma_trace_back_bound(bp: Seq<Seq<usize>>, last: usize, steps: int, t: int, n: nat)
    requires
        last < n,
        bp.len() == steps - 1,
        forall|s: int| 0 <= s < steps - 1 ==> (#[trigger] bp[s]).len() == n,
        forall|s: int, j: int| 0 <= s < steps - 1 && 0 <= j < n ==> #[trigger] bp[s][j] < n,
        0 <= t,
    ensures
        trace_back(bp, last, steps, t) < n,
    decreases steps - 1 - t,
{
    if t < steps - 1 {
        lemma_trace_back_bound(bp, last, steps, t + 1, n);
    }
}

/// The log of a probability (see [`log_prob`]).
fn log_prob_exec<T: Scalar>(p: T) -> (r: T)
    ensures
        r == log_prob(p),
{
    if T::zero().lt(p) {
        p.ln()
    } else {
        T::infinity().negate()
    }
}

impl<T: Scalar> Hmm<T> {
    /// The most probable hidden path for `observations` and its log-probability (see
    /// [`viterbi_result`]): a zero-states error, or an observation error for the first symbol
    /// out of range (see [`decode_error`]).
    pub fn try_viterbi_with_log_prob(&self, observations: &[usize]) -> (r: Result<(Vec<usize>, T), MarkovError<T>>)
        ensures
            match decode_error::<T>(self.states, self.observations, observations@) {
                Some(e) => r == Err::<(Vec<usize>, T), MarkovError<T>>(e),
                None => r matches Ok((p, lp)) && (p@, lp) == viterbi_result(*self, observations@),
            },
    {
        if self.states == 0 {
            return Err(MarkovError::ZeroStates);
        }
        match self.check_observations(observations) {
            Some(e) => {
                return Err(e);
            },
            None => {},
        }
        let steps = observations.len();
        if steps == 0 {
            return Ok((Vec::new(), T::zero()));
        }
        let n = self.states;
        let ghost h = *self;
        let ghost obs = observations@;
        let ghost tr = rows_view(self.transition@);
        let ghost em = rows_view(self.emission@);
        let ghost first = viterbi_scores(h, obs, n as nat, 1);
        let mut delta: Vec<T> = Vec::new();
        for i in 0..n
            invariant
                n == self.states,
                steps == obs.len(),
                steps > 0,
                h == *self,
                obs == observations@,
                em == rows_view(self.emission@),
                first == viterbi_scores(h, obs, n as nat, 1),
                delta@ == first.0.take(i as int),
        {
            delta.push(log_prob_exec(self.initial_prob(i)).plus(log_prob_exec(self.emission_prob(i, observations[0]))));
            assert(delta@ =~= first.0.take(i + 1));
        }
        assert(delta@ =~= first.0);
        let mut backpointer: Vec<Vec<usize>> = Vec::new();
        assert(rows_view(backpointer@) =~= first.1);
        for t in 1..steps
            invariant
                n == self.states,
                n > 0,
                steps == obs.len(),
                h == *self,
                obs == observations@,
                tr == rows_view(self.transition@),
                em == rows_view(self.emission@),
                (delta@, rows_view(backpointer@)) == viterbi_scores(h, obs, n as nat, t as int),
                backpointer@.len() == t - 1,
        {
            proof {
                lemma_viterbi_shape(h, obs, n as nat, t as int);
            }
            let symbol = observations[t];
            let ghost prev = delta@;
            let mut next: Vec<T> = Vec::new();
            let mut best_prev_row: Vec<usize> = Vec::new();
            for j in 0..n
                invariant
                    n == self.states,
                    n > 0,
                    prev == delta@,
                    prev.len() == n,
                    tr == rows_view(self.transition@),
                    em == rows_view(self.emission@),
                    next@ == Seq::new(n as nat, |j: int| best_prev(prev, tr, j, n as int).0.plus_spec(log_prob(prob_at(em, j, symbol as int)))).take(j as int),
                    best_prev_row@ == Seq::new(n as nat, |j: int| best_prev(prev, tr, j, n as int).1).take(j as int),
            {
                let mut best = T::infinity().negate();
                let mut arg: usize = 0;
                for i in 0..n
                    invariant
                        n == self.states,
                        prev == delta@,
                        prev.len() == n,
                        tr == rows_view(self.transition@),
                        (best, arg) == best_prev(prev, tr, j as int, i as int),
                {
                    let candidate = delta[i].plus(log_prob_exec(self.transition_prob(i, j)));
                    if best.lt(candidate) {
                        best = candidate;
                        arg = i;
                    }
                }
                next.push(best.plus(log_prob_exec(self.emission_prob(j, symbol))));
                best_prev_row.push(arg);
                assert(next@ =~= Seq::new(n as nat, |j: int| best_prev(prev, tr, j, n as int).0.plus_spec(log_prob(prob_at(em, j, symbol as int)))).take(j + 1));
                assert(best_prev_row@ =~= Seq::new(n as nat, |j: int| best_prev(prev, tr, j, n as int).1).take(j + 1));
            }
            assert(best_prev_row@ =~= Seq::new(n as nat, |j: int| best_prev(prev, tr, j, n as int).1));
            let ghost bp0 = rows_view(backpointer@);
            delta = next;
            backpointer.push(best_prev_row);
            assert(rows_view(backpointer@) =~= bp0.push(Seq::new(n as nat, |j: int| best_prev(prev, tr, j, n as int).1)));
            assert(delta@ =~= Seq::new(n as nat, |j: int| best_prev(prev, tr, j, n as int).0.plus_spec(log_prob(prob_at(em, j, symbol as int)))));
        }
        proof {
            lemma_viterbi_shape(h, obs, n as nat, steps as int);
        }
        let ghost bp = rows_view(backpointer@);
        let mut last: usize = 0;
        let mut lp = T::infinity().negate();
        for i in 0..delta.len()
            invariant
                (last, lp) == argmax_upto(delta@, i as int),
        {
            if lp.lt(delta[i]) {
                lp = delta[i];
                last = i;
            }
        }
        proof {
            lemma_argmax_bound(delta@, delta@.len() as int, n as nat);
        }
        let ghost target = Seq::new(steps as nat, |t: int| trace_back(bp, last, steps as int, t));
        let mut path: Vec<usize> = Vec::new();
        for t in 0..steps
            invariant
                path@ == Seq::new(t as nat, |k: int| 0usize),
        {
            path.push(0);
            assert(path@ =~= Seq::new((t + 1) as nat, |k: int| 0usize));
        }
        let mut state = last;
        path.set(steps - 1, state);
        let mut t = steps - 1;
        while t > 0
            invariant
                n > 0,
                last < n,
                steps == obs.len(),
                t < steps,
                bp == rows_view(backpointer@),
                bp.len() == steps - 1,
                forall|s: int| 0 <= s < steps - 1 ==> (#[trigger] bp[s]).len() == n,
                forall|s: int, j: int| 0 <= s < steps - 1 && 0 <= j < n ==> #[trigger] bp[s][j] < n,
                path@.len() == steps,
                state == trace_back(bp, last, steps as int, t as int),
                forall|k: int| t <= k < steps ==> #[trigger] path@[k] == trace_back(bp, last, steps as int, k),
            decreases t,
        {
            proof {
                lemma_trace_back_bound(bp, last, steps as int, t as int, n as nat);
            }
            assert(bp[t - 1] == backpointer@[t - 1]@);
            state = backpointer[t - 1][state];
            path.set(t - 1, state);
            t = t - 1;
        }
        assert(path@ =~= target);
        Ok((path, lp))
    }

    /// The most probable hidden path (see [`Self::try_viterbi_with_log_prob`]).
    pub fn try_viterbi(&self, observations: &[usize]) -> (r: Result<Vec<usize>, MarkovError<T>>)
        ensures
            match decode_error::<T>(self.states, self.observations, observations@) {
                Some(e) => r == Err::<Vec<usize>, MarkovError<T>>(e),
                None => r matches Ok(p) && p@ == viterbi_result(*self, observations@).0,
            },
    {
        match self.try_viterbi_with_log_prob(observations) {
            Ok((p, _)) => Ok(p),
            Err(e) => Err(e),
        }
    }

    /// The most probable hidden path, for a model with states and symbols in range.
    pub fn viterbi(&self, observations: &[usize]) -> (r: Vec<usize>)
        requires
            decode_error::<T>(self.states, self.observations, observations@) is None,
        ensures
            r@ == viterbi_result(*self, observations@).0,
    {
        match self.try_viterbi_with_log_prob(observations) {
            Ok((p, _)) => p,
            Err(_) => Vec::new(),
        }
    }

    /// The scaled forward pass (see [`forward_result`]): the filtered distribution at each
    /// time and the log-likelihood; a zero-states or observation error as for decoding.
    pub fn forward(&self, observations: &[usize]) -> (r: Result<(Vec<Vec<T>>, T), MarkovError<T>>)
        ensures
            match decode_error::<T>(self.states, self.observations, observations@) {
                Some(e) => r == Err::<(Vec<Vec<T>>, T), MarkovError<T>>(e),
                None => r matches Ok((f, ll)) && (rows_view(f@), ll) == forward_result(*self, observations@),
            },
    {
        if self.states == 0 {
            return Err(MarkovError::ZeroStates);
        }
        match self.check_observations(observations) {
            Some(e) => {
                return Err(e);
            },
            None => {},
        }
        let n = self.states;
        let ghost h = *self;
        let ghost obs = observations@;
        let ghost tr = rows_view(self.transition@);
        let ghost em = rows_view(self.emission@);
        let ghost spec = forward_result(h, obs);
        let mut filtered: Vec<Vec<T>> = Vec::new();
        let mut ll = T::zero();
        let mut alpha: Vec<T> = Vec::new();
        for j in 0..n
            invariant
                alpha@ == Seq::new(j as nat, |k: int| T::zero_spec()),
        {
            alpha.push(T::zero());
            assert(alpha@ =~= Seq::new((j + 1) as nat, |k: int| T::zero_spec()));
        }
        assert(rows_view(filtered@) =~= Seq::<Seq<T>>::empty());
        for t in 0..observations.len()
            invariant
                n == self.states,
                h == *self,
                obs == observations@,
                tr == rows_view(self.transition@),
                em == rows_view(self.emission@),
                spec == forward_result(h, obs),
                decode_error::<T>(self.states, self.observations, observations@) is None,
                forward_run(h, obs, n as nat, t as int, alpha@, rows_view(filtered@), ll) == spec,
                filtered@.len() == t,
        {
            let symbol = observations[t];
            let ghost a = alpha@;
            let ghost next_spec = Seq::new(
                n as nat,
                |j: int|
                    (if t == 0 { at_or_zero(h.initial@, j) } else { predicted_upto(a, tr, j, a.len() as int) }).times_spec(
                        prob_at(em, j, symbol as int),
                    ),
            );
            let mut next: Vec<T> = Vec::new();
            for j in 0..n
                invariant
                    n == self.states,
                    h == *self,
                    a == alpha@,
                    tr == rows_view(self.transition@),
                    em == rows_view(self.emission@),
                    next_spec == Seq::new(
                        n as nat,
                        |j: int|
                            (if t == 0 { at_or_zero(h.initial@, j) } else { predicted_upto(a, tr, j, a.len() as int) }).times_spec(
                                prob_at(em, j, symbol as int),
                            ),
                    ),
                    next@ == next_spec.take(j as int),
            {
                let predicted = if t == 0 {
                    self.initial_prob(j)
                } else {
                    let mut acc = T::zero().negate();
                    for i in 0..alpha.len()
                        invariant
                            a == alpha@,
                            tr == rows_view(self.transition@),
                            acc == predicted_upto(a, tr, j as int, i as int),
                    {
                        acc = acc.plus(alpha[i].times(self.transition_prob(i, j)));
                    }
                    acc
                };
                next.push(predicted.times(self.emission_prob(j, symbol)));
                assert(next@ =~= next_spec.take(j + 1));
            }
            assert(next@ =~= next_spec);
            let scale = sum_exec(next.as_slice());
            if !scale.is_finite() || scale.le(T::zero()) {
                let ghost f0 = rows_view(filtered@);
                assert(forward_run(h, obs, n as nat, t as int, a, f0, ll) == spec);
                let total = observations.len();
                let mut k = t;
                while k < total
                    invariant
                        t <= k <= total,
                        rows_view(filtered@) == f0 + Seq::new((k - t) as nat, |c: int| Seq::new(n as nat, |j: int| T::zero_spec())),
                    decreases total - k,
                {
                    let mut z: Vec<T> = Vec::new();
                    for j in 0..n
                        invariant
                            z@ == Seq::new(j as nat, |c: int| T::zero_spec()),
                    {
                        z.push(T::zero());
                        assert(z@ =~= Seq::new((j + 1) as nat, |c: int| T::zero_spec()));
                    }
                    let ghost before = rows_view(filtered@);
                    filtered.push(z);
                    assert(rows_view(filtered@) =~= before.push(Seq::new(n as nat, |j: int| T::zero_spec())));
                    assert(rows_view(filtered@) =~= f0 + Seq::new((k + 1 - t) as nat, |c: int| Seq::new(n as nat, |j: int| T::zero_spec())));
                    k = k + 1;
                }
                let neg_inf = T::infinity().negate();
                proof {
                    assert(degenerate_total(scale));
                    assert(forward_run(h, obs, n as nat, t as int, a, f0, ll) == (
                        f0 + Seq::new((obs.len() - t) as nat, |c: int| Seq::new(n as nat, |j: int| T::zero_spec())),
                        T::infinity_spec().negate_spec(),
                    ));
                    assert((rows_view(filtered@), neg_inf) == spec);
                }
                return Ok((filtered, neg_inf));
            }
            let mut scaled: Vec<T> = Vec::new();
            for j in 0..n
                invariant
                    next@.len() == n,
                    scaled@ == Seq::new(j as nat, |c: int| next@[c].divide_spec(scale)),
            {
                scaled.push(next[j].divide(scale));
                assert(scaled@ =~= Seq::new((j + 1) as nat, |c: int| next@[c].divide_spec(scale)));
            }
            ll = ll.plus(scale.ln());
            let ghost f0 = rows_view(filtered@);
            filtered.push(copy_row(&scaled));
            assert(rows_view(filtered@) =~= f0.push(scaled@));
            alpha = scaled;
        }
        Ok((filtered, ll))
    }

    /// The log-likelihood of the observations (see [`forward_result`]), for a model with
    /// states and symbols in range.
    pub fn log_likelihood(&self, observations: &[usize]) -> (r: T)
        requires
            decode_error::<T>(self.states, self.observations, observations@) is None,
        ensures
            r == forward_result(*self, observations@).1,
    {
        match self.forward(observations) {
            Ok((_, ll)) => ll,
            Err(_) => T::zero(),
        }
    }

    /// A simulated run of `n` steps: each hidden state drawn from the initial distribution
    /// (falling back to state `0`) or from the previous state's transition row (falling back
    /// to staying), each symbol from the state's emission row (falling back to symbol `0`),
    /// every draw as [`draw_ok`] describes.
    pub fn sample<R: Rng>(&self, rng: &mut R, n: usize) -> (r: (Vec<usize>, Vec<usize>))
        ensures
            r.0@.len() == n,
            r.1@.len() == n,
            n > 0 ==> draw_ok(self.initial@, 0, r.0@[0]),
            forall|t: int| 1 <= t < n ==> draw_ok(state_row(rows_view(self.transition@), #[trigger] r.0@[t - 1]), r.0@[t - 1], r.0@[t]),
            forall|t: int| 0 <= t < n ==> draw_ok(state_row(rows_view(self.emission@), #[trigger] r.0@[t]), 0, r.1@[t]),
    {
        let mut hidden: Vec<usize> = Vec::new();
        let mut observed: Vec<usize> = Vec::new();
        let mut state: usize = 0;
        for t in 0..n
            invariant
                hidden@.len() == t,
                observed@.len() == t,
                t > 0 ==> state == hidden@[t - 1],
                t > 0 ==> draw_ok(self.initial@, 0, hidden@[0]),
                forall|s: int| 1 <= s < t ==> draw_ok(state_row(rows_view(self.transition@), #[trigger] hidden@[s - 1]), hidden@[s - 1], hidden@[s]),
                forall|s: int| 0 <= s < t ==> draw_ok(state_row(rows_view(self.emission@), #[trigger] hidden@[s]), 0, observed@[s]),
        {
            state = if t == 0 {
                draw_or(rng, self.initial.as_slice(), 0)
            } else {
                let row: &[T] = if state < self.transition.len() {
                    self.transition[state].as_slice()
                } else {
                    &[]
                };
                draw_or(rng, row, state)
            };
            let erow: &[T] = if state < self.emission.len() {
                self.emission[state].as_slice()
            } else {
                &[]
            };
            let symbol = draw_or(rng, erow, 0);
            hidden.push(state);
            observed.push(symbol);
        }
        (hidden, observed)
    }
}

} // verus!
