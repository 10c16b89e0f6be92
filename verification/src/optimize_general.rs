//! Smooth unconstrained minimization over a [`Scalar`], driven by the caller's cost,
//! gradient and Hessian closures: steepest descent and nonlinear conjugate gradients with a
//! More-Thuente (strong Wolfe) line search, and Newton's method with the full step.
//!
//! The contracts state what the closures' values cannot change: which inputs are
//! rejected and with which message, that a run stops within its iteration budget, that the
//! reported cost is the cost closure's value at the reported point, and that a run reports
//! convergence exactly when the gradient closure's value there has a norm within the
//! tolerance.
use vstd::prelude::*;

use crate::bayes_special::{decimal, decimal_exec, is_nan};
use crate::linalg_dense::{lu_solution, lu_spec, DMatrix, DVector};
use crate::linalg_fixed::dot_prefix;
use crate::linalg_units::Vec as TaggedVector;
use crate::scalar::{two, two_exec, Scalar};

verus! {

/// The default iteration budget.
pub const DEFAULT_MAX_ITERS: u64 = 100;

/// The default gradient tolerance `10^-9`.
pub open spec fn default_gradient_tolerance<T: Scalar>() -> T {
    decimal::<T>(1, 9)
}

/// Computes [`default_gradient_tolerance`].
pub fn default_gradient_tolerance_exec<T: Scalar>() -> (r: T)
    ensures
        r == default_gradient_tolerance::<T>(),
{
    decimal_exec::<T>(1, 9)
}

/// The knobs of every minimizer.
#[derive(Clone, Copy, Debug, PartialEq)]
pub struct Options<T> {
    /// The cap on iterations.
    pub max_iters: u64,
    /// A run stops as soon as the gradient's L2 norm is at or below this value.
    pub gradient_tolerance: T,
}

impl<T: Scalar> Options<T> {
    /// The given iteration budget and the default tolerance.
    pub fn new(max_iters: u64) -> (r: Self)
        ensures
            r.max_iters == max_iters,
            r.gradient_tolerance == default_gradient_tolerance::<T>(),
    {
        Options { max_iters, gradient_tolerance: default_gradient_tolerance_exec::<T>() }
    }

    /// The same options with the gradient tolerance replaced.
    pub fn with_gradient_tolerance(self, tolerance: T) -> (r: Self)
        ensures
            r.max_iters == self.max_iters,
            r.gradient_tolerance == tolerance,
    {
        Options { max_iters: self.max_iters, gradient_tolerance: tolerance }
    }
}

impl<T: Scalar> Default for Options<T> {
    fn default() -> (r: Self)
        ensures
            r.max_iters == DEFAULT_MAX_ITERS,
            r.gradient_tolerance == default_gradient_tolerance::<T>(),
    {
        Options::new(DEFAULT_MAX_ITERS)
    }
}

/// The outcome of a run.
#[derive(Clone, Debug, PartialEq)]
pub struct Solution<T> {
    /// The point the run ended at.
    pub param: DVector<T>,
    /// The cost at [`Solution::param`].
    pub cost: T,
    /// The iterations performed.
    pub iters: u64,
    /// Whether the run stopped because the gradient tolerance was met.
    pub converged: bool,
    /// Why the run stopped.
    pub termination: String,
}

/// A unit-tagged vector of scalars.
pub type TaggedVec<U, T> = TaggedVector<U, T>;

/// Copies a unit-tagged vector into a raw point.
pub fn point_from_tagged<U, T: Copy>(v: &TaggedVec<U, T>) -> (r: DVector<T>)
    ensures
        r@ == v@,
{
    DVector::from_row_slice(v.raw().iter())
}

/// Tags a raw point with the unit `U`.
pub fn point_to_tagged<U, T>(point: DVector<T>) -> (r: TaggedVec<U, T>)
    ensures
        r@ == point@,
{
    TaggedVector::from_raw(point)
}

// ===========================================================================
// Closures and messages
// ===========================================================================

/// The cost closure can be called at every point.
pub open spec fn cost_callable<T, F: Fn(&DVector<T>) -> T>(cost: F) -> bool {
    forall|p: DVector<T>| #[trigger] cost.requires((&p,))
}

/// The gradient closure can be called at every point and returns a vector of the point's
/// length.
pub open spec fn gradient_callable<T, G: Fn(&DVector<T>) -> DVector<T>>(grad: G) -> bool {
    &&& forall|p: DVector<T>| #[trigger] grad.requires((&p,))
    &&& forall|p: DVector<T>, g: DVector<T>| #[trigger] grad.ensures((&p,), g) ==> g@.len() == p@.len()
}

/// The Hessian closure can be called at every point.
pub open spec fn hessian_callable<T, H: Fn(&DVector<T>) -> DMatrix<T>>(hessian: H) -> bool {
    forall|p: DVector<T>| #[trigger] hessian.requires((&p,))
}

/// The L2 norm of `v`, accumulated in order.
pub open spec fn norm_of<T: Scalar>(v: Seq<T>) -> T {
    dot_prefix(v, v, v.len() as int).sqrt_spec()
}

/// Every element is finite.
pub open spec fn all_finite<T: Scalar>(v: Seq<T>) -> bool {
    forall|i: int| 0 <= i < v.len() ==> (#[trigger] v[i]).is_finite_spec()
}

/// The message for an empty starting point.
pub open spec fn empty_text() -> Seq<char> {
    "initial parameter vector must not be empty"@
}

/// The message for a non-finite starting point.
pub open spec fn not_finite_text() -> Seq<char> {
    "initial parameter vector must be finite"@
}

/// The message for a NaN or negative tolerance.
pub open spec fn tolerance_text() -> Seq<char> {
    "gradient tolerance must be finite and non-negative"@
}

/// The message for a non-finite gradient at the starting point.
pub open spec fn initial_gradient_text() -> Seq<char> {
    "initial gradient is non-finite"@
}

/// The message for a Hessian that gives no Newton step.
pub open spec fn singular_text() -> Seq<char> {
    "singular Hessian (Newton step undefined)"@
}

/// The first problem with the starting point and the tolerance, if any: an empty point, a
/// non-finite element, a NaN or negative tolerance.
pub open spec fn input_error<T: Scalar>(init: Seq<T>, tolerance: T) -> Option<Seq<char>> {
    if init.len() == 0 {
        Some(empty_text())
    } else if !all_finite(init) {
        Some(not_finite_text())
    } else if is_nan(tolerance) || tolerance.lt_spec(T::zero_spec()) {
        Some(tolerance_text())
    } else {
        None
    }
}

/// Checks the starting point and the tolerance (see [`input_error`]).
fn validate<T: Scalar>(init: &DVector<T>, options: &Options<T>) -> (r: Result<(), String>)
    ensures
        match input_error(init@, options.gradient_tolerance) {
            Some(msg) => r matches Err(e) && e@ == msg,
            None => r is Ok,
        },
{
    if init.is_empty() {
        let msg = String::from_str("initial parameter vector must not be empty");
        proof {
            reveal_strlit("initial parameter vector must not be empty");
        }
        return Err(msg);
    }
    let xs = init.iter();
    for i in 0..xs.len()
        invariant
            xs@ == init@,
            forall|j: int| 0 <= j < i ==> (#[trigger] init@[j]).is_finite_spec(),
    {
        if !xs[i].is_finite() {
            let msg = String::from_str("initial parameter vector must be finite");
            proof {
                reveal_strlit("initial parameter vector must be finite");
            }
            return Err(msg);
        }
    }
    let tol = options.gradient_tolerance;
    if !tol.eq(tol) || tol.lt(T::zero()) {
        let msg = String::from_str("gradient tolerance must be finite and non-negative");
        proof {
            reveal_strlit("gradient tolerance must be finite and non-negative");
        }
        return Err(msg);
    }
    Ok(())
}

/// What a finished run reports of the closures: the cost closure's value at the point,
/// convergence exactly when the gradient closure's value there has a norm within the
/// tolerance, and the iterations within the budget, all of them unless converged.
pub open spec fn reports<T: Scalar, F: Fn(&DVector<T>) -> T, G: Fn(&DVector<T>) -> DVector<T>>(
    s: Solution<T>,
    cost: F,
    grad: G,
    init: Seq<T>,
    options: Options<T>,
) -> bool {
    &&& s.param@.len() == init.len()
    &&& cost.ensures((&s.param,), s.cost)
    &&& exists|g: DVector<T>| #[trigger] grad.ensures((&s.param,), g) && (s.converged <==> norm_of(g@).le_spec(options.gradient_tolerance))
    &&& s.iters <= options.max_iters
    &&& !s.converged ==> s.iters == options.max_iters
    &&& s.termination@ == if s.converged {
        "GradientTolerance"@
    } else {
        "MaxIters"@
    }
}

/// The solution at `param` after `iters` iterations.
fn finish<T: Scalar>(param: DVector<T>, cost: T, iters: u64, converged: bool) -> (r: Solution<T>)
    ensures
        r.param == param,
        r.cost == cost,
        r.iters == iters,
        r.converged == converged,
        r.termination@ == if converged {
            "GradientTolerance"@
        } else {
            "MaxIters"@
        },
{
    let termination = if converged {
        let t = String::from_str("GradientTolerance");
        proof {
            reveal_strlit("GradientTolerance");
        }
        t
    } else {
        let t = String::from_str("MaxIters");
        proof {
            reveal_strlit("MaxIters");
        }
        t
    };
    Solution { param, cost, iters, converged, termination }
}

// ===========================================================================
// Line search
// ===========================================================================

/// `x + d a`, componentwise.
pub open spec fn along_seq<T: Scalar>(x: Seq<T>, d: Seq<T>, a: T) -> Seq<T> {
    Seq::new(x.len(), |i: int| x[i].plus_spec(d[i].times_spec(a)))
}

/// Computes [`along_seq`].
fn along<T: Scalar>(x: &DVector<T>, d: &DVector<T>, a: T) -> (r: DVector<T>)
    requires
        d@.len() == x@.len(),
    ensures
        r@ == along_seq(x@, d@, a),
{
    let xc = DVector::from_row_slice(x.iter());
    let dc = DVector::from_row_slice(d.iter());
    let r = core::ops::Add::add(xc, core::ops::Mul::mul(dc, a));
    assert(r@ =~= along_seq(x@, d@, a));
    r
}

/// The directional derivative `g . d` of a gradient `g` along `d`, as `DVector::dot` forms it.
pub open spec fn slope_of<T: Scalar>(g: Seq<T>, d: Seq<T>) -> T {
    dot_prefix(g, d, if g.len() <= d.len() { g.len() as int } else { d.len() as int })
}

/// The cost closure can give `v` at the point `x + d a`.
pub open spec fn cost_along<T: Scalar, F: Fn(&DVector<T>) -> T>(cost: F, x: Seq<T>, d: Seq<T>, a: T, v: T) -> bool {
    exists|p: DVector<T>| #[trigger] cost.ensures((&p,), v) && p@ == along_seq(x, d, a)
}

/// The gradient closure can give, at the point `x`, a gradient whose slope along `d` is `s`.
pub open spec fn slope_at<T: Scalar, G: Fn(&DVector<T>) -> DVector<T>>(grad: G, x: DVector<T>, d: Seq<T>, s: T) -> bool {
    exists|g: DVector<T>| #[trigger] grad.ensures((&x,), g) && s == slope_of(g@, d)
}

/// The gradient closure can give, at the point `x + d a`, a gradient whose slope along `d`
/// is `s`.
pub open spec fn slope_along<T: Scalar, G: Fn(&DVector<T>) -> DVector<T>>(grad: G, x: Seq<T>, d: Seq<T>, a: T, s: T) -> bool {
    exists|p: DVector<T>, g: DVector<T>| #[trigger] grad.ensures((&p,), g) && p@ == along_seq(x, d, a) && s == slope_of(g@, d)
}

/// The sign of `x` as `f64::signum` gives it: NaN (`x` itself) for NaN, minus one for
/// negative numbers and negative zero, one otherwise.
pub open spec fn signum_spec<T: Scalar>(x: T) -> T {
    if !x.eq_spec(x) {
        x
    } else if x.lt_spec(T::zero_spec()) || (x.eq_spec(T::zero_spec()) && T::one_spec().divide_spec(x).lt_spec(T::zero_spec())) {
        T::one_spec().negate_spec()
    } else {
        T::one_spec()
    }
}

/// Computes [`signum_spec`].
fn signum<T: Scalar>(x: T) -> (r: T)
    ensures
        r == signum_spec(x),
{
    if !x.eq(x) {
        return x;
    }
    if x.lt(T::zero()) || (x.eq(T::zero()) && T::one().divide(x).lt(T::zero())) {
        T::one().negate()
    } else {
        T::one()
    }
}

/// The minimizer of the cubic interpolating `phi` and `dphi` at `al` and `ah` (the
/// midpoint when the cubic has no real minimizer or its denominator is below `10^-300`).
pub open spec fn cubic_min_spec<T: Scalar>(al: T, phi_al: T, dphi_al: T, ah: T, phi_ah: T, dphi_ah: T) -> T {
    let mid = decimal::<T>(5, 1).times_spec(al.plus_spec(ah));
    let d1 = dphi_al.plus_spec(dphi_ah).minus_spec(
        T::from_int_spec(3).times_spec(phi_al.minus_spec(phi_ah)).divide_spec(al.minus_spec(ah)),
    );
    let d2_sq = d1.times_spec(d1).minus_spec(dphi_al.times_spec(dphi_ah));
    let d2 = signum_spec(ah.minus_spec(al)).times_spec(d2_sq.sqrt_spec());
    let denom = dphi_ah.minus_spec(dphi_al).plus_spec(two::<T>().times_spec(d2));
    if d2_sq.lt_spec(T::zero_spec()) {
        mid
    } else if denom.abs_spec().lt_spec(decimal::<T>(1, 300)) {
        mid
    } else {
        ah.minus_spec(ah.minus_spec(al).times_spec(dphi_ah.plus_spec(d2).minus_spec(d1)).divide_spec(denom))
    }
}

/// Computes [`cubic_min_spec`].
fn cubic_min<T: Scalar>(al: T, phi_al: T, dphi_al: T, ah: T, phi_ah: T, dphi_ah: T) -> (r: T)
    ensures
        r == cubic_min_spec(al, phi_al, dphi_al, ah, phi_ah, dphi_ah),
{
    let h = decimal_exec::<T>(5, 1);
    let d1 = dphi_al.plus(dphi_ah).minus(T::from_int(3).times(phi_al.minus(phi_ah)).divide(al.minus(ah)));
    let d2_sq = d1.times(d1).minus(dphi_al.times(dphi_ah));
    if d2_sq.lt(T::zero()) {
        return h.times(al.plus(ah));
    }
    let d2 = signum(ah.minus(al)).times(d2_sq.sqrt());
    let denom = dphi_ah.minus(dphi_al).plus(two_exec::<T>().times(d2));
    if denom.abs().lt(decimal_exec::<T>(1, 300)) {
        return h.times(al.plus(ah));
    }
    ah.minus(ah.minus(al).times(dphi_ah.plus(d2).minus(d1)).divide(denom))
}

/// A zoom state: the bracket `(a_lo, a_hi)`, the cost and the slope at `a_lo`, and the cost
/// at `a_hi`.
pub type ZoomState<T> = (T, T, T, T, T);

/// What one zoom iteration observes through the closures: the slope at `a_hi`, the cost at
/// the candidate, the cost at `x`, and the slope at the candidate (looked at only when the
/// candidate gives sufficient decrease below the cost at `a_lo`).
pub type ZoomObservation<T> = (T, T, T, T);

/// The midpoint of the bracket.
pub open spec fn bracket_mid<T: Scalar>(st: ZoomState<T>) -> T {
    decimal::<T>(5, 1).times_spec(st.0.plus_spec(st.1))
}

/// The candidate of a zoom iteration: the cubic minimizer of the bracket (see
/// [`cubic_min_spec`]), or the midpoint when that is not strictly inside.
pub open spec fn zoom_candidate<T: Scalar>(st: ZoomState<T>, dphi_hi: T) -> T {
    let a = cubic_min_spec(st.0, st.2, st.3, st.1, st.4, dphi_hi);
    if a.le_spec(st.0) || st.1.le_spec(a) {
        bracket_mid(st)
    } else {
        a
    }
}

/// The candidate `a` fails sufficient decrease (`10^-4`) or is no lower than `a_lo`.
pub open spec fn zoom_shrinks_high<T: Scalar>(st: ZoomState<T>, dphi0: T, ob: ZoomObservation<T>, a: T) -> bool {
    ob.2.plus_spec(decimal::<T>(1, 4).times_spec(a).times_spec(dphi0)).lt_spec(ob.1) || st.2.le_spec(ob.1)
}

/// The state after a zoom iteration at candidate `a`, and whether the strong curvature
/// condition (`1/10`) holds there: the candidate becomes `a_hi`, or it becomes `a_lo` (the
/// old `a_lo` becoming `a_hi` when the slope points out of the bracket).
pub open spec fn zoom_next<T: Scalar>(st: ZoomState<T>, dphi0: T, ob: ZoomObservation<T>, a: T) -> (ZoomState<T>, bool) {
    if zoom_shrinks_high(st, dphi0, ob, a) {
        ((st.0, a, st.2, st.3, ob.1), false)
    } else {
        let dphi_a = ob.3;
        let flip = T::zero_spec().le_spec(dphi_a.times_spec(st.1.minus_spec(st.0)));
        (
            (a, if flip { st.0 } else { st.1 }, ob.1, dphi_a, if flip { st.2 } else { st.4 }),
            dphi_a.abs_spec().le_spec(decimal::<T>(1, 1).negate_spec().times_spec(dphi0)),
        )
    }
}

/// The bracket has closed to within `10^-12 (1 + |a_hi|)`.
pub open spec fn bracket_closed<T: Scalar>(st: ZoomState<T>) -> bool {
    st.1.minus_spec(st.0).abs_spec().le_spec(decimal::<T>(1, 12).times_spec(T::one_spec().plus_spec(st.1.abs_spec())))
}

/// The observation is one that the closures can give in a zoom iteration at candidate `a`.
pub open spec fn zoom_observed<T: Scalar, F: Fn(&DVector<T>) -> T, G: Fn(&DVector<T>) -> DVector<T>>(
    cost: F,
    grad: G,
    x: DVector<T>,
    d: Seq<T>,
    dphi0: T,
    st: ZoomState<T>,
    ob: ZoomObservation<T>,
    a: T,
) -> bool {
    &&& slope_along(grad, x@, d, st.1, ob.0)
    &&& cost_along(cost, x@, d, a, ob.1)
    &&& cost.ensures((&x,), ob.2)
    &&& zoom_shrinks_high(st, dphi0, ob, a) || slope_along(grad, x@, d, a, ob.3)
}

/// The step length that the zoom phase returns from state `st` with `left` iterations to go,
/// given what the closures give in its iterations (`None` when the observations do not fit
/// a run): each iteration moves to the next state (see [`zoom_next`]) and returns its
/// candidate once the curvature condition holds or the bracket has closed; after the last
/// iteration the midpoint of the bracket.
pub open spec fn zoom_outcome<T: Scalar, F: Fn(&DVector<T>) -> T, G: Fn(&DVector<T>) -> DVector<T>>(
    cost: F,
    grad: G,
    x: DVector<T>,
    d: Seq<T>,
    dphi0: T,
    st: ZoomState<T>,
    obs: Seq<ZoomObservation<T>>,
    left: nat,
) -> Option<T>
    decreases left,
{
    if left == 0 {
        if obs.len() == 0 {
            Some(bracket_mid(st))
        } else {
            None
        }
    } else if obs.len() == 0 {
        None
    } else {
        let ob = obs[0];
        let a = zoom_candidate(st, ob.0);
        if !zoom_observed(cost, grad, x, d, dphi0, st, ob, a) {
            None
        } else {
            let (st1, stop) = zoom_next(st, dphi0, ob, a);
            if stop || bracket_closed(st1) {
                if obs.len() == 1 {
                    Some(a)
                } else {
                    None
                }
            } else {
                zoom_outcome(cost, grad, x, d, dphi0, st1, obs.drop_first(), (left - 1) as nat)
            }
        }
    }
}

/// One zoom iteration unfolded.
proof fn lemma_zoom_unfold<T: Scalar, F: Fn(&DVector<T>) -> T, G: Fn(&DVector<T>) -> DVector<T>>(
    cost: F,
    grad: G,
    x: DVector<T>,
    d: Seq<T>,
    dphi0: T,
    st: ZoomState<T>,
    ob: ZoomObservation<T>,
    rest: Seq<ZoomObservation<T>>,
    left: nat,
)
    requires
        left > 0,
        zoom_observed(cost, grad, x, d, dphi0, st, ob, zoom_candidate(st, ob.0)),
    ensures
        ({
            let a = zoom_candidate(st, ob.0);
            let (st1, stop) = zoom_next(st, dphi0, ob, a);
            zoom_outcome(cost, grad, x, d, dphi0, st, seq![ob] + rest, left) == if stop || bracket_closed(st1) {
                if rest.len() == 0 {
                    Some(a)
                } else {
                    None
                }
            } else {
                zoom_outcome(cost, grad, x, d, dphi0, st1, rest, (left - 1) as nat)
            }
        }),
{
    assert((seq![ob] + rest).drop_first() =~= rest);
    assert((seq![ob] + rest)[0] == ob);
}

/// The zoom phase: narrows `[a_lo, a_hi]` by cubic interpolation, at most 40 times, until
/// the strong Wolfe conditions hold (see [`zoom_outcome`]; the slope at `x` is taken once,
/// first).
fn zoom<T: Scalar, F: Fn(&DVector<T>) -> T, G: Fn(&DVector<T>) -> DVector<T>>(
    cost: &F,
    grad: &G,
    x: &DVector<T>,
    d: &DVector<T>,
    a_lo0: T,
    a_hi0: T,
    phi_lo0: T,
    dphi_lo0: T,
    phi_hi0: T,
) -> (r: T)
    requires
        cost_callable::<T, F>(*cost),
        gradient_callable::<T, G>(*grad),
        d@.len() == x@.len(),
    ensures
        zoom_gives(*cost, *grad, *x, d@, (a_lo0, a_hi0, phi_lo0, dphi_lo0, phi_hi0), r),
{
    let c1 = decimal_exec::<T>(1, 4);
    let c2 = decimal_exec::<T>(1, 1);
    let h = decimal_exec::<T>(5, 1);
    let mut a_lo = a_lo0;
    let mut a_hi = a_hi0;
    let mut phi_lo = phi_lo0;
    let mut dphi_lo = dphi_lo0;
    let mut phi_hi = phi_hi0;
    let g0 = grad(x);
    let dphi0 = g0.dot(d);
    assert(slope_at(*grad, *x, d@, dphi0));
    let ghost st0: ZoomState<T> = (a_lo0, a_hi0, phi_lo0, dphi_lo0, phi_hi0);
    let ghost mut done: Seq<ZoomObservation<T>> = Seq::empty();
    assert forall|rest: Seq<ZoomObservation<T>>| #[trigger]
        zoom_outcome(*cost, *grad, *x, d@, dphi0, st0, done + rest, 40) == zoom_outcome(
            *cost,
            *grad,
            *x,
            d@,
            dphi0,
            (a_lo, a_hi, phi_lo, dphi_lo, phi_hi),
            rest,
            40,
        ) by {
        assert(done + rest =~= rest);
    }
    for i in 0..40usize
        invariant
            cost_callable::<T, F>(*cost),
            gradient_callable::<T, G>(*grad),
            d@.len() == x@.len(),
            c1 == decimal::<T>(1, 4),
            c2 == decimal::<T>(1, 1),
            h == decimal::<T>(5, 1),
            slope_at(*grad, *x, d@, dphi0),
            st0 == (a_lo0, a_hi0, phi_lo0, dphi_lo0, phi_hi0),
            forall|rest: Seq<ZoomObservation<T>>| #[trigger]
                zoom_outcome(*cost, *grad, *x, d@, dphi0, st0, done + rest, 40) == zoom_outcome(
                    *cost,
                    *grad,
                    *x,
                    d@,
                    dphi0,
                    (a_lo, a_hi, phi_lo, dphi_lo, phi_hi),
                    rest,
                    (40 - i) as nat,
                ),
    {
        let ghost st: ZoomState<T> = (a_lo, a_hi, phi_lo, dphi_lo, phi_hi);
        let x_hi = along(x, d, a_hi);
        let g_hi = grad(&x_hi);
        let dphi_hi = g_hi.dot(d);
        assert(slope_along(*grad, x@, d@, a_hi, dphi_hi));
        let mut a = cubic_min(a_lo, phi_lo, dphi_lo, a_hi, phi_hi, dphi_hi);
        if a.le(a_lo) || a_hi.le(a) {
            a = h.times(a_lo.plus(a_hi));
        }
        assert(a == zoom_candidate(st, dphi_hi));
        let xa = along(x, d, a);
        let phi_a = cost(&xa);
        assert(cost_along(*cost, x@, d@, a, phi_a));
        let cx = cost(x);
        let ghost mut dphi_a_g: T = dphi_hi;
        let shrink = cx.plus(c1.times(a).times(dphi0)).lt(phi_a) || phi_lo.le(phi_a);
        let mut stop = false;
        if shrink {
            a_hi = a;
            phi_hi = phi_a;
        } else {
            let g_a = grad(&xa);
            let dphi_a = g_a.dot(d);
            assert(slope_along(*grad, x@, d@, a, dphi_a));
            proof {
                dphi_a_g = dphi_a;
            }
            if T::zero().le(dphi_a.times(a_hi.minus(a_lo))) {
                a_hi = a_lo;
                phi_hi = phi_lo;
            }
            a_lo = a;
            phi_lo = phi_a;
            dphi_lo = dphi_a;
            stop = dphi_a.abs().le(c2.negate().times(dphi0));
        }
        let ghost ob: ZoomObservation<T> = (dphi_hi, phi_a, cx, dphi_a_g);
        assert(zoom_observed(*cost, *grad, *x, d@, dphi0, st, ob, a));
        assert(zoom_next(st, dphi0, ob, a) == ((a_lo, a_hi, phi_lo, dphi_lo, phi_hi), stop));
        let closed = a_hi.minus(a_lo).abs().le(decimal_exec::<T>(1, 12).times(T::one().plus(a_hi.abs())));
        proof {
            assert forall|rest: Seq<ZoomObservation<T>>| #[trigger]
                zoom_outcome(*cost, *grad, *x, d@, dphi0, st0, done.push(ob) + rest, 40) == (if stop || closed {
                    if rest.len() == 0 {
                        Some(a)
                    } else {
                        None
                    }
                } else {
                    zoom_outcome(
                        *cost,
                        *grad,
                        *x,
                        d@,
                        dphi0,
                        (a_lo, a_hi, phi_lo, dphi_lo, phi_hi),
                        rest,
                        (40 - i - 1) as nat,
                    )
                }) by {
                assert(done.push(ob) + rest =~= done + (seq![ob] + rest));
                lemma_zoom_unfold(*cost, *grad, *x, d@, dphi0, st, ob, rest, (40 - i) as nat);
            }
            done = done.push(ob);
        }
        if stop || closed {
            proof {
                assert(done + Seq::<ZoomObservation<T>>::empty() =~= done);
                assert(zoom_outcome(*cost, *grad, *x, d@, dphi0, st0, done + Seq::<ZoomObservation<T>>::empty(), 40)
                    == Some(a));
                assert(zoom_outcome(*cost, *grad, *x, d@, dphi0, st0, done, 40) == Some(a));
                assert(st0 == (a_lo0, a_hi0, phi_lo0, dphi_lo0, phi_hi0));
                assert(zoom_gives(*cost, *grad, *x, d@, st0, a));
            }
            return a;
        }
    }
    let r = h.times(a_lo.plus(a_hi));
    proof {
        assert(done + Seq::<ZoomObservation<T>>::empty() =~= done);
        assert(zoom_outcome(*cost, *grad, *x, d@, dphi0, st0, done + Seq::<ZoomObservation<T>>::empty(), 40) == Some(r));
    }
    r
}

/// `r` is a step length that the zoom phase can return from state `st`: for some slope at
/// `x` and some observations of its iterations (see [`zoom_outcome`]).
pub open spec fn zoom_gives<T: Scalar, F: Fn(&DVector<T>) -> T, G: Fn(&DVector<T>) -> DVector<T>>(
    cost: F,
    grad: G,
    x: DVector<T>,
    d: Seq<T>,
    st: ZoomState<T>,
    r: T,
) -> bool {
    exists|dphi0: T, obs: Seq<ZoomObservation<T>>|
        #![trigger zoom_outcome(cost, grad, x, d, dphi0, st, obs, 40)]
        slope_at(grad, x, d, dphi0) && zoom_outcome(cost, grad, x, d, dphi0, st, obs, 40) == Some(r)
}

/// A line-search state: the last trial `a_lo` that was neither accepted nor bracketed, its
/// cost and slope, and the next trial step.
pub type SearchState<T> = (T, T, T, T);

/// The trial at step `a` brackets a minimizer by cost: it fails sufficient decrease
/// (`10^-4`) from `phi0`, or (past the first trial) it is no lower than `a_lo`.
pub open spec fn search_brackets<T: Scalar>(st: SearchState<T>, dphi0: T, phi0: T, phi_a: T) -> bool {
    phi0.plus_spec(decimal::<T>(1, 4).times_spec(st.3).times_spec(dphi0)).lt_spec(phi_a) || (!st.0.eq_spec(
        T::zero_spec(),
    ) && st.1.le_spec(phi_a))
}

/// `r` is a step length that the expansion phase can return from state `st` with `left`
/// trials to go, for the observations `obs` of the cost and the slope at each trial: a trial
/// that brackets by cost goes to the zoom phase between `a_lo` and the trial; one meeting
/// the strong curvature condition (`1/10`) is returned; one with a non-negative slope goes
/// to the zoom phase between the trial and `a_lo`; otherwise the trial step doubles. After
/// the last trial, the next trial step.
pub open spec fn search_gives<T: Scalar, F: Fn(&DVector<T>) -> T, G: Fn(&DVector<T>) -> DVector<T>>(
    cost: F,
    grad: G,
    x: DVector<T>,
    d: Seq<T>,
    dphi0: T,
    phi0: T,
    st: SearchState<T>,
    obs: Seq<(T, T)>,
    left: nat,
    r: T,
) -> bool
    decreases left,
{
    if left == 0 {
        obs.len() == 0 && r == st.3
    } else if obs.len() == 0 {
        false
    } else {
        let (phi_a, dphi_a) = obs[0];
        let a = st.3;
        &&& cost_along(cost, x@, d, a, phi_a)
        &&& if search_brackets(st, dphi0, phi0, phi_a) {
            obs.len() == 1 && zoom_gives(cost, grad, x, d, (st.0, a, st.1, st.2, phi_a), r)
        } else {
            &&& slope_along(grad, x@, d, a, dphi_a)
            &&& if dphi_a.abs_spec().le_spec(decimal::<T>(1, 1).negate_spec().times_spec(dphi0)) {
                obs.len() == 1 && r == a
            } else if T::zero_spec().le_spec(dphi_a) {
                obs.len() == 1 && zoom_gives(cost, grad, x, d, (a, st.0, phi_a, dphi_a, st.1), r)
            } else {
                search_gives(
                    cost,
                    grad,
                    x,
                    d,
                    dphi0,
                    phi0,
                    (a, phi_a, dphi_a, a.times_spec(two::<T>())),
                    obs.drop_first(),
                    (left - 1) as nat,
                    r,
                )
            }
        }
    }
}

/// One expansion trial unfolded.
proof fn lemma_search_unfold<T: Scalar, F: Fn(&DVector<T>) -> T, G: Fn(&DVector<T>) -> DVector<T>>(
    cost: F,
    grad: G,
    x: DVector<T>,
    d: Seq<T>,
    dphi0: T,
    phi0: T,
    st: SearchState<T>,
    ob: (T, T),
    rest: Seq<(T, T)>,
    left: nat,
    r: T,
)
    requires
        left > 0,
        cost_along(cost, x@, d, st.3, ob.0),
        !search_brackets(st, dphi0, phi0, ob.0),
        slope_along(grad, x@, d, st.3, ob.1),
        !ob.1.abs_spec().le_spec(decimal::<T>(1, 1).negate_spec().times_spec(dphi0)),
        !T::zero_spec().le_spec(ob.1),
    ensures
        search_gives(cost, grad, x, d, dphi0, phi0, st, seq![ob] + rest, left, r) == search_gives(
            cost,
            grad,
            x,
            d,
            dphi0,
            phi0,
            (st.3, ob.0, ob.1, st.3.times_spec(two::<T>())),
            rest,
            (left - 1) as nat,
            r,
        ),
{
    assert((seq![ob] + rest).drop_first() =~= rest);
    assert((seq![ob] + rest)[0] == ob);
}

/// The More-Thuente line search along `d` from `x`: zero unless `d` is a descent direction
/// (the slope at `x` is negative), else a step length meeting the strong Wolfe conditions
/// (sufficient decrease `10^-4`, curvature `1/10`), doubling the trial step from one at most
/// 40 times before zooming (see [`search_gives`]).
fn line_search<T: Scalar, F: Fn(&DVector<T>) -> T, G: Fn(&DVector<T>) -> DVector<T>>(
    cost: &F,
    grad: &G,
    x: &DVector<T>,
    d: &DVector<T>,
) -> (r: T)
    requires
        cost_callable::<T, F>(*cost),
        gradient_callable::<T, G>(*grad),
        d@.len() == x@.len(),
    ensures
        exists|dphi0: T|
            #![trigger slope_at(*grad, *x, d@, dphi0)]
            slope_at(*grad, *x, d@, dphi0) && (T::zero_spec().le_spec(dphi0) ==> r == T::zero_spec()) && (
            !T::zero_spec().le_spec(dphi0) ==> exists|phi0: T, obs: Seq<(T, T)>|
                #![trigger search_gives(*cost, *grad, *x, d@, dphi0, phi0, (T::zero_spec(), phi0, dphi0, T::one_spec()), obs, 40, r)]
                cost.ensures((x,), phi0) && search_gives(
                    *cost,
                    *grad,
                    *x,
                    d@,
                    dphi0,
                    phi0,
                    (T::zero_spec(), phi0, dphi0, T::one_spec()),
                    obs,
                    40,
                    r,
                )),
{
    let c1 = decimal_exec::<T>(1, 4);
    let c2 = decimal_exec::<T>(1, 1);
    let g0 = grad(x);
    let dphi0 = g0.dot(d);
    assert(slope_at(*grad, *x, d@, dphi0));
    if T::zero().le(dphi0) {
        return T::zero();
    }
    let phi0 = cost(x);
    let mut a_lo = T::zero();
    let mut phi_lo = phi0;
    let mut dphi_lo = dphi0;
    let mut a = T::one();
    let ghost st0: SearchState<T> = (T::zero_spec(), phi0, dphi0, T::one_spec());
    let ghost mut done: Seq<(T, T)> = Seq::empty();
    assert forall|rest: Seq<(T, T)>, r: T| #[trigger]
        search_gives(*cost, *grad, *x, d@, dphi0, phi0, st0, done + rest, 40, r) == search_gives(
            *cost,
            *grad,
            *x,
            d@,
            dphi0,
            phi0,
            (a_lo, phi_lo, dphi_lo, a),
            rest,
            40,
            r,
        ) by {
        assert(done + rest =~= rest);
    }
    for i in 0..40usize
        invariant
            cost_callable::<T, F>(*cost),
            gradient_callable::<T, G>(*grad),
            d@.len() == x@.len(),
            c1 == decimal::<T>(1, 4),
            c2 == decimal::<T>(1, 1),
            slope_at(*grad, *x, d@, dphi0),
            !T::zero_spec().le_spec(dphi0),
            cost.ensures((x,), phi0),
            st0 == (T::zero_spec(), phi0, dphi0, T::one_spec()),
            forall|rest: Seq<(T, T)>, r: T| #[trigger]
                search_gives(*cost, *grad, *x, d@, dphi0, phi0, st0, done + rest, 40, r) == search_gives(
                    *cost,
                    *grad,
                    *x,
                    d@,
                    dphi0,
                    phi0,
                    (a_lo, phi_lo, dphi_lo, a),
                    rest,
                    (40 - i) as nat,
                    r,
                ),
    {
        let ghost st: SearchState<T> = (a_lo, phi_lo, dphi_lo, a);
        let xa = along(x, d, a);
        let phi_a = cost(&xa);
        assert(cost_along(*cost, x@, d@, a, phi_a));
        let a_hi = a;
        if phi0.plus(c1.times(a).times(dphi0)).lt(phi_a) || (!a_lo.eq(T::zero()) && phi_lo.le(phi_a)) {
            let r = zoom(cost, grad, x, d, a_lo, a_hi, phi_lo, dphi_lo, phi_a);
            proof {
                let ob = (phi_a, phi_a);
                assert(search_brackets(st, dphi0, phi0, phi_a));
                assert((done + seq![ob])[done.len() as int] == ob);
                assert(search_gives(*cost, *grad, *x, d@, dphi0, phi0, st, seq![ob], (40 - i) as nat, r));
                assert(search_gives(*cost, *grad, *x, d@, dphi0, phi0, st0, done + seq![ob], 40, r));
            }
            return r;
        }
        let g_a = grad(&xa);
        let dphi_a = g_a.dot(d);
        assert(slope_along(*grad, x@, d@, a, dphi_a));
        let ghost ob = (phi_a, dphi_a);
        if dphi_a.abs().le(c2.negate().times(dphi0)) {
            proof {
                assert(search_gives(*cost, *grad, *x, d@, dphi0, phi0, st, seq![ob], (40 - i) as nat, a));
                assert(search_gives(*cost, *grad, *x, d@, dphi0, phi0, st0, done + seq![ob], 40, a));
            }
            return a;
        }
        if T::zero().le(dphi_a) {
            let r = zoom(cost, grad, x, d, a, a_lo, phi_a, dphi_a, phi_lo);
            proof {
                assert(search_gives(*cost, *grad, *x, d@, dphi0, phi0, st, seq![ob], (40 - i) as nat, r));
                assert(search_gives(*cost, *grad, *x, d@, dphi0, phi0, st0, done + seq![ob], 40, r));
            }
            return r;
        }
        a_lo = a;
        phi_lo = phi_a;
        dphi_lo = dphi_a;
        a = a.times(two_exec::<T>());
        proof {
            assert forall|rest: Seq<(T, T)>, r: T| #[trigger]
                search_gives(*cost, *grad, *x, d@, dphi0, phi0, st0, done.push(ob) + rest, 40, r) == search_gives(
                    *cost,
                    *grad,
                    *x,
                    d@,
                    dphi0,
                    phi0,
                    (a_lo, phi_lo, dphi_lo, a),
                    rest,
                    (40 - i - 1) as nat,
                    r,
                ) by {
                assert(done.push(ob) + rest =~= done + (seq![ob] + rest));
                lemma_search_unfold(*cost, *grad, *x, d@, dphi0, phi0, st, ob, rest, (40 - i) as nat, r);
            }
            done = done.push(ob);
        }
    }
    proof {
        assert(done + Seq::<(T, T)>::empty() =~= done);
        assert(search_gives(*cost, *grad, *x, d@, dphi0, phi0, st0, done + Seq::<(T, T)>::empty(), 40, a));
    }
    a
}

// ===========================================================================
// The minimizers
// ===========================================================================

/// The starting state: the point, the gradient closure's value there (an error unless
/// finite) and the cost closure's value there.
fn start<T: Scalar, F: Fn(&DVector<T>) -> T, G: Fn(&DVector<T>) -> DVector<T>>(
    cost: &F,
    grad: &G,
    init: &DVector<T>,
    options: &Options<T>,
) -> (r: Result<(DVector<T>, T), String>)
    requires
        cost_callable::<T, F>(*cost),
        gradient_callable::<T, G>(*grad),
    ensures
        match input_error(init@, options.gradient_tolerance) {
            Some(msg) => r matches Err(e) && e@ == msg,
            None => match r {
                Ok((g, c)) => grad.ensures((init,), g) && all_finite(g@) && cost.ensures((init,), c),
                Err(e) => e@ == initial_gradient_text() && exists|g: DVector<T>| #[trigger] grad.ensures((init,), g)
                    && !all_finite(g@),
            },
        },
{
    match validate(init, options) {
        Err(e) => {
            return Err(e);
        },
        Ok(()) => {},
    }
    let g = grad(init);
    let gs = g.iter();
    for i in 0..gs.len()
        invariant
            gs@ == g@,
            forall|j: int| 0 <= j < i ==> (#[trigger] g@[j]).is_finite_spec(),
            grad.ensures((init,), g),
            input_error(init@, options.gradient_tolerance) is None,
    {
        if !gs[i].is_finite() {
            let msg = String::from_str("initial gradient is non-finite");
            proof {
                reveal_strlit("initial gradient is non-finite");
                assert(!g@[i as int].is_finite_spec());
                assert(grad.ensures((init,), g) && !all_finite(g@));
            }
            return Err(msg);
        }
    }
    let c = cost(init);
    Ok((g, c))
}

/// Minimizes by steepest descent with the line search, reporting a [`Solution`] (see
/// [`reports`]); an input error (see [`input_error`]) or a non-finite initial gradient is
/// reported as its message.
pub fn minimize_gradient_descent_with<T: Scalar, F: Fn(&DVector<T>) -> T, G: Fn(&DVector<T>) -> DVector<T>>(
    cost: F,
    grad: G,
    init: DVector<T>,
    options: &Options<T>,
) -> (r: Result<Solution<T>, String>)
    requires
        cost_callable::<T, F>(cost),
        gradient_callable::<T, G>(grad),
    ensures
        match input_error(init@, options.gradient_tolerance) {
            Some(msg) => r matches Err(e) && e@ == msg,
            None => match r {
                Ok(s) => reports(s, cost, grad, init@, *options),
                Err(e) => e@ == initial_gradient_text(),
            },
        },
{
    let (mut g, mut c) = match start(&cost, &grad, &init, options) {
        Err(e) => {
            return Err(e);
        },
        Ok(state) => state,
    };
    let n = init.len();
    let mut param = init;
    let mut iters: u64 = 0;
    loop
        invariant
            cost_callable::<T, F>(cost),
            gradient_callable::<T, G>(grad),
            input_error(init@, options.gradient_tolerance) is None,
            n == init@.len(),
            param@.len() == n,
            grad.ensures((&param,), g),
            cost.ensures((&param,), c),
            iters <= options.max_iters,
        decreases options.max_iters - iters,
    {
        let gn = g.norm();
        if gn.le(options.gradient_tolerance) {
            return Ok(finish(param, c, iters, true));
        }
        if iters >= options.max_iters {
            return Ok(finish(param, c, iters, false));
        }
        let dir = core::ops::Neg::neg(DVector::from_row_slice(g.iter()));
        let alpha = line_search(&cost, &grad, &param, &dir);
        let next = core::ops::Add::add(DVector::from_row_slice(param.iter()), core::ops::Mul::mul(dir, alpha));
        param = next;
        g = grad(&param);
        c = cost(&param);
        iters = iters + 1;
    }
}

/// Minimizes by steepest descent (see [`minimize_gradient_descent_with`]) with the default
/// tolerance and the budget `max_iters`, returning the final point.
pub fn minimize_gradient_descent<T: Scalar, F: Fn(&DVector<T>) -> T, G: Fn(&DVector<T>) -> DVector<T>>(
    cost: F,
    grad: G,
    init: DVector<T>,
    max_iters: u64,
) -> (r: Result<DVector<T>, String>)
    requires
        cost_callable::<T, F>(cost),
        gradient_callable::<T, G>(grad),
    ensures
        match input_error(init@, default_gradient_tolerance::<T>()) {
            Some(msg) => r matches Err(e) && e@ == msg,
            None => match r {
                Ok(p) => exists|s: Solution<T>|
                    s.param == p && #[trigger] reports(s, cost, grad, init@, Options { max_iters, gradient_tolerance: default_gradient_tolerance::<T>() }),
                Err(e) => e@ == initial_gradient_text(),
            },
        },
{
    let options = Options::new(max_iters);
    match minimize_gradient_descent_with(cost, grad, init, &options) {
        Ok(s) => Ok(s.param),
        Err(e) => Err(e),
    }
}

/// The conjugate-gradient direction: steepest descent at the first iteration, on a
/// restart (every ten iterations, or when the gradient is far from orthogonal to the
/// previous one) and whenever the candidate is not a descent direction; otherwise
/// `-g + beta d_prev` with the Polak-Ribiere+ `beta`.
fn cg_direction<T: Scalar>(g: &DVector<T>, prev: Option<(DVector<T>, DVector<T>)>, iters: u64) -> (r: DVector<T>)
    requires
        prev matches Some((gp, dp)) ==> gp@.len() == g@.len() && dp@.len() == g@.len(),
    ensures
        r@.len() == g@.len(),
{
    let steepest = core::ops::Neg::neg(DVector::from_row_slice(g.iter()));
    match prev {
        None => steepest,
        Some((g_prev, d_prev)) => {
            let denom = g_prev.dot(&g_prev);
            let beta = if T::zero().lt(denom) {
                let diff = core::ops::Sub::sub(DVector::from_row_slice(g.iter()), DVector::from_row_slice(g_prev.iter()));
                g.dot(&diff).divide(denom)
            } else {
                T::zero()
            };
            let beta = beta.max(T::zero());
            let restart = iters % 10 == 0 || (T::zero().lt(denom) && decimal_exec::<T>(1, 1).le(
                g.dot(&g_prev).abs().divide(denom),
            ));
            let cand = if restart {
                core::ops::Neg::neg(DVector::from_row_slice(g.iter()))
            } else {
                core::ops::Add::add(core::ops::Neg::neg(DVector::from_row_slice(g.iter())), core::ops::Mul::mul(d_prev, beta))
            };
            if T::zero().le(cand.dot(g)) {
                steepest
            } else {
                cand
            }
        },
    }
}

/// Minimizes by nonlinear conjugate gradients (Polak-Ribiere+ with restarts) with the line
/// search, reporting a [`Solution`] (see [`reports`]); errors as for
/// [`minimize_gradient_descent_with`].
pub fn minimize_conjugate_gradient_with<T: Scalar, F: Fn(&DVector<T>) -> T, G: Fn(&DVector<T>) -> DVector<T>>(
    cost: F,
    grad: G,
    init: DVector<T>,
    options: &Options<T>,
) -> (r: Result<Solution<T>, String>)
    requires
        cost_callable::<T, F>(cost),
        gradient_callable::<T, G>(grad),
    ensures
        match input_error(init@, options.gradient_tolerance) {
            Some(msg) => r matches Err(e) && e@ == msg,
            None => match r {
                Ok(s) => reports(s, cost, grad, init@, *options),
                Err(e) => e@ == initial_gradient_text(),
            },
        },
{
    let (mut g, mut c) = match start(&cost, &grad, &init, options) {
        Err(e) => {
            return Err(e);
        },
        Ok(state) => state,
    };
    let n = init.len();
    let mut param = init;
    let mut iters: u64 = 0;
    let mut prev: Option<(DVector<T>, DVector<T>)> = None;
    loop
        invariant
            cost_callable::<T, F>(cost),
            gradient_callable::<T, G>(grad),
            input_error(init@, options.gradient_tolerance) is None,
            n == init@.len(),
            param@.len() == n,
            g@.len() == n,
            grad.ensures((&param,), g),
            cost.ensures((&param,), c),
            iters <= options.max_iters,
            prev matches Some((gp, dp)) ==> gp@.len() == n && dp@.len() == n,
        decreases options.max_iters - iters,
    {
        let gn = g.norm();
        if gn.le(options.gradient_tolerance) {
            return Ok(finish(param, c, iters, true));
        }
        if iters >= options.max_iters {
            return Ok(finish(param, c, iters, false));
        }
        let dir = cg_direction(&g, prev, iters);
        let alpha = line_search(&cost, &grad, &param, &dir);
        let next = core::ops::Add::add(DVector::from_row_slice(param.iter()), core::ops::Mul::mul(DVector::from_row_slice(dir.iter()), alpha));
        param = next;
        g = grad(&param);
        c = cost(&param);
        prev = Some((DVector::from_row_slice(g.iter()), dir));
        iters = iters + 1;
    }
}

/// Minimizes by nonlinear conjugate gradients (see [`minimize_conjugate_gradient_with`])
/// with the default tolerance and the budget `max_iters`, returning the final point.
pub fn minimize_conjugate_gradient<T: Scalar, F: Fn(&DVector<T>) -> T, G: Fn(&DVector<T>) -> DVector<T>>(
    cost: F,
    grad: G,
    init: DVector<T>,
    max_iters: u64,
) -> (r: Result<DVector<T>, String>)
    requires
        cost_callable::<T, F>(cost),
        gradient_callable::<T, G>(grad),
    ensures
        match input_error(init@, default_gradient_tolerance::<T>()) {
            Some(msg) => r matches Err(e) && e@ == msg,
            None => match r {
                Ok(p) => exists|s: Solution<T>|
                    s.param == p && #[trigger] reports(s, cost, grad, init@, Options { max_iters, gradient_tolerance: default_gradient_tolerance::<T>() }),
                Err(e) => e@ == initial_gradient_text(),
            },
        },
{
    let options = Options::new(max_iters);
    match minimize_conjugate_gradient_with(cost, grad, init, &options) {
        Ok(s) => Ok(s.param),
        Err(e) => Err(e),
    }
}

/// The components of `g`, each negated.
pub open spec fn negated<T: Scalar>(g: Seq<T>) -> Seq<T> {
    Seq::new(g.len(), |i: int| g[i].negate_spec())
}

/// The full Newton step `H^-1 (-g)` as the LU solve of `H s = -g` (see [`lu_spec`] and
/// [`lu_solution`]); `None` when `H` is not a square matrix of the point's size over
/// storage of exactly `n * n` entries (with `n * n` within `usize`), or its LU factorization
/// finds no pivot.
pub open spec fn newton_direction<T: Scalar>(h: &DMatrix<T>, g: Seq<T>) -> Option<Seq<T>> {
    let n = h.rows_spec();
    if h.cols_spec() != n || g.len() != n || n * n > usize::MAX || h.storage().len() != n * n {
        None
    } else {
        match lu_spec(h) {
            None => None,
            Some((lu, piv)) => {
                let s = lu_solution(lu, piv, negated(g), n as int);
                if s.len() == n {
                    Some(s)
                } else {
                    None
                }
            },
        }
    }
}

/// Computes the full Newton step (see [`newton_direction`]).
fn newton_step<T: Scalar>(h: &DMatrix<T>, g: &DVector<T>) -> (r: Option<DVector<T>>)
    ensures
        match newton_direction(h, g@) {
            None => r is None,
            Some(s) => r matches Some(v) && v@ == s,
        },
        r matches Some(s) ==> s@.len() == g@.len(),
{
    let n = h.nrows();
    if h.ncols() != n || g.len() != n {
        return None;
    }
    match n.checked_mul(n) {
        Some(nn) => {
            if h.iter().len() != nn {
                return None;
            }
        },
        None => {
            return None;
        },
    }
    proof {
        h.lemma_well_formed_covers();
    }
    let neg = core::ops::Neg::neg(DVector::from_row_slice(g.iter()));
    assert(neg@ =~= negated(g@));
    match h.solve(&neg) {
        Ok(s) => {
            if s.len() == n {
                Some(s)
            } else {
                None
            }
        },
        Err(_) => None,
    }
}

/// Minimizes by Newton's method with the full step, reporting a [`Solution`] (see
/// [`reports`]); errors as for [`minimize_gradient_descent_with`], plus the singular-Hessian
/// message when a Hessian gives no step (see [`singular_text`]).
pub fn minimize_newton_with<
    T: Scalar,
    F: Fn(&DVector<T>) -> T,
    G: Fn(&DVector<T>) -> DVector<T>,
    H: Fn(&DVector<T>) -> DMatrix<T>,
>(cost: F, grad: G, hessian: H, init: DVector<T>, options: &Options<T>) -> (r: Result<Solution<T>, String>)
    requires
        cost_callable::<T, F>(cost),
        gradient_callable::<T, G>(grad),
        hessian_callable::<T, H>(hessian),
    ensures
        match input_error(init@, options.gradient_tolerance) {
            Some(msg) => r matches Err(e) && e@ == msg,
            None => match r {
                Ok(s) => reports(s, cost, grad, init@, *options),
                Err(e) => e@ == initial_gradient_text() || e@ == singular_text(),
            },
        },
{
    let (mut g, mut c) = match start(&cost, &grad, &init, options) {
        Err(e) => {
            return Err(e);
        },
        Ok(state) => state,
    };
    let n = init.len();
    let mut param = init;
    let mut iters: u64 = 0;
    loop
        invariant
            cost_callable::<T, F>(cost),
            gradient_callable::<T, G>(grad),
            hessian_callable::<T, H>(hessian),
            input_error(init@, options.gradient_tolerance) is None,
            n == init@.len(),
            param@.len() == n,
            g@.len() == n,
            grad.ensures((&param,), g),
            cost.ensures((&param,), c),
            iters <= options.max_iters,
        decreases options.max_iters - iters,
    {
        let gn = g.norm();
        if gn.le(options.gradient_tolerance) {
            return Ok(finish(param, c, iters, true));
        }
        if iters >= options.max_iters {
            return Ok(finish(param, c, iters, false));
        }
        let h = hessian(&param);
        let step = match newton_step(&h, &g) {
            Some(s) => s,
            None => {
                let msg = String::from_str("singular Hessian (Newton step undefined)");
                proof {
                    reveal_strlit("singular Hessian (Newton step undefined)");
                }
                return Err(msg);
            },
        };
        let next = core::ops::Add::add(DVector::from_row_slice(param.iter()), step);
        param = next;
        g = grad(&param);
        c = cost(&param);
        iters = iters + 1;
    }
}

/// Minimizes by Newton's method (see [`minimize_newton_with`]) with the default tolerance
/// and the budget `max_iters`, returning the final point.
pub fn minimize_newton<
    T: Scalar,
    F: Fn(&DVector<T>) -> T,
    G: Fn(&DVector<T>) -> DVector<T>,
    H: Fn(&DVector<T>) -> DMatrix<T>,
>(cost: F, grad: G, hessian: H, init: DVector<T>, max_iters: u64) -> (r: Result<DVector<T>, String>)
    requires
        cost_callable::<T, F>(cost),
        gradient_callable::<T, G>(grad),
        hessian_callable::<T, H>(hessian),
    ensures
        match input_error(init@, default_gradient_tolerance::<T>()) {
            Some(msg) => r matches Err(e) && e@ == msg,
            None => match r {
                Ok(p) => exists|s: Solution<T>|
                    s.param == p && #[trigger] reports(s, cost, grad, init@, Options { max_iters, gradient_tolerance: default_gradient_tolerance::<T>() }),
                Err(e) => e@ == initial_gradient_text() || e@ == singular_text(),
            },
        },
{
    let options = Options::new(max_iters);
    match minimize_newton_with(cost, grad, hessian, init, &options) {
        Ok(s) => Ok(s.param),
        Err(e) => Err(e),
    }
}

} // verus!
