//! Monte Carlo estimation over a [`Scalar`]: the sample mean and variance, crude Monte
//! Carlo integration with a standard error, the mean of a distribution's draws, and
//! importance sampling.
//!
//! What an estimate is made of (the draws, and the values of the caller's functions at
//! them) is left open; what is computed from those values is stated exactly.
use vstd::prelude::*;

use crate::markov::{seq_sum, sum_exec, sum_upto};
use crate::prob::{Distribution, Rng};
use crate::sampler::{unit_from_bits, unit_from_draw};
use crate::scalar::{two, two_exec, Scalar};

verus! {

/// The squared deviations `(x - mean)^2`.
pub open spec fn squared_deviations<T: Scalar>(s: Seq<T>, mean: T) -> Seq<T> {
    Seq::new(s.len(), |i: int| s[i].minus_spec(mean).times_spec(s[i].minus_spec(mean)))
}

/// The sample mean and the Bessel-corrected variance of `s`, the sums taken in order:
/// `(0, 0)` for no samples, a zero variance for one.
pub open spec fn sample_stats<T: Scalar>(s: Seq<T>) -> (T, T) {
    let n = s.len();
    if n == 0 {
        (T::zero_spec(), T::zero_spec())
    } else {
        let mean = seq_sum(s).divide_spec(T::from_u64_spec(n as u64));
        if n == 1 {
            (mean, T::zero_spec())
        } else {
            (mean, seq_sum(squared_deviations(s, mean)).divide_spec(T::from_u64_spec((n - 1) as u64)))
        }
    }
}

/// The sample mean and the Bessel-corrected variance (see [`sample_stats`]).
pub fn mean_and_var<T: Scalar>(samples: &[T]) -> (r: (T, T))
    ensures
        r == sample_stats(samples@),
{
    let n = samples.len();
    if n == 0 {
        return (T::zero(), T::zero());
    }
    let mean = sum_exec(samples).divide(T::from_u64(n as u64));
    if n == 1 {
        return (mean, T::zero());
    }
    let ghost devs = squared_deviations(samples@, mean);
    let mut acc = T::zero().negate();
    for i in 0..n
        invariant
            n == samples@.len(),
            devs == squared_deviations(samples@, mean),
            acc == sum_upto(devs, i as int),
    {
        let d = samples[i].minus(mean);
        acc = acc.plus(d.times(d));
    }
    (mean, acc.divide(T::from_u64((n - 1) as u64)))
}

/// The mean and the variance estimate of `n > 0` values from their running sum and sum of
/// squares: `mean = sum / n` and `(sum_sq - mean sum) / max(max(n, 2) - 1, 1)`, raised to
/// zero when negative.
pub open spec fn running_stats<T: Scalar>(sum: T, sum_sq: T, n: usize) -> (T, T) {
    let one = T::one_spec();
    let m = T::from_u64_spec(n as u64).max_spec(two::<T>());
    let mean = sum.divide_spec(T::from_u64_spec(n as u64));
    let var = sum_sq.minus_spec(mean.times_spec(sum)).divide_spec(m.minus_spec(one).max_spec(one));
    (mean, if var.lt_spec(T::zero_spec()) {
        T::zero_spec()
    } else {
        var
    })
}

/// Computes [`running_stats`].
fn running_stats_exec<T: Scalar>(sum: T, sum_sq: T, n: usize) -> (r: (T, T))
    ensures
        r == running_stats(sum, sum_sq, n),
{
    let one = T::one();
    let m = T::from_u64(n as u64).max(two_exec::<T>());
    let mean = sum.divide(T::from_u64(n as u64));
    let var = sum_sq.minus(mean.times(sum)).divide(m.minus(one).max(one));
    if var.lt(T::zero()) {
        (mean, T::zero())
    } else {
        (mean, var)
    }
}

/// The crude Monte Carlo estimate over an interval of width `width` from the running sums
/// of `n > 0` function values: `(width mean, width sqrt(var / n))` (see [`running_stats`]).
pub open spec fn integral_estimate<T: Scalar>(width: T, sum: T, sum_sq: T, n: usize) -> (T, T) {
    let (mean, var) = running_stats(sum, sum_sq, n);
    (width.times_spec(mean), width.times_spec(var.divide_spec(T::from_u64_spec(n as u64)).sqrt_spec()))
}

/// The running sum of the first `k` values, in order, starting from zero.
pub open spec fn running_sum<T: Scalar>(s: Seq<T>, k: int) -> T
    decreases k,
{
    if k <= 0 {
        T::zero_spec()
    } else {
        running_sum(s, k - 1).plus_spec(s[k - 1])
    }
}

/// The squares `y * y` of the values.
pub open spec fn squares<T: Scalar>(s: Seq<T>) -> Seq<T> {
    Seq::new(s.len(), |i: int| s[i].times_spec(s[i]))
}

/// The running sum depends only on the first `k` values.
proof fn lemma_running_sum_prefix<T: Scalar>(s1: Seq<T>, s2: Seq<T>, k: int)
    requires
        0 <= k <= s1.len(),
        k <= s2.len(),
        forall|i: int| 0 <= i < k ==> s1[i] == s2[i],
    ensures
        running_sum(s1, k) == running_sum(s2, k),
    decreases k,
{
    if k > 0 {
        lemma_running_sum_prefix(s1, s2, k - 1);
    }
}

/// `ys` are values that `f` can take at the points `a + width U(draws[i])`, with `U` the
/// unit value of a 64-bit draw (see [`unit_from_bits`]).
pub open spec fn values_at_uniform_points<T: Scalar, F: Fn(T) -> T>(f: F, a: T, width: T, draws: Seq<u64>, ys: Seq<T>) -> bool {
    &&& draws.len() == ys.len()
    &&& forall|i: int|
        0 <= i < ys.len() ==> f.ensures((a.plus_spec(width.times_spec(unit_from_bits::<T>(draws[i]))),), #[trigger] ys[i])
}

/// Crude Monte Carlo integration of `f` over `[a, b]` with `n` uniform points: `(0, 0)` for
/// no points, else the estimate and its standard error (see [`integral_estimate`]) for the
/// running sums of the values of `f` at the points `a + (b - a) u`, one uniform `u` drawn
/// from `rng` per point (see [`values_at_uniform_points`]).
pub fn integrate<T: Scalar, R: Rng, F: Fn(T) -> T>(rng: &mut R, f: F, a: T, b: T, n: usize) -> (r: (T, T))
    requires
        forall|x: T| #[trigger] f.requires((x,)),
    ensures
        n == 0 ==> r == (T::zero_spec(), T::zero_spec()),
        n > 0 ==> exists|draws: Seq<u64>, ys: Seq<T>|
            #![trigger values_at_uniform_points(f, a, b.minus_spec(a), draws, ys)]
            ys.len() == n && values_at_uniform_points(f, a, b.minus_spec(a), draws, ys) && r == integral_estimate(
                b.minus_spec(a),
                running_sum(ys, n as int),
                running_sum(squares(ys), n as int),
                n,
            ),
{
    let width = b.minus(a);
    let mut sum = T::zero();
    let mut sum_sq = T::zero();
    let ghost mut draws: Seq<u64> = Seq::empty();
    let ghost mut ys: Seq<T> = Seq::empty();
    for i in 0..n
        invariant
            forall|x: T| #[trigger] f.requires((x,)),
            width == b.minus_spec(a),
            ys.len() == i,
            values_at_uniform_points(f, a, width, draws, ys),
            sum == running_sum(ys, i as int),
            sum_sq == running_sum(squares(ys), i as int),
    {
        let bits = rng.next_u64();
        let u = unit_from_draw::<T>(bits);
        let x = a.plus(width.times(u));
        let y = f(x);
        proof {
            let ys1 = ys.push(y);
            lemma_running_sum_prefix(ys, ys1, i as int);
            lemma_running_sum_prefix(squares(ys), squares(ys1), i as int);
            draws = draws.push(bits);
            ys = ys1;
        }
        sum = sum.plus(y);
        sum_sq = sum_sq.plus(y.times(y));
    }
    if n == 0 {
        return (T::zero(), T::zero());
    }
    let (mean_f, var_f) = running_stats_exec(sum, sum_sq, n);
    let r = (width.times(mean_f), width.times(var_f.divide(T::from_u64(n as u64)).sqrt()));
    assert(values_at_uniform_points(f, a, b.minus_spec(a), draws, ys));
    r
}

/// The mean of samples and its standard error `sqrt(var / n)` (zero for no samples), from
/// [`sample_stats`].
pub open spec fn mean_estimate<T: Scalar>(s: Seq<T>) -> (T, T) {
    let (mean, var) = sample_stats(s);
    (mean, if s.len() > 0 {
        var.divide_spec(T::from_u64_spec(s.len() as u64)).sqrt_spec()
    } else {
        T::zero_spec()
    })
}

/// Draws `n` samples from `d` and returns their mean and standard error (see
/// [`mean_estimate`]).
pub fn estimate_mean<T: Scalar, R: Rng, D: Distribution<T>>(d: &D, rng: &mut R, n: usize) -> (r: (T, T))
    ensures
        exists|xs: Seq<T>|
            #![trigger mean_estimate(xs)]
            xs.len() == n && (forall|i: int| 0 <= i < n ==> d.can_give(#[trigger] xs[i])) && r == mean_estimate(xs),
{
    let mut buf: Vec<T> = Vec::new();
    for _i in 0..n
        invariant
            buf@.len() == _i,
            forall|i: int| 0 <= i < buf@.len() ==> d.can_give(#[trigger] buf@[i]),
    {
        buf.push(d.sample(rng));
    }
    let (mean, var) = mean_and_var(buf.as_slice());
    let stderr = if n > 0 {
        var.divide(T::from_u64(n as u64)).sqrt()
    } else {
        T::zero()
    };
    assert(buf@.len() == n && (mean, stderr) == mean_estimate(buf@));
    (mean, stderr)
}

/// The importance estimate from the running sums of `n > 0` weighted terms: the mean and
/// `sqrt(var / n)` (see [`running_stats`]).
pub open spec fn weighted_estimate<T: Scalar>(sum: T, sum_sq: T, n: usize) -> (T, T) {
    let (mean, var) = running_stats(sum, sum_sq, n);
    (mean, var.divide_spec(T::from_u64_spec(n as u64)).sqrt_spec())
}

/// The importance terms `h(x) (t(x) / p(x))` from the values `hs` of `h`, `ts` of the target
/// density and `ps` of the proposal density at each draw.
pub open spec fn importance_terms<T: Scalar>(hs: Seq<T>, ts: Seq<T>, ps: Seq<T>) -> Seq<T> {
    Seq::new(hs.len(), |i: int| hs[i].times_spec(ts[i].divide_spec(ps[i])))
}

/// `ts`, `ps` and `hs` are values that the target density, the proposal density and `h` can
/// take at the points `xs`.
pub open spec fn values_at_points<T, F: Fn(T) -> T, G: Fn(T) -> T, H: Fn(T) -> T>(
    target: F,
    proposal: G,
    h: H,
    xs: Seq<T>,
    ts: Seq<T>,
    ps: Seq<T>,
    hs: Seq<T>,
) -> bool {
    &&& ts.len() == xs.len() && ps.len() == xs.len() && hs.len() == xs.len()
    &&& forall|i: int|
        0 <= i < xs.len() ==> target.ensures((#[trigger] xs[i],), ts[i]) && proposal.ensures((xs[i],), ps[i])
            && h.ensures((xs[i],), hs[i])
}

/// An importance sampler: the target density and the proposal density.
pub struct ImportanceSampling<F, G> {
    target: F,
    proposal: G,
}

impl<F, G> ImportanceSampling<F, G> {
    /// The target density.
    pub closed spec fn target_spec(&self) -> F {
        self.target
    }

    /// The proposal density.
    pub closed spec fn proposal_spec(&self) -> G {
        self.proposal
    }

    /// A sampler from the target density and the proposal density.
    pub fn new(target: F, proposal: G) -> (r: Self)
        ensures
            r.target_spec() == target,
            r.proposal_spec() == proposal,
    {
        ImportanceSampling { target, proposal }
    }

    /// Estimates `E_f[h(X)]` from `n` draws `x` of `proposal`, each weighted by
    /// `target(x) / proposal(x)`: `(0, 0)` for no draws, else the mean of the terms
    /// `h(x) w` and its standard error `sqrt(var / n)` (see [`weighted_estimate`] and
    /// [`importance_terms`]), for values that the three functions can take at the draws (see
    /// [`values_at_points`]).
    pub fn estimate<T: Scalar, R: Rng, P: Distribution<T>, H: Fn(T) -> T>(
        &self,
        rng: &mut R,
        proposal: &P,
        h: H,
        n: usize,
    ) -> (r: (T, T)) where F: Fn(T) -> T, G: Fn(T) -> T
        requires
            forall|x: T| #[trigger] self.target_spec().requires((x,)),
            forall|x: T| #[trigger] self.proposal_spec().requires((x,)),
            forall|x: T| #[trigger] h.requires((x,)),
        ensures
            n == 0 ==> r == (T::zero_spec(), T::zero_spec()),
            n > 0 ==> exists|xs: Seq<T>, ts: Seq<T>, ps: Seq<T>, hs: Seq<T>|
                #![trigger values_at_points(self.target_spec(), self.proposal_spec(), h, xs, ts, ps, hs)]
                xs.len() == n && (forall|i: int| 0 <= i < n ==> proposal.can_give(#[trigger] xs[i])) && values_at_points(
                    self.target_spec(),
                    self.proposal_spec(),
                    h,
                    xs,
                    ts,
                    ps,
                    hs,
                ) && r
                    == weighted_estimate(
                    running_sum(importance_terms(hs, ts, ps), n as int),
                    running_sum(squares(importance_terms(hs, ts, ps)), n as int),
                    n,
                ),
    {
        if n == 0 {
            return (T::zero(), T::zero());
        }
        let mut sum = T::zero();
        let mut sum_sq = T::zero();
        assert forall|x: T| #[trigger] self.target.requires((x,)) by {
            assert(self.target_spec().requires((x,)));
        }
        assert forall|x: T| #[trigger] self.proposal.requires((x,)) by {
            assert(self.proposal_spec().requires((x,)));
        }
        let ghost mut xs: Seq<T> = Seq::empty();
        let ghost mut ts: Seq<T> = Seq::empty();
        let ghost mut ps: Seq<T> = Seq::empty();
        let ghost mut hs: Seq<T> = Seq::empty();
        for i in 0..n
            invariant
                forall|x: T| #[trigger] self.target.requires((x,)),
                forall|x: T| #[trigger] self.proposal.requires((x,)),
                forall|x: T| #[trigger] h.requires((x,)),
                xs.len() == i,
                forall|k: int| 0 <= k < xs.len() ==> proposal.can_give(#[trigger] xs[k]),
                values_at_points(self.target, self.proposal, h, xs, ts, ps, hs),
                sum == running_sum(importance_terms(hs, ts, ps), i as int),
                sum_sq == running_sum(squares(importance_terms(hs, ts, ps)), i as int),
        {
            let x = proposal.sample(rng);
            let t = (self.target)(x);
            let q = (self.proposal)(x);
            let w = t.divide(q);
            let v = h(x);
            let term = v.times(w);
            proof {
                let (xs1, ts1, ps1, hs1) = (xs.push(x), ts.push(t), ps.push(q), hs.push(v));
                let terms = importance_terms(hs, ts, ps);
                let terms1 = importance_terms(hs1, ts1, ps1);
                assert(terms1[i as int] == term);
                lemma_running_sum_prefix(terms, terms1, i as int);
                lemma_running_sum_prefix(squares(terms), squares(terms1), i as int);
                xs = xs1;
                ts = ts1;
                ps = ps1;
                hs = hs1;
            }
            sum = sum.plus(term);
            sum_sq = sum_sq.plus(term.times(term));
        }
        let (mean, var) = running_stats_exec(sum, sum_sq, n);
        let r = (mean, var.divide(T::from_u64(n as u64)).sqrt());
        assert(values_at_points(self.target_spec(), self.proposal_spec(), h, xs, ts, ps, hs));
        r
    }
}

/// Importance sampling in one call (see [`ImportanceSampling::estimate`]).
pub fn importance<T: Scalar, R: Rng, P: Distribution<T>, F: Fn(T) -> T, G: Fn(T) -> T, H: Fn(T) -> T>(
    rng: &mut R,
    n: usize,
    proposal: &P,
    target: F,
    proposal_density: G,
    h: H,
) -> (r: (T, T))
    requires
        forall|x: T| #[trigger] target.requires((x,)),
        forall|x: T| #[trigger] proposal_density.requires((x,)),
        forall|x: T| #[trigger] h.requires((x,)),
    ensures
        n == 0 ==> r == (T::zero_spec(), T::zero_spec()),
        n > 0 ==> exists|xs: Seq<T>, ts: Seq<T>, ps: Seq<T>, hs: Seq<T>|
            #![trigger values_at_points(target, proposal_density, h, xs, ts, ps, hs)]
            xs.len() == n && (forall|i: int| 0 <= i < n ==> proposal.can_give(#[trigger] xs[i])) && values_at_points(
                target,
                proposal_density,
                h,
                xs,
                ts,
                ps,
                hs,
            ) && r == weighted_estimate(
                running_sum(importance_terms(hs, ts, ps), n as int),
                running_sum(squares(importance_terms(hs, ts, ps)), n as int),
                n,
            ),
{
    ImportanceSampling::new(target, proposal_density).estimate(rng, proposal, h, n)
}

} // verus!
