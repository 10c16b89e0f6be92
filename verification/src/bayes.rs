//! Bayesian inference over a [`Scalar`]: the conjugate priors [`Beta`] (Bernoulli and
//! Binomial rates), [`Gamma`] (Poisson rates) and [`Gaussian`] (a mean under known
//! variance), the log-likelihoods of the common models, `log-sum-exp`, the variate
//! generators behind sampling, and the random-walk Metropolis chain.
//!
//! Every value a function returns is named exactly by a spec function over the
//! [`Scalar`] operations, constant for constant; the draws of a generator are the one thing
//! left open.
use vstd::prelude::*;

use crate::text::{decimal_text, push_decimal};

use crate::bayes_special::{
    decimal, decimal_exec, half, incomplete_beta, is_nan, ln_2pi, ln_2pi_exec, ln_beta, ln_binomial, ln_factorial,
    ln_gamma, log_beta, log_binomial, log_factorial, log_gamma, neg_infinity, normal_cdf, normal_quantile,
    regularized_incomplete_beta, standard_normal_cdf, standard_normal_quantile, x_log_y, xlogy,
};
use crate::markov::{seq_sum, sum_exec, sum_upto};
use crate::prob::{Distribution, Metropolis, Rng};
use crate::sampler::{unit_from_bits, unit_from_draw};
use crate::scalar::{two, two_exec, Scalar};

verus! {

// ===========================================================================
// Parameter errors
// ===========================================================================

/// An invalid distribution parameter, naming it.
#[derive(Clone, Copy, Debug, PartialEq, Eq)]
pub enum ParameterError {
    /// The parameter is NaN or infinite.
    NotFinite { parameter: &'static str },
    /// The parameter must be strictly positive but is not.
    NotPositive { parameter: &'static str },
}

/// The text for a non-finite parameter: its name in backquotes, then ` must be finite`.
pub open spec fn not_finite_text(parameter: Seq<char>) -> Seq<char> {
    "`"@ + parameter + "` must be finite"@
}

/// Builds [`not_finite_text`].
fn not_finite_message(parameter: &str) -> (r: String)
    ensures
        r@ == not_finite_text(parameter@),
{
    let mut s = String::from_str("`");
    s.append(parameter);
    s.append("` must be finite");
    s
}

/// The text for a parameter that is not strictly positive: its name in backquotes, then
/// ` must be strictly positive`.
pub open spec fn not_positive_text(parameter: Seq<char>) -> Seq<char> {
    "`"@ + parameter + "` must be strictly positive"@
}

/// Builds [`not_positive_text`].
fn not_positive_message(parameter: &str) -> (r: String)
    ensures
        r@ == not_positive_text(parameter@),
{
    let mut s = String::from_str("`");
    s.append(parameter);
    s.append("` must be strictly positive");
    s
}

impl ParameterError {
    /// The message: the parameter's name in backquotes, then what it must be.
    pub fn to_string(&self) -> (r: String)
        ensures
            r@ == match *self {
                ParameterError::NotFinite { parameter } => not_finite_text(parameter@),
                ParameterError::NotPositive { parameter } => not_positive_text(parameter@),
            },
    {
        match self {
            ParameterError::NotFinite { parameter } => not_finite_message(parameter),
            ParameterError::NotPositive { parameter } => not_positive_message(parameter),
        }
    }
}

/// The error for `value` as a finite parameter, if any.
pub open spec fn finite_error<T: Scalar>(parameter: &'static str, value: T) -> Option<ParameterError> {
    if value.is_finite_spec() {
        None
    } else {
        Some(ParameterError::NotFinite { parameter })
    }
}

/// The error for `value` as a finite, strictly positive parameter, if any.
pub open spec fn positive_error<T: Scalar>(parameter: &'static str, value: T) -> Option<ParameterError> {
    if !value.is_finite_spec() {
        Some(ParameterError::NotFinite { parameter })
    } else if !T::zero_spec().lt_spec(value) {
        Some(ParameterError::NotPositive { parameter })
    } else {
        None
    }
}

/// `Err` of the error, if any, else `Ok(())`.
pub open spec fn as_check(e: Option<ParameterError>) -> Result<(), ParameterError> {
    match e {
        Some(err) => Err(err),
        None => Ok(()),
    }
}

/// Checks that `value` is finite (see [`finite_error`]).
pub fn check_finite<T: Scalar>(parameter: &'static str, value: T) -> (r: Result<(), ParameterError>)
    ensures
        r == as_check(finite_error(parameter, value)),
{
    if value.is_finite() {
        Ok(())
    } else {
        Err(ParameterError::NotFinite { parameter })
    }
}

/// Checks that `value` is finite and strictly positive (see [`positive_error`]).
pub fn check_positive<T: Scalar>(parameter: &'static str, value: T) -> (r: Result<(), ParameterError>)
    ensures
        r == as_check(positive_error(parameter, value)),
{
    if !value.is_finite() {
        return Err(ParameterError::NotFinite { parameter });
    }
    if T::zero().lt(value) {
        Ok(())
    } else {
        Err(ParameterError::NotPositive { parameter })
    }
}

// ===========================================================================
// Log-likelihoods
// ===========================================================================

/// `0 <= p <= 1`.
pub open spec fn in_unit<T: Scalar>(p: T) -> bool {
    T::zero_spec().le_spec(p) && p.le_spec(T::one_spec())
}

/// A NaN, as zero divided by zero.
pub open spec fn not_a_number<T: Scalar>() -> T {
    T::zero_spec().divide_spec(T::zero_spec())
}

/// `s ln p + f ln(1 - p)` with `0 ln 0 = 0`; negative infinity for `p` outside `[0, 1]`.
pub open spec fn bernoulli_ll<T: Scalar>(p: T, successes: u64, failures: u64) -> T {
    if !in_unit(p) {
        neg_infinity::<T>()
    } else {
        x_log_y(T::from_u64_spec(successes), p).plus_spec(x_log_y(T::from_u64_spec(failures), T::one_spec().minus_spec(p)))
    }
}

/// The log-likelihood of Bernoulli trials at rate `p` (see [`bernoulli_ll`]).
pub fn bernoulli_log_likelihood<T: Scalar>(p: T, successes: u64, failures: u64) -> (r: T)
    ensures
        r == bernoulli_ll(p, successes, failures),
{
    if !(T::zero().le(p) && p.le(T::one())) {
        return T::infinity().negate();
    }
    xlogy(T::from_u64(successes), p).plus(xlogy(T::from_u64(failures), T::one().minus(p)))
}

/// `ln C(n, k)` plus the Bernoulli term; negative infinity when `k > n`.
pub open spec fn binomial_ll<T: Scalar>(p: T, successes: u64, trials: u64) -> T {
    if successes > trials {
        neg_infinity::<T>()
    } else {
        log_binomial::<T>(trials, successes).plus_spec(bernoulli_ll(p, successes, (trials - successes) as u64))
    }
}

/// The log-likelihood of `successes` out of `trials` at rate `p` (see [`binomial_ll`]).
pub fn binomial_log_likelihood<T: Scalar>(p: T, successes: u64, trials: u64) -> (r: T)
    ensures
        r == binomial_ll(p, successes, trials),
{
    if successes > trials {
        return T::infinity().negate();
    }
    ln_binomial::<T>(trials, successes).plus(bernoulli_log_likelihood(p, successes, trials - successes))
}

/// `((x - mean) / sd)^2` for each `x` of `data`.
pub open spec fn squared_scores<T: Scalar>(data: Seq<T>, mean: T, sd: T) -> Seq<T> {
    Seq::new(
        data.len(),
        |i: int|
            {
                let z = data[i].minus_spec(mean).divide_spec(sd);
                z.times_spec(z)
            },
    )
}

/// The Gaussian log-likelihood `-(1/2) sum z^2 - n (ln sd + (1/2) ln(2 pi))` with the sum
/// taken in order (see [`squared_scores`]), for a finite positive `sd`.
pub open spec fn gaussian_ll<T: Scalar>(data: Seq<T>, mean: T, sd: T) -> T {
    let n = T::from_u64_spec(data.len() as u64);
    decimal::<T>(-5i64, 1).times_spec(seq_sum(squared_scores(data, mean, sd))).minus_spec(
        n.times_spec(sd.ln_spec().plus_spec(half::<T>().times_spec(ln_2pi::<T>()))),
    )
}

/// The sum of the squared scores (see [`squared_scores`]).
fn squared_score_sum<T: Scalar>(data: &[T], mean: T, sd: T) -> (r: T)
    ensures
        r == seq_sum(squared_scores(data@, mean, sd)),
{
    let ghost sq = squared_scores(data@, mean, sd);
    let mut acc = T::zero().negate();
    for i in 0..data.len()
        invariant
            sq == squared_scores(data@, mean, sd),
            acc == sum_upto(sq, i as int),
    {
        let z = data[i].minus(mean).divide(sd);
        acc = acc.plus(z.times(z));
    }
    acc
}

/// [`gaussian_ll`] for a finite positive `sd`, negative infinity otherwise.
pub open spec fn normal_ll<T: Scalar>(data: Seq<T>, mean: T, sd: T) -> T {
    if !sd.is_finite_spec() || sd.le_spec(T::zero_spec()) {
        neg_infinity::<T>()
    } else {
        gaussian_ll(data, mean, sd)
    }
}

/// The log-likelihood of independent Gaussian data (see [`normal_ll`]).
pub fn normal_log_likelihood<T: Scalar>(data: &[T], mean: T, sd: T) -> (r: T)
    ensures
        r == normal_ll(data@, mean, sd),
{
    if !sd.is_finite() || sd.le(T::zero()) {
        return T::infinity().negate();
    }
    let n = T::from_u64(data.len() as u64);
    decimal_exec::<T>(-5, 1).times(squared_score_sum(data, mean, sd)).minus(
        n.times(sd.ln().plus(decimal_exec::<T>(5, 1).times(ln_2pi_exec::<T>()))),
    )
}

/// `k ln rate - ln k!` for each count `k`.
pub open spec fn poisson_terms<T: Scalar>(rate: T, counts: Seq<u64>) -> Seq<T> {
    Seq::new(counts.len(), |i: int| x_log_y(T::from_u64_spec(counts[i]), rate).minus_spec(log_factorial::<T>(counts[i])))
}

/// `sum (k ln rate - ln k!) - n rate`; negative infinity for a negative or non-finite rate.
pub open spec fn poisson_ll<T: Scalar>(rate: T, counts: Seq<u64>) -> T {
    if rate.lt_spec(T::zero_spec()) || !rate.is_finite_spec() {
        neg_infinity::<T>()
    } else {
        seq_sum(poisson_terms(rate, counts)).minus_spec(T::from_u64_spec(counts.len() as u64).times_spec(rate))
    }
}

/// The log-likelihood of Poisson counts (see [`poisson_ll`]).
pub fn poisson_log_likelihood<T: Scalar>(rate: T, counts: &[u64]) -> (r: T)
    ensures
        r == poisson_ll(rate, counts@),
{
    if rate.lt(T::zero()) || !rate.is_finite() {
        return T::infinity().negate();
    }
    let ghost terms = poisson_terms(rate, counts@);
    let mut acc = T::zero().negate();
    for i in 0..counts.len()
        invariant
            terms == poisson_terms(rate, counts@),
            acc == sum_upto(terms, i as int),
    {
        acc = acc.plus(xlogy(T::from_u64(counts[i]), rate).minus(ln_factorial::<T>(counts[i])));
    }
    acc.minus(T::from_u64(counts.len() as u64).times(rate))
}

/// A datum that an exponential likelihood rejects: negative or NaN.
pub open spec fn bad_datum<T: Scalar>(x: T) -> bool {
    x.lt_spec(T::zero_spec()) || is_nan(x)
}

/// Some element of `data` is negative or NaN.
pub open spec fn has_bad_datum<T: Scalar>(data: Seq<T>) -> bool {
    exists|i: int| 0 <= i < data.len() && bad_datum(#[trigger] data[i])
}

/// `n ln rate - rate sum x`; negative infinity for a non-finite or non-positive rate or a
/// negative or NaN datum.
pub open spec fn exponential_ll<T: Scalar>(rate: T, data: Seq<T>) -> T {
    if !rate.is_finite_spec() || rate.le_spec(T::zero_spec()) || has_bad_datum(data) {
        neg_infinity::<T>()
    } else {
        T::from_u64_spec(data.len() as u64).times_spec(rate.ln_spec()).minus_spec(rate.times_spec(seq_sum(data)))
    }
}

/// The log-likelihood of exponential data (see [`exponential_ll`]).
pub fn exponential_log_likelihood<T: Scalar>(rate: T, data: &[T]) -> (r: T)
    ensures
        r == exponential_ll(rate, data@),
{
    if !rate.is_finite() || rate.le(T::zero()) {
        return T::infinity().negate();
    }
    for i in 0..data.len()
        invariant
            forall|j: int| 0 <= j < i ==> !bad_datum(#[trigger] data@[j]),
    {
        if data[i].lt(T::zero()) || !data[i].eq(data[i]) {
            assert(bad_datum(data@[i as int]));
            return T::infinity().negate();
        }
    }
    T::from_u64(data.len() as u64).times(rate.ln()).minus(rate.times(sum_exec(data)))
}

/// The running maximum of the first `k` values, from negative infinity, by the type's `max`.
pub open spec fn max_upto<T: Scalar>(s: Seq<T>, k: int) -> T
    decreases k,
{
    if k <= 0 {
        neg_infinity::<T>()
    } else {
        max_upto(s, k - 1).max_spec(s[k - 1])
    }
}

/// `exp(v - m)` for each value.
pub open spec fn shifted_exps<T: Scalar>(s: Seq<T>, m: T) -> Seq<T> {
    Seq::new(s.len(), |i: int| s[i].minus_spec(m).exp_spec())
}

/// `ln sum exp(v)` computed as `m + ln sum exp(v - m)` with `m` the maximum; the maximum
/// itself when it is not finite (negative infinity for no values).
pub open spec fn log_sum_exp_value<T: Scalar>(s: Seq<T>) -> T {
    let m = max_upto(s, s.len() as int);
    if !m.is_finite_spec() {
        m
    } else {
        m.plus_spec(seq_sum(shifted_exps(s, m)).ln_spec())
    }
}

/// Numerically stable `ln sum exp(v)` (see [`log_sum_exp_value`]).
pub fn log_sum_exp<T: Scalar>(values: &[T]) -> (r: T)
    ensures
        r == log_sum_exp_value(values@),
{
    let mut m = T::infinity().negate();
    for i in 0..values.len()
        invariant
            m == max_upto(values@, i as int),
    {
        m = m.max(values[i]);
    }
    if !m.is_finite() {
        return m;
    }
    let ghost terms = shifted_exps(values@, m);
    let mut acc = T::zero().negate();
    for i in 0..values.len()
        invariant
            terms == shifted_exps(values@, m),
            acc == sum_upto(terms, i as int),
    {
        acc = acc.plus(values[i].minus(m).exp());
    }
    m.plus(acc.ln())
}


// ===========================================================================
// The Beta distribution
// ===========================================================================

/// The Beta distribution `Beta(alpha, beta)` on `[0, 1]`, the conjugate prior of a
/// Bernoulli or Binomial success rate; its view is `(alpha, beta)`.
#[derive(Clone, Copy, Debug, PartialEq)]
pub struct Beta<T> {
    alpha: T,
    beta: T,
}

impl<T> View for Beta<T> {
    type V = (T, T);

    closed spec fn view(&self) -> (T, T) {
        (self.alpha, self.beta)
    }
}

/// The first parameter error of `Beta(alpha, beta)`, if any.
pub open spec fn beta_error<T: Scalar>(alpha: T, beta: T) -> Option<ParameterError> {
    match positive_error("alpha", alpha) {
        Some(e) => Some(e),
        None => positive_error("beta", beta),
    }
}

/// The mean `alpha / (alpha + beta)`.
pub open spec fn beta_mean<T: Scalar>(d: (T, T)) -> T {
    d.0.divide_spec(d.0.plus_spec(d.1))
}

/// The variance `alpha beta / (s^2 (s + 1))` with `s = alpha + beta`.
pub open spec fn beta_variance<T: Scalar>(d: (T, T)) -> T {
    let s = d.0.plus_spec(d.1);
    d.0.times_spec(d.1).divide_spec(s.times_spec(s).times_spec(s.plus_spec(T::one_spec())))
}

/// `x^(alpha - 1) (1 - x)^(beta - 1) / B(alpha, beta)` in logs, with `0 ln 0 = 0`; negative
/// infinity outside `[0, 1]`.
pub open spec fn beta_log_pdf<T: Scalar>(d: (T, T), x: T) -> T {
    if !in_unit(x) {
        neg_infinity::<T>()
    } else {
        let one = T::one_spec();
        x_log_y(d.0.minus_spec(one), x).plus_spec(x_log_y(d.1.minus_spec(one), one.minus_spec(x))).minus_spec(log_beta(d.0, d.1))
    }
}

/// The bisection for the quantile at `p`: from step `k` (of 200) on the bracket `[lo, hi]`,
/// halving towards the side where the distribution function is below `p`, and stopping once
/// the bracket is narrower than `10^-15`; the midpoint of the last bracket.
pub open spec fn beta_bisect<T: Scalar>(d: (T, T), p: T, k: int, lo: T, hi: T) -> T
    decreases 200 - k,
{
    if k < 0 || k >= 200 {
        half::<T>().times_spec(lo.plus_spec(hi))
    } else {
        let mid = half::<T>().times_spec(lo.plus_spec(hi));
        let (lo2, hi2) = if incomplete_beta(d.0, d.1, mid).lt_spec(p) {
            (mid, hi)
        } else {
            (lo, mid)
        };
        if hi2.minus_spec(lo2).lt_spec(decimal::<T>(1, 15)) {
            half::<T>().times_spec(lo2.plus_spec(hi2))
        } else {
            beta_bisect(d, p, k + 1, lo2, hi2)
        }
    }
}

/// The quantile at `p`: NaN for NaN or `p` outside `[0, 1]`, zero at zero, one at one, the
/// bisection (see [`beta_bisect`]) from `[0, 1]` otherwise.
pub open spec fn beta_quantile<T: Scalar>(d: (T, T), p: T) -> T {
    if is_nan(p) {
        p
    } else if !in_unit(p) {
        not_a_number::<T>()
    } else if p.eq_spec(T::zero_spec()) {
        T::zero_spec()
    } else if p.eq_spec(T::one_spec()) {
        T::one_spec()
    } else {
        beta_bisect(d, p, 0, T::zero_spec(), T::one_spec())
    }
}

/// `ln C(s + f, s) + ln B(alpha + s, beta + f) - ln B(alpha, beta)`.
pub open spec fn beta_evidence<T: Scalar>(d: (T, T), successes: u64, failures: u64) -> T {
    let post = (d.0.plus_spec(T::from_u64_spec(successes)), d.1.plus_spec(T::from_u64_spec(failures)));
    log_binomial::<T>((successes + failures) as u64, successes).plus_spec(log_beta(post.0, post.1)).minus_spec(
        log_beta(d.0, d.1),
    )
}

/// A credible-interval mass: finite and strictly between zero and one.
pub open spec fn valid_mass<T: Scalar>(mass: T) -> bool {
    T::zero_spec().lt_spec(mass) && mass.lt_spec(T::one_spec()) && mass.is_finite_spec()
}

/// The tail mass `(1 - mass) / 2` of each side of an equal-tailed interval.
pub open spec fn tail_of<T: Scalar>(mass: T) -> T {
    half::<T>().times_spec(T::one_spec().minus_spec(mass))
}

/// The number of `true` entries among the first `k`.
pub open spec fn count_true(s: Seq<bool>, k: int) -> int
    decreases k,
{
    if k <= 0 {
        0
    } else {
        count_true(s, k - 1) + if s[k - 1] { 1int } else { 0int }
    }
}

proof fn lemma_count_true_bound(s: Seq<bool>, k: int)
    requires
        0 <= k <= s.len(),
    ensures
        0 <= count_true(s, k) <= k,
    decreases k,
{
    if k > 0 {
        lemma_count_true_bound(s, k - 1);
    }
}

impl<T: Scalar> Beta<T> {
    /// `Beta(alpha, beta)`, for finite and strictly positive parameters.
    pub fn new(alpha: T, beta: T) -> (r: Self)
        requires
            beta_error(alpha, beta) is None,
        ensures
            r@ == (alpha, beta),
    {
        Beta { alpha, beta }
    }

    /// `Beta(alpha, beta)`, or the first parameter error (see [`beta_error`]).
    pub fn try_new(alpha: T, beta: T) -> (r: Result<Self, ParameterError>)
        ensures
            match beta_error(alpha, beta) {
                Some(e) => r == Err::<Self, ParameterError>(e),
                None => r matches Ok(d) && d@ == (alpha, beta),
            },
    {
        match check_positive("alpha", alpha) {
            Err(e) => {
                return Err(e);
            },
            Ok(()) => {},
        }
        match check_positive("beta", beta) {
            Err(e) => {
                return Err(e);
            },
            Ok(()) => {},
        }
        Ok(Beta { alpha, beta })
    }

    /// The uniform prior `Beta(1, 1)`.
    pub fn uniform() -> (r: Self)
        ensures
            r@ == (T::one_spec(), T::one_spec()),
    {
        Beta { alpha: T::one(), beta: T::one() }
    }

    /// Jeffreys' prior `Beta(1/2, 1/2)`.
    pub fn jeffreys() -> (r: Self)
        ensures
            r@ == (half::<T>(), half::<T>()),
    {
        Beta { alpha: decimal_exec::<T>(5, 1), beta: decimal_exec::<T>(5, 1) }
    }

    /// Haldane's improper prior approximated by `Beta(1/1000, 1/1000)`.
    pub fn haldane() -> (r: Self)
        ensures
            r@ == (decimal::<T>(1, 3), decimal::<T>(1, 3)),
    {
        Beta { alpha: decimal_exec::<T>(1, 3), beta: decimal_exec::<T>(1, 3) }
    }

    /// The `alpha` (pseudo-successes) parameter.
    pub fn alpha(&self) -> (r: T)
        ensures
            r == self@.0,
    {
        self.alpha
    }

    /// The `beta` (pseudo-failures) parameter.
    pub fn beta(&self) -> (r: T)
        ensures
            r == self@.1,
    {
        self.beta
    }

    /// The concentration `alpha + beta`.
    pub fn concentration(&self) -> (r: T)
        ensures
            r == self@.0.plus_spec(self@.1),
    {
        self.alpha.plus(self.beta)
    }

    /// The mean (see [`beta_mean`]).
    pub fn mean(&self) -> (r: T)
        ensures
            r == beta_mean(self@),
    {
        self.alpha.divide(self.concentration())
    }

    /// The variance (see [`beta_variance`]).
    pub fn variance(&self) -> (r: T)
        ensures
            r == beta_variance(self@),
    {
        let s = self.concentration();
        self.alpha.times(self.beta).divide(s.times(s).times(s.plus(T::one())))
    }

    /// The standard deviation, the square root of the variance.
    pub fn std_dev(&self) -> (r: T)
        ensures
            r == beta_variance(self@).sqrt_spec(),
    {
        self.variance().sqrt()
    }

    /// The mode `(alpha - 1) / (alpha + beta - 2)`, for `alpha > 1` and `beta > 1` only.
    pub fn mode(&self) -> (r: Option<T>)
        ensures
            r == if T::one_spec().lt_spec(self@.0) && T::one_spec().lt_spec(self@.1) {
                Some(self@.0.minus_spec(T::one_spec()).divide_spec(self@.0.plus_spec(self@.1).minus_spec(two::<T>())))
            } else {
                None
            },
    {
        if T::one().lt(self.alpha) && T::one().lt(self.beta) {
            Some(self.alpha.minus(T::one()).divide(self.concentration().minus(two_exec::<T>())))
        } else {
            None
        }
    }

    /// The log-density (see [`beta_log_pdf`]).
    pub fn log_pdf(&self, x: T) -> (r: T)
        ensures
            r == beta_log_pdf(self@, x),
    {
        if !(T::zero().le(x) && x.le(T::one())) {
            return T::infinity().negate();
        }
        let one = T::one();
        xlogy(self.alpha.minus(one), x).plus(xlogy(self.beta.minus(one), one.minus(x))).minus(ln_beta(self.alpha, self.beta))
    }

    /// The density, the exponential of [`Self::log_pdf`].
    pub fn pdf(&self, x: T) -> (r: T)
        ensures
            r == beta_log_pdf(self@, x).exp_spec(),
    {
        self.log_pdf(x).exp()
    }

    /// The distribution function `I_x(alpha, beta)`.
    pub fn cdf(&self, x: T) -> (r: T)
        ensures
            r == incomplete_beta(self@.0, self@.1, x),
    {
        regularized_incomplete_beta(self.alpha, self.beta, x)
    }

    /// The quantile at `p` (see [`beta_quantile`]).
    pub fn quantile(&self, p: T) -> (r: T)
        ensures
            r == beta_quantile(self@, p),
    {
        if !p.eq(p) {
            return p;
        }
        if !(T::zero().le(p) && p.le(T::one())) {
            return T::zero().divide(T::zero());
        }
        if p.eq(T::zero()) {
            return T::zero();
        }
        if p.eq(T::one()) {
            return T::one();
        }
        let h = decimal_exec::<T>(5, 1);
        let eps = decimal_exec::<T>(1, 15);
        let mut lo = T::zero();
        let mut hi = T::one();
        let mut k: usize = 0;
        while k < 200
            invariant
                k <= 200,
                h == half::<T>(),
                eps == decimal::<T>(1, 15),
                beta_bisect(self@, p, k as int, lo, hi) == beta_quantile(self@, p),
            decreases 200 - k,
        {
            let mid = h.times(lo.plus(hi));
            if self.cdf(mid).lt(p) {
                lo = mid;
            } else {
                hi = mid;
            }
            if hi.minus(lo).lt(eps) {
                return h.times(lo.plus(hi));
            }
            k = k + 1;
        }
        h.times(lo.plus(hi))
    }

    /// The equal-tailed credible interval of probability `mass`: the quantiles at
    /// `(1 - mass) / 2` and at one minus that.
    pub fn credible_interval(&self, mass: T) -> (r: (T, T))
        requires
            valid_mass(mass),
        ensures
            r == (beta_quantile(self@, tail_of(mass)), beta_quantile(self@, T::one_spec().minus_spec(tail_of(mass)))),
    {
        let tail = decimal_exec::<T>(5, 1).times(T::one().minus(mass));
        (self.quantile(tail), self.quantile(T::one().minus(tail)))
    }

    /// The conjugate posterior `Beta(alpha + successes, beta + failures)`.
    pub fn update(&self, successes: u64, failures: u64) -> (r: Self)
        ensures
            r@ == (self@.0.plus_spec(T::from_u64_spec(successes)), self@.1.plus_spec(T::from_u64_spec(failures))),
    {
        Beta { alpha: self.alpha.plus(T::from_u64(successes)), beta: self.beta.plus(T::from_u64(failures)) }
    }

    /// The posterior after Bernoulli trials: the successes are the `true` entries.
    pub fn update_bernoulli(&self, observations: &[bool]) -> (r: Self)
        ensures
            r@ == (
                self@.0.plus_spec(T::from_u64_spec(count_true(observations@, observations@.len() as int) as u64)),
                self@.1.plus_spec(
                    T::from_u64_spec((observations@.len() - count_true(observations@, observations@.len() as int)) as u64),
                ),
            ),
    {
        let mut successes: usize = 0;
        for i in 0..observations.len()
            invariant
                successes == count_true(observations@, i as int),
                i <= observations@.len(),
        {
            proof {
                lemma_count_true_bound(observations@, i as int);
            }
            if observations[i] {
                successes = successes + 1;
            }
        }
        proof {
            lemma_count_true_bound(observations@, observations@.len() as int);
        }
        self.update(successes as u64, (observations.len() - successes) as u64)
    }

    /// The posterior after one Bernoulli trial.
    pub fn update_one(&self, success: bool) -> (r: Self)
        ensures
            r@ == if success {
                (self@.0.plus_spec(T::from_u64_spec(1)), self@.1.plus_spec(T::from_u64_spec(0)))
            } else {
                (self@.0.plus_spec(T::from_u64_spec(0)), self@.1.plus_spec(T::from_u64_spec(1)))
            },
    {
        if success {
            self.update(1, 0)
        } else {
            self.update(0, 1)
        }
    }

    /// The posterior after `successes` out of `trials`.
    pub fn update_binomial(&self, successes: u64, trials: u64) -> (r: Self)
        requires
            successes <= trials,
        ensures
            r@ == (
                self@.0.plus_spec(T::from_u64_spec(successes)),
                self@.1.plus_spec(T::from_u64_spec((trials - successes) as u64)),
            ),
    {
        self.update(successes, trials - successes)
    }

    /// The probability that the next trial succeeds under the predictive: the mean.
    pub fn predictive_success_probability(&self) -> (r: T)
        ensures
            r == beta_mean(self@),
    {
        self.mean()
    }

    /// The Bernoulli log-likelihood at rate `p` (see [`bernoulli_ll`]).
    pub fn log_likelihood(p: T, successes: u64, failures: u64) -> (r: T)
        ensures
            r == bernoulli_ll(p, successes, failures),
    {
        bernoulli_log_likelihood(p, successes, failures)
    }

    /// The binomial log-likelihood at rate `p` (see [`binomial_ll`]).
    pub fn log_likelihood_binomial(p: T, successes: u64, trials: u64) -> (r: T)
        ensures
            r == binomial_ll(p, successes, trials),
    {
        binomial_log_likelihood(p, successes, trials)
    }

    /// The unnormalised log-posterior: log-density plus Bernoulli log-likelihood at `x`.
    pub fn log_unnormalized_posterior(&self, x: T, successes: u64, failures: u64) -> (r: T)
        ensures
            r == beta_log_pdf(self@, x).plus_spec(bernoulli_ll(x, successes, failures)),
    {
        self.log_pdf(x).plus(bernoulli_log_likelihood(x, successes, failures))
    }

    /// The log evidence of `successes` and `failures` (see [`beta_evidence`]); the total
    /// count must fit in 64 bits.
    pub fn log_marginal_likelihood(&self, successes: u64, failures: u64) -> (r: T)
        requires
            successes + failures <= u64::MAX,
        ensures
            r == beta_evidence(self@, successes, failures),
    {
        let posterior = self.update(successes, failures);
        ln_binomial::<T>(successes + failures, successes).plus(ln_beta(posterior.alpha, posterior.beta)).minus(
            ln_beta(self.alpha, self.beta),
        )
    }
}

impl<T: Scalar> Default for Beta<T> {
    fn default() -> (r: Self)
        ensures
            r@ == (T::one_spec(), T::one_spec()),
    {
        Beta::uniform()
    }
}

// ===========================================================================
// The Gamma distribution
// ===========================================================================

/// The Gamma distribution `Gamma(shape, rate)`, the conjugate prior of a Poisson rate; its
/// view is `(shape, rate)`.
#[derive(Clone, Copy, Debug, PartialEq)]
pub struct Gamma<T> {
    shape: T,
    rate: T,
}

impl<T> View for Gamma<T> {
    type V = (T, T);

    closed spec fn view(&self) -> (T, T) {
        (self.shape, self.rate)
    }
}

/// The first parameter error of `Gamma(shape, rate)`, if any.
pub open spec fn gamma_error<T: Scalar>(shape: T, rate: T) -> Option<ParameterError> {
    match positive_error("shape", shape) {
        Some(e) => Some(e),
        None => positive_error("rate", rate),
    }
}

/// `k ln beta + (k - 1) ln x - beta x - ln Gamma(k)` with `0 ln 0 = 0`; negative infinity
/// for NaN or negative `x`.
pub open spec fn gamma_log_pdf<T: Scalar>(d: (T, T), x: T) -> T {
    if is_nan(x) || x.lt_spec(T::zero_spec()) {
        neg_infinity::<T>()
    } else {
        d.0.times_spec(d.1.ln_spec()).plus_spec(x_log_y(d.0.minus_spec(T::one_spec()), x)).minus_spec(d.1.times_spec(x)).minus_spec(
            log_gamma(d.0),
        )
    }
}

/// The sum of the counts.
pub open spec fn count_sum(s: Seq<u64>, k: int) -> int
    decreases k,
{
    if k <= 0 {
        0
    } else {
        count_sum(s, k - 1) + s[k - 1]
    }
}

proof fn lemma_count_sum_grows(s: Seq<u64>, j: int, k: int)
    requires
        0 <= j <= k <= s.len(),
    ensures
        0 <= count_sum(s, j) <= count_sum(s, k),
    decreases k,
{
    if k > j {
        lemma_count_sum_grows(s, j, k - 1);
    } else if j > 0 {
        lemma_count_sum_grows(s, j - 1, j - 1);
    }
}

/// The total of `counts`, which must fit in 64 bits.
fn total_count(counts: &[u64]) -> (r: u64)
    requires
        count_sum(counts@, counts@.len() as int) <= u64::MAX,
    ensures
        r == count_sum(counts@, counts@.len() as int),
{
    let mut total: u64 = 0;
    for i in 0..counts.len()
        invariant
            total == count_sum(counts@, i as int),
            count_sum(counts@, counts@.len() as int) <= u64::MAX,
            i <= counts@.len(),
    {
        proof {
            lemma_count_sum_grows(counts@, i + 1, counts@.len() as int);
        }
        total = total + counts[i];
    }
    total
}

/// `ln k!` for each count `k`.
pub open spec fn log_factorials<T: Scalar>(counts: Seq<u64>) -> Seq<T> {
    Seq::new(counts.len(), |i: int| log_factorial::<T>(counts[i]))
}

/// The Poisson evidence `k ln beta - ln Gamma(k) + ln Gamma(k') - k' ln beta' - sum ln x_i!`
/// with `k' = k + sum x_i` and `beta' = beta + n`.
pub open spec fn gamma_evidence<T: Scalar>(d: (T, T), counts: Seq<u64>) -> T {
    let n = T::from_u64_spec(counts.len() as u64);
    let post_shape = d.0.plus_spec(T::from_u64_spec(count_sum(counts, counts.len() as int) as u64));
    let post_rate = d.1.plus_spec(n);
    d.0.times_spec(d.1.ln_spec()).minus_spec(log_gamma(d.0)).plus_spec(log_gamma(post_shape)).minus_spec(
        post_shape.times_spec(post_rate.ln_spec()),
    ).minus_spec(seq_sum(log_factorials::<T>(counts)))
}

impl<T: Scalar> Gamma<T> {
    /// `Gamma(shape, rate)`, for finite and strictly positive parameters.
    pub fn new(shape: T, rate: T) -> (r: Self)
        requires
            gamma_error(shape, rate) is None,
        ensures
            r@ == (shape, rate),
    {
        Gamma { shape, rate }
    }

    /// `Gamma(shape, rate)`, or the first parameter error (see [`gamma_error`]).
    pub fn try_new(shape: T, rate: T) -> (r: Result<Self, ParameterError>)
        ensures
            match gamma_error(shape, rate) {
                Some(e) => r == Err::<Self, ParameterError>(e),
                None => r matches Ok(d) && d@ == (shape, rate),
            },
    {
        match check_positive("shape", shape) {
            Err(e) => {
                return Err(e);
            },
            Ok(()) => {},
        }
        match check_positive("rate", rate) {
            Err(e) => {
                return Err(e);
            },
            Ok(()) => {},
        }
        Ok(Gamma { shape, rate })
    }

    /// The shape `k`.
    pub fn shape(&self) -> (r: T)
        ensures
            r == self@.0,
    {
        self.shape
    }

    /// The rate `beta`.
    pub fn rate(&self) -> (r: T)
        ensures
            r == self@.1,
    {
        self.rate
    }

    /// The scale `1 / beta`.
    pub fn scale(&self) -> (r: T)
        ensures
            r == T::one_spec().divide_spec(self@.1),
    {
        T::one().divide(self.rate)
    }

    /// The mean `k / beta`.
    pub fn mean(&self) -> (r: T)
        ensures
            r == self@.0.divide_spec(self@.1),
    {
        self.shape.divide(self.rate)
    }

    /// The variance `k / beta^2`.
    pub fn variance(&self) -> (r: T)
        ensures
            r == self@.0.divide_spec(self@.1.times_spec(self@.1)),
    {
        self.shape.divide(self.rate.times(self.rate))
    }

    /// The mode `(k - 1) / beta`, for `k >= 1` only.
    pub fn mode(&self) -> (r: Option<T>)
        ensures
            r == if T::one_spec().le_spec(self@.0) {
                Some(self@.0.minus_spec(T::one_spec()).divide_spec(self@.1))
            } else {
                None
            },
    {
        if T::one().le(self.shape) {
            Some(self.shape.minus(T::one()).divide(self.rate))
        } else {
            None
        }
    }

    /// The log-density (see [`gamma_log_pdf`]).
    pub fn log_pdf(&self, x: T) -> (r: T)
        ensures
            r == gamma_log_pdf(self@, x),
    {
        if !x.eq(x) || x.lt(T::zero()) {
            return T::infinity().negate();
        }
        self.shape.times(self.rate.ln()).plus(xlogy(self.shape.minus(T::one()), x)).minus(self.rate.times(x)).minus(
            ln_gamma(self.shape),
        )
    }

    /// The density, the exponential of [`Self::log_pdf`].
    pub fn pdf(&self, x: T) -> (r: T)
        ensures
            r == gamma_log_pdf(self@, x).exp_spec(),
    {
        self.log_pdf(x).exp()
    }

    /// The conjugate posterior after Poisson counts: `Gamma(k + sum x_i, beta + n)`; the
    /// total must fit in 64 bits.
    pub fn update_poisson(&self, counts: &[u64]) -> (r: Self)
        requires
            count_sum(counts@, counts@.len() as int) <= u64::MAX,
        ensures
            r@ == (
                self@.0.plus_spec(T::from_u64_spec(count_sum(counts@, counts@.len() as int) as u64)),
                self@.1.plus_spec(T::from_u64_spec(counts@.len() as u64)),
            ),
    {
        let total = total_count(counts);
        self.update_poisson_summary(total, counts.len() as u64)
    }

    /// The conjugate posterior from the total count and the number of observations.
    pub fn update_poisson_summary(&self, total_count: u64, observations: u64) -> (r: Self)
        ensures
            r@ == (self@.0.plus_spec(T::from_u64_spec(total_count)), self@.1.plus_spec(T::from_u64_spec(observations))),
    {
        Gamma { shape: self.shape.plus(T::from_u64(total_count)), rate: self.rate.plus(T::from_u64(observations)) }
    }

    /// The log evidence of Poisson counts (see [`gamma_evidence`]); the total must fit in 64
    /// bits.
    pub fn log_marginal_likelihood_poisson(&self, counts: &[u64]) -> (r: T)
        requires
            count_sum(counts@, counts@.len() as int) <= u64::MAX,
        ensures
            r == gamma_evidence(self@, counts@),
    {
        let n = T::from_u64(counts.len() as u64);
        let total = total_count(counts);
        let ghost terms = log_factorials::<T>(counts@);
        let mut log_facts = T::zero().negate();
        for i in 0..counts.len()
            invariant
                terms == log_factorials::<T>(counts@),
                log_facts == sum_upto(terms, i as int),
        {
            log_facts = log_facts.plus(ln_factorial::<T>(counts[i]));
        }
        let post_shape = self.shape.plus(T::from_u64(total));
        let post_rate = self.rate.plus(n);
        self.shape.times(self.rate.ln()).minus(ln_gamma(self.shape)).plus(ln_gamma(post_shape)).minus(
            post_shape.times(post_rate.ln()),
        ).minus(log_facts)
    }
}

// ===========================================================================
// The Gaussian distribution
// ===========================================================================

/// The Gaussian distribution `N(mean, sd^2)`, also the Normal-Normal conjugate prior of an
/// unknown mean under known variance; its view is `(mean, sd)`.
#[derive(Clone, Copy, Debug, PartialEq)]
pub struct Gaussian<T> {
    mean: T,
    sd: T,
}

/// The other name of [`Gaussian`].
pub type Normal<T> = Gaussian<T>;

impl<T> View for Gaussian<T> {
    type V = (T, T);

    closed spec fn view(&self) -> (T, T) {
        (self.mean, self.sd)
    }
}

/// The first parameter error of `N(mean, sd^2)`, if any: a finite mean, a finite positive
/// standard deviation.
pub open spec fn gaussian_error<T: Scalar>(mean: T, sd: T) -> Option<ParameterError> {
    match finite_error("mean", mean) {
        Some(e) => Some(e),
        None => positive_error("std", sd),
    }
}

/// `(x - mean) / sd`.
pub open spec fn z_of<T: Scalar>(d: (T, T), x: T) -> T {
    x.minus_spec(d.0).divide_spec(d.1)
}

/// `-(1/2) z^2 - ln sd - (1/2) ln(2 pi)`.
pub open spec fn gaussian_log_pdf<T: Scalar>(d: (T, T), x: T) -> T {
    let z = z_of(d, x);
    decimal::<T>(-5i64, 1).times_spec(z).times_spec(z).minus_spec(d.1.ln_spec()).minus_spec(half::<T>().times_spec(ln_2pi::<T>()))
}

/// `sd^2`.
pub open spec fn gaussian_variance<T: Scalar>(d: (T, T)) -> T {
    d.1.times_spec(d.1)
}

/// The sample mean of the first elements as the update takes it: zero for no data, else
/// the in-order sum over the count.
pub open spec fn sample_mean<T: Scalar>(data: Seq<T>) -> T {
    if data.len() == 0 {
        T::zero_spec()
    } else {
        seq_sum(data).divide_spec(T::from_u64_spec(data.len() as u64))
    }
}

/// The Normal-Normal posterior from `n` observations with mean `m` and known variance `v`:
/// the prior for no observations, else precision `1/s0^2 + n/v` and mean
/// `(mu0 / s0^2 + m n / v) / precision`, as `(mean, sqrt(1 / precision))`.
pub open spec fn gaussian_posterior<T: Scalar>(d: (T, T), n: u64, m: T, v: T) -> (T, T) {
    if n == 0 {
        d
    } else {
        let prior_precision = T::one_spec().divide_spec(gaussian_variance(d));
        let data_precision = T::from_u64_spec(n).divide_spec(v);
        let posterior_variance = T::one_spec().divide_spec(prior_precision.plus_spec(data_precision));
        (
            d.0.times_spec(prior_precision).plus_spec(m.times_spec(data_precision)).times_spec(posterior_variance),
            posterior_variance.sqrt_spec(),
        )
    }
}

/// The log-density at `mu` of `N(x, v)` for each datum `x`.
pub open spec fn evidence_terms<T: Scalar>(data: Seq<T>, v: T, mu: T) -> Seq<T> {
    Seq::new(data.len(), |i: int| gaussian_log_pdf((data[i], v.sqrt_spec()), mu))
}

/// The Normal-Normal evidence at the prior mean `mu`: zero for no data, else
/// `sum ln N(mu; x_i, v) + ln p(mu) - ln p(mu | data)`.
pub open spec fn gaussian_evidence<T: Scalar>(d: (T, T), data: Seq<T>, v: T) -> T {
    if data.len() == 0 {
        T::zero_spec()
    } else {
        let post = gaussian_posterior(d, data.len() as u64, sample_mean(data), v);
        seq_sum(evidence_terms(data, v, d.0)).plus_spec(gaussian_log_pdf(d, d.0)).minus_spec(gaussian_log_pdf(post, d.0))
    }
}

impl<T: Scalar> Gaussian<T> {
    /// `N(mean, sd^2)`, for a finite mean and a finite positive standard deviation.
    pub fn new(mean: T, sd: T) -> (r: Self)
        requires
            gaussian_error(mean, sd) is None,
        ensures
            r@ == (mean, sd),
    {
        Gaussian { mean, sd }
    }

    /// `N(mean, sd^2)`, or the first parameter error (see [`gaussian_error`]).
    pub fn try_new(mean: T, sd: T) -> (r: Result<Self, ParameterError>)
        ensures
            match gaussian_error(mean, sd) {
                Some(e) => r == Err::<Self, ParameterError>(e),
                None => r matches Ok(d) && d@ == (mean, sd),
            },
    {
        match check_finite("mean", mean) {
            Err(e) => {
                return Err(e);
            },
            Ok(()) => {},
        }
        match check_positive("std", sd) {
            Err(e) => {
                return Err(e);
            },
            Ok(()) => {},
        }
        Ok(Gaussian { mean, sd })
    }

    /// `N(mean, variance)`, for a finite positive variance whose square root is a valid
    /// standard deviation.
    pub fn from_variance(mean: T, variance: T) -> (r: Self)
        requires
            positive_error("variance", variance) is None,
            gaussian_error(mean, variance.sqrt_spec()) is None,
        ensures
            r@ == (mean, variance.sqrt_spec()),
    {
        Gaussian::new(mean, variance.sqrt())
    }

    /// The standard normal `N(0, 1)`.
    pub fn standard() -> (r: Self)
        ensures
            r@ == (T::zero_spec(), T::one_spec()),
    {
        Gaussian { mean: T::zero(), sd: T::one() }
    }

    /// The mean.
    pub fn mean(&self) -> (r: T)
        ensures
            r == self@.0,
    {
        self.mean
    }

    /// The standard deviation.
    pub fn std_dev(&self) -> (r: T)
        ensures
            r == self@.1,
    {
        self.sd
    }

    /// The variance `sd^2`.
    pub fn variance(&self) -> (r: T)
        ensures
            r == gaussian_variance(self@),
    {
        self.sd.times(self.sd)
    }

    /// The precision `1 / sd^2`.
    pub fn precision(&self) -> (r: T)
        ensures
            r == T::one_spec().divide_spec(gaussian_variance(self@)),
    {
        T::one().divide(self.variance())
    }

    /// `(x - mean) / sd`.
    pub fn z_score(&self, x: T) -> (r: T)
        ensures
            r == z_of(self@, x),
    {
        x.minus(self.mean).divide(self.sd)
    }

    /// The log-density (see [`gaussian_log_pdf`]).
    pub fn log_pdf(&self, x: T) -> (r: T)
        ensures
            r == gaussian_log_pdf(self@, x),
    {
        let z = self.z_score(x);
        decimal_exec::<T>(-5, 1).times(z).times(z).minus(self.sd.ln()).minus(decimal_exec::<T>(5, 1).times(ln_2pi_exec::<T>()))
    }

    /// The density, the exponential of [`Self::log_pdf`].
    pub fn pdf(&self, x: T) -> (r: T)
        ensures
            r == gaussian_log_pdf(self@, x).exp_spec(),
    {
        self.log_pdf(x).exp()
    }

    /// The distribution function `Phi((x - mean) / sd)`.
    pub fn cdf(&self, x: T) -> (r: T)
        ensures
            r == normal_cdf(z_of(self@, x)),
    {
        standard_normal_cdf(self.z_score(x))
    }

    /// The quantile `mean + sd Phi^-1(p)`.
    pub fn quantile(&self, p: T) -> (r: T)
        ensures
            r == self@.0.plus_spec(self@.1.times_spec(normal_quantile(p))),
    {
        self.mean.plus(self.sd.times(standard_normal_quantile(p)))
    }

    /// The equal-tailed credible interval of probability `mass`.
    pub fn credible_interval(&self, mass: T) -> (r: (T, T))
        requires
            valid_mass(mass),
        ensures
            r == (
                self@.0.plus_spec(self@.1.times_spec(normal_quantile(tail_of(mass)))),
                self@.0.plus_spec(self@.1.times_spec(normal_quantile(T::one_spec().minus_spec(tail_of(mass))))),
            ),
    {
        let tail = decimal_exec::<T>(5, 1).times(T::one().minus(mass));
        (self.quantile(tail), self.quantile(T::one().minus(tail)))
    }

    /// The log-likelihood of independent data (see [`gaussian_ll`]).
    pub fn log_likelihood(&self, data: &[T]) -> (r: T)
        ensures
            r == gaussian_ll(data@, self@.0, self@.1),
    {
        let n = T::from_u64(data.len() as u64);
        decimal_exec::<T>(-5, 1).times(squared_score_sum(data, self.mean, self.sd)).minus(
            n.times(self.sd.ln().plus(decimal_exec::<T>(5, 1).times(ln_2pi_exec::<T>()))),
        )
    }

    /// The Normal-Normal posterior after `data` with known variance (see
    /// [`gaussian_posterior`] and [`sample_mean`]); the variance must be a valid parameter,
    /// and so must the sample mean of non-empty data.
    pub fn update(&self, data: &[T], known_variance: T) -> (r: Self)
        requires
            positive_error("known_variance", known_variance) is None,
            data@.len() > 0 ==> finite_error("sample_mean", sample_mean(data@)) is None,
        ensures
            r@ == gaussian_posterior(self@, data@.len() as u64, sample_mean(data@), known_variance),
    {
        let sample_mean = if data.len() == 0 {
            T::zero()
        } else {
            sum_exec(data).divide(T::from_u64(data.len() as u64))
        };
        self.update_summary(data.len() as u64, sample_mean, known_variance)
    }

    /// The Normal-Normal posterior from the number of observations and their mean (see
    /// [`gaussian_posterior`]); the variance must be a valid parameter, and so must the
    /// sample mean when there are observations.
    pub fn update_summary(&self, observations: u64, sample_mean: T, known_variance: T) -> (r: Self)
        requires
            positive_error("known_variance", known_variance) is None,
            observations > 0 ==> finite_error("sample_mean", sample_mean) is None,
        ensures
            r@ == gaussian_posterior(self@, observations, sample_mean, known_variance),
    {
        if observations == 0 {
            return *self;
        }
        let n = T::from_u64(observations);
        let prior_precision = self.precision();
        let data_precision = n.divide(known_variance);
        let posterior_variance = T::one().divide(prior_precision.plus(data_precision));
        let posterior_mean = self.mean.times(prior_precision).plus(sample_mean.times(data_precision)).times(posterior_variance);
        Gaussian { mean: posterior_mean, sd: posterior_variance.sqrt() }
    }

    /// The predictive distribution of one new observation: `N(mean, sd^2 + v)`.
    pub fn posterior_predictive(&self, known_variance: T) -> (r: Self)
        requires
            positive_error("known_variance", known_variance) is None,
        ensures
            r@ == (self@.0, gaussian_variance(self@).plus_spec(known_variance).sqrt_spec()),
    {
        Gaussian { mean: self.mean, sd: self.variance().plus(known_variance).sqrt() }
    }

    /// The log evidence of `data` under the Normal-Normal model (see [`gaussian_evidence`]);
    /// the variance and its square root must be valid parameters, every datum finite, and
    /// the sample mean finite.
    pub fn log_marginal_likelihood(&self, data: &[T], known_variance: T) -> (r: T)
        requires
            positive_error("known_variance", known_variance) is None,
            positive_error("std", known_variance.sqrt_spec()) is None,
            forall|i: int| 0 <= i < data@.len() ==> (#[trigger] data@[i]).is_finite_spec(),
            data@.len() > 0 ==> finite_error("sample_mean", sample_mean(data@)) is None,
        ensures
            r == gaussian_evidence(self@, data@, known_variance),
    {
        if data.len() == 0 {
            return T::zero();
        }
        let posterior = self.update(data, known_variance);
        let mu = self.mean;
        let s = known_variance.sqrt();
        let ghost terms = evidence_terms(data@, known_variance, mu);
        let mut likelihood = T::zero().negate();
        for i in 0..data.len()
            invariant
                terms == evidence_terms(data@, known_variance, mu),
                s == known_variance.sqrt_spec(),
                positive_error("std", s) is None,
                forall|j: int| 0 <= j < data@.len() ==> (#[trigger] data@[j]).is_finite_spec(),
                likelihood == sum_upto(terms, i as int),
        {
            let g = Gaussian::new(data[i], s);
            likelihood = likelihood.plus(g.log_pdf(mu));
        }
        likelihood.plus(self.log_pdf(mu)).minus(posterior.log_pdf(mu))
    }
}

impl<T: Scalar> Default for Gaussian<T> {
    fn default() -> (r: Self)
        ensures
            r@ == (T::zero_spec(), T::one_spec()),
    {
        Gaussian::standard()
    }
}


// ===========================================================================
// Variates
// ===========================================================================

/// The polar candidate `(u, s)` of two 64-bit draws: `u = 2 U(x) - 1`, `v = 2 U(y) - 1`
/// and `s = u^2 + v^2`, with `U` the unit value of a draw (see [`unit_from_bits`]).
pub open spec fn polar_pair<T: Scalar>(x: u64, y: u64) -> (T, T) {
    let one = T::one_spec();
    let u = two::<T>().times_spec(unit_from_bits::<T>(x)).minus_spec(one);
    let v = two::<T>().times_spec(unit_from_bits::<T>(y)).minus_spec(one);
    (u, u.times_spec(u).plus_spec(v.times_spec(v)))
}

/// The polar method accepts the draws: `0 < s < 1`.
pub open spec fn polar_accepts<T: Scalar>(x: u64, y: u64) -> bool {
    let (u, s) = polar_pair::<T>(x, y);
    T::zero_spec().lt_spec(s) && s.lt_spec(T::one_spec())
}

/// The standard normal variate of accepted draws: `u sqrt(-2 ln s / s)`.
pub open spec fn polar_value<T: Scalar>(x: u64, y: u64) -> T {
    let (u, s) = polar_pair::<T>(x, y);
    u.times_spec(T::from_int_spec(-2i64).times_spec(s.ln_spec()).divide_spec(s).sqrt_spec())
}

/// A standard normal variate by the Marsaglia polar method: pairs of draws until a pair is
/// accepted (see [`polar_accepts`]), its [`polar_value`]. The attempts are bounded by
/// `u64::MAX`, after which the result is zero (with acceptance probability `pi / 4` per
/// attempt this does not happen in practice).
pub fn sample_standard_normal<T: Scalar, R: Rng>(rng: &mut R) -> (r: T)
    ensures
        r == T::zero_spec() || exists|x: u64, y: u64| polar_accepts::<T>(x, y) && r == polar_value::<T>(x, y),
{
    let one = T::one();
    let two_t = two_exec::<T>();
    let mut attempts: u64 = 0;
    while attempts < u64::MAX
        invariant
            one == T::one_spec(),
            two_t == two::<T>(),
        decreases u64::MAX - attempts,
    {
        attempts = attempts + 1;
        let x = rng.next_u64();
        let y = rng.next_u64();
        let u = two_t.times(unit_from_draw::<T>(x)).minus(one);
        let v = two_t.times(unit_from_draw::<T>(y)).minus(one);
        let s = u.times(u).plus(v.times(v));
        if T::zero().lt(s) && s.lt(one) {
            let r = u.times(T::from_int(-2).times(s.ln()).divide(s).sqrt());
            assert(polar_accepts::<T>(x, y) && r == polar_value::<T>(x, y));
            return r;
        }
    }
    T::zero()
}

/// The shape that the Marsaglia-Tsang squeeze runs at and the boost factor, given the draw
/// `b` that the boost uses: below shape one, `shape + 1` and `max(U(b), 2^-1022)^(1/shape)`
/// (with `U` the unit value of a draw, see [`unit_from_bits`]); otherwise the shape itself
/// and one.
pub open spec fn gamma_boost<T: Scalar>(shape: T, b: u64) -> (T, T) {
    let one = T::one_spec();
    if shape.lt_spec(one) {
        (
            shape.plus_spec(one),
            unit_from_bits::<T>(b).max_spec(two::<T>().powi_spec(-1022i32)).powf_spec(one.divide_spec(shape)),
        )
    } else {
        (shape, one)
    }
}

/// The Marsaglia-Tsang constants for shape `k`: `d = k - 1/3` and `c = 1 / sqrt(9 d)`.
pub open spec fn tsang_constants<T: Scalar>(k: T) -> (T, T) {
    let d = k.minus_spec(T::one_spec().divide_spec(T::from_int_spec(3)));
    (d, T::one_spec().divide_spec(T::from_int_spec(9).times_spec(d).sqrt_spec()))
}

/// The candidate cube `v^3` for the normal draw `x`, with `v = 1 + c x`.
pub open spec fn tsang_cube<T: Scalar>(c: T, x: T) -> T {
    let v = T::one_spec().plus_spec(c.times_spec(x));
    v.times_spec(v).times_spec(v)
}

/// The squeeze accepts the normal draw `x` with the unit value `u` of the draw `b`: `v > 0`
/// and either `u < 1 - 0.0331 x^4` or `ln u < x^2 / 2 + d (1 - v^3 + ln v^3)`.
pub open spec fn tsang_accepts<T: Scalar>(d: T, c: T, x: T, b: u64) -> bool {
    let one = T::one_spec();
    let v = one.plus_spec(c.times_spec(x));
    let v3 = tsang_cube(c, x);
    let u = unit_from_bits::<T>(b);
    &&& !v.le_spec(T::zero_spec())
    &&& (u.lt_spec(one.minus_spec(decimal::<T>(331, 4).times_spec(x).times_spec(x).times_spec(x).times_spec(x)))
        || u.ln_spec().lt_spec(
        decimal::<T>(5, 1).times_spec(x).times_spec(x).plus_spec(d.times_spec(one.minus_spec(v3).plus_spec(v3.ln_spec()))),
    ))
}

/// `g` is a value that [`sample_standard_gamma`] can return for `shape`: for some boost draw
/// (see [`gamma_boost`]), the boosted `d` (every attempt rejected) or the boosted `d v^3` of
/// a normal draw that the squeeze accepts (see [`tsang_accepts`]).
pub open spec fn gamma_variate<T: Scalar>(shape: T, g: T) -> bool {
    exists|b: u64|
        #![trigger gamma_boost(shape, b)]
        {
            let (k, boost) = gamma_boost(shape, b);
            let (d, c) = tsang_constants(k);
            g == boost.times_spec(d) || exists|x: T, b2: u64|
                #![trigger tsang_accepts(d, c, x, b2)]
                tsang_accepts(d, c, x, b2) && g == boost.times_spec(d).times_spec(tsang_cube(c, x))
        }
}

/// An accepted squeeze candidate is a value of [`gamma_variate`].
proof fn lemma_accepted_gamma_variate<T: Scalar>(shape: T, b0: u64, x: T, b: u64)
    requires
        tsang_accepts(tsang_constants(gamma_boost(shape, b0).0).0, tsang_constants(gamma_boost(shape, b0).0).1, x, b),
    ensures
        gamma_variate(
            shape,
            gamma_boost(shape, b0).1.times_spec(tsang_constants(gamma_boost(shape, b0).0).0).times_spec(
                tsang_cube(tsang_constants(gamma_boost(shape, b0).0).1, x),
            ),
        ),
{
    let (k, boost) = gamma_boost(shape, b0);
    let (d, c) = tsang_constants(k);
    assert(tsang_accepts(d, c, x, b));
}

/// A `Gamma(shape, 1)` variate by the Marsaglia-Tsang squeeze, with the boost
/// `Gamma(k) = Gamma(k + 1) U^(1/k)` below shape one (see [`gamma_variate`]). The attempts
/// are bounded by `u64::MAX`, after which the result is the boosted `d = k - 1/3` (the
/// candidate at a zero normal draw); the acceptance rate is above 95% per attempt.
pub fn sample_standard_gamma<T: Scalar, R: Rng>(shape: T, rng: &mut R) -> (r: T)
    ensures
        gamma_variate(shape, r),
{
    let one = T::one();
    let ghost mut b0: u64 = 0;
    let (k, boost) = if shape.lt(one) {
        let b = rng.next_u64();
        proof {
            b0 = b;
        }
        let u = unit_from_draw::<T>(b).max(two_exec::<T>().powi(-1022));
        (shape.plus(one), u.powf(one.divide(shape)))
    } else {
        (shape, one)
    };
    assert((k, boost) == gamma_boost(shape, b0));
    let d = k.minus(one.divide(T::from_int(3)));
    let c = one.divide(T::from_int(9).times(d).sqrt());
    assert((d, c) == tsang_constants(k));
    let squeeze = decimal_exec::<T>(331, 4);
    let h = decimal_exec::<T>(5, 1);
    let mut attempts: u64 = 0;
    while attempts < u64::MAX
        invariant
            one == T::one_spec(),
            squeeze == decimal::<T>(331, 4),
            h == decimal::<T>(5, 1),
            (k, boost) == gamma_boost(shape, b0),
            (d, c) == tsang_constants(k),
        decreases u64::MAX - attempts,
    {
        attempts = attempts + 1;
        let x = sample_standard_normal::<T, R>(rng);
        let v = one.plus(c.times(x));
        if v.le(T::zero()) {
            continue;
        }
        let v3 = v.times(v).times(v);
        let b = rng.next_u64();
        let u = unit_from_draw::<T>(b);
        if u.lt(one.minus(squeeze.times(x).times(x).times(x).times(x))) {
            let r = boost.times(d).times(v3);
            proof {
                lemma_accepted_gamma_variate(shape, b0, x, b);
            }
            return r;
        }
        if u.ln().lt(h.times(x).times(x).plus(d.times(one.minus(v3).plus(v3.ln())))) {
            let r = boost.times(d).times(v3);
            proof {
                lemma_accepted_gamma_variate(shape, b0, x, b);
            }
            return r;
        }
    }
    let r = boost.times(d);
    assert(gamma_boost(shape, b0) == (k, boost));
    r
}

/// `x` clamped to `[0, 1]`.
pub open spec fn clamp_unit<T: Scalar>(x: T) -> T {
    if x.lt_spec(T::zero_spec()) {
        T::zero_spec()
    } else if T::one_spec().lt_spec(x) {
        T::one_spec()
    } else {
        x
    }
}

/// `r` is a value that [`Beta::sample`] can return for `(alpha, beta)`: the clamped
/// `G1 / (G1 + G2)` of gamma variates (see [`gamma_variate`]) with a finite positive total
/// and a finite ratio, or the fallback one / zero of a uniform value against the mean.
pub open spec fn beta_variate<T: Scalar>(d: (T, T), r: T) -> bool {
    ||| exists|g1: T, g2: T|
        #![trigger gamma_variate(d.0, g1), gamma_variate(d.1, g2)]
        {
            let total = g1.plus_spec(g2);
            let x = g1.divide_spec(total);
            &&& gamma_variate(d.0, g1)
            &&& gamma_variate(d.1, g2)
            &&& T::zero_spec().lt_spec(total) && total.is_finite_spec() && x.is_finite_spec()
            &&& r == clamp_unit(x)
        }
    ||| exists|b: u64|
        r == if #[trigger] unit_from_bits::<T>(b).lt_spec(beta_mean(d)) {
            T::one_spec()
        } else {
            T::zero_spec()
        }
}

impl<T: Scalar> Beta<T> {
    /// One variate in `[0, 1]`: `G1 / (G1 + G2)` for `G1 ~ Gamma(alpha)` and
    /// `G2 ~ Gamma(beta)`, clamped, retried up to 16 times while the total is not finite and
    /// positive or the ratio is not finite; after that one or zero, one when a uniform falls
    /// below the mean (see [`beta_variate`]).
    pub fn sample<R: Rng>(&self, rng: &mut R) -> (r: T)
        ensures
            beta_variate(self@, r),
            r == T::zero_spec() || r == T::one_spec() || (r.is_finite_spec() && !r.lt_spec(T::zero_spec())
                && !T::one_spec().lt_spec(r)),
    {
        for _i in 0..16usize {
            let g1 = sample_standard_gamma(self.alpha, rng);
            let g2 = sample_standard_gamma(self.beta, rng);
            let total = g1.plus(g2);
            if T::zero().lt(total) && total.is_finite() {
                let x = g1.divide(total);
                if x.is_finite() {
                    let r = if x.lt(T::zero()) {
                        T::zero()
                    } else if T::one().lt(x) {
                        T::one()
                    } else {
                        x
                    };
                    assert(gamma_variate(self@.0, g1) && gamma_variate(self@.1, g2) && r == clamp_unit(x));
                    return r;
                }
            }
        }
        let b = rng.next_u64();
        let r = if unit_from_draw::<T>(b).lt(self.mean()) {
            T::one()
        } else {
            T::zero()
        };
        assert(r == if unit_from_bits::<T>(b).lt_spec(beta_mean(self@)) {
            T::one_spec()
        } else {
            T::zero_spec()
        });
        r
    }
}

impl<T: Scalar> Distribution<T> for Beta<T> {
    /// A value of [`beta_variate`].
    open spec fn can_give(&self, x: T) -> bool {
        beta_variate(self@, x)
    }

    /// See [`Beta::sample`].
    fn sample<R: Rng>(&self, rng: &mut R) -> T {
        Beta::sample(self, rng)
    }
}

impl<T: Scalar> Gamma<T> {
    /// One variate: a `Gamma(shape, 1)` variate (see [`sample_standard_gamma`]) over the rate.
    pub fn sample<R: Rng>(&self, rng: &mut R) -> (r: T)
        ensures
            exists|g: T| gamma_variate(self@.0, g) && r == g.divide_spec(self@.1),
    {
        let g = sample_standard_gamma(self.shape, rng);
        let r = g.divide(self.rate);
        assert(gamma_variate(self@.0, g) && r == g.divide_spec(self@.1));
        r
    }
}

impl<T: Scalar> Distribution<T> for Gamma<T> {
    /// A `Gamma(shape, 1)` variate (see [`gamma_variate`]) over the rate.
    open spec fn can_give(&self, x: T) -> bool {
        exists|g: T| #[trigger] gamma_variate(self@.0, g) && x == g.divide_spec(self@.1)
    }

    /// See [`Gamma::sample`].
    fn sample<R: Rng>(&self, rng: &mut R) -> T {
        Gamma::sample(self, rng)
    }
}

impl<T: Scalar> Gaussian<T> {
    /// One variate: `mean + sd z` for a standard normal `z` (see [`sample_standard_normal`]).
    pub fn sample<R: Rng>(&self, rng: &mut R) -> (r: T)
        ensures
            r == self@.0.plus_spec(self@.1.times_spec(T::zero_spec())) || exists|x: u64, y: u64|
                polar_accepts::<T>(x, y) && r == self@.0.plus_spec(self@.1.times_spec(polar_value::<T>(x, y))),
    {
        let z = sample_standard_normal::<T, R>(rng);
        self.mean.plus(self.sd.times(z))
    }
}

impl<T: Scalar> Distribution<T> for Gaussian<T> {
    /// `mean + sd z` for `z` zero or the polar value of accepted draws (see
    /// [`sample_standard_normal`]).
    open spec fn can_give(&self, r: T) -> bool {
        r == self@.0.plus_spec(self@.1.times_spec(T::zero_spec())) || exists|x: u64, y: u64|
            #[trigger] polar_accepts::<T>(x, y) && r == self@.0.plus_spec(self@.1.times_spec(polar_value::<T>(x, y)))
    }

    /// See [`Gaussian::sample`].
    fn sample<R: Rng>(&self, rng: &mut R) -> T {
        Gaussian::sample(self, rng)
    }
}

// ===========================================================================
// Random-walk Metropolis
// ===========================================================================

/// The Metropolis rule for a symmetric proposal, given the draw `x` it may use: reject a
/// NaN or negative-infinite candidate, accept one at least as likely as the current state,
/// else accept when `ln U(x)` is below the log-ratio.
pub open spec fn acceptance<T: Scalar>(x: u64, log_current: T, log_candidate: T) -> bool {
    if is_nan(log_candidate) || log_candidate.eq_spec(neg_infinity::<T>()) {
        false
    } else if log_current.le_spec(log_candidate) {
        true
    } else {
        unit_from_bits::<T>(x).ln_spec().lt_spec(log_candidate.minus_spec(log_current))
    }
}

/// The rule decides without a draw: a NaN or negative-infinite candidate, or one at least
/// as likely as the current state.
pub open spec fn decided_without_draw<T: Scalar>(log_current: T, log_candidate: T) -> bool {
    is_nan(log_candidate) || log_candidate.eq_spec(neg_infinity::<T>()) || log_current.le_spec(log_candidate)
}

/// The Metropolis rule on a given draw (see [`acceptance`]).
pub fn accepts<T: Scalar>(x: u64, log_current: T, log_candidate: T) -> (r: bool)
    ensures
        r == acceptance(x, log_current, log_candidate),
{
    if !log_candidate.eq(log_candidate) || log_candidate.eq(T::infinity().negate()) {
        return false;
    }
    if log_current.le(log_candidate) {
        return true;
    }
    unit_from_draw::<T>(x).ln().lt(log_candidate.minus(log_current))
}

/// The Metropolis rule, drawing from `rng` only when the rule needs a uniform.
pub fn accept<T: Scalar, R: Rng>(rng: &mut R, log_current: T, log_candidate: T) -> (r: bool)
    ensures
        decided_without_draw(log_current, log_candidate) ==> r == acceptance(0, log_current, log_candidate),
        exists|x: u64| r == acceptance(x, log_current, log_candidate),
{
    if !log_candidate.eq(log_candidate) || log_candidate.eq(T::infinity().negate()) || log_current.le(log_candidate) {
        let r = accepts(0, log_current, log_candidate);
        assert(r == acceptance(0, log_current, log_candidate));
        return r;
    }
    let x = rng.next_u64();
    accepts(x, log_current, log_candidate)
}

impl<F, P> Metropolis<F, P> {
    /// The log-target can be evaluated anywhere.
    pub open spec fn total_target<T>(&self) -> bool where F: Fn(T) -> T {
        forall|x: T| #[trigger] self.log_target_spec().requires((x,))
    }

    /// Counters that a chain can advance by `steps` proposals: at most as many acceptances
    /// as proposals, and room for `steps` more.
    pub open spec fn room_for(&self, steps: int) -> bool {
        self.accepted_spec() <= self.proposals_spec() && self.proposals_spec() + steps <= u64::MAX
    }

    /// `after` is `self` after `steps` more proposals, with the same target and proposal.
    pub open spec fn advanced(&self, after: Self, steps: int) -> bool {
        &&& after.log_target_spec() == self.log_target_spec()
        &&& after.proposal_spec() == self.proposal_spec()
        &&& after.proposals_spec() == self.proposals_spec() + steps
        &&& self.accepted_spec() <= after.accepted_spec() <= after.proposals_spec()
        &&& after.accepted_spec() - self.accepted_spec() <= steps
    }

    /// One step with the current log-target known: a candidate `current + increment` from
    /// the proposal, then the Metropolis rule; the next state with its log-target.
    fn step_cached<T: Scalar, R: Rng>(&mut self, rng: &mut R, current: T, log_current: T) -> (r: (T, T)) where
        F: Fn(T) -> T,
        P: Distribution<T>,

        requires
            old(self).total_target(),
            old(self).room_for(1),
        ensures
            old(self).advanced(*final(self), 1),
            final(self).accepted_spec() == old(self).accepted_spec() ==> r == (current, log_current) && exists|
                increment: T,
                log_candidate: T,
                x: u64,
            |
                old(self).proposal_spec().can_give(increment) && old(self).log_target_spec().ensures(
                    (current.plus_spec(increment),),
                    log_candidate,
                ) && !acceptance(
                    x,
                    log_current,
                    log_candidate,
                ),
            final(self).accepted_spec() != old(self).accepted_spec() ==> old(self).log_target_spec().ensures((r.0,), r.1)
                && exists|increment: T, x: u64|
                old(self).proposal_spec().can_give(increment) && r.0 == current.plus_spec(increment) && acceptance(
                    x,
                    log_current,
                    r.1,
                ),
    {
        let increment = self.proposal().sample(rng);
        let candidate = current.plus(increment);
        let log_candidate = (self.log_target())(candidate);
        let accepted = accept(rng, log_current, log_candidate);
        let ghost x = choose|x: u64| accepted == acceptance(x, log_current, log_candidate);
        self.record_proposal(accepted);
        if accepted {
            assert(candidate == current.plus_spec(increment) && acceptance(x, log_current, log_candidate));
            (candidate, log_candidate)
        } else {
            assert(!acceptance(x, log_current, log_candidate));
            (current, log_current)
        }
    }

    /// One Metropolis step from `current`: the accepted candidate, or `current` again.
    pub fn step<T: Scalar, R: Rng>(&mut self, rng: &mut R, current: T) -> (r: T) where
        F: Fn(T) -> T,
        P: Distribution<T>,

        requires
            old(self).total_target(),
            old(self).room_for(1),
        ensures
            old(self).advanced(*final(self), 1),
            final(self).accepted_spec() == old(self).accepted_spec() ==> r == current && exists|
                log_current: T,
                increment: T,
                log_candidate: T,
                x: u64,
            |
                old(self).proposal_spec().can_give(increment) && old(self).log_target_spec().ensures((current,), log_current)
                    && old(self).log_target_spec().ensures(
                    (current.plus_spec(increment),),
                    log_candidate,
                ) && !acceptance(x, log_current, log_candidate),
            final(self).accepted_spec() != old(self).accepted_spec() ==> exists|
                log_current: T,
                increment: T,
                log_candidate: T,
                x: u64,
            |
                old(self).proposal_spec().can_give(increment) && old(self).log_target_spec().ensures((current,), log_current)
                    && r == current.plus_spec(increment)
                    && old(self).log_target_spec().ensures((r,), log_candidate) && acceptance(
                    x,
                    log_current,
                    log_candidate,
                ),
    {
        let log_current = (self.log_target())(current);
        self.step_cached(rng, current, log_current).0
    }

    /// `burn_in` discarded steps from `init`, then `n` steps whose states form the trace.
    pub fn run_with_burn_in<T: Scalar, R: Rng>(&mut self, rng: &mut R, init: T, burn_in: usize, n: usize) -> (r: Vec<T>) where
        F: Fn(T) -> T,
        P: Distribution<T>,

        requires
            old(self).total_target(),
            old(self).room_for(burn_in + n),
        ensures
            r@.len() == n,
            old(self).advanced(*final(self), burn_in + n),
    {
        let mut state = init;
        let mut log_state = (self.log_target())(init);
        let ghost start = *self;
        for i in 0..burn_in
            invariant
                self.total_target(),
                start.total_target(),
                start.room_for(burn_in + n),
                start.advanced(*self, i as int),
        {
            let (next, log_next) = self.step_cached(rng, state, log_state);
            state = next;
            log_state = log_next;
        }
        let mut trace: Vec<T> = Vec::new();
        for i in 0..n
            invariant
                self.total_target(),
                start.total_target(),
                start.room_for(burn_in + n),
                start.advanced(*self, burn_in + i),
                trace@.len() == i,
        {
            let (next, log_next) = self.step_cached(rng, state, log_state);
            state = next;
            log_state = log_next;
            trace.push(state);
        }
        trace
    }

    /// `n` steps from `init`; the trace has `n` states and does not hold `init`.
    pub fn run<T: Scalar, R: Rng>(&mut self, rng: &mut R, init: T, n: usize) -> (r: Vec<T>) where
        F: Fn(T) -> T,
        P: Distribution<T>,

        requires
            old(self).total_target(),
            old(self).room_for(n as int),
        ensures
            r@.len() == n,
            old(self).advanced(*final(self), n as int),
    {
        self.run_with_burn_in(rng, init, 0, n)
    }

    /// `burn_in` discarded steps, then `n` trace states each `thin` steps apart.
    pub fn run_thinned<T: Scalar, R: Rng>(&mut self, rng: &mut R, init: T, burn_in: usize, n: usize, thin: usize) -> (r: Vec<
        T,
    >) where F: Fn(T) -> T, P: Distribution<T>,

        requires
            thin > 0,
            old(self).total_target(),
            old(self).room_for(burn_in + n * thin),
        ensures
            r@.len() == n,
            old(self).advanced(*final(self), burn_in + n * thin),
    {
        let mut state = init;
        let mut log_state = (self.log_target())(init);
        let ghost start = *self;
        for i in 0..burn_in
            invariant
                self.total_target(),
                start.total_target(),
                start.room_for(burn_in + n * thin),
                start.advanced(*self, i as int),
        {
            let (next, log_next) = self.step_cached(rng, state, log_state);
            state = next;
            log_state = log_next;
        }
        let mut trace: Vec<T> = Vec::new();
        assert(burn_in + 0 * thin == burn_in) by (nonlinear_arith);
        for i in 0..n
            invariant
                self.total_target(),
                start.total_target(),
                start.room_for(burn_in + n * thin),
                start.advanced(*self, burn_in + i * thin),
                trace@.len() == i,
                i <= n,
        {
            proof {
                assert(i * thin + thin <= n * thin) by (nonlinear_arith)
                    requires
                        i < n,
                ;
            }
            for j in 0..thin
                invariant
                    self.total_target(),
                    start.total_target(),
                    start.room_for(burn_in + n * thin),
                    start.advanced(*self, burn_in + i * thin + j),
                    i * thin + thin <= n * thin,
            {
                let (next, log_next) = self.step_cached(rng, state, log_state);
                state = next;
                log_state = log_next;
            }
            assert(burn_in + i * thin + thin == burn_in + (i + 1) * thin) by (nonlinear_arith);
            trace.push(state);
        }
        trace
    }

    /// The acceptance rate `accepted / proposals`, zero before the first proposal.
    pub fn acceptance_rate<T: Scalar>(&self) -> (r: T) where F: Fn(T) -> T
        ensures
            r == if self.proposals_spec() == 0 {
                T::zero_spec()
            } else {
                T::from_u64_spec(self.accepted_spec()).divide_spec(T::from_u64_spec(self.proposals_spec()))
            },
    {
        if self.proposals() == 0 {
            T::zero()
        } else {
            T::from_u64(self.accepted()).divide(T::from_u64(self.proposals()))
        }
    }
}

impl<T: Scalar, F> Metropolis<F, Gaussian<T>> {
    /// A chain with the zero-mean Gaussian random-walk proposal of standard deviation
    /// `step_sd`, which must be finite and strictly positive.
    pub fn with_gaussian_proposal(log_target: F, step_sd: T) -> (r: Self)
        requires
            gaussian_error(T::zero_spec(), step_sd) is None,
        ensures
            r.log_target_spec() == log_target,
            r.proposal_spec()@ == (T::zero_spec(), step_sd),
            r.accepted_spec() == 0,
            r.proposals_spec() == 0,
    {
        Metropolis::new(log_target, Gaussian::new(T::zero(), step_sd))
    }
}

} // verus!
