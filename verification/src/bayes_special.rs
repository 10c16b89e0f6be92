//! Special functions over a [`Scalar`]: the log-gamma function (Lanczos, with reflection),
//! log-beta and log-binomial coefficients, the standard normal distribution function (Hart's
//! rational approximation) with `erf` and `erfc`, its quantile (Acklam's approximation with
//! one Halley step) and the regularized incomplete beta function (modified Lentz continued
//! fraction). Each function returns exactly what its spec counterpart names, constant for
//! constant and operation for operation; a decimal constant `m * 10^-e` is the scalar `m`
//! divided by the scalar `10^e` (see [`decimal`]).
use vstd::prelude::*;

use crate::scalar::{two, two_exec, Scalar};

verus! {

// ===========================================================================
// Decimal constants
// ===========================================================================

/// `10^e`.
pub open spec fn ten_to(e: nat) -> int
    decreases e,
{
    if e == 0 {
        1
    } else {
        10 * ten_to((e - 1) as nat)
    }
}

/// The scalar `m * 10^-e`: `m` divided by `10^e`, the power applied in steps of at most
/// `10^18`, the first step taking the remainder.
pub open spec fn decimal<T: Scalar>(m: i64, e: nat) -> T
    decreases e,
{
    if e <= 18 {
        T::from_int_spec(m).divide_spec(T::from_int_spec(ten_to(e) as i64))
    } else {
        decimal::<T>(m, (e - 18) as nat).divide_spec(T::from_int_spec(1_000_000_000_000_000_000))
    }
}

proof fn lemma_ten_to_grows(e: nat, f: nat)
    requires
        e <= f,
    ensures
        1 <= ten_to(e) <= ten_to(f),
    decreases f,
{
    if f > e {
        lemma_ten_to_grows(e, (f - 1) as nat);
    } else if e > 0 {
        lemma_ten_to_grows((e - 1) as nat, (e - 1) as nat);
    }
}

/// Computes [`ten_to`] for `e <= 18`.
fn ten_to_exec(e: u32) -> (r: i64)
    requires
        e <= 18,
    ensures
        r == ten_to(e as nat),
{
    proof {
        reveal_with_fuel(ten_to, 19);
        assert(ten_to(18) == 1_000_000_000_000_000_000);
    }
    let mut p: i64 = 1;
    let mut k: u32 = 0;
    while k < e
        invariant
            k <= e <= 18,
            p == ten_to(k as nat),
            ten_to(18) == 1_000_000_000_000_000_000,
        decreases e - k,
    {
        proof {
            lemma_ten_to_grows((k + 1) as nat, 18);
        }
        p = p * 10;
        k = k + 1;
    }
    p
}

/// Computes [`decimal`].
pub fn decimal_exec<T: Scalar>(m: i64, e: u32) -> (r: T)
    ensures
        r == decimal::<T>(m, e as nat),
    decreases e,
{
    if e <= 18 {
        T::from_int(m).divide(T::from_int(ten_to_exec(e)))
    } else {
        decimal_exec::<T>(m, e - 18).divide(T::from_int(1_000_000_000_000_000_000))
    }
}

/// One half, as `5 / 10`.
pub open spec fn half<T: Scalar>() -> T {
    decimal::<T>(5, 1)
}

/// `pi` to the precision of its 16 significant digits.
pub open spec fn pi<T: Scalar>() -> T {
    decimal::<T>(3141592653589793, 15)
}

/// `ln(2 pi)`, used by the Lanczos and Gaussian density formulas.
pub open spec fn ln_2pi<T: Scalar>() -> T {
    decimal::<T>(18378770664093453, 16)
}

/// Computes [`ln_2pi`].
pub fn ln_2pi_exec<T: Scalar>() -> (r: T)
    ensures
        r == ln_2pi::<T>(),
{
    decimal_exec::<T>(18378770664093453, 16)
}

/// `x` is not equal to itself (a NaN).
pub open spec fn is_nan<T: Scalar>(x: T) -> bool {
    !x.eq_spec(x)
}

/// Negative infinity.
pub open spec fn neg_infinity<T: Scalar>() -> T {
    T::infinity_spec().negate_spec()
}

// ===========================================================================
// Log-gamma and friends
// ===========================================================================

/// Lanczos coefficient `i` (`g = 7`, nine coefficients).
pub open spec fn lanczos_coeff<T: Scalar>(i: int) -> T {
    if i < 0 {
        T::zero_spec()
    } else if i == 0 {
        decimal::<T>(9999999999998099, 16)
    } else if i == 1 {
        decimal::<T>(6765203681218851, 13)
    } else if i == 2 {
        decimal::<T>(-12591392167224028i64, 13)
    } else if i == 3 {
        decimal::<T>(7713234287776531, 13)
    } else if i == 4 {
        decimal::<T>(-1766150291621406i64, 13)
    } else if i == 5 {
        decimal::<T>(12507343278686905, 15)
    } else if i == 6 {
        decimal::<T>(-13857109526572012i64, 17)
    } else if i == 7 {
        decimal::<T>(9984369578019572, 21)
    } else {
        decimal::<T>(15056327351493116, 23)
    }
}

/// Computes [`lanczos_coeff`] for `i < 9`.
fn lanczos_coeff_exec<T: Scalar>(i: usize) -> (r: T)
    requires
        i < 9,
    ensures
        r == lanczos_coeff::<T>(i as int),
{
    match i {
        0 => decimal_exec::<T>(9999999999998099, 16),
        1 => decimal_exec::<T>(6765203681218851, 13),
        2 => decimal_exec::<T>(-12591392167224028, 13),
        3 => decimal_exec::<T>(7713234287776531, 13),
        4 => decimal_exec::<T>(-1766150291621406, 13),
        5 => decimal_exec::<T>(12507343278686905, 15),
        6 => decimal_exec::<T>(-13857109526572012, 17),
        7 => decimal_exec::<T>(9984369578019572, 21),
        _ => decimal_exec::<T>(15056327351493116, 23),
    }
}

/// The Lanczos series over its first `k` coefficients: `c_0 + sum_{1 <= i < k} c_i / (z + i)`.
pub open spec fn lanczos_sum<T: Scalar>(z: T, k: int) -> T
    decreases k,
{
    if k <= 1 {
        lanczos_coeff::<T>(0)
    } else {
        lanczos_sum(z, k - 1).plus_spec(lanczos_coeff::<T>(k - 1).divide_spec(z.plus_spec(T::from_int_spec((k - 1) as i64))))
    }
}

/// The Lanczos approximation of `ln Gamma(x)`: with `z = x - 1` and `t = z + 7 + 1/2`,
/// `(1/2) ln(2 pi) + (z + 1/2) ln t - t + ln(series)`.
pub open spec fn lanczos<T: Scalar>(x: T) -> T {
    let z = x.minus_spec(T::one_spec());
    let t = z.plus_spec(T::from_int_spec(7)).plus_spec(half::<T>());
    half::<T>().times_spec(ln_2pi::<T>()).plus_spec(z.plus_spec(half::<T>()).times_spec(t.ln_spec())).minus_spec(t).plus_spec(
        lanczos_sum(z, 9).ln_spec(),
    )
}

/// A pole of the gamma function: a finite integer at most zero.
pub open spec fn is_pole<T: Scalar>(x: T) -> bool {
    x.le_spec(T::zero_spec()) && x.is_finite_spec() && x.floor_spec().eq_spec(x)
}

/// `ln Gamma(x)` without the reflection step: NaN for NaN, infinity at the poles, exactly
/// zero at one and two, the Lanczos approximation elsewhere.
pub open spec fn log_gamma_direct<T: Scalar>(x: T) -> T {
    if is_nan(x) {
        x
    } else if is_pole(x) {
        T::infinity_spec()
    } else if x.eq_spec(T::one_spec()) || x.eq_spec(two::<T>()) {
        T::zero_spec()
    } else {
        lanczos(x)
    }
}

/// `ln Gamma(x)`: as [`log_gamma_direct`], but below one half by the reflection formula
/// `ln(pi / |sin(pi x)|) - ln Gamma(1 - x)` (infinity where that sine is zero). The
/// reflected argument `1 - x` exceeds one half, so it is evaluated without reflecting again.
pub open spec fn log_gamma<T: Scalar>(x: T) -> T {
    if is_nan(x) {
        x
    } else if is_pole(x) {
        T::infinity_spec()
    } else if x.eq_spec(T::one_spec()) || x.eq_spec(two::<T>()) {
        T::zero_spec()
    } else if x.lt_spec(half::<T>()) {
        let s = pi::<T>().times_spec(x).sin_spec();
        if s.eq_spec(T::zero_spec()) {
            T::infinity_spec()
        } else {
            pi::<T>().divide_spec(s.abs_spec()).ln_spec().minus_spec(log_gamma_direct(T::one_spec().minus_spec(x)))
        }
    } else {
        lanczos(x)
    }
}

/// Computes [`lanczos`].
fn lanczos_exec<T: Scalar>(x: T) -> (r: T)
    ensures
        r == lanczos(x),
{
    let one = T::one();
    let h = decimal_exec::<T>(5, 1);
    let z = x.minus(one);
    let t = z.plus(T::from_int(7)).plus(h);
    let mut series = lanczos_coeff_exec::<T>(0);
    for i in 1..9usize
        invariant
            series == lanczos_sum(z, i as int),
    {
        series = series.plus(lanczos_coeff_exec::<T>(i).divide(z.plus(T::from_int(i as i64))));
    }
    h.times(ln_2pi_exec::<T>()).plus(z.plus(h).times(t.ln())).minus(t).plus(series.ln())
}

/// Computes [`log_gamma_direct`].
fn ln_gamma_direct<T: Scalar>(x: T) -> (r: T)
    ensures
        r == log_gamma_direct(x),
{
    if !x.eq(x) {
        return x;
    }
    if x.le(T::zero()) && x.is_finite() && x.floor().eq(x) {
        return T::infinity();
    }
    if x.eq(T::one()) || x.eq(two_exec::<T>()) {
        return T::zero();
    }
    lanczos_exec(x)
}

/// The natural logarithm of the gamma function (see [`log_gamma`]): infinite at zero and the
/// negative integers, NaN for NaN.
pub fn ln_gamma<T: Scalar>(x: T) -> (r: T)
    ensures
        r == log_gamma(x),
{
    if !x.eq(x) {
        return x;
    }
    if x.le(T::zero()) && x.is_finite() && x.floor().eq(x) {
        return T::infinity();
    }
    if x.eq(T::one()) || x.eq(two_exec::<T>()) {
        return T::zero();
    }
    let pi = decimal_exec::<T>(3141592653589793, 15);
    if x.lt(decimal_exec::<T>(5, 1)) {
        let s = pi.times(x).sin();
        if s.eq(T::zero()) {
            return T::infinity();
        }
        return pi.divide(s.abs()).ln().minus(ln_gamma_direct(T::one().minus(x)));
    }
    lanczos_exec(x)
}

/// `ln B(a, b) = ln Gamma(a) + ln Gamma(b) - ln Gamma(a + b)`.
pub open spec fn log_beta<T: Scalar>(a: T, b: T) -> T {
    log_gamma(a).plus_spec(log_gamma(b)).minus_spec(log_gamma(a.plus_spec(b)))
}

/// The natural logarithm of the beta function (see [`log_beta`]).
pub fn ln_beta<T: Scalar>(a: T, b: T) -> (r: T)
    ensures
        r == log_beta(a, b),
{
    ln_gamma(a).plus(ln_gamma(b)).minus(ln_gamma(a.plus(b)))
}

/// `ln C(n, k)` through log-gamma of `n + 1`, `k + 1` and `n - k + 1`; negative infinity
/// when `k > n`.
pub open spec fn log_binomial<T: Scalar>(n: u64, k: u64) -> T {
    if k > n {
        neg_infinity::<T>()
    } else {
        let one = T::one_spec();
        log_gamma(T::from_u64_spec(n).plus_spec(one)).minus_spec(log_gamma(T::from_u64_spec(k).plus_spec(one))).minus_spec(
            log_gamma(T::from_u64_spec((n - k) as u64).plus_spec(one)),
        )
    }
}

/// The natural logarithm of the binomial coefficient (see [`log_binomial`]).
pub fn ln_binomial<T: Scalar>(n: u64, k: u64) -> (r: T)
    ensures
        r == log_binomial::<T>(n, k),
{
    if k > n {
        return T::infinity().negate();
    }
    let one = T::one();
    ln_gamma(T::from_u64(n).plus(one)).minus(ln_gamma(T::from_u64(k).plus(one))).minus(ln_gamma(T::from_u64(n - k).plus(one)))
}

/// `ln(n!) = ln Gamma(n + 1)`.
pub open spec fn log_factorial<T: Scalar>(n: u64) -> T {
    log_gamma(T::from_u64_spec(n).plus_spec(T::one_spec()))
}

/// The natural logarithm of the factorial (see [`log_factorial`]).
pub fn ln_factorial<T: Scalar>(n: u64) -> (r: T)
    ensures
        r == log_factorial::<T>(n),
{
    ln_gamma(T::from_u64(n).plus(T::one()))
}

/// `x ln y`, and zero whenever `x` equals zero (even for `y` zero).
pub open spec fn x_log_y<T: Scalar>(x: T, y: T) -> T {
    if x.eq_spec(T::zero_spec()) {
        T::zero_spec()
    } else {
        x.times_spec(y.ln_spec())
    }
}

/// `x ln y` with the `0 ln 0 = 0` convention (see [`x_log_y`]).
pub fn xlogy<T: Scalar>(x: T, y: T) -> (r: T)
    ensures
        r == x_log_y(x, y),
{
    if x.eq(T::zero()) {
        T::zero()
    } else {
        x.times(y.ln())
    }
}

// ===========================================================================
// The standard normal distribution
// ===========================================================================

/// The upper tail `1 - Phi(abs)` of Hart's approximation for `abs >= 0`: zero beyond 37; a
/// rational function times `exp(-abs^2 / 2)` below `7.07106781186547`; a continued fraction
/// above.
pub open spec fn normal_tail<T: Scalar>(abs: T) -> T {
    if T::from_int_spec(37).lt_spec(abs) {
        T::zero_spec()
    } else {
        let exponential = decimal::<T>(-5i64, 1).times_spec(abs).times_spec(abs).exp_spec();
        if abs.lt_spec(decimal::<T>(707106781186547, 14)) {
            let num = decimal::<T>(352624965998911, 16).times_spec(abs).plus_spec(decimal::<T>(700383064443688, 15)).times_spec(abs).plus_spec(decimal::<T>(637396220353165, 14)).times_spec(abs).plus_spec(decimal::<T>(33912866078383, 12)).times_spec(abs).plus_spec(decimal::<T>(112079291497871, 12)).times_spec(abs).plus_spec(decimal::<T>(221213596169931, 12)).times_spec(abs).plus_spec(decimal::<T>(220206867912376, 12));
            let den = decimal::<T>(883883476483184, 16).times_spec(abs).plus_spec(decimal::<T>(175566716318264, 14)).times_spec(abs).plus_spec(decimal::<T>(16064177579207, 12)).times_spec(abs).plus_spec(decimal::<T>(867807322029461, 13)).times_spec(abs).plus_spec(decimal::<T>(296564248779674, 12)).times_spec(abs).plus_spec(decimal::<T>(637333633378831, 12)).times_spec(abs).plus_spec(decimal::<T>(793826512519948, 12)).times_spec(abs).plus_spec(decimal::<T>(440413735824752, 12));
            exponential.times_spec(num).divide_spec(den)
        } else {
            let cf0 = abs.plus_spec(decimal::<T>(65, 2));
            let cf1 = abs.plus_spec(T::from_int_spec(4).divide_spec(cf0));
            let cf2 = abs.plus_spec(T::from_int_spec(3).divide_spec(cf1));
            let cf3 = abs.plus_spec(T::from_int_spec(2).divide_spec(cf2));
            let cf4 = abs.plus_spec(T::from_int_spec(1).divide_spec(cf3));
            exponential.divide_spec(cf4.times_spec(decimal::<T>(2506628274631, 12)))
        }
    }
}

/// `Phi(x)`: NaN for NaN, `1 - tail(|x|)` above zero and `tail(|x|)` otherwise (see
/// [`normal_tail`]).
pub open spec fn normal_cdf<T: Scalar>(x: T) -> T {
    if is_nan(x) {
        x
    } else {
        let tail = normal_tail(x.abs_spec());
        if T::zero_spec().lt_spec(x) {
            T::one_spec().minus_spec(tail)
        } else {
            tail
        }
    }
}

/// Computes [`normal_tail`].
fn normal_tail_exec<T: Scalar>(abs: T) -> (r: T)
    ensures
        r == normal_tail(abs),
{
    if T::from_int(37).lt(abs) {
        return T::zero();
    }
    let exponential = decimal_exec::<T>(-5, 1).times(abs).times(abs).exp();
    if abs.lt(decimal_exec::<T>(707106781186547, 14)) {
                let mut num = decimal_exec::<T>(352624965998911, 16);
                num = num.times(abs).plus(decimal_exec::<T>(700383064443688, 15));
                num = num.times(abs).plus(decimal_exec::<T>(637396220353165, 14));
                num = num.times(abs).plus(decimal_exec::<T>(33912866078383, 12));
                num = num.times(abs).plus(decimal_exec::<T>(112079291497871, 12));
                num = num.times(abs).plus(decimal_exec::<T>(221213596169931, 12));
                num = num.times(abs).plus(decimal_exec::<T>(220206867912376, 12));
                let mut den = decimal_exec::<T>(883883476483184, 16);
                den = den.times(abs).plus(decimal_exec::<T>(175566716318264, 14));
                den = den.times(abs).plus(decimal_exec::<T>(16064177579207, 12));
                den = den.times(abs).plus(decimal_exec::<T>(867807322029461, 13));
                den = den.times(abs).plus(decimal_exec::<T>(296564248779674, 12));
                den = den.times(abs).plus(decimal_exec::<T>(637333633378831, 12));
                den = den.times(abs).plus(decimal_exec::<T>(793826512519948, 12));
                den = den.times(abs).plus(decimal_exec::<T>(440413735824752, 12));
        exponential.times(num).divide(den)
    } else {
        let cf0 = abs.plus(decimal_exec::<T>(65, 2));
        let cf1 = abs.plus(T::from_int(4).divide(cf0));
        let cf2 = abs.plus(T::from_int(3).divide(cf1));
        let cf3 = abs.plus(T::from_int(2).divide(cf2));
        let cf4 = abs.plus(T::from_int(1).divide(cf3));
        exponential.divide(cf4.times(decimal_exec::<T>(2506628274631, 12)))
    }
}

/// The standard normal distribution function `Phi(x)` (see [`normal_cdf`]).
pub fn standard_normal_cdf<T: Scalar>(x: T) -> (r: T)
    ensures
        r == normal_cdf(x),
{
    if !x.eq(x) {
        return x;
    }
    let tail = normal_tail_exec(x.abs());
    if T::zero().lt(x) {
        T::one().minus(tail)
    } else {
        tail
    }
}

/// `erf(x) = 2 Phi(x sqrt 2) - 1`.
pub open spec fn error_function<T: Scalar>(x: T) -> T {
    two::<T>().times_spec(normal_cdf(x.times_spec(two::<T>().sqrt_spec()))).minus_spec(T::one_spec())
}

/// The error function (see [`error_function`]).
pub fn erf<T: Scalar>(x: T) -> (r: T)
    ensures
        r == error_function(x),
{
    two_exec::<T>().times(standard_normal_cdf(x.times(two_exec::<T>().sqrt()))).minus(T::one())
}

/// `erfc(x) = 2 Phi(-x sqrt 2)`.
pub open spec fn complementary_error_function<T: Scalar>(x: T) -> T {
    two::<T>().times_spec(normal_cdf(x.negate_spec().times_spec(two::<T>().sqrt_spec())))
}

/// The complementary error function (see [`complementary_error_function`]).
pub fn erfc<T: Scalar>(x: T) -> (r: T)
    ensures
        r == complementary_error_function(x),
{
    two_exec::<T>().times(standard_normal_cdf(x.negate().times(two_exec::<T>().sqrt())))
}

/// `phi(x) = exp(-x^2 / 2) / sqrt(2 pi)`.
pub open spec fn normal_density<T: Scalar>(x: T) -> T {
    decimal::<T>(-5i64, 1).times_spec(x).times_spec(x).exp_spec().divide_spec(two::<T>().times_spec(pi::<T>()).sqrt_spec())
}

/// The standard normal density (see [`normal_density`]).
pub fn standard_normal_pdf<T: Scalar>(x: T) -> (r: T)
    ensures
        r == normal_density(x),
{
    decimal_exec::<T>(-5, 1).times(x).times(x).exp().divide(two_exec::<T>().times(decimal_exec::<T>(3141592653589793, 15)).sqrt())
}

/// Acklam's tail approximation at `q = sqrt(-2 ln p)`.
pub open spec fn acklam_tail<T: Scalar>(q: T) -> T {
    (decimal::<T>(-7784894002430293i64, 18).times_spec(q).plus_spec(decimal::<T>(-3223964580411365i64, 16)).times_spec(q).plus_spec(decimal::<T>(-2400758277161838i64, 15)).times_spec(q).plus_spec(decimal::<T>(-2549732539343734i64, 15)).times_spec(q).plus_spec(decimal::<T>(4374664141464968, 15)).times_spec(q).plus_spec(decimal::<T>(2938163982698783, 15))).divide_spec(decimal::<T>(7784695709041462, 18).times_spec(q).plus_spec(decimal::<T>(3224671290700398, 16)).times_spec(q).plus_spec(decimal::<T>(2445134137142996, 15)).times_spec(q).plus_spec(decimal::<T>(3754408661907416, 15)).times_spec(q).plus_spec(decimal::<T>(1, 0)))
}

/// Acklam's central approximation at `q = p - 1/2`, `r = q^2`.
pub open spec fn acklam_central<T: Scalar>(q: T, r: T) -> T {
    (decimal::<T>(-3969683028665376i64, 14).times_spec(r).plus_spec(decimal::<T>(2209460984245205, 13)).times_spec(r).plus_spec(decimal::<T>(-2759285104469687i64, 13)).times_spec(r).plus_spec(decimal::<T>(138357751867269, 12)).times_spec(r).plus_spec(decimal::<T>(-3066479806614716i64, 14)).times_spec(r).plus_spec(decimal::<T>(2506628277459239, 15))).times_spec(q).divide_spec(decimal::<T>(-5447609879822406i64, 14).times_spec(r).plus_spec(decimal::<T>(1615858368580409, 13)).times_spec(r).plus_spec(decimal::<T>(-1556989798598866i64, 13)).times_spec(r).plus_spec(decimal::<T>(6680131188771972, 14)).times_spec(r).plus_spec(decimal::<T>(-1328068155288572i64, 14)).times_spec(r).plus_spec(decimal::<T>(1, 0)))
}

/// Acklam's approximation of `Phi^-1(p)` for `0 < p < 1`: the lower tail below `0.02425`, the
/// central region up to `1 - 0.02425`, the mirrored tail above.
pub open spec fn acklam<T: Scalar>(p: T) -> T {
    let low = decimal::<T>(2425, 5);
    if p.lt_spec(low) {
        acklam_tail(T::from_int_spec(-2i64).times_spec(p.ln_spec()).sqrt_spec())
    } else if p.le_spec(T::one_spec().minus_spec(low)) {
        let q = p.minus_spec(half::<T>());
        acklam_central(q, q.times_spec(q))
    } else {
        let q = T::from_int_spec(-2i64).times_spec(T::one_spec().minus_spec(p).ln_spec()).sqrt_spec();
        (decimal::<T>(-7784894002430293i64, 18).times_spec(q).plus_spec(decimal::<T>(-3223964580411365i64, 16)).times_spec(q).plus_spec(decimal::<T>(-2400758277161838i64, 15)).times_spec(q).plus_spec(decimal::<T>(-2549732539343734i64, 15)).times_spec(q).plus_spec(decimal::<T>(4374664141464968, 15)).times_spec(q).plus_spec(decimal::<T>(2938163982698783, 15))).negate_spec().divide_spec(decimal::<T>(7784695709041462, 18).times_spec(q).plus_spec(decimal::<T>(3224671290700398, 16)).times_spec(q).plus_spec(decimal::<T>(2445134137142996, 15)).times_spec(q).plus_spec(decimal::<T>(3754408661907416, 15)).times_spec(q).plus_spec(decimal::<T>(1, 0)))
    }
}

/// `Phi^-1(p)`: NaN for NaN, negative infinity at or below zero, infinity at or above one;
/// otherwise [`acklam`] refined by one Halley step `x - u / (1 + x u / 2)` with
/// `u = (Phi(x) - p) / phi(x)`, taken when `phi(x) > 0`.
pub open spec fn normal_quantile<T: Scalar>(p: T) -> T {
    if is_nan(p) {
        p
    } else if p.le_spec(T::zero_spec()) {
        neg_infinity::<T>()
    } else if T::one_spec().le_spec(p) {
        T::infinity_spec()
    } else {
        let x = acklam(p);
        let err = normal_cdf(x).minus_spec(p);
        let density = normal_density(x);
        if T::zero_spec().lt_spec(density) {
            let u = err.divide_spec(density);
            x.minus_spec(u.divide_spec(T::one_spec().plus_spec(half::<T>().times_spec(x).times_spec(u))))
        } else {
            x
        }
    }
}

/// Computes [`acklam`].
fn acklam_exec<T: Scalar>(p: T) -> (r: T)
    ensures
        r == acklam(p),
{
    let low = decimal_exec::<T>(2425, 5);
    if p.lt(low) {
        let q = T::from_int(-2).times(p.ln()).sqrt();
        let mut num = decimal_exec::<T>(-7784894002430293, 18);
        num = num.times(q).plus(decimal_exec::<T>(-3223964580411365, 16));
        num = num.times(q).plus(decimal_exec::<T>(-2400758277161838, 15));
        num = num.times(q).plus(decimal_exec::<T>(-2549732539343734, 15));
        num = num.times(q).plus(decimal_exec::<T>(4374664141464968, 15));
        num = num.times(q).plus(decimal_exec::<T>(2938163982698783, 15));
        let mut den = decimal_exec::<T>(7784695709041462, 18);
        den = den.times(q).plus(decimal_exec::<T>(3224671290700398, 16));
        den = den.times(q).plus(decimal_exec::<T>(2445134137142996, 15));
        den = den.times(q).plus(decimal_exec::<T>(3754408661907416, 15));
        den = den.times(q).plus(decimal_exec::<T>(1, 0));
        num.divide(den)
    } else if p.le(T::one().minus(low)) {
        let q = p.minus(decimal_exec::<T>(5, 1));
        let r = q.times(q);
        let mut num = decimal_exec::<T>(-3969683028665376, 14);
        num = num.times(r).plus(decimal_exec::<T>(2209460984245205, 13));
        num = num.times(r).plus(decimal_exec::<T>(-2759285104469687, 13));
        num = num.times(r).plus(decimal_exec::<T>(138357751867269, 12));
        num = num.times(r).plus(decimal_exec::<T>(-3066479806614716, 14));
        num = num.times(r).plus(decimal_exec::<T>(2506628277459239, 15));
        let mut den = decimal_exec::<T>(-5447609879822406, 14);
        den = den.times(r).plus(decimal_exec::<T>(1615858368580409, 13));
        den = den.times(r).plus(decimal_exec::<T>(-1556989798598866, 13));
        den = den.times(r).plus(decimal_exec::<T>(6680131188771972, 14));
        den = den.times(r).plus(decimal_exec::<T>(-1328068155288572, 14));
        den = den.times(r).plus(decimal_exec::<T>(1, 0));
        num.times(q).divide(den)
    } else {
        let q = T::from_int(-2).times(T::one().minus(p).ln()).sqrt();
        let mut num = decimal_exec::<T>(-7784894002430293, 18);
        num = num.times(q).plus(decimal_exec::<T>(-3223964580411365, 16));
        num = num.times(q).plus(decimal_exec::<T>(-2400758277161838, 15));
        num = num.times(q).plus(decimal_exec::<T>(-2549732539343734, 15));
        num = num.times(q).plus(decimal_exec::<T>(4374664141464968, 15));
        num = num.times(q).plus(decimal_exec::<T>(2938163982698783, 15));
        let mut den = decimal_exec::<T>(7784695709041462, 18);
        den = den.times(q).plus(decimal_exec::<T>(3224671290700398, 16));
        den = den.times(q).plus(decimal_exec::<T>(2445134137142996, 15));
        den = den.times(q).plus(decimal_exec::<T>(3754408661907416, 15));
        den = den.times(q).plus(decimal_exec::<T>(1, 0));
        num.negate().divide(den)
    }
}

/// The standard normal quantile `Phi^-1(p)` (see [`normal_quantile`]).
pub fn standard_normal_quantile<T: Scalar>(p: T) -> (r: T)
    ensures
        r == normal_quantile(p),
{
    if !p.eq(p) {
        return p;
    }
    if p.le(T::zero()) {
        return T::infinity().negate();
    }
    if T::one().le(p) {
        return T::infinity();
    }
    let x = acklam_exec(p);
    let err = standard_normal_cdf(x).minus(p);
    let density = standard_normal_pdf(x);
    if T::zero().lt(density) {
        let u = err.divide(density);
        x.minus(u.divide(T::one().plus(decimal_exec::<T>(5, 1).times(x).times(u))))
    } else {
        x
    }
}

// ===========================================================================
// The regularized incomplete beta function
// ===========================================================================

/// The floor `10^-300` below which Lentz's denominators are clamped.
pub open spec fn lentz_tiny<T: Scalar>() -> T {
    decimal::<T>(1, 300)
}

/// `v`, or [`lentz_tiny`] when `|v|` is below it.
pub open spec fn lentz_clamp<T: Scalar>(v: T) -> T {
    if v.abs_spec().lt_spec(lentz_tiny::<T>()) {
        lentz_tiny::<T>()
    } else {
        v
    }
}

/// The continued-fraction state after steps `m`, `m + 1`, ... (at most up to step 300) of
/// the modified Lentz method for `I_x(a, b)`, from `(c, d, h)`: each step makes an even and an
/// odd update and stops once the odd update's factor is within `10^-15` of one.
pub open spec fn lentz<T: Scalar>(a: T, b: T, x: T, m: int, c: T, d: T, h: T) -> T
    decreases 301 - m,
{
    if m < 1 || m > 300 {
        h
    } else {
        let one = T::one_spec();
        let mf = T::from_int_spec(m as i64);
        let m2 = two::<T>().times_spec(mf);
        let qab = a.plus_spec(b);
        let qap = a.plus_spec(one);
        let qam = a.minus_spec(one);
        let num = mf.times_spec(b.minus_spec(mf)).times_spec(x).divide_spec(qam.plus_spec(m2).times_spec(a.plus_spec(m2)));
        let d1 = lentz_clamp(one.plus_spec(num.times_spec(d)));
        let c1 = lentz_clamp(one.plus_spec(num.divide_spec(c)));
        let d2 = one.divide_spec(d1);
        let h1 = h.times_spec(d2.times_spec(c1));
        let num2 = a.plus_spec(mf).negate_spec().times_spec(qab.plus_spec(mf)).times_spec(x).divide_spec(
            a.plus_spec(m2).times_spec(qap.plus_spec(m2)),
        );
        let d3 = lentz_clamp(one.plus_spec(num2.times_spec(d2)));
        let c2 = lentz_clamp(one.plus_spec(num2.divide_spec(c1)));
        let d4 = one.divide_spec(d3);
        let delta = d4.times_spec(c2);
        let h2 = h1.times_spec(delta);
        if delta.minus_spec(one).abs_spec().lt_spec(decimal::<T>(1, 15)) {
            h2
        } else {
            lentz(a, b, x, m + 1, c2, d4, h2)
        }
    }
}

/// The continued fraction of `I_x(a, b)`: Lentz's method from `c = 1` and
/// `d = h = 1 / clamp(1 - (a + b) x / (a + 1))`.
pub open spec fn beta_fraction<T: Scalar>(a: T, b: T, x: T) -> T {
    let one = T::one_spec();
    let d0 = lentz_clamp(one.minus_spec(a.plus_spec(b).times_spec(x).divide_spec(a.plus_spec(one))));
    let d = one.divide_spec(d0);
    lentz(a, b, x, 1, one, d, d)
}

/// `I_x(a, b)`: NaN when an argument is NaN, zero at or below `x = 0`, one at or above
/// `x = 1`; otherwise, with `front = exp(a ln x + b ln(1 - x) - ln B(a, b))`, the fraction
/// `front * cf(a, b, x) / a` below `x = (a + 1) / (a + b + 2)` and
/// `1 - front * cf(b, a, 1 - x) / b` from there on.
pub open spec fn incomplete_beta<T: Scalar>(a: T, b: T, x: T) -> T {
    if is_nan(x) {
        x
    } else if is_nan(a) {
        a
    } else if is_nan(b) {
        b
    } else if x.le_spec(T::zero_spec()) {
        T::zero_spec()
    } else if T::one_spec().le_spec(x) {
        T::one_spec()
    } else {
        let one = T::one_spec();
        let front = a.times_spec(x.ln_spec()).plus_spec(b.times_spec(one.minus_spec(x).ln_spec())).minus_spec(log_beta(a, b)).exp_spec();
        if x.lt_spec(a.plus_spec(one).divide_spec(a.plus_spec(b).plus_spec(two::<T>()))) {
            front.times_spec(beta_fraction(a, b, x)).divide_spec(a)
        } else {
            one.minus_spec(front.times_spec(beta_fraction(b, a, one.minus_spec(x))).divide_spec(b))
        }
    }
}

/// Computes [`lentz_clamp`].
fn lentz_clamp_exec<T: Scalar>(v: T, tiny: T) -> (r: T)
    requires
        tiny == lentz_tiny::<T>(),
    ensures
        r == lentz_clamp(v),
{
    if v.abs().lt(tiny) {
        tiny
    } else {
        v
    }
}

/// Computes [`beta_fraction`].
fn beta_continued_fraction<T: Scalar>(a: T, b: T, x: T) -> (r: T)
    ensures
        r == beta_fraction(a, b, x),
{
    let one = T::one();
    let tiny = decimal_exec::<T>(1, 300);
    let eps = decimal_exec::<T>(1, 15);
    let two_t = two_exec::<T>();
    let qab = a.plus(b);
    let qap = a.plus(one);
    let qam = a.minus(one);
    let d0 = lentz_clamp_exec(one.minus(qab.times(x).divide(qap)), tiny);
    let mut c = one;
    let mut d = one.divide(d0);
    let mut h = d;
    let mut m: i64 = 1;
    while m <= 300
        invariant
            1 <= m <= 301,
            tiny == lentz_tiny::<T>(),
            eps == decimal::<T>(1, 15),
            one == T::one_spec(),
            two_t == two::<T>(),
            qab == a.plus_spec(b),
            qap == a.plus_spec(one),
            qam == a.minus_spec(one),
            lentz(a, b, x, m as int, c, d, h) == beta_fraction(a, b, x),
        decreases 301 - m,
    {
        let mf = T::from_int(m);
        let m2 = two_t.times(mf);
        let num = mf.times(b.minus(mf)).times(x).divide(qam.plus(m2).times(a.plus(m2)));
        let d1 = lentz_clamp_exec(one.plus(num.times(d)), tiny);
        let c1 = lentz_clamp_exec(one.plus(num.divide(c)), tiny);
        let d2 = one.divide(d1);
        let h1 = h.times(d2.times(c1));
        let num2 = a.plus(mf).negate().times(qab.plus(mf)).times(x).divide(a.plus(m2).times(qap.plus(m2)));
        let d3 = lentz_clamp_exec(one.plus(num2.times(d2)), tiny);
        let c2 = lentz_clamp_exec(one.plus(num2.divide(c1)), tiny);
        let d4 = one.divide(d3);
        let delta = d4.times(c2);
        let h2 = h1.times(delta);
        if delta.minus(one).abs().lt(eps) {
            return h2;
        }
        c = c2;
        d = d4;
        h = h2;
        m = m + 1;
    }
    h
}

/// The regularized incomplete beta function `I_x(a, b)`, the distribution function of
/// `Beta(a, b)` at `x` (see [`incomplete_beta`]).
pub fn regularized_incomplete_beta<T: Scalar>(a: T, b: T, x: T) -> (r: T)
    ensures
        r == incomplete_beta(a, b, x),
{
    if !x.eq(x) {
        return x;
    }
    if !a.eq(a) {
        return a;
    }
    if !b.eq(b) {
        return b;
    }
    if x.le(T::zero()) {
        return T::zero();
    }
    let one = T::one();
    if one.le(x) {
        return one;
    }
    let front = a.times(x.ln()).plus(b.times(one.minus(x).ln())).minus(ln_beta(a, b)).exp();
    if x.lt(a.plus(one).divide(a.plus(b).plus(two_exec::<T>()))) {
        front.times(beta_continued_fraction(a, b, x)).divide(a)
    } else {
        one.minus(front.times(beta_continued_fraction(b, a, one.minus(x))).divide(b))
    }
}

} // verus!
