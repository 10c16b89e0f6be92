use tpt_math::bayes::{
    bernoulli_log_likelihood, binomial_log_likelihood, check_finite, check_positive, exponential_log_likelihood,
    log_sum_exp, normal_log_likelihood, poisson_log_likelihood, Beta, Gamma, Gaussian, Normal, ParameterError,
};
use tpt_math::bayes_special::{
    erf, erfc, ln_beta, ln_binomial, ln_factorial, ln_gamma, regularized_incomplete_beta, standard_normal_cdf,
    standard_normal_quantile, xlogy,
};
use tpt_math::prob::{Distribution, Metropolis, Rng, SplitMix64};
use tpt_math::scalar::Scalar;

/// An `f64` as a library scalar.
#[derive(Clone, Copy, Debug, PartialEq)]
struct F(f64);

impl Scalar for F {
    fn zero() -> F {
        F(0.0)
    }
    fn one() -> F {
        F(1.0)
    }
    fn from_int(n: i64) -> F {
        F(n as f64)
    }
    fn from_u64(n: u64) -> F {
        F(n as f64)
    }
    fn plus(self, rhs: F) -> F {
        F(self.0 + rhs.0)
    }
    fn minus(self, rhs: F) -> F {
        F(self.0 - rhs.0)
    }
    fn times(self, rhs: F) -> F {
        F(self.0 * rhs.0)
    }
    fn divide(self, rhs: F) -> F {
        F(self.0 / rhs.0)
    }
    fn negate(self) -> F {
        F(-self.0)
    }
    fn abs(self) -> F {
        F(self.0.abs())
    }
    fn sqrt(self) -> F {
        F(self.0.sqrt())
    }
    fn sin(self) -> F {
        F(self.0.sin())
    }
    fn cos(self) -> F {
        F(self.0.cos())
    }
    fn tan(self) -> F {
        F(self.0.tan())
    }
    fn acos(self) -> F {
        F(self.0.acos())
    }
    fn atan2(self, other: F) -> F {
        F(self.0.atan2(other.0))
    }
    fn exp(self) -> F {
        F(self.0.exp())
    }
    fn ln(self) -> F {
        F(self.0.ln())
    }
    fn lt(self, rhs: F) -> bool {
        self.0 < rhs.0
    }
    fn le(self, rhs: F) -> bool {
        self.0 <= rhs.0
    }
    fn eq(self, rhs: F) -> bool {
        self.0 == rhs.0
    }
    fn is_finite(self) -> bool {
        self.0.is_finite()
    }
    fn min(self, rhs: F) -> F {
        F(self.0.min(rhs.0))
    }
    fn max(self, rhs: F) -> F {
        F(self.0.max(rhs.0))
    }
    fn powi(self, n: i32) -> F {
        F(self.0.powi(n))
    }
    fn powf(self, p: F) -> F {
        F(self.0.powf(p.0))
    }
    fn floor(self) -> F {
        F(self.0.floor())
    }
    fn infinity() -> F {
        F(f64::INFINITY)
    }
    fn pi() -> F {
        F(std::f64::consts::PI)
    }
    fn e() -> F {
        F(std::f64::consts::E)
    }
    // The specification functions mirror the operations above.
    fn zero_spec() -> F {
        F::zero()
    }
    fn one_spec() -> F {
        F::one()
    }
    fn from_int_spec(n: i64) -> F {
        F::from_int(n)
    }
    fn from_u64_spec(n: u64) -> F {
        F::from_u64(n)
    }
    fn plus_spec(self, rhs: F) -> F {
        self.plus(rhs)
    }
    fn minus_spec(self, rhs: F) -> F {
        self.minus(rhs)
    }
    fn times_spec(self, rhs: F) -> F {
        self.times(rhs)
    }
    fn divide_spec(self, rhs: F) -> F {
        self.divide(rhs)
    }
    fn negate_spec(self) -> F {
        self.negate()
    }
    fn abs_spec(self) -> F {
        Scalar::abs(self)
    }
    fn sqrt_spec(self) -> F {
        Scalar::sqrt(self)
    }
    fn sin_spec(self) -> F {
        Scalar::sin(self)
    }
    fn cos_spec(self) -> F {
        Scalar::cos(self)
    }
    fn tan_spec(self) -> F {
        Scalar::tan(self)
    }
    fn acos_spec(self) -> F {
        Scalar::acos(self)
    }
    fn atan2_spec(self, other: F) -> F {
        Scalar::atan2(self, other)
    }
    fn exp_spec(self) -> F {
        Scalar::exp(self)
    }
    fn ln_spec(self) -> F {
        Scalar::ln(self)
    }
    fn lt_spec(self, rhs: F) -> bool {
        Scalar::lt(self, rhs)
    }
    fn le_spec(self, rhs: F) -> bool {
        Scalar::le(self, rhs)
    }
    fn eq_spec(self, rhs: F) -> bool {
        Scalar::eq(self, rhs)
    }
    fn is_finite_spec(self) -> bool {
        Scalar::is_finite(self)
    }
    fn min_spec(self, rhs: F) -> F {
        Scalar::min(self, rhs)
    }
    fn max_spec(self, rhs: F) -> F {
        Scalar::max(self, rhs)
    }
    fn powi_spec(self, n: i32) -> F {
        Scalar::powi(self, n)
    }
    fn powf_spec(self, p: F) -> F {
        Scalar::powf(self, p)
    }
    fn floor_spec(self) -> F {
        Scalar::floor(self)
    }
    fn infinity_spec() -> F {
        <F as Scalar>::infinity()
    }
    fn pi_spec() -> F {
        <F as Scalar>::pi()
    }
    fn e_spec() -> F {
        <F as Scalar>::e()
    }
}

use core::f64::consts::PI;

fn next_f64(rng: &mut SplitMix64) -> f64 {
    ((rng.next_u64() >> 11) as f64) * (1.0 / ((1u64 << 53) as f64))
}

fn mean_and_variance(xs: &[f64]) -> (f64, f64) {
    let n = xs.len() as f64;
    let mean = xs.iter().sum::<f64>() / n;
    let var = xs.iter().map(|x| (x - mean) * (x - mean)).sum::<f64>() / (n - 1.0);
    (mean, var)
}

fn mean_and_std(xs: &[f64]) -> (f64, f64) {
    let (m, v) = mean_and_variance(xs);
    (m, v.sqrt())
}

fn beta(a: f64, b: f64) -> Beta<F> {
    Beta::new(F(a), F(b))
}

fn gamma(k: f64, r: f64) -> Gamma<F> {
    Gamma::new(F(k), F(r))
}

fn gauss(m: f64, s: f64) -> Gaussian<F> {
    Gaussian::new(F(m), F(s))
}

fn lg(x: f64) -> f64 {
    ln_gamma(F(x)).0
}

fn fs(xs: &[f64]) -> Vec<F> {
    xs.iter().map(|&x| F(x)).collect()
}

fn trace_of(v: Vec<F>) -> Vec<f64> {
    v.into_iter().map(|x| x.0).collect()
}

// ---------------------------------------------------------------------------
// Parameter errors
// ---------------------------------------------------------------------------

#[test]
fn parameter_error_displays_the_parameter_name() {
    let err = check_positive("alpha", F(-1.0)).unwrap_err();
    assert_eq!(err, ParameterError::NotPositive { parameter: "alpha" });
    assert_eq!(err.to_string(), "`alpha` must be strictly positive");

    let err = check_finite("mean", F(f64::NAN)).unwrap_err();
    assert_eq!(err, ParameterError::NotFinite { parameter: "mean" });
    assert_eq!(err.to_string(), "`mean` must be finite");

    assert!(check_positive("rate", F(1.0)).is_ok());
    assert!(check_finite("mean", F(-3.0)).is_ok());
    assert!(check_positive("rate", F(f64::INFINITY)).is_err());
}

// ---------------------------------------------------------------------------
// Special functions
// ---------------------------------------------------------------------------

#[test]
fn ln_gamma_matches_factorials() {
    assert_eq!(lg(1.0), 0.0);
    assert_eq!(lg(2.0), 0.0);
    assert!((lg(5.0) - 24f64.ln()).abs() < 1e-12);
    assert!((lg(11.0) - 3_628_800f64.ln()).abs() < 1e-10);
}

#[test]
fn ln_gamma_half_integers_and_reflection() {
    assert!((lg(0.5) - PI.sqrt().ln()).abs() < 1e-13);
    assert!((lg(1.5) - (PI.sqrt() / 2.0).ln()).abs() < 1e-13);
    let lhs = lg(0.25) + lg(0.75);
    let rhs = (PI / (PI * 0.25).sin()).ln();
    assert!((lhs - rhs).abs() < 1e-12);
}

#[test]
fn ln_gamma_poles_are_infinite() {
    assert!(lg(0.0).is_infinite());
    assert!(lg(-3.0).is_infinite());
    assert!(lg(f64::NAN).is_nan());
}

#[test]
fn ln_beta_and_binomial() {
    assert!((ln_beta(F(2.0), F(3.0)).0 - (1.0f64 / 12.0).ln()).abs() < 1e-13);
    assert!((ln_beta(F(1.0), F(1.0)).0).abs() < 1e-13);
    assert!((ln_binomial::<F>(5, 2).0 - 10f64.ln()).abs() < 1e-12);
    assert!((ln_binomial::<F>(52, 5).0 - 2_598_960f64.ln()).abs() < 1e-9);
    assert!(ln_binomial::<F>(3, 4).0.is_infinite());
    assert!((ln_factorial::<F>(6).0 - 720f64.ln()).abs() < 1e-12);
}

#[test]
fn xlogy_handles_zero_weight() {
    assert_eq!(xlogy(F(0.0), F(0.0)).0, 0.0);
    assert_eq!(xlogy(F(0.0), F(1.0)).0, 0.0);
    assert!((xlogy(F(2.0), F(core::f64::consts::E)).0 - 2.0).abs() < 1e-15);
}

#[test]
fn normal_cdf_known_values() {
    let c = |x: f64| standard_normal_cdf(F(x)).0;
    assert!((c(0.0) - 0.5).abs() < 1e-15);
    assert!((c(1.0) - 0.841_344_746_068_542_9).abs() < 1e-13);
    assert!((c(-1.96) - 0.024_997_895_148_220_435).abs() < 1e-13);
    assert!((c(2.0) - 0.977_249_868_051_820_8).abs() < 1e-13);
    assert_eq!(c(-40.0), 0.0);
    assert_eq!(c(40.0), 1.0);
}

#[test]
fn erf_matches_reference() {
    assert!(erf(F(0.0)).0.abs() < 1e-15);
    assert!((erf(F(1.0)).0 - 0.842_700_792_949_714_9).abs() < 1e-12);
    assert!((erfc(F(1.0)).0 - 0.157_299_207_050_285_1).abs() < 1e-12);
    assert!((erf(F(-0.5)).0 + erf(F(0.5)).0).abs() < 1e-15);
}

#[test]
fn normal_quantile_inverts_cdf() {
    for &p in &[1e-8, 0.001, 0.025, 0.1, 0.5, 0.9, 0.975, 0.999] {
        let x = standard_normal_quantile(F(p));
        assert!((standard_normal_cdf(x).0 - p).abs() < 1e-12, "p = {p}");
    }
    assert!((standard_normal_quantile(F(0.975)).0 - 1.959_963_984_540_054).abs() < 1e-10);
    assert!(standard_normal_quantile(F(0.0)).0.is_infinite());
    assert!(standard_normal_quantile(F(1.0)).0.is_infinite());
}

#[test]
fn incomplete_beta_known_values() {
    let ib = |a: f64, b: f64, x: f64| regularized_incomplete_beta(F(a), F(b), F(x)).0;
    assert!((ib(2.0, 3.0, 0.5) - 0.6875).abs() < 1e-12);
    assert!((ib(1.0, 1.0, 0.3) - 0.3).abs() < 1e-12);
    let lhs = ib(2.5, 2.5, 0.3);
    let rhs = 1.0 - ib(2.5, 2.5, 0.7);
    assert!((lhs - rhs).abs() < 1e-12);
    assert_eq!(ib(2.0, 2.0, 0.0), 0.0);
    assert_eq!(ib(2.0, 2.0, 1.0), 1.0);
}

// ---------------------------------------------------------------------------
// Log-likelihoods
// ---------------------------------------------------------------------------

#[test]
fn bernoulli_matches_direct_product() {
    let b = |p: f64, s: u64, f: u64| bernoulli_log_likelihood(F(p), s, f).0;
    assert!((b(0.5, 2, 2) - 0.0625f64.ln()).abs() < 1e-12);
    assert!((b(0.3, 1, 1) - 0.21f64.ln()).abs() < 1e-12);
    assert_eq!(b(0.0, 0, 0), 0.0);
    assert_eq!(b(1.0, 3, 0), 0.0);
    assert_eq!(b(1.0, 3, 1), f64::NEG_INFINITY);
    assert_eq!(b(1.5, 1, 1), f64::NEG_INFINITY);
    assert_eq!(b(f64::NAN, 1, 1), f64::NEG_INFINITY);
}

#[test]
fn binomial_sums_to_one_over_all_counts() {
    let p = 0.37;
    let n = 9;
    let total: f64 = (0..=n).map(|k| binomial_log_likelihood(F(p), k, n).0.exp()).sum();
    assert!((total - 1.0).abs() < 1e-12);
    assert_eq!(binomial_log_likelihood(F(0.5), 4, 3).0, f64::NEG_INFINITY);
}

#[test]
fn normal_matches_distribution_impl() {
    let data = fs(&[0.2, -1.1, 0.7, 2.4]);
    let direct = normal_log_likelihood(&data, F(0.5), F(1.25)).0;
    let via_dist = gauss(0.5, 1.25).log_likelihood(&data).0;
    assert!((direct - via_dist).abs() < 1e-12);
    assert_eq!(normal_log_likelihood(&data, F(0.0), F(0.0)).0, f64::NEG_INFINITY);
    assert_eq!(normal_log_likelihood(&[], F(0.0), F(1.0)).0, 0.0);
}

#[test]
fn normal_likelihood_is_maximised_at_the_sample_mean() {
    let data = fs(&[1.0, 2.0, 3.0, 4.0]);
    let best = normal_log_likelihood(&data, F(2.5), F(1.0)).0;
    for &m in &[2.0, 2.4, 2.6, 3.0] {
        assert!(normal_log_likelihood(&data, F(m), F(1.0)).0 < best);
    }
}

#[test]
fn poisson_probabilities_sum_to_one() {
    let rate = F(2.5);
    let total: f64 = (0..40u64).map(|k| poisson_log_likelihood(rate, &[k]).0.exp()).sum();
    assert!((total - 1.0).abs() < 1e-12);
    assert_eq!(poisson_log_likelihood(F(0.0), &[0, 0]).0, 0.0);
    assert_eq!(poisson_log_likelihood(F(0.0), &[1]).0, f64::NEG_INFINITY);
    assert_eq!(poisson_log_likelihood(F(-1.0), &[1]).0, f64::NEG_INFINITY);
}

#[test]
fn exponential_likelihood_is_maximised_at_the_inverse_mean() {
    let raw = [0.5, 1.5, 2.0, 1.0];
    let data = fs(&raw);
    let mle = raw.len() as f64 / raw.iter().sum::<f64>();
    let best = exponential_log_likelihood(F(mle), &data).0;
    for delta in [-0.2, -0.05, 0.05, 0.2] {
        assert!(exponential_log_likelihood(F(mle + delta), &data).0 < best);
    }
    assert_eq!(exponential_log_likelihood(F(1.0), &fs(&[-1.0])).0, f64::NEG_INFINITY);
    assert_eq!(exponential_log_likelihood(F(0.0), &fs(&[1.0])).0, f64::NEG_INFINITY);
}

#[test]
fn log_sum_exp_is_stable() {
    assert!((log_sum_exp(&fs(&[-1000.0, -1000.0])).0 - (-1000.0 + 2f64.ln())).abs() < 1e-12);
    assert!((log_sum_exp(&fs(&[0.0, 0.0, 0.0])).0 - 3f64.ln()).abs() < 1e-12);
    assert_eq!(log_sum_exp::<F>(&[]).0, f64::NEG_INFINITY);
    assert_eq!(log_sum_exp(&fs(&[f64::NEG_INFINITY])).0, f64::NEG_INFINITY);
}

// ---------------------------------------------------------------------------
// Beta
// ---------------------------------------------------------------------------

#[test]
fn beta_2_2_has_mean_one_half() {
    let d = beta(2.0, 2.0);
    assert!((d.mean().0 - 0.5).abs() < 1e-15);
    assert!((d.variance().0 - 0.05).abs() < 1e-15);
    assert!((d.mode().unwrap().0 - 0.5).abs() < 1e-15);
    assert!((d.std_dev().0 - 0.05f64.sqrt()).abs() < 1e-15);
    assert_eq!(d.concentration().0, 4.0);
}

#[test]
fn moments_of_asymmetric_beta() {
    let d = beta(2.0, 5.0);
    assert!((d.mean().0 - 2.0 / 7.0).abs() < 1e-15);
    assert!((d.variance().0 - (10.0 / (49.0 * 8.0))).abs() < 1e-15);
    assert!((d.mode().unwrap().0 - 0.2).abs() < 1e-15);
    assert_eq!(Beta::<F>::jeffreys().mode(), None);
    assert_eq!(Beta::<F>::uniform().mode(), None);
}

#[test]
fn beta_pdf_matches_closed_form() {
    let d = beta(2.0, 2.0);
    for &x in &[0.0, 0.1, 0.5, 0.9, 1.0] {
        let expected = 6.0 * x * (1.0 - x);
        assert!((d.pdf(F(x)).0 - expected).abs() < 1e-12, "x = {x}");
    }
    assert_eq!(d.pdf(F(-0.1)).0, 0.0);
    assert_eq!(d.pdf(F(1.1)).0, 0.0);
    assert!(d.log_pdf(F(2.0)).0.is_infinite());
}

#[test]
fn uniform_pdf_is_flat_including_endpoints() {
    let d = Beta::<F>::uniform();
    for &x in &[0.0, 0.25, 0.5, 1.0] {
        assert!((d.pdf(F(x)).0 - 1.0).abs() < 1e-14, "x = {x}");
    }
    assert!(Beta::<F>::jeffreys().pdf(F(0.0)).0.is_infinite());
}

#[test]
fn beta_pdf_integrates_to_one() {
    let d = beta(3.0, 5.0);
    let steps = 200_000;
    let h = 1.0 / steps as f64;
    let mut total = 0.5 * (d.pdf(F(0.0)).0 + d.pdf(F(1.0)).0);
    for i in 1..steps {
        total += d.pdf(F(i as f64 * h)).0;
    }
    assert!((total * h - 1.0).abs() < 1e-9);
}

#[test]
fn beta_cdf_and_quantile_round_trip() {
    let d = beta(2.0, 3.0);
    assert!((d.cdf(F(0.5)).0 - 0.6875).abs() < 1e-12);
    assert_eq!(d.cdf(F(0.0)).0, 0.0);
    assert_eq!(d.cdf(F(1.0)).0, 1.0);
    for &p in &[0.01, 0.1, 0.5, 0.9, 0.99] {
        let x = d.quantile(F(p));
        assert!((d.cdf(x).0 - p).abs() < 1e-10, "p = {p}");
    }
    let u = Beta::<F>::uniform();
    assert_eq!(u.quantile(F(0.0)).0, 0.0);
    assert_eq!(u.quantile(F(1.0)).0, 1.0);
    assert!(u.quantile(F(1.5)).0.is_nan());
    assert!((u.quantile(F(0.37)).0 - 0.37).abs() < 1e-12);
}

#[test]
fn credible_interval_brackets_the_mean() {
    let d = Beta::<F>::uniform().update(60, 40);
    let (lo, hi) = d.credible_interval(F(0.95));
    assert!(lo.0 < d.mean().0 && d.mean().0 < hi.0);
    assert!((d.cdf(hi).0 - d.cdf(lo).0 - 0.95).abs() < 1e-9);
}

#[test]
fn conjugate_update_adds_counts() {
    let prior = beta(2.0, 3.0);
    let posterior = prior.update(7, 5);
    assert_eq!(posterior, beta(9.0, 8.0));
    assert_eq!(prior.update(0, 0), prior);
    assert_eq!(prior.update_binomial(7, 12), posterior);
    assert_eq!(prior.update_one(true), beta(3.0, 3.0));
    assert_eq!(prior.update_one(false), beta(2.0, 4.0));
    assert_eq!(prior.update_bernoulli(&[true, false, true, true]), beta(5.0, 4.0));
}

#[test]
fn update_is_order_independent_and_sequential() {
    let prior = Beta::<F>::jeffreys();
    let batch = prior.update(3, 2);
    let sequential =
        prior.update_one(true).update_one(false).update_one(true).update_one(true).update_one(false);
    assert_eq!(batch, sequential);
}

#[test]
fn posterior_concentrates_on_the_true_rate() {
    let posterior = Beta::<F>::uniform().update(700, 300);
    assert!((posterior.mean().0 - 0.7).abs() < 1e-3);
    assert!(posterior.std_dev().0 < 0.02);
    assert!((posterior.predictive_success_probability().0 - posterior.mean().0).abs() < 1e-15);
}

#[test]
fn beta_sampling_recovers_moments() {
    let mut rng = SplitMix64::seed_from_u64(31_337);
    for &(a, b) in &[(2.0, 2.0), (0.7, 3.0), (8.0, 2.0)] {
        let d = beta(a, b);
        let n = 60_000;
        let xs: Vec<f64> = (0..n).map(|_| d.sample(&mut rng).0).collect();
        assert!(xs.iter().all(|x| (0.0..=1.0).contains(x)));
        let mean = xs.iter().sum::<f64>() / n as f64;
        let var = xs.iter().map(|x| (x - mean) * (x - mean)).sum::<f64>() / (n as f64 - 1.0);
        assert!((mean - d.mean().0).abs() < 0.01, "Beta({a}, {b}) mean {mean}");
        assert!((var - d.variance().0).abs() < 0.01, "Beta({a}, {b}) var {var} vs {}", d.variance().0);
    }
}

#[test]
fn samples_track_the_cdf() {
    let d = beta(2.0, 5.0);
    let mut rng = SplitMix64::seed_from_u64(4);
    let n = 40_000;
    let xs: Vec<f64> = (0..n).map(|_| d.sample(&mut rng).0).collect();
    for &q in &[0.1, 0.25, 0.5, 0.75, 0.9] {
        let threshold = d.quantile(F(q)).0;
        let empirical = xs.iter().filter(|x| **x <= threshold).count() as f64 / n as f64;
        assert!((empirical - q).abs() < 0.02, "q = {q}, empirical = {empirical}");
    }
}

#[test]
fn log_likelihood_helpers() {
    assert!((Beta::<F>::log_likelihood(F(0.5), 2, 1).0 - 0.125f64.ln()).abs() < 1e-12);
    assert_eq!(Beta::<F>::log_likelihood(F(0.0), 1, 0).0, f64::NEG_INFINITY);
    assert_eq!(Beta::<F>::log_likelihood(F(0.0), 0, 3).0, 0.0);
    let bernoulli = Beta::<F>::log_likelihood(F(0.5), 2, 1).0;
    let binomial = Beta::<F>::log_likelihood_binomial(F(0.5), 2, 3).0;
    assert!((binomial - bernoulli - 3f64.ln()).abs() < 1e-12);
}

#[test]
fn unnormalized_posterior_is_proportional_to_the_conjugate_posterior() {
    let prior = beta(2.0, 3.0);
    let (s, f) = (5u64, 4u64);
    let posterior = prior.update(s, f);
    let offset = prior.log_unnormalized_posterior(F(0.5), s, f).0 - posterior.log_pdf(F(0.5)).0;
    for &x in &[0.1, 0.3, 0.7, 0.95] {
        let diff = prior.log_unnormalized_posterior(F(x), s, f).0 - posterior.log_pdf(F(x)).0;
        assert!((diff - offset).abs() < 1e-12, "x = {x}");
    }
    let evidence = prior.log_marginal_likelihood(s, f).0 - ln_binomial::<F>(s + f, s).0;
    assert!((offset - evidence).abs() < 1e-12);
}

#[test]
fn evidence_under_uniform_prior_is_uniform_over_counts() {
    let prior = Beta::<F>::uniform();
    let n = 7u64;
    let total: f64 = (0..=n).map(|k| prior.log_marginal_likelihood(k, n - k).0.exp()).sum();
    assert!((total - 1.0).abs() < 1e-12);
    for k in 0..=n {
        let p = prior.log_marginal_likelihood(k, n - k).0.exp();
        assert!((p - 1.0 / (n as f64 + 1.0)).abs() < 1e-12, "k = {k}");
    }
}

#[test]
fn beta_distribution_trait_and_inherent_sample_agree() {
    let d = beta(2.0, 2.0);
    let mut a = SplitMix64::seed_from_u64(77);
    let mut b = SplitMix64::seed_from_u64(77);
    assert_eq!(d.sample(&mut a), Distribution::<F>::sample(&d, &mut b));
    assert_eq!(Beta::<F>::default(), Beta::uniform());
    assert!(Beta::<F>::haldane().mean().0 > 0.0);
}

#[test]
fn beta_rejects_invalid_parameters() {
    assert!(Beta::try_new(F(0.0), F(1.0)).is_err());
    assert!(Beta::try_new(F(1.0), F(f64::NAN)).is_err());
    assert!(Beta::try_new(F(-1.0), F(1.0)).is_err());
}

#[test]
fn try_new_names_the_first_bad_parameter() {
    assert_eq!(Beta::try_new(F(0.0), F(f64::NAN)), Err(ParameterError::NotPositive { parameter: "alpha" }));
    assert_eq!(Gamma::try_new(F(1.0), F(f64::INFINITY)), Err(ParameterError::NotFinite { parameter: "rate" }));
    assert_eq!(Gaussian::try_new(F(f64::NAN), F(-1.0)), Err(ParameterError::NotFinite { parameter: "mean" }));
    assert_eq!(Gaussian::try_new(F(0.0), F(-1.0)), Err(ParameterError::NotPositive { parameter: "std" }));
}

// ---------------------------------------------------------------------------
// Gamma
// ---------------------------------------------------------------------------

#[test]
fn moments_are_analytic() {
    let g = gamma(3.0, 2.0);
    assert!((g.mean().0 - 1.5).abs() < 1e-15);
    assert!((g.variance().0 - 0.75).abs() < 1e-15);
    assert!((g.mode().unwrap().0 - 1.0).abs() < 1e-15);
    assert_eq!(gamma(0.5, 1.0).mode(), None);
    assert!((g.scale().0 - 0.5).abs() < 1e-15);
}

#[test]
fn gamma_pdf_matches_closed_form() {
    let g = gamma(1.0, 2.0);
    for &x in &[0.0f64, 0.25, 1.0, 3.0] {
        let expected = 2.0 * (-2.0 * x).exp();
        assert!((g.pdf(F(x)).0 - expected).abs() < 1e-12, "x = {x}");
    }
    assert_eq!(g.pdf(F(-1.0)).0, 0.0);
    assert!(g.log_pdf(F(-1.0)).0.is_infinite());
}

#[test]
fn gamma_pdf_integrates_to_one() {
    let g = gamma(2.5, 1.5);
    let (lo, hi, steps) = (0.0, 25.0, 250_000);
    let h = (hi - lo) / steps as f64;
    let mut total = 0.5 * (g.pdf(F(lo)).0 + g.pdf(F(hi)).0);
    for i in 1..steps {
        total += g.pdf(F(lo + i as f64 * h)).0;
    }
    assert!((total * h - 1.0).abs() < 1e-6);
}

#[test]
fn gamma_sampling_recovers_moments() {
    let mut rng = SplitMix64::seed_from_u64(20_240_617);
    for &(shape, rate) in &[(0.4, 1.0), (1.0, 2.0), (7.5, 3.0)] {
        let g = gamma(shape, rate);
        let xs: Vec<f64> = (0..50_000).map(|_| g.sample(&mut rng).0).collect();
        assert!(xs.iter().all(|x| *x > 0.0 && x.is_finite()));
        let (mean, var) = mean_and_variance(&xs);
        assert!((mean - g.mean().0).abs() < 0.05 * g.mean().0.max(1.0), "shape {shape}: mean {mean}");
        assert!((var - g.variance().0).abs() < 0.15 * g.variance().0.max(1.0), "shape {shape}: var {var}");
    }
}

#[test]
fn poisson_conjugate_update() {
    let prior = gamma(2.0, 1.0);
    let posterior = prior.update_poisson(&[4, 6, 5]);
    assert_eq!(posterior.shape().0, 17.0);
    assert_eq!(posterior.rate().0, 4.0);
    assert_eq!(posterior, prior.update_poisson_summary(15, 3));
    assert_eq!(prior.update_poisson(&[]), prior);
}

#[test]
fn poisson_evidence_matches_direct_integration() {
    let prior = gamma(2.0, 1.5);
    let counts = [1u64, 3, 2];
    let log_evidence = prior.log_marginal_likelihood_poisson(&counts).0;

    let (lo, hi, steps) = (0.0f64, 60.0f64, 600_000);
    let h = (hi - lo) / steps as f64;
    let integrand = |lambda: f64| {
        if lambda <= 0.0 {
            return 0.0;
        }
        let log_lik: f64 =
            counts.iter().map(|&k| k as f64 * lambda.ln() - lambda - ln_factorial::<F>(k).0).sum();
        (log_lik + prior.log_pdf(F(lambda)).0).exp()
    };
    let mut total = 0.5 * (integrand(lo) + integrand(hi));
    for i in 1..steps {
        total += integrand(lo + i as f64 * h);
    }
    let numeric = (total * h).ln();
    assert!((log_evidence - numeric).abs() < 1e-6, "{log_evidence} vs {numeric}");
}

#[test]
fn gamma_distribution_trait_and_inherent_sample_agree() {
    let g = gamma(2.0, 3.0);
    let mut a = SplitMix64::seed_from_u64(11);
    let mut b = SplitMix64::seed_from_u64(11);
    let via_inherent = g.sample(&mut a);
    let via_trait = Distribution::<F>::sample(&g, &mut b);
    assert_eq!(via_inherent, via_trait);
}

#[test]
fn gamma_rejects_invalid_parameters() {
    assert!(Gamma::try_new(F(0.0), F(1.0)).is_err());
    assert!(Gamma::try_new(F(1.0), F(-2.0)).is_err());
    assert!(Gamma::try_new(F(f64::NAN), F(1.0)).is_err());
}

// ---------------------------------------------------------------------------
// Gaussian
// ---------------------------------------------------------------------------

#[test]
fn moments_and_accessors() {
    let g = gauss(2.0, 3.0);
    assert_eq!(g.mean().0, 2.0);
    assert_eq!(g.std_dev().0, 3.0);
    assert_eq!(g.variance().0, 9.0);
    assert!((g.precision().0 - 1.0 / 9.0).abs() < 1e-15);
    assert_eq!(Gaussian::from_variance(F(2.0), F(9.0)), g);
    assert_eq!(Gaussian::<F>::default(), Gaussian::standard());
    assert!((g.z_score(F(5.0)).0 - 1.0).abs() < 1e-15);
}

#[test]
fn normal_pdf_matches_closed_form() {
    let g = gauss(1.0, 2.0);
    let peak = 1.0 / (2.0 * (2.0 * PI).sqrt());
    assert!((g.pdf(F(1.0)).0 - peak).abs() < 1e-15);
    assert!((g.pdf(F(1.0 - 0.7)).0 - g.pdf(F(1.0 + 0.7)).0).abs() < 1e-15);
    assert!((Gaussian::<F>::standard().pdf(F(1.0)).0 - 0.241_970_724_519_143_37).abs() < 1e-15);
    assert!((Gaussian::<F>::standard().log_pdf(F(0.0)).0 - (-0.918_938_533_204_672_7)).abs() < 1e-14);
}

#[test]
fn normal_pdf_integrates_to_one() {
    let g = gauss(-1.0, 0.75);
    let (lo, hi, steps) = (-11.0, 9.0, 200_000);
    let h = (hi - lo) / steps as f64;
    let mut total = 0.5 * (g.pdf(F(lo)).0 + g.pdf(F(hi)).0);
    for i in 1..steps {
        total += g.pdf(F(lo + i as f64 * h)).0;
    }
    assert!((total * h - 1.0).abs() < 1e-9);
}

#[test]
fn normal_cdf_and_quantile_round_trip() {
    let g = gauss(3.0, 2.0);
    assert!((g.cdf(F(3.0)).0 - 0.5).abs() < 1e-15);
    assert!((g.cdf(F(5.0)).0 - 0.841_344_746_068_542_9).abs() < 1e-12);
    for &p in &[0.01, 0.25, 0.5, 0.75, 0.99] {
        assert!((g.cdf(g.quantile(F(p))).0 - p).abs() < 1e-12, "p = {p}");
    }
    let (lo, hi) = g.credible_interval(F(0.95));
    assert!((lo.0 - (3.0 - 1.959_963_984_540_054 * 2.0)).abs() < 1e-9);
    assert!((hi.0 - (3.0 + 1.959_963_984_540_054 * 2.0)).abs() < 1e-9);
}

#[test]
fn normal_sampling_recovers_moments() {
    let g = gauss(-2.5, 1.5);
    let mut rng = SplitMix64::seed_from_u64(2024);
    let xs: Vec<f64> = (0..100_000).map(|_| g.sample(&mut rng).0).collect();
    let (mean, var) = mean_and_variance(&xs);
    assert!((mean - g.mean().0).abs() < 0.02, "mean = {mean}");
    assert!((var - g.variance().0).abs() < 0.05, "var = {var}");
}

#[test]
fn sampling_is_deterministic_for_a_seed() {
    let g = Gaussian::<F>::standard();
    let mut a = SplitMix64::seed_from_u64(5);
    let mut b = SplitMix64::seed_from_u64(5);
    for _ in 0..32 {
        assert_eq!(g.sample(&mut a), Distribution::<F>::sample(&g, &mut b));
    }
}

#[test]
fn normal_normal_conjugate_update() {
    let prior = gauss(0.0, 1.0);
    let posterior = prior.update(&fs(&[1.0, 2.0, 3.0]), F(1.0));
    assert!((posterior.variance().0 - 0.25).abs() < 1e-12);
    assert!((posterior.mean().0 - 1.5).abs() < 1e-12);
    assert_eq!(posterior, prior.update_summary(3, F(2.0), F(1.0)));
}

#[test]
fn update_is_sequentially_consistent() {
    let prior = gauss(1.0, 2.0);
    let data = [0.4, -1.2, 3.3, 2.9, 0.1];
    let batch = prior.update(&fs(&data), F(0.5));
    let mut sequential = prior;
    for x in data {
        sequential = sequential.update(&[F(x)], F(0.5));
    }
    assert!((batch.mean().0 - sequential.mean().0).abs() < 1e-12);
    assert!((batch.std_dev().0 - sequential.std_dev().0).abs() < 1e-12);
}

#[test]
fn update_shrinks_variance_and_ignores_empty_data() {
    let prior = gauss(0.0, 1.0);
    assert_eq!(prior.update(&[], F(1.0)), prior);
    let posterior = prior.update(&fs(&[1.0; 10]), F(1.0));
    assert!(posterior.variance().0 < prior.variance().0);
    let predictive = posterior.posterior_predictive(F(1.0));
    assert!(predictive.variance().0 > posterior.variance().0);
    assert!((predictive.variance().0 - (posterior.variance().0 + 1.0)).abs() < 1e-12);
}

#[test]
fn log_likelihood_sums_log_pdfs() {
    let g = gauss(0.5, 1.25);
    let data = fs(&[0.0, 1.0, -2.0, 3.5]);
    let expected: f64 = data.iter().map(|x| g.log_pdf(*x).0).sum();
    assert!((g.log_likelihood(&data).0 - expected).abs() < 1e-12);
    assert_eq!(g.log_likelihood(&[]).0, 0.0);
}

#[test]
fn evidence_matches_numeric_integration() {
    let prior = gauss(0.0, 1.0);
    let data = fs(&[0.8, 1.4]);
    let known_variance = 0.5f64;
    let analytic = prior.log_marginal_likelihood(&data, F(known_variance)).0;

    let (lo, hi, steps) = (-12.0f64, 12.0f64, 400_000);
    let h = (hi - lo) / steps as f64;
    let integrand = |mu: f64| {
        let lik = gauss(mu, known_variance.sqrt()).log_likelihood(&data).0;
        (lik + prior.log_pdf(F(mu)).0).exp()
    };
    let mut total = 0.5 * (integrand(lo) + integrand(hi));
    for i in 1..steps {
        total += integrand(lo + i as f64 * h);
    }
    let numeric = (total * h).ln();
    assert!((analytic - numeric).abs() < 1e-8, "{analytic} vs {numeric}");
}

#[test]
fn normal_rejects_invalid_parameters() {
    assert!(Gaussian::try_new(F(0.0), F(0.0)).is_err());
    assert!(Gaussian::try_new(F(0.0), F(-1.0)).is_err());
    assert!(Gaussian::try_new(F(f64::INFINITY), F(1.0)).is_err());
}

// ---------------------------------------------------------------------------
// Metropolis
// ---------------------------------------------------------------------------

#[test]
fn recovers_a_gaussian_target() {
    let (mu, sigma) = (3.0, 1.5);
    let target = move |x: F| F(-0.5 * ((x.0 - mu) / sigma).powi(2));
    let mut sampler = Metropolis::with_gaussian_proposal(target, F(2.5));
    let mut rng = SplitMix64::seed_from_u64(0xBEEF);

    let trace = trace_of(sampler.run_with_burn_in(&mut rng, F(-10.0), 5_000, 100_000));
    assert_eq!(trace.len(), 100_000);

    let (mean, std) = mean_and_std(&trace);
    assert!((mean - mu).abs() < 0.05, "mean = {mean}");
    assert!((std - sigma).abs() < 0.08, "std = {std}");

    let rate = sampler.acceptance_rate().0;
    assert!(rate > 0.2 && rate < 0.9, "acceptance rate = {rate}");
}

#[test]
fn recovers_the_mode_of_a_bimodal_target() {
    let target = |x: F| {
        let big = (-0.5 * (x.0 - 2.0f64).powi(2)).exp();
        let small = 0.1 * (-0.5 * (x.0 + 2.0f64).powi(2)).exp();
        F((big + small).ln())
    };
    let mut sampler = Metropolis::with_gaussian_proposal(target, F(2.0));
    let mut rng = SplitMix64::seed_from_u64(99);
    let trace = trace_of(sampler.run_with_burn_in(&mut rng, F(0.0), 5_000, 120_000));

    let mut bins = [0usize; 80];
    for x in &trace {
        let idx = (((x + 6.0) / 12.0) * bins.len() as f64) as isize;
        if (0..bins.len() as isize).contains(&idx) {
            bins[idx as usize] += 1;
        }
    }
    let best = bins.iter().enumerate().max_by_key(|(_, c)| **c).unwrap().0;
    let mode = -6.0 + (best as f64 + 0.5) * (12.0 / bins.len() as f64);
    assert!((mode - 2.0).abs() < 0.4, "mode = {mode}");

    let right = trace.iter().filter(|x| **x > 0.0).count() as f64 / trace.len() as f64;
    assert!(right > 0.85, "right-hand mass = {right}");
}

#[test]
fn recovers_a_beta_posterior() {
    let prior = Beta::<F>::uniform();
    let (s, f) = (30u64, 70u64);
    let posterior = prior.update(s, f);
    let target = move |x: F| prior.log_unnormalized_posterior(x, s, f);

    let mut sampler = Metropolis::with_gaussian_proposal(target, F(0.1));
    let mut rng = SplitMix64::seed_from_u64(7);
    let trace = trace_of(sampler.run_with_burn_in(&mut rng, F(0.5), 2_000, 60_000));

    assert!(trace.iter().all(|x| (0.0..=1.0).contains(x)));
    let (mean, std) = mean_and_std(&trace);
    assert!((mean - posterior.mean().0).abs() < 0.01, "mean = {mean}");
    assert!((std - posterior.std_dev().0).abs() < 0.005, "std = {std}");
}

#[test]
fn step_returns_current_or_candidate_and_counts_proposals() {
    let target = |x: F| F(-0.5 * x.0 * x.0);
    let mut sampler = Metropolis::with_gaussian_proposal(target, F(1.0));
    let mut rng = SplitMix64::seed_from_u64(3);
    let mut state = F(0.0);
    for _ in 0..1_000 {
        let next = sampler.step(&mut rng, state);
        assert!(next.0.is_finite());
        state = next;
    }
    assert_eq!(sampler.proposals(), 1_000);
    assert!(sampler.accepted() > 0 && sampler.accepted() <= 1_000);
    assert!((sampler.acceptance_rate().0 - sampler.accepted() as f64 / sampler.proposals() as f64).abs() < 1e-15);
    sampler.reset_statistics();
    assert_eq!(sampler.proposals(), 0);
    assert_eq!(sampler.acceptance_rate().0, 0.0);
}

#[test]
fn run_is_deterministic_for_a_seed() {
    let target = |x: F| F(-0.5 * x.0 * x.0);
    let mut a = Metropolis::with_gaussian_proposal(target, F(1.0));
    let mut b = Metropolis::with_gaussian_proposal(target, F(1.0));
    let mut rng_a = SplitMix64::seed_from_u64(42);
    let mut rng_b = SplitMix64::seed_from_u64(42);
    assert_eq!(a.run(&mut rng_a, F(0.0), 500), b.run(&mut rng_b, F(0.0), 500));
}

#[test]
fn rejects_impossible_candidates() {
    let target = |x: F| if (0.0..=1.0).contains(&x.0) { F(0.0) } else { F(f64::NEG_INFINITY) };
    let mut sampler = Metropolis::with_gaussian_proposal(target, F(0.5));
    let mut rng = SplitMix64::seed_from_u64(17);
    let trace = trace_of(sampler.run(&mut rng, F(0.5), 20_000));
    assert!(trace.iter().all(|x| (0.0..=1.0).contains(x)));
    let (mean, _) = mean_and_std(&trace);
    assert!((mean - 0.5).abs() < 0.02, "mean = {mean}");

    let mut nan_sampler = Metropolis::with_gaussian_proposal(|_x: F| F(f64::NAN), F(1.0));
    assert_eq!(nan_sampler.step(&mut rng, F(1.25)).0, 1.25);
    assert_eq!(nan_sampler.accepted(), 0);
}

#[test]
fn thinning_preserves_the_target() {
    let target = |x: F| F(-0.5 * ((x.0 - 1.0) / 0.5f64).powi(2));
    let mut sampler = Metropolis::with_gaussian_proposal(target, F(1.0));
    let mut rng = SplitMix64::seed_from_u64(2_024);
    let trace = trace_of(sampler.run_thinned(&mut rng, F(0.0), 1_000, 20_000, 3));
    assert_eq!(trace.len(), 20_000);
    let (mean, std) = mean_and_std(&trace);
    assert!((mean - 1.0).abs() < 0.03, "mean = {mean}");
    assert!((std - 0.5).abs() < 0.03, "std = {std}");
}

#[test]
fn custom_symmetric_proposal_is_accepted() {
    let target = |x: F| F(-0.5 * ((x.0 - 5.0) / 2.0f64).powi(2));
    let mut sampler = Metropolis::new(target, gauss(0.0, 4.0));
    let mut rng = SplitMix64::seed_from_u64(555);
    let trace = trace_of(sampler.run_with_burn_in(&mut rng, F(0.0), 2_000, 50_000));
    let (mean, std) = mean_and_std(&trace);
    assert!((mean - 5.0).abs() < 0.1, "mean = {mean}");
    assert!((std - 2.0).abs() < 0.1, "std = {std}");
    assert_eq!(sampler.proposal().mean().0, 0.0);
    let (_target, proposal) = sampler.into_parts();
    assert_eq!(proposal.std_dev().0, 4.0);
}

#[test]
fn zero_length_run_is_empty() {
    let mut sampler = Metropolis::with_gaussian_proposal(|x: F| F(-x.0 * x.0), F(1.0));
    let mut rng = SplitMix64::seed_from_u64(1);
    assert!(sampler.run(&mut rng, F(0.0), 0).is_empty());
    assert_eq!(sampler.proposals(), 0);
}

// ---------------------------------------------------------------------------
// Whole workflows
// ---------------------------------------------------------------------------

#[test]
fn sequential_coin_flipping_recovers_the_true_bias() {
    let truth = 0.35;
    let mut rng = SplitMix64::seed_from_u64(1_234_567);
    let mut belief = Beta::<F>::uniform();
    for _ in 0..2_000 {
        belief = belief.update_one(next_f64(&mut rng) < truth);
    }
    assert!((belief.mean().0 - truth).abs() < 0.03, "mean = {}", belief.mean().0);
    let (lo, hi) = belief.credible_interval(F(0.99));
    assert!(lo.0 < truth && truth < hi.0, "interval = ({}, {})", lo.0, hi.0);
    assert!(belief.std_dev().0 < 0.02);
    assert_eq!(belief.predictive_success_probability(), belief.mean());
}

#[test]
fn conjugate_and_mcmc_beta_posteriors_agree() {
    let prior = beta(2.0, 2.0);
    let (successes, failures) = (37u64, 63u64);
    let exact = prior.update(successes, failures);

    let target = move |p: F| prior.log_unnormalized_posterior(p, successes, failures);
    let mut sampler = Metropolis::with_gaussian_proposal(target, F(0.12));
    let mut rng = SplitMix64::seed_from_u64(20_260_810);
    let trace = trace_of(sampler.run_with_burn_in(&mut rng, F(0.5), 5_000, 80_000));

    let (mean, std) = mean_and_std(&trace);
    assert!((mean - exact.mean().0).abs() < 0.005, "mean {mean} vs {}", exact.mean().0);
    assert!((std - exact.std_dev().0).abs() < 0.003, "std {std} vs {}", exact.std_dev().0);

    for &q in &[0.1, 0.5, 0.9] {
        let threshold = exact.quantile(F(q)).0;
        let empirical = trace.iter().filter(|x| **x <= threshold).count() as f64 / trace.len() as f64;
        assert!((empirical - q).abs() < 0.02, "q = {q}, empirical = {empirical}");
    }
}

#[test]
fn conjugate_and_mcmc_normal_posteriors_agree() {
    let known_variance = 1.0f64;
    let mut rng = SplitMix64::seed_from_u64(555_444);
    let generator = gauss(2.0, known_variance.sqrt());
    let data: Vec<F> = (0..40).map(|_| generator.sample(&mut rng)).collect();

    let prior: Normal<F> = Normal::new(F(0.0), F(3.0));
    let exact = prior.update(&data, F(known_variance));
    assert!((exact.mean().0 - 2.0).abs() < 0.4);
    assert!(exact.variance().0 < prior.variance().0);

    let target = {
        let data = data.clone();
        move |mu: F| F(prior.log_pdf(mu).0 + Gaussian::new(mu, F(1.0)).log_likelihood(&data).0)
    };
    let mut sampler = Metropolis::with_gaussian_proposal(target, F(0.5));
    let trace = trace_of(sampler.run_with_burn_in(&mut rng, F(0.0), 5_000, 80_000));

    let (mean, std) = mean_and_std(&trace);
    assert!((mean - exact.mean().0).abs() < 0.01, "mean {mean} vs {}", exact.mean().0);
    assert!((std - exact.std_dev().0).abs() < 0.01, "std {std} vs {}", exact.std_dev().0);
}

#[test]
fn posterior_sampling_matches_the_conjugate_posterior() {
    let posterior = Beta::<F>::uniform().update(120, 80);
    let mut rng = SplitMix64::seed_from_u64(31);
    let draws: Vec<f64> = (0..50_000).map(|_| posterior.sample(&mut rng).0).collect();
    let (mean, std) = mean_and_std(&draws);
    assert!((mean - posterior.mean().0).abs() < 0.003);
    assert!((std - posterior.std_dev().0).abs() < 0.002);

    let empirical = draws.iter().filter(|x| **x > 0.55).count() as f64 / draws.len() as f64;
    let exact = 1.0 - posterior.cdf(F(0.55)).0;
    assert!((empirical - exact).abs() < 0.01, "{empirical} vs {exact}");
}

#[test]
fn model_comparison_via_marginal_likelihood() {
    let free_rate = Beta::<F>::uniform().log_marginal_likelihood(90, 10).0;
    let fair_coin = binomial_log_likelihood(F(0.5), 90, 100).0;
    assert!(free_rate - fair_coin > 30.0, "log Bayes factor = {}", free_rate - fair_coin);

    let free_rate = Beta::<F>::uniform().log_marginal_likelihood(50, 50).0;
    let fair_coin = binomial_log_likelihood(F(0.5), 50, 100).0;
    assert!(fair_coin > free_rate);

    let posterior_odds = fs(&[free_rate, fair_coin]);
    let total = log_sum_exp(&posterior_odds).0;
    let p_fair = (fair_coin - total).exp();
    assert!((0.0..=1.0).contains(&p_fair) && p_fair > 0.5);
}

#[test]
fn gamma_poisson_workflow() {
    let mut rng = SplitMix64::seed_from_u64(8_675_309);
    let rate = 3.0f64;
    let counts: Vec<u64> = (0..200)
        .map(|_| {
            let mut k = 0u64;
            let mut product = next_f64(&mut rng);
            let threshold = (-rate).exp();
            while product > threshold {
                product *= next_f64(&mut rng);
                k += 1;
            }
            k
        })
        .collect();

    let posterior = gamma(1.0, 1.0).update_poisson(&counts);
    assert!((posterior.mean().0 - rate).abs() < 0.3, "mean = {}", posterior.mean().0);
    assert!(posterior.variance().0 < 0.05);

    let draws: Vec<f64> = (0..20_000).map(|_| posterior.sample(&mut rng).0).collect();
    let (mean, _) = mean_and_std(&draws);
    assert!((mean - posterior.mean().0).abs() < 0.02);
}

fn average<D: Distribution<F>>(dist: &D, rng: &mut SplitMix64, n: usize) -> f64 {
    (0..n).map(|_| dist.sample(rng).0).sum::<f64>() / n as f64
}

#[test]
fn distributions_work_through_the_core_traits() {
    let mut rng = SplitMix64::seed_from_u64(4_242);
    assert!((average(&beta(2.0, 2.0), &mut rng, 40_000) - 0.5).abs() < 0.01);
    assert!((average(&gauss(-1.0, 0.5), &mut rng, 40_000) + 1.0).abs() < 0.01);
    assert!((average(&gamma(4.0, 2.0), &mut rng, 40_000) - 2.0).abs() < 0.05);
}

#[test]
fn whole_pipeline_is_reproducible() {
    let run = |seed: u64| {
        let mut rng = SplitMix64::seed_from_u64(seed);
        let mut belief = Beta::<F>::jeffreys();
        for _ in 0..500 {
            belief = belief.update_one(next_f64(&mut rng) < 0.6);
        }
        let target = move |p: F| belief.log_pdf(p);
        let mut sampler = Metropolis::with_gaussian_proposal(target, F(0.05));
        let trace = sampler.run_with_burn_in(&mut rng, belief.mean(), 500, 5_000);
        (belief, trace, sampler.acceptance_rate())
    };

    let (belief_a, trace_a, rate_a) = run(77);
    let (belief_b, trace_b, rate_b) = run(77);
    assert_eq!(belief_a, belief_b);
    assert_eq!(trace_a, trace_b);
    assert_eq!(rate_a, rate_b);

    let (belief_c, trace_c, _) = run(78);
    assert_ne!(belief_a, belief_c);
    assert_ne!(trace_a, trace_c);
}
