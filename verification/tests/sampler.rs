use tpt_math::prob::{Distribution, Sampler, SplitMix64};
use tpt_math::sampler::{Bernoulli, Density, DensityFn, RejectionSampler, Uniform, DEFAULT_MAX_ITERATIONS};
use tpt_math::sampler::{categorical, sample_categorical, InverseCdfSampler, ResampleScheme, SamplerError, SystematicResampler};
use tpt_math::scalar::Scalar;

/// An `f64` as a library scalar.
#[derive(Clone, Copy, Debug, PartialEq)]
struct F(f64);

impl Scalar for F {
    fn zero() -> F {
        F(0.0)
    }
    fn one() -> F {
        F(1.0)
    }
    fn from_int(n: i64) -> F {
        F(n as f64)
    }
    fn from_u64(n: u64) -> F {
        F(n as f64)
    }
    fn plus(self, rhs: F) -> F {
        F(self.0 + rhs.0)
    }
    fn minus(self, rhs: F) -> F {
        F(self.0 - rhs.0)
    }
    fn times(self, rhs: F) -> F {
        F(self.0 * rhs.0)
    }
    fn divide(self, rhs: F) -> F {
        F(self.0 / rhs.0)
    }
    fn negate(self) -> F {
        F(-self.0)
    }
    fn abs(self) -> F {
        F(self.0.abs())
    }
    fn sqrt(self) -> F {
        F(self.0.sqrt())
    }
    fn sin(self) -> F {
        F(self.0.sin())
    }
    fn cos(self) -> F {
        F(self.0.cos())
    }
    fn tan(self) -> F {
        F(self.0.tan())
    }
    fn acos(self) -> F {
        F(self.0.acos())
    }
    fn atan2(self, other: F) -> F {
        F(self.0.atan2(other.0))
    }
    fn exp(self) -> F {
        F(self.0.exp())
    }
    fn ln(self) -> F {
        F(self.0.ln())
    }
    fn lt(self, rhs: F) -> bool {
        self.0 < rhs.0
    }
    fn le(self, rhs: F) -> bool {
        self.0 <= rhs.0
    }
    fn eq(self, rhs: F) -> bool {
        self.0 == rhs.0
    }
    fn is_finite(self) -> bool {
        self.0.is_finite()
    }
    fn min(self, rhs: F) -> F {
        F(self.0.min(rhs.0))
    }
    fn max(self, rhs: F) -> F {
        F(self.0.max(rhs.0))
    }
    fn powi(self, n: i32) -> F {
        F(self.0.powi(n))
    }
    fn powf(self, p: F) -> F {
        F(self.0.powf(p.0))
    }
    fn floor(self) -> F {
        F(self.0.floor())
    }
    fn infinity() -> F {
        F(f64::INFINITY)
    }
    fn pi() -> F {
        F(std::f64::consts::PI)
    }
    fn e() -> F {
        F(std::f64::consts::E)
    }
    // The specification functions mirror the operations above.
    fn zero_spec() -> F {
        F::zero()
    }
    fn one_spec() -> F {
        F::one()
    }
    fn from_int_spec(n: i64) -> F {
        F::from_int(n)
    }
    fn from_u64_spec(n: u64) -> F {
        F::from_u64(n)
    }
    fn plus_spec(self, rhs: F) -> F {
        self.plus(rhs)
    }
    fn minus_spec(self, rhs: F) -> F {
        self.minus(rhs)
    }
    fn times_spec(self, rhs: F) -> F {
        self.times(rhs)
    }
    fn divide_spec(self, rhs: F) -> F {
        self.divide(rhs)
    }
    fn negate_spec(self) -> F {
        self.negate()
    }
    fn abs_spec(self) -> F {
        Scalar::abs(self)
    }
    fn sqrt_spec(self) -> F {
        Scalar::sqrt(self)
    }
    fn sin_spec(self) -> F {
        Scalar::sin(self)
    }
    fn cos_spec(self) -> F {
        Scalar::cos(self)
    }
    fn tan_spec(self) -> F {
        Scalar::tan(self)
    }
    fn acos_spec(self) -> F {
        Scalar::acos(self)
    }
    fn atan2_spec(self, other: F) -> F {
        Scalar::atan2(self, other)
    }
    fn exp_spec(self) -> F {
        Scalar::exp(self)
    }
    fn ln_spec(self) -> F {
        Scalar::ln(self)
    }
    fn lt_spec(self, rhs: F) -> bool {
        Scalar::lt(self, rhs)
    }
    fn le_spec(self, rhs: F) -> bool {
        Scalar::le(self, rhs)
    }
    fn eq_spec(self, rhs: F) -> bool {
        Scalar::eq(self, rhs)
    }
    fn is_finite_spec(self) -> bool {
        Scalar::is_finite(self)
    }
    fn min_spec(self, rhs: F) -> F {
        Scalar::min(self, rhs)
    }
    fn max_spec(self, rhs: F) -> F {
        Scalar::max(self, rhs)
    }
    fn powi_spec(self, n: i32) -> F {
        Scalar::powi(self, n)
    }
    fn powf_spec(self, p: F) -> F {
        Scalar::powf(self, p)
    }
    fn floor_spec(self) -> F {
        Scalar::floor(self)
    }
    fn infinity_spec() -> F {
        <F as Scalar>::infinity()
    }
    fn pi_spec() -> F {
        <F as Scalar>::pi()
    }
    fn e_spec() -> F {
        <F as Scalar>::e()
    }
}

const SEED: u64 = 0x1234_5678;

fn fs(xs: &[f64]) -> Vec<F> {
    xs.iter().map(|&x| F(x)).collect()
}

#[test]
fn cdf_from_weights_is_normalised() {
    let s = InverseCdfSampler::from_weights(&fs(&[1.0, 2.0, 3.0])).unwrap();
    let cdf = s.cdf();
    assert!((cdf.last().unwrap().0 - 1.0).abs() < 1e-12);
    assert!((s.probability(0).0 - 1.0 / 6.0).abs() < 1e-12);
    assert!((s.probability(1).0 - 2.0 / 6.0).abs() < 1e-12);
    assert!((s.probability(2).0 - 3.0 / 6.0).abs() < 1e-12);
}

#[test]
fn from_cdf_rejects_bad_input() {
    assert_eq!(InverseCdfSampler::from_cdf(fs(&[0.5, 0.4, 1.0])), Err(SamplerError::InvalidCdf));
    assert_eq!(InverseCdfSampler::from_cdf(fs(&[0.5, 0.9])), Err(SamplerError::InvalidCdf));
    let _ = SEED;
}

#[test]
fn weights_validation_errors() {
    assert_eq!(InverseCdfSampler::<F>::from_weights(&[]), Err(SamplerError::Empty));
    assert_eq!(InverseCdfSampler::from_weights(&fs(&[-1.0])), Err(SamplerError::NegativeWeight));
    assert_eq!(InverseCdfSampler::from_weights(&fs(&[f64::NAN])), Err(SamplerError::NonFiniteWeight));
    assert_eq!(InverseCdfSampler::from_weights(&fs(&[0.0, 0.0])), Err(SamplerError::ZeroTotal));
}

#[test]
fn zero_weight_never_selected() {
    let s = InverseCdfSampler::from_weights(&fs(&[1.0, 0.0, 0.0, 1.0])).unwrap();
    let mut rng = SplitMix64::seed_from_u64(SEED);
    for _ in 0..5000 {
        let i = s.sample(&mut rng);
        assert!(i == 0 || i == 3);
    }
}

#[test]
fn sample_index_from_uniform_boundaries() {
    let s = InverseCdfSampler::from_weights(&fs(&[0.5, 0.5])).unwrap();
    assert_eq!(s.sample_index_from_uniform(F(0.0)), 0);
    assert_eq!(s.sample_index_from_uniform(F(0.499999)), 0);
    assert_eq!(s.sample_index_from_uniform(F(0.5)), 1);
    assert_eq!(s.sample_index_from_uniform(F(0.999999)), 1);
}

#[test]
fn linear_categorical_matches_alias() {
    let weights = fs(&[1.0, 3.0, 2.0, 4.0]);
    let alias = categorical(&weights).unwrap();
    let mut rng = SplitMix64::seed_from_u64(SEED);
    let mut acc = [0usize; 4];
    for _ in 0..40000 {
        let a = alias.sample(&mut rng);
        let b = sample_categorical(&weights, &mut rng).unwrap();
        acc[a] += 1;
        acc[b] += 1;
    }
    let total = acc.iter().sum::<usize>() as f64;
    let sum = weights.iter().map(|w| w.0).sum::<f64>();
    for i in 0..4 {
        let expected = weights[i].0 / sum;
        assert!((acc[i] as f64 / total - expected).abs() < 0.02, "bin {i}");
    }
}

#[test]
fn systematic_resample_counts_bounded() {
    let weights = [1.0, 1.0, 2.0];
    let r = SystematicResampler::from_weights(&fs(&weights)).unwrap();
    let mut rng = SplitMix64::seed_from_u64(SEED);
    let n = 1000usize;
    let mut out = vec![0usize; n];
    // Each scheme should keep every index inside the category range.
    for &scheme in &[ResampleScheme::Multinomial, ResampleScheme::Systematic, ResampleScheme::Stratified] {
        r.sample_indices(&mut rng, scheme, &mut out);
        assert!(out.iter().all(|&i| i < 3));
        // counts within [floor, ceil] of n*p_i
        let mut counts = [0usize; 3];
        for &i in &out {
            counts[i] += 1;
        }
        let total = weights.iter().sum::<f64>();
        let n_f = n as f64;
        for (i, &c) in counts.iter().enumerate() {
            let p = weights[i] / total;
            if scheme == ResampleScheme::Systematic {
                // Systematic resampling keeps each count within
                // [floor, ceil] of its expectation.
                let lo = (n_f * p).floor() as usize;
                let hi = (n_f * p).ceil() as usize;
                assert!(c >= lo && c <= hi, "scheme {scheme:?} bin {i}: {c} not in [{lo},{hi}]");
            } else {
                // Multinomial / stratified have variance; only check
                // the empirical mean is approximately correct.
                let mean = c as f64 / n_f;
                assert!((mean - p).abs() < 0.05, "scheme {scheme:?} bin {i}: mean {mean} vs {p}");
            }
        }
    }
}

#[test]
fn sampler_slice_fills() {
    let s = categorical(&fs(&[1.0, 1.0, 1.0, 1.0])).unwrap();
    let mut rng = SplitMix64::seed_from_u64(SEED);
    let mut buf = [0usize; 16];
    s.sample_slice(&mut rng, &mut buf);
    assert!(buf.iter().all(|&i| i < 4));
}

#[test]
fn deterministic_with_seed() {
    let mut a = SplitMix64::seed_from_u64(SEED);
    let mut b = SplitMix64::seed_from_u64(SEED);
    let s = categorical(&fs(&[1.0, 2.0, 3.0, 4.0])).unwrap();
    let x1 = s.sample(&mut a);
    let x2 = s.sample(&mut b);
    assert_eq!(x1, x2);
}

#[test]
fn systematic_ladder_from_offset() {
    // CDF [0.25, 0.5, 1.0]; offset 0.1 with 4 slots gives the points 0.1, 0.35, 0.6, 0.85.
    let r = SystematicResampler::new(fs(&[0.25, 0.5, 1.0])).unwrap();
    let mut out = [0usize; 4];
    r.systematic_indices_from(F(0.1), &mut out);
    assert_eq!(out, [0, 1, 2, 2]);
    assert_eq!(r.len(), 3);
    assert!(!r.is_empty());
    assert_eq!(r.cdf().len(), 3);
    assert_eq!(SystematicResampler::<F>::new(Vec::new()), Err(SamplerError::Empty));
}

#[test]
fn cdf_edge_cases() {
    // A CDF ending within 1e-12 of one is accepted; entries out of [0, 1] are not.
    assert!(InverseCdfSampler::from_cdf(fs(&[0.5, 1.0 - 1e-13])).is_ok());
    assert_eq!(InverseCdfSampler::from_cdf(fs(&[-0.1, 1.0])), Err(SamplerError::InvalidCdf));
    assert_eq!(InverseCdfSampler::from_cdf(fs(&[0.5, 1.5])), Err(SamplerError::InvalidCdf));
    assert_eq!(InverseCdfSampler::<F>::from_cdf(Vec::new()), Err(SamplerError::Empty));
    // A uniform value at or above the last entry falls back to the last category with mass.
    let s = InverseCdfSampler::from_cdf(fs(&[0.5, 1.0, 1.0])).unwrap();
    assert_eq!(s.sample_index_from_uniform(F(1.0)), 1);
    assert_eq!(s.probability(2), F(0.0));
    assert_eq!(s.probability(7), F(0.0));
    assert_eq!(s.len(), 3);
    assert!(!s.is_empty());
    // An unnormalised linear pick: weights [1, 3], scaled value 2 lands in the second one.
    assert_eq!(tpt_math::sampler::pick_by_weight(&fs(&[1.0, 3.0]), F(2.0)), 1);
    assert_eq!(tpt_math::sampler::pick_by_weight(&fs(&[1.0, 3.0]), F(9.0)), 1);
    assert_eq!(tpt_math::sampler::validate_weights(&fs(&[1.0, 3.0])), Ok(F(4.0)));
    assert_eq!(tpt_math::sampler::unit_from_draw::<F>(u64::MAX).0, ((u64::MAX >> 11) as f64) / 9007199254740992.0);
    let mut rng = SplitMix64::seed_from_u64(SEED);
    assert_eq!(sample_categorical::<F, _>(&[], &mut rng), None);
}

#[test]
fn standard_f64_is_in_unit_interval() {
    let mut rng = SplitMix64::seed_from_u64(7);
    for _ in 0..1000 {
        let x: F = tpt_math::prob::Standard.sample(&mut rng);
        assert!((0.0..=1.0).contains(&x.0));
    }
}

#[test]
fn rejection_triangular_mean() {
    // Target: f(x) = 2x on [0,1] (mean 2/3). Proposal: Uniform(0,1), m=2.
    let target = DensityFn(|x: F| if (0.0..=1.0).contains(&x.0) { F(2.0 * x.0) } else { F(0.0) });
    let proposal = Uniform::new(F(0.0), F(1.0)).unwrap();
    let rs = RejectionSampler::new(target, proposal, F(2.0)).unwrap();
    let mut rng = SplitMix64::seed_from_u64(SEED);
    let mut sum = 0.0;
    let trials = 50000u32;
    for _ in 0..trials {
        let x = rs.sample(&mut rng);
        assert!((0.0..=1.0).contains(&x.0));
        sum += x.0;
    }
    let mean = sum / trials as f64;
    assert!((mean - 2.0 / 3.0).abs() < 0.02, "mean {mean}");
    // Acceptance probability ~ 1/m.
    let _ = rs.acceptance_probability();
}

#[test]
fn rejection_invalid_bound() {
    let target = DensityFn(|_x: F| F(1.0));
    let proposal = Uniform::new(F(0.0), F(1.0)).unwrap();
    assert!(matches!(RejectionSampler::new(target, proposal, F(0.0)), Err(SamplerError::InvalidBound)));
}

#[test]
fn bernoulli_mean() {
    let b = Bernoulli::new(F(0.3)).unwrap();
    let mut rng = SplitMix64::seed_from_u64(SEED);
    let trials = 50000u32;
    let mut ones = 0u32;
    for _ in 0..trials {
        if b.sample(&mut rng) {
            ones += 1;
        }
    }
    let p = ones as f64 / trials as f64;
    assert!((p - 0.3).abs() < 0.02, "p {p}");
}

#[test]
fn uniform_density_and_bounds() {
    let u = Uniform::new(F(2.0), F(6.0)).unwrap();
    assert_eq!(u.lo(), F(2.0));
    assert_eq!(u.hi(), F(6.0));
    assert_eq!(u.density(F(2.0)), F(0.25));
    assert_eq!(u.density(F(5.9)), F(0.25));
    assert_eq!(u.density(F(6.0)), F(0.0));
    assert_eq!(u.density(F(1.0)), F(0.0));
    let mut rng = SplitMix64::seed_from_u64(SEED);
    for _ in 0..1000 {
        let x = u.sample(&mut rng);
        assert!(x.0 >= 2.0 && x.0 < 6.0);
    }
    assert!(matches!(Uniform::new(F(1.0), F(1.0)), Err(SamplerError::InvalidInterval)));
    assert!(matches!(Uniform::new(F(2.0), F(1.0)), Err(SamplerError::InvalidInterval)));
    assert!(matches!(Uniform::new(F(0.0), F(f64::INFINITY)), Err(SamplerError::InvalidInterval)));
    assert!(matches!(Uniform::new(F(f64::NAN), F(1.0)), Err(SamplerError::InvalidInterval)));
}

#[test]
fn bernoulli_parameter_checks() {
    assert_eq!(Bernoulli::new(F(0.25)).unwrap().p(), F(0.25));
    assert!(Bernoulli::new(F(0.0)).is_ok());
    assert!(Bernoulli::new(F(1.0)).is_ok());
    assert!(matches!(Bernoulli::new(F(1.5)), Err(SamplerError::InvalidProbability)));
    assert!(matches!(Bernoulli::new(F(-0.1)), Err(SamplerError::InvalidProbability)));
    assert!(matches!(Bernoulli::new(F(f64::NAN)), Err(SamplerError::InvalidProbability)));
    // Probability one always succeeds, zero never does.
    let mut rng = SplitMix64::seed_from_u64(SEED);
    let always = Bernoulli::new(F(1.0)).unwrap();
    let never = Bernoulli::new(F(0.0)).unwrap();
    for _ in 0..100 {
        assert!(always.sample(&mut rng));
        assert!(!never.sample(&mut rng));
    }
}

#[test]
fn rejection_settings_and_exhaustion() {
    let target = DensityFn(|x: F| if (0.0..=1.0).contains(&x.0) { F(2.0 * x.0) } else { F(0.0) });
    let proposal = Uniform::new(F(0.0), F(1.0)).unwrap();
    let rs = RejectionSampler::new(target, proposal, F(4.0)).unwrap();
    assert_eq!(rs.m(), F(4.0));
    assert_eq!(rs.acceptance_probability(), F(0.25));
    assert_eq!(rs.proposal().hi(), F(1.0));
    assert_eq!(rs.target().density(F(0.5)), F(1.0));
    assert_eq!(DEFAULT_MAX_ITERATIONS, 1024);
    let mut rng = SplitMix64::seed_from_u64(SEED);
    assert!(rs.try_sample(&mut rng).is_some());
    // No attempt allowed: always gives up.
    let none = rs.max_iterations(0);
    for _ in 0..10 {
        assert_eq!(none.try_sample(&mut rng), None);
    }
    // A target that is zero everywhere is never accepted; the fallback is a proposal draw.
    let zero = RejectionSampler::new(DensityFn(|_x: F| F(0.0)), Uniform::new(F(0.0), F(1.0)).unwrap(), F(1.0))
        .unwrap()
        .max_iterations(5);
    assert_eq!(zero.try_sample(&mut rng), None);
    let x = zero.sample(&mut rng);
    assert!(x.0 >= 0.0 && x.0 < 1.0);
}
