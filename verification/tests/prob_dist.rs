use rand::RngCore;
use rand_distr::Distribution as RandDistribution;
use tpt_math::prob::{AsU64, CoreRng, Dist, Rng, SplitMix64};

/// The library's generator as a `rand` bit source, forwarding to [`CoreRng`].
struct Bits<R>(CoreRng<R>);

impl<R: Rng> RngCore for Bits<R> {
    fn next_u32(&mut self) -> u32 {
        self.0.next_u32()
    }
    fn next_u64(&mut self) -> u64 {
        self.0.next_u64()
    }
    fn fill_bytes(&mut self, dst: &mut [u8]) {
        self.0.fill_bytes(dst)
    }
}

fn draw<D: RandDistribution<T>, T, R: Rng>(dist: &Dist<D>, rng: &mut R) -> T {
    dist.inner().sample(&mut Bits(CoreRng(rng)))
}

fn draw_count<D: RandDistribution<f64>, R: Rng>(dist: &AsU64<D>, rng: &mut R) -> u64 {
    let x: f64 = dist.0.sample(&mut Bits(CoreRng(rng)));
    if x <= 0.0 {
        0
    } else if x >= u64::MAX as f64 {
        u64::MAX
    } else {
        x as u64
    }
}

fn mean_f64<D: RandDistribution<f64>>(dist: &Dist<D>, n: u64) -> f64 {
    let mut rng = SplitMix64::seed_from_u64(0xDEAD_BEEF);
    let mut sum = 0.0;
    for _ in 0..n {
        sum += draw(dist, &mut rng);
    }
    sum / (n as f64)
}

fn mean_u64<D: RandDistribution<f64>>(dist: &AsU64<D>, n: u64) -> f64 {
    let mut rng = SplitMix64::seed_from_u64(0xDEAD_BEEF);
    let mut sum = 0.0;
    for _ in 0..n {
        sum += draw_count(dist, &mut rng) as f64;
    }
    sum / (n as f64)
}

#[test]
fn normal_mean_and_variance() {
    let n = 200_000u64;
    let dist = Dist::new(rand_distr::Normal::new(3.0, 2.0).unwrap());
    let mut rng = SplitMix64::seed_from_u64(1234);
    let mut sum = 0.0;
    let mut sum_sq = 0.0;
    for _ in 0..n {
        let x: f64 = draw(&dist, &mut rng);
        sum += x;
        sum_sq += x * x;
    }
    let mean = sum / (n as f64);
    let var = sum_sq / (n as f64) - mean * mean;
    assert!((mean - 3.0).abs() < 0.05, "mean={mean}");
    assert!((var - 4.0).abs() < 0.1, "var={var}");
}

#[test]
fn uniform_float_mean() {
    let dist = Dist::new(rand_distr::Uniform::new(0.0_f64, 1.0).unwrap());
    let m = mean_f64(&dist, 100_000);
    assert!((m - 0.5).abs() < 0.01, "mean={m}");
}

#[test]
fn uniform_u64_range() {
    let dist = Dist::new(rand_distr::Uniform::new(10u64, 20u64).unwrap());
    let mut rng = SplitMix64::seed_from_u64(7);
    for _ in 0..1000 {
        let x: u64 = draw(&dist, &mut rng);
        assert!((10..20).contains(&x), "x={x}");
    }
}

#[test]
fn exp_mean() {
    let dist = Dist::new(rand_distr::Exp::new(2.0).unwrap());
    let m = mean_f64(&dist, 100_000);
    assert!((m - 0.5).abs() < 0.02, "mean={m}");
}

#[test]
fn poisson_mean() {
    let dist = AsU64(rand_distr::Poisson::new(4.0).unwrap());
    let m = mean_u64(&dist, 100_000);
    assert!((m - 4.0).abs() < 0.05, "mean={m}");
}

#[test]
fn lognormal_positive() {
    let dist = Dist::new(rand_distr::LogNormal::new(0.0, 1.0).unwrap());
    let mut rng = SplitMix64::seed_from_u64(11);
    for _ in 0..1000 {
        let x: f64 = draw(&dist, &mut rng);
        assert!(x > 0.0);
    }
}

#[test]
fn gamma_beta_positive() {
    let g = Dist::new(rand_distr::Gamma::new(2.0, 1.0).unwrap());
    let b = Dist::new(rand_distr::Beta::new(2.0, 3.0).unwrap());
    let mut rng = SplitMix64::seed_from_u64(13);
    for _ in 0..1000 {
        let y: f64 = draw(&g, &mut rng);
        assert!(y >= 0.0);
        let x: f64 = draw(&b, &mut rng);
        assert!((0.0..=1.0).contains(&x));
    }
}

#[test]
fn chi_squared_studentt_cauchy_finite() {
    let chi = Dist::new(rand_distr::ChiSquared::new(3.0).unwrap());
    let st = Dist::new(rand_distr::StudentT::new(5.0).unwrap());
    let ca = Dist::new(rand_distr::Cauchy::new(0.0, 1.0).unwrap());
    let mut rng = SplitMix64::seed_from_u64(17);
    for _ in 0..1000 {
        let a: f64 = draw(&chi, &mut rng);
        let b: f64 = draw(&st, &mut rng);
        let c: f64 = draw(&ca, &mut rng);
        assert!(a.is_finite());
        assert!(b.is_finite());
        assert!(c.is_finite());
    }
}

#[test]
fn core_rng_adapter_forwards_bits() {
    let gauss = rand_distr::Normal::new(0.0, 1.0).unwrap();
    let mut a = SplitMix64::seed_from_u64(42);
    let mut b = SplitMix64::seed_from_u64(42);
    for _ in 0..1000 {
        let via_adapter: f64 = draw(&Dist::new(&gauss), &mut a);
        let direct: f64 = gauss.sample(&mut Bits(CoreRng(&mut b)));
        assert_eq!(via_adapter, direct);
    }
}

#[test]
fn direct_rand_distr_usage() {
    let gauss = rand_distr::Normal::new(1.0, 0.5).unwrap();
    let mut rng = SplitMix64::seed_from_u64(2024);
    let mut core = Bits(CoreRng(&mut rng));
    let x: f64 = gauss.sample(&mut core);
    assert!(x.is_finite());
}
