use tpt_math::prob::{
    reduce_draw, shuffle, uniform_index, CoreRng, Metropolis, ReservoirSampler, Rng, Sampler, SplitMix64, Standard,
};

const SEED: u64 = 0x1234_5678;

#[test]
fn splitmix64_is_deterministic() {
    let mut a = SplitMix64::seed_from_u64(1);
    let mut b = SplitMix64::seed_from_u64(1);
    for _ in 0..100 {
        assert_eq!(a.next_u64(), b.next_u64());
    }
}

#[test]
fn sampler_fills_slice() {
    let mut rng = SplitMix64::seed_from_u64(99);
    let mut buf = [0u64; 8];
    Standard.sample_slice(&mut rng, &mut buf);
    assert_ne!(buf, [0u64; 8]);
}

#[test]
fn core_rng_next_u64_matches_inner() {
    // `CoreRng` must delegate `next_u64`/`next_u32` to the wrapped `Rng`.
    let mut a = SplitMix64::seed_from_u64(7);
    let mut b = SplitMix64::seed_from_u64(7);
    let mut core = CoreRng(&mut a);
    for _ in 0..1000 {
        assert_eq!(core.next_u64(), b.next_u64());
        assert_eq!(core.next_u32(), (b.next_u64() >> 32) as u32);
    }
}

#[test]
fn reservoir_uniform_among_stream() {
    let mut rng = SplitMix64::seed_from_u64(SEED);
    let mut slots = [0u32; 10];
    let mut rs = ReservoirSampler::new(&mut slots);
    for x in 0u32..100 {
        rs.offer(x, &mut rng);
    }
    assert_eq!(rs.capacity(), 10);
    assert!(slots.iter().all(|&v| v < 100));
    assert!(slots.iter().any(|&v| v >= 90));

    // Small stream: reservoir holds everything.
    let mut small = [0u32; 5];
    let mut rs2 = ReservoirSampler::new(&mut small);
    for x in 0u32..3 {
        rs2.offer(x, &mut rng);
    }
    let mut collected: Vec<u32> = rs2.sample().to_vec();
    collected.sort_unstable();
    assert_eq!(collected, vec![0, 1, 2]);
}

#[test]
fn reservoir_is_fair_over_trials() {
    let mut rng = SplitMix64::seed_from_u64(SEED);
    let mut hits = [0u32; 100];
    for _ in 0..20000u32 {
        let mut slots = [0u32; 10];
        let mut rs = ReservoirSampler::new(&mut slots);
        for x in 0u32..100 {
            rs.offer(x, &mut rng);
        }
        for &v in rs.sample() {
            hits[v as usize] += 1;
        }
    }
    for &h in &hits {
        // expected ~ (10/100) * 20000 = 2000
        assert!((h as f64 - 2000.0).abs() < 350.0, "hit count {h}");
    }
}

#[test]
fn uniform_index_is_unbiased() {
    let mut rng = SplitMix64::seed_from_u64(SEED);
    let n = 6usize;
    let mut counts = [0u32; 6];
    for _ in 0..60000 {
        let i = uniform_index(&mut rng, n).unwrap();
        counts[i] += 1;
    }
    for &c in &counts {
        assert!((c as f64 - 10000.0).abs() < 600.0, "count {c}");
    }
    assert_eq!(uniform_index(&mut rng, 0), None);
    assert_eq!(uniform_index(&mut rng, 1), Some(0));
}

#[test]
fn shuffle_is_a_permutation() {
    let mut rng = SplitMix64::seed_from_u64(SEED);
    let mut v = [0, 1, 2, 3, 4, 5, 6, 7, 8, 9];
    shuffle(&mut v, &mut rng);
    let mut sorted = v;
    sorted.sort_unstable();
    assert_eq!(sorted, [0, 1, 2, 3, 4, 5, 6, 7, 8, 9]);
}

#[test]
fn splitmix_known_first_output() {
    // The reference SplitMix64 sequence for seed 0 starts with 0xE220A8397B1DCDAF.
    let mut rng = SplitMix64::new(0);
    assert_eq!(rng.next_u64(), 0xE220_A839_7B1D_CDAF);
    // Seeding adds the increment once more before the first step.
    let mut seeded = SplitMix64::seed_from_u64(0);
    let mut manual = SplitMix64::new(0x9E37_79B9_7F4A_7C15);
    assert_eq!(seeded.next_u64(), manual.next_u64());
}

#[test]
fn reduce_draw_accepts_below_the_limit() {
    // n = 4 is a power of two: every draw below u64::MAX is accepted and reduced modulo 4.
    assert_eq!(reduce_draw(u64::MAX - 1, 4), Some(2));
    assert_eq!(reduce_draw(u64::MAX, 4), None);
    // n = 3: the limit is the largest multiple of 3 that fits, u64::MAX itself.
    assert_eq!(reduce_draw(10, 3), Some(1));
    assert_eq!(reduce_draw(u64::MAX, 3), None);
    // n = 6: the limit is u64::MAX - (u64::MAX % 6) = u64::MAX - 3.
    assert_eq!(reduce_draw(u64::MAX - 4, 6), Some(((u64::MAX - 4) % 6) as usize));
    assert_eq!(reduce_draw(u64::MAX - 3, 6), None);
}

#[test]
fn reservoir_counts_and_reset() {
    let mut rng = SplitMix64::seed_from_u64(SEED);
    let mut slots = [0u32; 3];
    let mut rs = ReservoirSampler::new(&mut slots);
    assert!(rs.is_empty());
    assert_eq!(rs.offer(7, &mut rng), None);
    assert_eq!(rs.len(), 1);
    assert_eq!(rs.sample(), &[7]);
    rs.offer(8, &mut rng);
    rs.offer(9, &mut rng);
    assert!(rs.is_full());
    assert_eq!(rs.seen(), 3);
    // Once full, the returned item is either the offered one or a displaced one.
    let back = rs.offer(10, &mut rng).unwrap();
    assert!([7, 8, 9, 10].contains(&back));
    rs.reset();
    assert!(rs.is_empty());
    assert_eq!(rs.len(), 0);
}

#[test]
fn fill_bytes_uses_little_endian_draws() {
    let mut a = SplitMix64::seed_from_u64(5);
    let mut b = SplitMix64::seed_from_u64(5);
    let mut core = CoreRng(&mut a);
    let mut buf = [0u8; 11];
    core.fill_bytes(&mut buf);
    let first = b.next_u64().to_le_bytes();
    let second = b.next_u64().to_le_bytes();
    assert_eq!(&buf[..8], &first[..]);
    assert_eq!(&buf[8..], &second[..3]);
}

#[test]
fn metropolis_counts_proposals() {
    let mut m = Metropolis::new(0u8, 1u8);
    m.record_proposal(true);
    m.record_proposal(false);
    m.record_proposal(true);
    assert_eq!(m.accepted(), 2);
    assert_eq!(m.proposals(), 3);
    m.reset_statistics();
    assert_eq!(m.accepted(), 0);
    assert_eq!(m.proposals(), 0);
    assert_eq!(m.into_parts(), (0u8, 1u8));
}

#[test]
fn distribution_wrappers_hold_their_value() {
    let mut d = tpt_math::prob::Dist::new(5u32);
    assert_eq!(*d.inner(), 5);
    *d.inner_mut() = 6;
    assert_eq!(d.into_inner(), 6);
    let c = tpt_math::prob::AsU64::new(2.5f64);
    assert_eq!(c.into_inner(), 2.5);
}
