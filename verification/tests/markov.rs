use tpt_math::markov::{
    categorical_index, probability_tolerance_exec, visit_frequencies, sample_categorical, HiddenMarkovModel, Hmm, MarkovChain, MarkovError,
};
use tpt_math::prob::SplitMix64;
use tpt_math::scalar::Scalar;

/// An `f64` as a library scalar.
#[derive(Clone, Copy, Debug, PartialEq)]
struct F(f64);

impl Scalar for F {
    fn zero() -> F {
        F(0.0)
    }
    fn one() -> F {
        F(1.0)
    }
    fn from_int(n: i64) -> F {
        F(n as f64)
    }
    fn from_u64(n: u64) -> F {
        F(n as f64)
    }
    fn plus(self, rhs: F) -> F {
        F(self.0 + rhs.0)
    }
    fn minus(self, rhs: F) -> F {
        F(self.0 - rhs.0)
    }
    fn times(self, rhs: F) -> F {
        F(self.0 * rhs.0)
    }
    fn divide(self, rhs: F) -> F {
        F(self.0 / rhs.0)
    }
    fn negate(self) -> F {
        F(-self.0)
    }
    fn abs(self) -> F {
        F(self.0.abs())
    }
    fn sqrt(self) -> F {
        F(self.0.sqrt())
    }
    fn sin(self) -> F {
        F(self.0.sin())
    }
    fn cos(self) -> F {
        F(self.0.cos())
    }
    fn tan(self) -> F {
        F(self.0.tan())
    }
    fn acos(self) -> F {
        F(self.0.acos())
    }
    fn atan2(self, other: F) -> F {
        F(self.0.atan2(other.0))
    }
    fn exp(self) -> F {
        F(self.0.exp())
    }
    fn ln(self) -> F {
        F(self.0.ln())
    }
    fn lt(self, rhs: F) -> bool {
        self.0 < rhs.0
    }
    fn le(self, rhs: F) -> bool {
        self.0 <= rhs.0
    }
    fn eq(self, rhs: F) -> bool {
        self.0 == rhs.0
    }
    fn is_finite(self) -> bool {
        self.0.is_finite()
    }
    fn min(self, rhs: F) -> F {
        F(self.0.min(rhs.0))
    }
    fn max(self, rhs: F) -> F {
        F(self.0.max(rhs.0))
    }
    fn powi(self, n: i32) -> F {
        F(self.0.powi(n))
    }
    fn powf(self, p: F) -> F {
        F(self.0.powf(p.0))
    }
    fn floor(self) -> F {
        F(self.0.floor())
    }
    fn infinity() -> F {
        F(f64::INFINITY)
    }
    fn pi() -> F {
        F(std::f64::consts::PI)
    }
    fn e() -> F {
        F(std::f64::consts::E)
    }
    // The specification functions mirror the operations above.
    fn zero_spec() -> F {
        F::zero()
    }
    fn one_spec() -> F {
        F::one()
    }
    fn from_int_spec(n: i64) -> F {
        F::from_int(n)
    }
    fn from_u64_spec(n: u64) -> F {
        F::from_u64(n)
    }
    fn plus_spec(self, rhs: F) -> F {
        self.plus(rhs)
    }
    fn minus_spec(self, rhs: F) -> F {
        self.minus(rhs)
    }
    fn times_spec(self, rhs: F) -> F {
        self.times(rhs)
    }
    fn divide_spec(self, rhs: F) -> F {
        self.divide(rhs)
    }
    fn negate_spec(self) -> F {
        self.negate()
    }
    fn abs_spec(self) -> F {
        Scalar::abs(self)
    }
    fn sqrt_spec(self) -> F {
        Scalar::sqrt(self)
    }
    fn sin_spec(self) -> F {
        Scalar::sin(self)
    }
    fn cos_spec(self) -> F {
        Scalar::cos(self)
    }
    fn tan_spec(self) -> F {
        Scalar::tan(self)
    }
    fn acos_spec(self) -> F {
        Scalar::acos(self)
    }
    fn atan2_spec(self, other: F) -> F {
        Scalar::atan2(self, other)
    }
    fn exp_spec(self) -> F {
        Scalar::exp(self)
    }
    fn ln_spec(self) -> F {
        Scalar::ln(self)
    }
    fn lt_spec(self, rhs: F) -> bool {
        Scalar::lt(self, rhs)
    }
    fn le_spec(self, rhs: F) -> bool {
        Scalar::le(self, rhs)
    }
    fn eq_spec(self, rhs: F) -> bool {
        Scalar::eq(self, rhs)
    }
    fn is_finite_spec(self) -> bool {
        Scalar::is_finite(self)
    }
    fn min_spec(self, rhs: F) -> F {
        Scalar::min(self, rhs)
    }
    fn max_spec(self, rhs: F) -> F {
        Scalar::max(self, rhs)
    }
    fn powi_spec(self, n: i32) -> F {
        Scalar::powi(self, n)
    }
    fn powf_spec(self, p: F) -> F {
        Scalar::powf(self, p)
    }
    fn floor_spec(self) -> F {
        Scalar::floor(self)
    }
    fn infinity_spec() -> F {
        <F as Scalar>::infinity()
    }
    fn pi_spec() -> F {
        <F as Scalar>::pi()
    }
    fn e_spec() -> F {
        <F as Scalar>::e()
    }
}

fn fv(xs: &[f64]) -> Vec<F> {
    xs.iter().map(|&x| F(x)).collect()
}

fn rows(rs: &[&[f64]]) -> Vec<Vec<F>> {
    rs.iter().map(|r| fv(r)).collect()
}

fn tol() -> F {
    probability_tolerance_exec::<F>()
}

/// The worked two-state example: `pi = [5/6, 1/6]`.
fn two_state() -> MarkovChain<F> {
    MarkovChain::from_rows(rows(&[&[0.9, 0.1], &[0.5, 0.5]])).unwrap()
}

/// A bipartite (period-2) chain with stationary distribution `[0.5, 0.25, 0.25]`.
fn periodic() -> MarkovChain<F> {
    MarkovChain::from_rows(rows(&[&[0.0, 0.5, 0.5], &[1.0, 0.0, 0.0], &[1.0, 0.0, 0.0]])).unwrap()
}

/// The textbook health model.
fn weather() -> Hmm<F> {
    Hmm::from_parts(
        fv(&[0.6, 0.4]),
        rows(&[&[0.7, 0.3], &[0.4, 0.6]]),
        rows(&[&[0.5, 0.4, 0.1], &[0.1, 0.3, 0.6]]),
    )
    .unwrap()
}

/// Two near-deterministic states, each emitting "its own" symbol.
fn sticky() -> Hmm<F> {
    Hmm::from_parts(
        fv(&[0.5, 0.5]),
        rows(&[&[0.9, 0.1], &[0.1, 0.9]]),
        rows(&[&[0.95, 0.05], &[0.05, 0.95]]),
    )
    .unwrap()
}

// ---------------------------------------------------------------------------
// Categorical sampling
// ---------------------------------------------------------------------------

#[test]
fn sample_categorical_respects_zero_weights() {
    let mut rng = SplitMix64::seed_from_u64(17);
    for _ in 0..1_000 {
        assert_eq!(sample_categorical(&mut rng, &fv(&[0.0, 1.0, 0.0, 2.0])).map(|i| i % 2), Some(1));
    }
}

#[test]
fn sample_categorical_is_none_without_usable_mass() {
    let mut rng = SplitMix64::seed_from_u64(18);
    assert_eq!(sample_categorical::<F, _>(&mut rng, &[]), None);
    assert_eq!(sample_categorical(&mut rng, &fv(&[0.0, 0.0])), None);
    assert_eq!(sample_categorical(&mut rng, &fv(&[-1.0, f64::NAN])), None);
    assert_eq!(sample_categorical(&mut rng, &fv(&[f64::NAN, 1.0])), Some(1));
}

#[test]
fn sample_categorical_frequencies_track_the_weights() {
    let weights = fv(&[0.5, 0.3, 0.2]);
    let mut counts = [0.0; 3];
    let mut rng = SplitMix64::seed_from_u64(2026);
    let draws = 200_000;
    for _ in 0..draws {
        counts[sample_categorical(&mut rng, &weights).unwrap()] += 1.0;
    }
    for (count, weight) in counts.iter().zip(weights.iter()) {
        assert!((count / draws as f64 - weight.0).abs() < 5e-3, "counts = {counts:?}");
    }
}

#[test]
fn sample_categorical_accepts_unnormalized_weights() {
    let mut rng = SplitMix64::seed_from_u64(19);
    let mut counts = [0.0_f64; 2];
    for _ in 0..100_000 {
        counts[sample_categorical(&mut rng, &fv(&[30.0, 10.0])).unwrap()] += 1.0;
    }
    assert!((counts[0] / 100_000.0 - 0.75).abs() < 5e-3);
}

// ---------------------------------------------------------------------------
// Chains
// ---------------------------------------------------------------------------

#[test]
fn new_is_zeroed_and_square() {
    let chain = MarkovChain::<F>::new(3);
    assert_eq!(chain.states, 3);
    assert_eq!(chain.transition.len(), 3);
    assert!(chain.transition.iter().all(|r| r.len() == 3));
    assert!(chain.transition.iter().flatten().all(|&p| p.0 == 0.0));
}

#[test]
fn set_transition_and_normalize_row_build_a_valid_chain() {
    let mut chain = MarkovChain::<F>::new(2);
    chain.set_transition(0, 0, F(9.0));
    chain.set_transition(0, 1, F(1.0));
    chain.set_transition(1, 0, F(1.0));
    chain.set_transition(1, 1, F(1.0));
    chain.normalize();

    assert!(chain.validate().is_ok());
    assert!((chain.transition_prob(0, 0).0 - 0.9).abs() < 1e-15);
    assert!((chain.transition_prob(0, 1).0 - 0.1).abs() < 1e-15);
    assert_eq!(chain.transition_prob(1, 0).0, 0.5);
}

#[test]
fn normalize_row_makes_an_empty_row_uniform() {
    let mut chain = MarkovChain::<F>::new(4);
    chain.normalize_row(2);
    assert_eq!(chain.row(2), &fv(&[0.25, 0.25, 0.25, 0.25])[..]);
    assert_eq!(chain.try_normalize_row(0).unwrap_err(), MarkovError::DegenerateRow { row: 0 });
}

#[test]
fn try_set_transition_rejects_bad_input() {
    let mut chain = MarkovChain::<F>::new(2);
    assert_eq!(
        chain.try_set_transition(2, 0, F(0.5)).unwrap_err(),
        MarkovError::StateOutOfRange { state: 2, states: 2 }
    );
    assert_eq!(
        chain.try_set_transition(0, 2, F(0.5)).unwrap_err(),
        MarkovError::StateOutOfRange { state: 2, states: 2 }
    );
    assert!(matches!(
        chain.try_set_transition(0, 0, F(-0.5)).unwrap_err(),
        MarkovError::InvalidProbability { .. }
    ));
    assert!(matches!(
        chain.try_set_transition(0, 0, F(f64::NAN)).unwrap_err(),
        MarkovError::InvalidProbability { .. }
    ));
}

#[test]
fn validate_catches_malformed_chains() {
    assert_eq!(MarkovChain::<F>::new(0).validate().unwrap_err(), MarkovError::ZeroStates);

    let ragged = MarkovChain { states: 2, transition: rows(&[&[1.0], &[0.5, 0.5]]) };
    assert_eq!(ragged.validate().unwrap_err(), MarkovError::DimensionMismatch { expected: 2, found: 1 });

    let unnormalized = MarkovChain { states: 1, transition: rows(&[&[0.5]]) };
    assert!(matches!(unnormalized.validate().unwrap_err(), MarkovError::NotStochastic { row: 0, .. }));

    assert!(!unnormalized.is_stochastic(tol()));
    assert!(two_state().is_stochastic(tol()));
}

#[test]
fn from_rows_rejects_non_square_and_non_stochastic_input() {
    assert!(MarkovChain::from_rows(rows(&[&[1.0, 0.0]])).is_err());
    assert!(MarkovChain::from_rows(rows(&[&[0.6, 0.6], &[0.5, 0.5]])).is_err());
    assert!(MarkovChain::from_rows_normalized(rows(&[&[0.0, 0.0], &[1.0, 1.0]])).is_err());

    let counts = MarkovChain::from_rows_normalized(rows(&[&[3.0, 1.0], &[2.0, 2.0]]))
        .expect("counts normalize to a valid chain");
    assert_eq!(counts.transition_prob(0, 0).0, 0.75);
    assert!(counts.validate().is_ok());
}

#[test]
fn stationary_matches_the_analytic_two_state_solution() {
    let pi = two_state().stationary();
    assert_eq!(pi.len(), 2);
    assert!((pi[0].0 - 5.0 / 6.0).abs() < 1e-12, "pi = {pi:?}");
    assert!((pi[1].0 - 1.0 / 6.0).abs() < 1e-12, "pi = {pi:?}");
    assert!((pi.iter().map(|p| p.0).sum::<f64>() - 1.0).abs() < 1e-12);
}

#[test]
fn stationary_is_a_fixed_point_of_the_transition_matrix() {
    let chain = MarkovChain::from_rows(rows(&[&[0.2, 0.5, 0.3], &[0.1, 0.1, 0.8], &[0.6, 0.2, 0.2]])).unwrap();
    let pi = chain.stationary();
    let stepped = chain.step_distribution(&pi);
    for (a, b) in pi.iter().zip(stepped.iter()) {
        assert!((a.0 - b.0).abs() < 1e-10, "pi = {pi:?}, pi*P = {stepped:?}");
    }
}

#[test]
fn stationary_of_a_uniform_chain_is_uniform() {
    let pi = MarkovChain::<F>::uniform(5).stationary();
    assert!(pi.iter().all(|&p| (p.0 - 0.2).abs() < 1e-12));
}

#[test]
fn try_stationary_reports_non_convergence_for_a_periodic_chain() {
    assert!(matches!(periodic().try_stationary(F(1e-12), 500), Err(MarkovError::NotConverged { .. })));
}

#[test]
fn try_stationary_rejects_a_non_stochastic_chain() {
    let bogus = MarkovChain { states: 2, transition: rows(&[&[0.9, 0.9], &[0.5, 0.5]]) };
    assert!(matches!(bogus.try_stationary(F(1e-12), 10), Err(MarkovError::NotStochastic { row: 0, .. })));
}

#[test]
fn the_lazy_form_of_a_periodic_chain_converges_to_its_stationary_law() {
    let pi = periodic().lazy().try_stationary(F(1e-12), 100_000).unwrap();
    let expected = [0.5, 0.25, 0.25];
    for (a, b) in pi.iter().zip(expected.iter()) {
        assert!((a.0 - b).abs() < 1e-9, "pi = {pi:?}");
    }
}

#[test]
fn lazy_chain_preserves_the_stationary_distribution() {
    let chain = two_state();
    let pi = chain.stationary();
    let lazy_pi = chain.lazy().stationary();
    for (a, b) in pi.iter().zip(lazy_pi.iter()) {
        assert!((a.0 - b.0).abs() < 1e-10);
    }
}

#[test]
fn distribution_after_agrees_with_repeated_steps() {
    let chain = two_state();
    let mut manual = fv(&[1.0, 0.0]);
    for _ in 0..7 {
        manual = chain.step_distribution(&manual);
    }
    let direct = chain.distribution_after(&fv(&[1.0, 0.0]), 7);
    for (a, b) in manual.iter().zip(direct.iter()) {
        assert!((a.0 - b.0).abs() < 1e-15);
    }
}

#[test]
fn step_follows_a_deterministic_chain() {
    let flip = MarkovChain::from_rows(rows(&[&[0.0, 1.0], &[1.0, 0.0]])).unwrap();
    let mut rng = SplitMix64::seed_from_u64(7);
    let mut state = 0;
    for expected in [1, 0, 1, 0, 1, 0] {
        state = flip.step(&mut rng, state);
        assert_eq!(state, expected);
    }
}

#[test]
fn step_on_an_empty_row_stays_put() {
    let chain = MarkovChain::<F>::new(2);
    let mut rng = SplitMix64::seed_from_u64(3);
    assert_eq!(chain.step(&mut rng, 1), 1);
    // Out-of-range states are returned unchanged too.
    assert_eq!(chain.step(&mut rng, 99), 99);
}

#[test]
fn run_returns_exactly_n_states_starting_at_init() {
    let chain = two_state();
    let mut rng = SplitMix64::seed_from_u64(11);
    let path = chain.run(&mut rng, 1, 32);
    assert_eq!(path.len(), 32);
    assert_eq!(path[0], 1);
    assert!(path.iter().all(|&s| s < 2));
    assert!(chain.run(&mut rng, 0, 0).is_empty());
}

#[test]
fn run_is_reproducible_for_a_seeded_rng() {
    let chain = two_state();
    let a = chain.run(&mut SplitMix64::seed_from_u64(2024), 0, 64);
    let b = chain.run(&mut SplitMix64::seed_from_u64(2024), 0, 64);
    assert_eq!(a, b);
}

#[test]
fn simulation_frequencies_approach_the_stationary_distribution() {
    let chain = two_state();
    let pi = chain.stationary();
    let mut rng = SplitMix64::seed_from_u64(20_260_810);
    let empirical = chain.empirical_distribution(&mut rng, 0, 400_000);
    for (a, b) in pi.iter().zip(empirical.iter()) {
        assert!((a.0 - b.0).abs() < 5e-3, "stationary = {pi:?}, empirical = {empirical:?}");
    }
}

// ---------------------------------------------------------------------------
// Hidden Markov models
// ---------------------------------------------------------------------------

#[test]
fn constructors_agree_on_shape() {
    let model = Hmm::<F>::new(2, 3);
    assert_eq!((model.states, model.observations), (2, 3));
    assert_eq!(model.transition.len(), 2);
    assert_eq!(model.emission[0].len(), 3);
    assert_eq!(model.initial.len(), 2);

    let uniform = Hmm::<F>::uniform(2, 4);
    assert!(uniform.validate().is_ok());
    assert_eq!(uniform.emission_prob(1, 3).0, 0.25);
    assert_eq!(uniform.initial_prob(0).0, 0.5);
}

#[test]
fn setters_then_normalize_produce_a_valid_model() {
    let mut model = Hmm::<F>::new(2, 2);
    model.set_initial(0, F(3.0));
    model.set_initial(1, F(1.0));
    model.set_transition(0, 0, F(1.0));
    model.set_transition(0, 1, F(1.0));
    model.set_transition(1, 0, F(1.0));
    model.set_transition(1, 1, F(3.0));
    model.set_emission(0, 0, F(4.0));
    model.set_emission(0, 1, F(1.0));
    model.set_emission(1, 0, F(1.0));
    model.set_emission(1, 1, F(4.0));
    model.normalize();

    assert!(model.validate().is_ok());
    assert_eq!(model.initial_prob(0).0, 0.75);
    assert_eq!(model.transition_prob(1, 1).0, 0.75);
    assert_eq!(model.emission_prob(0, 0).0, 0.8);
}

#[test]
fn try_setters_reject_bad_input() {
    let mut model = Hmm::<F>::new(2, 2);
    assert_eq!(model.try_set_initial(2, F(0.5)).unwrap_err(), MarkovError::StateOutOfRange { state: 2, states: 2 });
    assert!(matches!(model.try_set_initial(0, F(-0.5)).unwrap_err(), MarkovError::InvalidProbability { .. }));

    assert_eq!(
        model.try_set_transition(2, 0, F(0.5)).unwrap_err(),
        MarkovError::StateOutOfRange { state: 2, states: 2 }
    );
    assert_eq!(
        model.try_set_transition(0, 2, F(0.5)).unwrap_err(),
        MarkovError::StateOutOfRange { state: 2, states: 2 }
    );
    assert!(matches!(
        model.try_set_transition(0, 0, F(f64::NAN)).unwrap_err(),
        MarkovError::InvalidProbability { .. }
    ));

    assert_eq!(
        model.try_set_emission(2, 0, F(0.5)).unwrap_err(),
        MarkovError::StateOutOfRange { state: 2, states: 2 }
    );
    assert_eq!(
        model.try_set_emission(0, 2, F(0.5)).unwrap_err(),
        MarkovError::ObservationOutOfRange { observation: 2, observations: 2 }
    );
}

#[test]
fn validate_catches_malformed_models() {
    assert_eq!(Hmm::<F>::new(0, 2).validate().unwrap_err(), MarkovError::ZeroStates);
    assert_eq!(Hmm::<F>::new(2, 0).validate().unwrap_err(), MarkovError::ZeroObservations);
    // `new` leaves every row at zero, which is not stochastic.
    assert!(matches!(Hmm::<F>::new(2, 2).validate().unwrap_err(), MarkovError::NotStochastic { .. }));

    let mut wrong_width = weather();
    wrong_width.emission[1] = fv(&[0.5, 0.5]);
    assert_eq!(wrong_width.validate().unwrap_err(), MarkovError::DimensionMismatch { expected: 3, found: 2 });

    assert!(Hmm::from_parts(fv(&[0.5, 0.4]), rows(&[&[0.5, 0.5], &[0.5, 0.5]]), rows(&[&[1.0], &[1.0]])).is_err());
}

#[test]
fn viterbi_recovers_the_textbook_health_sequence() {
    // normal, cold, dizzy => healthy, healthy, fever
    assert_eq!(weather().viterbi(&[0, 1, 2]), vec![0, 0, 1]);
}

#[test]
fn viterbi_matches_brute_force_on_the_weather_model() {
    let model = weather();
    let observations = [0, 1, 2, 2, 1, 0, 0, 2];
    let (path, log_prob) = model.try_viterbi_with_log_prob(&observations).unwrap();

    // Exhaustively score all 2^8 hidden paths.
    let mut best_path = Vec::new();
    let mut best_score = f64::NEG_INFINITY;
    for code in 0..(1u32 << observations.len()) {
        let candidate: Vec<usize> = (0..observations.len()).map(|t| ((code >> t) & 1) as usize).collect();
        let mut score = model.initial_prob(candidate[0]).0.ln();
        score += model.emission_prob(candidate[0], observations[0]).0.ln();
        for t in 1..candidate.len() {
            score += model.transition_prob(candidate[t - 1], candidate[t]).0.ln();
            score += model.emission_prob(candidate[t], observations[t]).0.ln();
        }
        if score > best_score {
            best_score = score;
            best_path = candidate;
        }
    }

    assert_eq!(path, best_path);
    assert!((log_prob.0 - best_score).abs() < 1e-12);
}

#[test]
fn viterbi_recovers_a_generated_hidden_sequence() {
    // Emissions are deterministic, so the hidden path is identifiable.
    let model = Hmm::from_parts(
        fv(&[0.5, 0.5]),
        rows(&[&[0.95, 0.05], &[0.05, 0.95]]),
        rows(&[&[1.0, 0.0], &[0.0, 1.0]]),
    )
    .unwrap();
    let mut rng = SplitMix64::seed_from_u64(1234);
    let (hidden, observed) = model.sample(&mut rng, 200);
    assert_eq!(model.viterbi(&observed), hidden);
}

#[test]
fn viterbi_handles_edge_cases() {
    let model = sticky();
    assert!(model.viterbi(&[]).is_empty());
    assert_eq!(model.viterbi(&[1]), vec![1]);
    assert_eq!(model.viterbi(&[0, 0, 0, 0, 0, 0]).len(), 6);
    assert_eq!(
        model.try_viterbi(&[0, 5]).unwrap_err(),
        MarkovError::ObservationOutOfRange { observation: 5, observations: 2 }
    );
    assert_eq!(Hmm::<F>::new(0, 1).try_viterbi(&[0]).unwrap_err(), MarkovError::ZeroStates);
}

#[test]
fn viterbi_is_stable_on_long_sequences() {
    let model = sticky();
    let observations: Vec<usize> = (0..5_000).map(|t| usize::from(t >= 2_500)).collect();
    let (path, log_prob) = model.try_viterbi_with_log_prob(&observations).unwrap();
    assert_eq!(path, observations);
    assert!(log_prob.0.is_finite() && log_prob.0 < 0.0);
}

#[test]
fn viterbi_reports_impossible_sequences() {
    let model = Hmm::from_parts(
        fv(&[1.0, 0.0]),
        rows(&[&[0.0, 1.0], &[1.0, 0.0]]),
        rows(&[&[1.0, 0.0], &[0.0, 1.0]]),
    )
    .unwrap();
    let (_, log_prob) = model.try_viterbi_with_log_prob(&[0, 0]).unwrap();
    assert_eq!(log_prob.0, f64::NEG_INFINITY);
    assert_eq!(model.log_likelihood(&[0, 0]).0, f64::NEG_INFINITY);
}

#[test]
fn forward_likelihood_matches_brute_force_enumeration() {
    let model = weather();
    let observations = [2, 0, 1];
    let mut total = 0.0;
    for code in 0..(1u32 << observations.len()) {
        let path: Vec<usize> = (0..observations.len()).map(|t| ((code >> t) & 1) as usize).collect();
        let mut p = model.initial_prob(path[0]).0 * model.emission_prob(path[0], observations[0]).0;
        for t in 1..path.len() {
            p *= model.transition_prob(path[t - 1], path[t]).0 * model.emission_prob(path[t], observations[t]).0;
        }
        total += p;
    }
    assert!((model.log_likelihood(&observations).0 - total.ln()).abs() < 1e-12);
}

#[test]
fn forward_returns_filtered_distributions() {
    let model = sticky();
    let (filtered, log_likelihood) = model.forward(&[0, 0, 0, 0]).unwrap();
    assert_eq!(filtered.len(), 4);
    for slice in &filtered {
        assert!((slice.iter().map(|p| p.0).sum::<f64>() - 1.0).abs() < 1e-12);
    }
    assert!(filtered[3][0].0 > filtered[0][0].0);
    assert!(log_likelihood.0 < 0.0);
    assert_eq!(model.log_likelihood(&[]).0, 0.0);
}

#[test]
fn the_viterbi_path_is_never_more_likely_than_the_whole_sequence() {
    let model = weather();
    let observations = [0, 1, 2, 1, 0];
    let (_, path_log_prob) = model.try_viterbi_with_log_prob(&observations).unwrap();
    assert!(path_log_prob.0 <= model.log_likelihood(&observations).0 + 1e-12);
}

#[test]
fn sampling_is_reproducible_and_in_range() {
    let model = weather();
    let (h1, o1) = model.sample(&mut SplitMix64::seed_from_u64(9), 50);
    let (h2, o2) = model.sample(&mut SplitMix64::seed_from_u64(9), 50);
    assert_eq!((h1.len(), o1.len()), (50, 50));
    assert_eq!((h1, o1), (h2, o2.clone()));
    assert!(o2.iter().all(|&o| o < model.observations));
    assert!(model.log_likelihood(&o2).0.is_finite());
}

#[test]
fn hidden_chain_exposes_the_latent_dynamics() {
    let chain = weather().hidden_chain();
    assert!(chain.validate().is_ok());
    let pi = chain.stationary();
    // Solve pi = pi P for [[0.7, 0.3], [0.4, 0.6]]: pi = [4/7, 3/7].
    assert!((pi[0].0 - 4.0 / 7.0).abs() < 1e-9);
    assert!((pi[1].0 - 3.0 / 7.0).abs() < 1e-9);
}

#[test]
fn hidden_markov_model_alias_refers_to_hmm() {
    let model: HiddenMarkovModel<F> = weather();
    assert_eq!(model, weather());
}

// ---------------------------------------------------------------------------
// Further cases
// ---------------------------------------------------------------------------

#[test]
fn categorical_index_follows_the_running_sum() {
    let w = fv(&[1.0, 0.0, 2.0, f64::NAN, 1.0]);
    assert_eq!(categorical_index(&w, F(0.5)), Some(0));
    assert_eq!(categorical_index(&w, F(1.0)), Some(2));
    assert_eq!(categorical_index(&w, F(2.9)), Some(2));
    assert_eq!(categorical_index(&w, F(3.5)), Some(4));
    // Past the total: the last counted index.
    assert_eq!(categorical_index(&w, F(10.0)), Some(4));
    assert_eq!(categorical_index(&fv(&[0.0, -1.0]), F(0.0)), None);
}

#[test]
fn visit_frequencies_count_each_state() {
    let f: Vec<F> = visit_frequencies(&[0, 1, 1, 3], 3, 4);
    assert_eq!(f, fv(&[0.25, 0.5, 0.0]));
}

#[test]
fn identity_chain_keeps_every_distribution() {
    let chain = MarkovChain::<F>::identity(3);
    assert!(chain.validate().is_ok());
    assert_eq!(chain.step_distribution(&fv(&[0.2, 0.3, 0.5])), fv(&[0.2, 0.3, 0.5]));
    let mut rng = SplitMix64::seed_from_u64(5);
    assert_eq!(chain.run(&mut rng, 2, 5), vec![2, 2, 2, 2, 2]);
}

#[test]
fn stationary_law_is_kept_by_the_lazy_chain_exactly_in_one_step() {
    // The lazy chain (P + I) / 2 fixes every fixed point of P.
    let chain = two_state();
    let pi = fv(&[5.0 / 6.0, 1.0 / 6.0]);
    let stepped = chain.lazy().step_distribution(&pi);
    for (a, b) in pi.iter().zip(stepped.iter()) {
        assert!((a.0 - b.0).abs() < 1e-15);
    }
}

#[test]
fn errors_of_forward_match_those_of_decoding() {
    let model = sticky();
    assert_eq!(
        model.forward(&[0, 2]).unwrap_err(),
        MarkovError::ObservationOutOfRange { observation: 2, observations: 2 }
    );
    assert_eq!(Hmm::<F>::new(0, 2).forward(&[0]).unwrap_err(), MarkovError::ZeroStates);
}
