# tpt_math

A numerical mathematics library whose logic is verified with Verus: dense, fixed-size,
sparse and complex linear algebra, geometry, interpolation, forward and reverse automatic
differentiation, interval arithmetic, graph algorithms, convex and general optimisation,
and probability (random generators, samplers, Markov chains and hidden Markov models,
Bayesian conjugate models, Monte Carlo estimation).

## Layout

- `src/` — the verified library. Numeric code is generic over the `Scalar` trait
  (`src/scalar.rs`): every operation of a scalar type is named by a spec function, so the
  contracts state exactly which arithmetic each function performs, whatever the scalar type.
  Properties that need algebraic laws (enclosure of interval arithmetic, interpolation
  through the nodes, orthogonality of plane rotations) are proved as lemmas that take the
  laws as hypotheses. Exact real arithmetic is such a law (`src/real_model.rs`: the scalar
  type maps into the real numbers, keeping the field operations, the order and square
  roots); under it the PCHIP interpolant keeps the monotonicity of its data
  (`src/interpolate_monotone.rs`) and the 3-D rotation constructors give orthogonal
  matrices (`src/rotation_orthogonal.rs`).
- `tests/` — the test suite, which runs the library on `f64` through a small `Scalar`
  implementation in each file.
- `app/` — the unverified edge: an `f64` scalar, bridges to the `rand`, `rand_distr` and
  `petgraph` crates (maximum flow and A* run in the library), Dijkstra's search on
  `petgraph`, the FFT (through `rustfft`), and `Display` / `std::error::Error` for copies of
  the library's error types.
