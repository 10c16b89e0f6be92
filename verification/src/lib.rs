use vstd::prelude::*;

pub mod autodiff;
pub mod autodiff_rev;
pub mod bayes;
pub mod bayes_special;
pub mod exact;
pub mod geometry;
pub mod graph;
pub mod interpolate;
pub mod interpolate_monotone;
pub mod linalg_complex;
pub mod linalg_dense;
pub mod linalg_eigen;
pub mod linalg_fixed;
pub mod linalg_sparse;
pub mod linalg_units;
pub mod markov;
pub mod monte_carlo;
pub mod optimize_convex;
pub mod optimize_general;
pub mod prob;
pub mod real_model;
pub mod rotation_orthogonal;
pub mod sampler;
pub mod scalar;
pub mod text;

verus! {

} // verus!
