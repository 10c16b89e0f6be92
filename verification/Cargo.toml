[package]
name = "tpt_math"
version = "0.1.0"
edition = "2021"
publish = false

[dependencies]
rand = "=0.9.5"
rand_distr = "=0.5.1"
petgraph = "=0.6.5"
num-traits = "=0.2.19"
rustfft = "6"

[dev-dependencies]
num-bigint = "=0.4.8"
num-rational = "=0.4.2"
