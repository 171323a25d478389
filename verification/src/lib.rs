//! A small feedforward numeric network together with a population-based
//! local-search trainer.
//!
//! Node activations, weights, biases and fitness scores are fixed-point
//! numbers: an `i64` value `v` stands for the real number `v / SCALE`.
//! All arithmetic saturates at the ends of the `i64` range, and every
//! executable step is pinned down by a matching specification function,
//! so evaluation and training are deterministic functions of their inputs
//! (apart from the injected random perturbations, which are bounded).

pub mod examples;
pub mod fixed;
pub mod network;
mod random;
pub mod trainer;
