//! An evolutionary optimizer for small feed-forward neural networks.
//!
//! A population of randomly initialized networks is scored against a labeled
//! dataset; low-scoring individuals are replaced each generation by mutated
//! copies of high-scoring ones. All quantities that the mathematics treats as
//! reals (weights, biases, activations, fitness scores) are fixed-point
//! values: signed 64-bit integers scaled by `fx::FX_ONE`.

pub mod batch;
pub mod errors;
pub mod fx;
pub mod layer;
pub mod network;
pub mod neuron;
pub mod trainer;
pub mod types;
