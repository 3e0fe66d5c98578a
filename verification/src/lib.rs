//! A Hopfield associative-memory network: weight matrix, activation mappings,
//! asynchronous sweeps, relaxation to stability, and the sharing out of a
//! batch of states to several workers.
//!
//! Unit values and weights are IEEE-754 doubles. The library holds each of them
//! as its 64-bit pattern ([`Scalar`]) and decides on signs and comparisons from
//! the bits alone. The two numeric kernels that need rounding arithmetic, the
//! matrix-vector product and the per-unit energies, are handed in by the caller
//! as functions; every contract of a sweep or a relaxation is stated over what
//! those functions return.

pub mod activation_function;
pub mod batch;
pub mod hopfield_network;
pub mod hopfield_network_builder;
pub mod network_domain;
pub mod random;
pub mod relaxation;
pub mod scalar;
pub mod state_generator;
pub mod state_generator_builder;
pub mod weight_matrix;

pub use activation_function::ActivationFunction;
pub use hopfield_network::HopfieldNetwork;
pub use hopfield_network_builder::HopfieldNetworkBuilder;
pub use network_domain::NetworkDomain;
pub use scalar::Scalar;
pub use state_generator::StateGenerator;
pub use state_generator_builder::StateGeneratorBuilder;
pub use weight_matrix::WeightMatrix;
