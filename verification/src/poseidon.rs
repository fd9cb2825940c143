//! The Poseidon sponge over the BN254 scalar field.

pub mod algebra;
pub mod grain;
pub mod matrix;
pub mod parameters;
pub mod permutation;
pub mod spec;
pub mod sponge;
pub mod state;

pub use matrix::{MDSMatrix, SparseMDSMatrix};
pub use spec::{MDSMatrices, OptimizedConstants, Spec, SpecView};
pub use sponge::Poseidon;
pub use state::State;
