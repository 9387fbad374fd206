//! The Poseidon permutation and sponge over the Pallas base field, with the
//! constant-length hash built on them.
//!
//! - [`field`]: field elements and their arithmetic, done by `pasta_curves`.
//! - [`params`]: what a user supplies: the [`params::Spec`] of a Poseidon instance and
//!   the [`params::Domain`] it hashes in, with [`params::ConstantLength`].
//! - [`model`]: the permutation and the sponge over the integers below `p`.
//! - [`permutation`]: the permutation itself.
//! - [`sponge`]: the sponge and the hasher [`sponge::HashTest`].
//! - [`laws`]: how the operations fit together.

pub mod field;
pub mod laws;
pub mod model;
pub mod params;
pub mod permutation;
pub mod sponge;

pub use field::FieldElement;
pub use params::{ConstantLength, Domain, Spec};
pub use permutation::permute;
pub use sponge::{Absorbing, HashTest, SpongeMode, Squeezing};
