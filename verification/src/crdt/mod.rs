//! Replicated data types that converge under merge in any order.

pub mod replicator;
pub mod signed_sum;

pub use replicator::{Flag, LwwRegister, Replicator};
pub use signed_sum::{SignedSum, SignedSumDelta, SignedSumMap};
