//! Event-sourced persistence.

pub mod determinism;
pub mod effect;
pub mod repr;
pub mod rng;

pub use determinism::{
    with_kind, EntryKind, Eventsourced, ReplayHarness, ReplayReport, RunPin,
};
pub use effect::{Effect, EffectKind};
pub use repr::PersistentRepr;
pub use rng::{RngState, SeededRng};
