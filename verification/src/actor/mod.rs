//! What actors exchange: references, message metadata and envelopes.

pub mod envelope;
pub mod metadata;
pub mod reference;
pub mod supervision;

pub use envelope::{MessageEnvelope, Sender};
pub use metadata::{MessageInterceptor, Metadata, SpanGuard};
pub use reference::UntypedActorRef;
pub use supervision::SuspendMode;
