//! Telemetry: events and their topics, and the trace context that goes from
//! message to message.

pub mod event;
pub mod export;
pub mod trace;

pub use event::{ActorStatus, DeadLetterRecord, Details, TelemetryEvent};
pub use export::{OtlpConfig, Transport};
pub use trace::{metadata_to_span_context, SpanIds};
