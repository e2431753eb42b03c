//! FIX session layer: messages and their wire form, sequence-number storage
//! and the session state machine.

pub mod message;
pub mod seq_store;
pub mod session;
pub mod tags;
pub mod wire;

pub use message::{FixField, FixMessage, FixParseError, MsgType};
pub use seq_store::{FixSeqStore, InMemorySeqStore};
pub use session::{FixSession, FixSessionConfig, FixVersion, InboundOutcome, SessionState};
pub use wire::SOH;
