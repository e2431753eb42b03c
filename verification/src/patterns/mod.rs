//! Patterns on top of the journal.

pub mod tx_outbox;

pub use tx_outbox::{EventRow, OutboxError, OutboxRow, TxOutbox};
