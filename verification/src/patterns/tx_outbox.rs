//! Transactional outbox: an event and the message that announces it are written
//! in one transaction, so that either both are stored or neither is.

use crate::sql::statement::{self, ArgView, SqlValue, Statement};
use crate::sql::worm;
use vstd::prelude::*;

verus! {

pub const INSERT_OUTBOX_EVENT: &'static str = "INSERT INTO event_journal \
(persistence_id, sequence_nr, payload, manifest, writer_uuid, deleted, created_at) \
VALUES (?, ?, ?, ?, ?, 0, ?)";

pub const INSERT_OUTBOX: &'static str =
    "INSERT INTO outbox (topic, payload, created_at) VALUES (?, ?, ?)";

/// The event row that goes to the journal.
#[derive(Debug)]
pub struct EventRow {
    pub persistence_id: String,
    pub sequence_nr: u64,
    pub payload: Vec<u8>,
    pub manifest: String,
    pub writer_uuid: String,
}

/// The row that goes to the outbox in the same transaction.
#[derive(Debug)]
pub struct OutboxRow {
    pub topic: String,
    pub payload: Vec<u8>,
}

/// What can go wrong with an outbox write.
#[derive(Debug, PartialEq, Eq)]
pub enum OutboxError {
    /// The database refused.
    Backend(String),
}

impl OutboxError {
    /// The error of a database, by its message.
    pub fn backend(message: &str) -> (r: OutboxError)
        ensures
            r matches OutboxError::Backend(s) && s@ == message@,
    {
        OutboxError::Backend(message.to_string())
    }
}

/// The outbox write.
pub struct TxOutbox;

impl TxOutbox {
    /// The two appends of a transactional outbox write, in order. Both carry the
    /// same time of recording, and both run in the transaction of the caller.
    pub fn statements(&self, event: EventRow, outbox: OutboxRow, created_at: i64) -> (r: (
        Statement,
        Statement,
    ))
        ensures
            r.0.is(
                INSERT_OUTBOX_EVENT@,
                seq![
                    ArgView::Text(event.persistence_id@),
                    ArgView::Int(worm::as_signed(event.sequence_nr)),
                    ArgView::Blob(event.payload@),
                    ArgView::Text(event.manifest@),
                    ArgView::Text(event.writer_uuid@),
                    ArgView::Int(created_at as int),
                ],
            ),
            r.1.is(
                INSERT_OUTBOX@,
                seq![
                    ArgView::Text(outbox.topic@),
                    ArgView::Blob(outbox.payload@),
                    ArgView::Int(created_at as int),
                ],
            ),
            r.0.text@ == "INSERT INTO event_journal \
(persistence_id, sequence_nr, payload, manifest, writer_uuid, deleted, created_at) \
VALUES (?, ?, ?, ?, ?, 0, ?)"@,
            r.1.text@ == "INSERT INTO outbox (topic, payload, created_at) VALUES (?, ?, ?)"@,
            event.sequence_nr <= i64::MAX ==> r.0@.args[1] == ArgView::Int(
                event.sequence_nr as int,
            ),
    {
        let mut first: Vec<SqlValue> = Vec::new();
        first.push(SqlValue::Text(event.persistence_id));
        first.push(SqlValue::Int(worm::signed(event.sequence_nr)));
        first.push(SqlValue::Blob(event.payload));
        first.push(SqlValue::Text(event.manifest));
        first.push(SqlValue::Text(event.writer_uuid));
        first.push(SqlValue::Int(created_at));
        let mut second: Vec<SqlValue> = Vec::new();
        second.push(SqlValue::Text(outbox.topic));
        second.push(SqlValue::Blob(outbox.payload));
        second.push(SqlValue::Int(created_at));
        assert(statement::arg_views(first@) =~= seq![
            ArgView::Text(event.persistence_id@),
            ArgView::Int(worm::as_signed(event.sequence_nr)),
            ArgView::Blob(event.payload@),
            ArgView::Text(event.manifest@),
            ArgView::Text(event.writer_uuid@),
            ArgView::Int(created_at as int),
        ]);
        assert(statement::arg_views(second@) =~= seq![
            ArgView::Text(outbox.topic@),
            ArgView::Blob(outbox.payload@),
            ArgView::Int(created_at as int),
        ]);
        (
            Statement { text: INSERT_OUTBOX_EVENT, args: first },
            Statement { text: INSERT_OUTBOX, args: second },
        )
    }
}

} // verus!
