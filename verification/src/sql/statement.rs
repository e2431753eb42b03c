//! The statements that the journal runs, with their arguments.

use crate::persistence::repr::ReprView;
use crate::sql::journal::{self, clamp_i64, JournalRow, RowView};
use crate::sql::worm::{self, signed, WormConfig};
use vstd::prelude::*;

verus! {

/// An argument of a statement.
#[derive(Debug, PartialEq, Eq)]
pub enum SqlValue {
    Text(String),
    Int(i64),
    SmallInt(i32),
    Blob(Vec<u8>),
    OptionalBlob(Option<Vec<u8>>),
    OptionalInt(Option<i64>),
}

/// An argument as a mathematical value.
pub enum ArgView {
    Text(Seq<char>),
    Int(int),
    SmallInt(int),
    Blob(Seq<u8>),
    OptionalBlob(Option<Seq<u8>>),
    OptionalInt(Option<int>),
}

impl View for SqlValue {
    type V = ArgView;

    open spec fn view(&self) -> ArgView {
        match self {
            SqlValue::Text(s) => ArgView::Text(s@),
            SqlValue::Int(n) => ArgView::Int(*n as int),
            SqlValue::SmallInt(n) => ArgView::SmallInt(*n as int),
            SqlValue::Blob(b) => ArgView::Blob(b@),
            SqlValue::OptionalBlob(b) => ArgView::OptionalBlob(worm::column(*b)),
            SqlValue::OptionalInt(n) => ArgView::OptionalInt(
                match n {
                    Some(v) => Some(*v as int),
                    None => None,
                },
            ),
        }
    }
}

/// A statement with the arguments of its placeholders, in order.
#[derive(Debug, PartialEq, Eq)]
pub struct Statement {
    pub text: &'static str,
    pub args: Vec<SqlValue>,
}

pub open spec fn arg_views(args: Seq<SqlValue>) -> Seq<ArgView> {
    args.map_values(|a: SqlValue| a@)
}

/// A statement as a mathematical value.
#[verifier::ext_equal]
pub struct StatementView {
    pub text: Seq<char>,
    pub args: Seq<ArgView>,
}

impl View for Statement {
    type V = StatementView;

    open spec fn view(&self) -> StatementView {
        StatementView { text: self.text@, args: arg_views(self.args@) }
    }
}

impl Statement {
    /// Whether this is the statement `text` with the arguments `args`.
    pub open spec fn is(&self, text: Seq<char>, args: Seq<ArgView>) -> bool {
        self@ == StatementView { text, args }
    }
}

/// The statement that appends a row.
pub open spec fn event_insert(row: RowView) -> StatementView {
    StatementView {
        text: INSERT_EVENT@,
        args: seq![
            ArgView::Text(row.persistence_id),
            ArgView::Int(row.sequence_nr),
            ArgView::Blob(row.payload),
            ArgView::Text(row.manifest),
            ArgView::Text(row.writer_uuid),
            ArgView::SmallInt(0),
            ArgView::Int(row.created_at as int),
            ArgView::OptionalBlob(row.prev_hash),
            ArgView::OptionalBlob(row.row_hash),
            ArgView::Int(row.system_time),
            ArgView::OptionalInt(row.valid_time),
        ],
    }
}

/// The statement that appends a tag of a row.
pub open spec fn tag_insert(row: RowView, tag: Seq<char>) -> StatementView {
    StatementView {
        text: INSERT_TAG@,
        args: seq![
            ArgView::Text(row.persistence_id),
            ArgView::Int(row.sequence_nr),
            ArgView::Text(tag),
        ],
    }
}

/// The statement that stores the head of a chain: the number and the hash of its
/// last row.
pub open spec fn head_insert(row: RowView) -> StatementView {
    StatementView {
        text: INSERT_HEAD@,
        args: seq![
            ArgView::Text(row.persistence_id),
            ArgView::Int(row.sequence_nr),
            ArgView::OptionalBlob(row.row_hash),
        ],
    }
}

pub const SELECT_HIGHEST: &'static str =
    "SELECT MAX(sequence_nr) FROM event_journal WHERE persistence_id = ?";

pub const SELECT_LAST_HASH: &'static str = "SELECT row_hash FROM event_journal WHERE persistence_id = ? \
ORDER BY sequence_nr DESC LIMIT 1";

pub const INSERT_EVENT: &'static str = "INSERT INTO event_journal \
(persistence_id, sequence_nr, payload, manifest, writer_uuid, deleted, created_at, \
prev_hash, row_hash, system_time, valid_time) VALUES (?, ?, ?, ?, ?, ?, ?, ?, ?, ?, ?)";

pub const INSERT_TAG: &'static str =
    "INSERT INTO event_tags (persistence_id, sequence_nr, tag) VALUES (?, ?, ?)";

pub const MARK_DELETED: &'static str =
    "UPDATE event_journal SET deleted = 1 WHERE persistence_id = ? AND sequence_nr <= ?";

pub const SELECT_RANGE: &'static str = "SELECT persistence_id, sequence_nr, payload, manifest, \
writer_uuid, deleted FROM event_journal \
WHERE persistence_id = ? AND sequence_nr >= ? AND sequence_nr <= ? AND deleted = 0 \
ORDER BY sequence_nr ASC LIMIT ?";

pub const SELECT_TAGS: &'static str =
    "SELECT tag FROM event_tags WHERE persistence_id = ? AND sequence_nr = ?";

pub const SELECT_BY_TAG: &'static str = "SELECT j.persistence_id, j.sequence_nr, j.payload, \
j.manifest, j.writer_uuid, j.deleted \
FROM event_journal j INNER JOIN event_tags t \
ON j.persistence_id = t.persistence_id AND j.sequence_nr = t.sequence_nr \
WHERE t.tag = ? AND j.sequence_nr >= ? AND j.deleted = 0 \
ORDER BY j.persistence_id, j.sequence_nr ASC LIMIT ?";

pub const SELECT_AS_OF: &'static str = "SELECT persistence_id, sequence_nr, payload, manifest, \
writer_uuid, deleted FROM event_journal \
WHERE persistence_id = ? AND deleted = 0 \
AND COALESCE(system_time, created_at * 1000000) <= ? \
ORDER BY sequence_nr ASC";

pub const SELECT_VALID_AS_OF: &'static str = "SELECT persistence_id, sequence_nr, payload, \
manifest, writer_uuid, deleted FROM event_journal \
WHERE persistence_id = ? AND deleted = 0 \
AND COALESCE(system_time, created_at * 1000000) <= ? \
AND COALESCE(valid_time, COALESCE(system_time, created_at * 1000000)) <= ? \
ORDER BY sequence_nr ASC";

pub const SELECT_CHAIN: &'static str = "SELECT sequence_nr, payload, created_at, prev_hash, \
row_hash FROM event_journal WHERE persistence_id = ? ORDER BY sequence_nr ASC";

pub const INSERT_HEAD: &'static str =
    "INSERT INTO event_chain_heads (persistence_id, sequence_nr, row_hash) VALUES (?, ?, ?)";

pub const SELECT_HEAD: &'static str = "SELECT sequence_nr, row_hash FROM event_chain_heads \
WHERE persistence_id = ? ORDER BY sequence_nr DESC LIMIT 1";

/// A statement about one persistence id.
fn about(text: &'static str, id: &str) -> (r: Statement)
    ensures
        r.is(text@, seq![ArgView::Text(id@)]),
{
    let mut args: Vec<SqlValue> = Vec::new();
    args.push(SqlValue::Text(id.to_owned()));
    assert(arg_views(args@) =~= seq![ArgView::Text(id@)]);
    Statement { text, args }
}

/// The highest stored number of `id`.
pub fn select_highest(id: &str) -> (r: Statement)
    ensures
        r.is(SELECT_HIGHEST@, seq![ArgView::Text(id@)]),
        r.text@ == "SELECT MAX(sequence_nr) FROM event_journal WHERE persistence_id = ?"@,
{
    about(SELECT_HIGHEST, id)
}

/// The hash of the latest row of `id`.
pub fn select_last_hash(id: &str) -> (r: Statement)
    ensures
        r.is(SELECT_LAST_HASH@, seq![ArgView::Text(id@)]),
        r.text@ == "SELECT row_hash FROM event_journal WHERE persistence_id = ? \
ORDER BY sequence_nr DESC LIMIT 1"@,
{
    about(SELECT_LAST_HASH, id)
}

/// The chain columns of every row of `id`, in sequence order.
pub fn select_chain(id: &str) -> (r: Statement)
    ensures
        r.is(SELECT_CHAIN@, seq![ArgView::Text(id@)]),
        r.text@ == "SELECT sequence_nr, payload, created_at, prev_hash, \
row_hash FROM event_journal WHERE persistence_id = ? ORDER BY sequence_nr ASC"@,
{
    about(SELECT_CHAIN, id)
}

/// The head of the chain of `id`.
pub fn select_head(id: &str) -> (r: Statement)
    ensures
        r.is(SELECT_HEAD@, seq![ArgView::Text(id@)]),
        r.text@ == "SELECT sequence_nr, row_hash FROM event_chain_heads \
WHERE persistence_id = ? ORDER BY sequence_nr DESC LIMIT 1"@,
{
    about(SELECT_HEAD, id)
}

/// Copies an optional column.
fn copy_column(c: &Option<Vec<u8>>) -> (r: Option<Vec<u8>>)
    ensures
        worm::column(r) == worm::column(*c),
{
    match c {
        Some(v) => {
            let mut w: Vec<u8> = Vec::new();
            w.extend_from_slice(v.as_slice());
            assert(w@ =~= v@);
            Some(w)
        },
        None => None,
    }
}

/// Appends the row of an event; it is not deleted.
pub fn insert_event(row: &JournalRow) -> (r: Statement)
    ensures
        r@ == event_insert(row@),
{
    let mut payload: Vec<u8> = Vec::new();
    payload.extend_from_slice(row.payload.as_slice());
    assert(payload@ =~= row.payload@);
    let mut args: Vec<SqlValue> = Vec::new();
    args.push(SqlValue::Text(row.persistence_id.clone()));
    args.push(SqlValue::Int(row.sequence_nr));
    args.push(SqlValue::Blob(payload));
    args.push(SqlValue::Text(row.manifest.clone()));
    args.push(SqlValue::Text(row.writer_uuid.clone()));
    args.push(SqlValue::SmallInt(0));
    args.push(SqlValue::Int(row.created_at));
    args.push(SqlValue::OptionalBlob(copy_column(&row.prev_hash)));
    args.push(SqlValue::OptionalBlob(copy_column(&row.row_hash)));
    args.push(SqlValue::Int(row.system_time));
    args.push(SqlValue::OptionalInt(row.valid_time));
    assert(arg_views(args@) =~= event_insert(row@).args);
    Statement { text: INSERT_EVENT, args }
}

/// Appends the `i`-th tag of an event.
pub fn insert_tag(row: &JournalRow, i: usize) -> (r: Statement)
    requires
        i < row.tags.len(),
    ensures
        r@ == tag_insert(row@, row@.tags[i as int]),
{
    let mut args: Vec<SqlValue> = Vec::new();
    args.push(SqlValue::Text(row.persistence_id.clone()));
    args.push(SqlValue::Int(row.sequence_nr));
    args.push(SqlValue::Text(row.tags[i].clone()));
    assert(arg_views(args@) =~= tag_insert(row@, row@.tags[i as int]).args);
    Statement { text: INSERT_TAG, args }
}

/// Stores the head of a chain that ends with `row`.
pub fn insert_head(row: &JournalRow) -> (r: Statement)
    ensures
        r@ == head_insert(row@),
{
    let mut args: Vec<SqlValue> = Vec::new();
    args.push(SqlValue::Text(row.persistence_id.clone()));
    args.push(SqlValue::Int(row.sequence_nr));
    args.push(SqlValue::OptionalBlob(copy_column(&row.row_hash)));
    assert(arg_views(args@) =~= head_insert(row@).args);
    Statement { text: INSERT_HEAD, args }
}

/// Marks the events of `id` up to `to_sequence_nr` as deleted.
pub fn mark_deleted(id: &str, to_sequence_nr: u64) -> (r: Statement)
    ensures
        r.is(
            MARK_DELETED@,
            seq![ArgView::Text(id@), ArgView::Int(worm::as_signed(to_sequence_nr))],
        ),
        r.text@
            == "UPDATE event_journal SET deleted = 1 WHERE persistence_id = ? AND sequence_nr <= ?"@,
{
    let mut args: Vec<SqlValue> = Vec::new();
    args.push(SqlValue::Text(id.to_owned()));
    args.push(SqlValue::Int(signed(to_sequence_nr)));
    assert(arg_views(args@) =~= seq![
        ArgView::Text(id@),
        ArgView::Int(worm::as_signed(to_sequence_nr)),
    ]);
    Statement { text: MARK_DELETED, args }
}

/// `v`, at most the largest signed number.
pub open spec fn clamped(v: u64) -> int {
    if v > i64::MAX {
        i64::MAX as int
    } else {
        v as int
    }
}

/// The events of `id` from `from` to `to`, at most `max` of them, in sequence
/// order, without deleted ones.
pub fn select_range(id: &str, from: u64, to: u64, max: u64) -> (r: Statement)
    ensures
        r.is(
            SELECT_RANGE@,
            seq![
                ArgView::Text(id@),
                ArgView::Int(clamped(from)),
                ArgView::Int(clamped(to)),
                ArgView::Int(clamped(max)),
            ],
        ),
        r.text@ == "SELECT persistence_id, sequence_nr, payload, manifest, \
writer_uuid, deleted FROM event_journal \
WHERE persistence_id = ? AND sequence_nr >= ? AND sequence_nr <= ? AND deleted = 0 \
ORDER BY sequence_nr ASC LIMIT ?"@,
{
    let mut args: Vec<SqlValue> = Vec::new();
    args.push(SqlValue::Text(id.to_owned()));
    args.push(SqlValue::Int(clamp_i64(from)));
    args.push(SqlValue::Int(clamp_i64(to)));
    args.push(SqlValue::Int(clamp_i64(max)));
    assert(arg_views(args@) =~= seq![
        ArgView::Text(id@),
        ArgView::Int(clamped(from)),
        ArgView::Int(clamped(to)),
        ArgView::Int(clamped(max)),
    ]);
    Statement { text: SELECT_RANGE, args }
}

/// The tags of an event.
pub fn select_tags(id: &str, sequence_nr: i64) -> (r: Statement)
    ensures
        r.is(SELECT_TAGS@, seq![ArgView::Text(id@), ArgView::Int(sequence_nr as int)]),
        r.text@ == "SELECT tag FROM event_tags WHERE persistence_id = ? AND sequence_nr = ?"@,
{
    let mut args: Vec<SqlValue> = Vec::new();
    args.push(SqlValue::Text(id.to_owned()));
    args.push(SqlValue::Int(sequence_nr));
    assert(arg_views(args@) =~= seq![ArgView::Text(id@), ArgView::Int(sequence_nr as int)]);
    Statement { text: SELECT_TAGS, args }
}

/// The events with `tag` whose number is at least `from_offset`, at most `max`
/// of them, without deleted ones.
pub fn select_by_tag(tag: &str, from_offset: u64, max: u64) -> (r: Statement)
    ensures
        r.is(
            SELECT_BY_TAG@,
            seq![
                ArgView::Text(tag@),
                ArgView::Int(clamped(from_offset)),
                ArgView::Int(clamped(max)),
            ],
        ),
        r.text@ == "SELECT j.persistence_id, j.sequence_nr, j.payload, \
j.manifest, j.writer_uuid, j.deleted \
FROM event_journal j INNER JOIN event_tags t \
ON j.persistence_id = t.persistence_id AND j.sequence_nr = t.sequence_nr \
WHERE t.tag = ? AND j.sequence_nr >= ? AND j.deleted = 0 \
ORDER BY j.persistence_id, j.sequence_nr ASC LIMIT ?"@,
{
    let mut args: Vec<SqlValue> = Vec::new();
    args.push(SqlValue::Text(tag.to_owned()));
    args.push(SqlValue::Int(clamp_i64(from_offset)));
    args.push(SqlValue::Int(clamp_i64(max)));
    assert(arg_views(args@) =~= seq![
        ArgView::Text(tag@),
        ArgView::Int(clamped(from_offset)),
        ArgView::Int(clamped(max)),
    ]);
    Statement { text: SELECT_BY_TAG, args }
}

/// A row of the journal as an as-of read sees it. Rows that an earlier schema
/// wrote have no time of recording in nanoseconds.
#[verifier::ext_equal]
pub struct StoredRow {
    pub persistence_id: Seq<char>,
    pub sequence_nr: int,
    pub deleted: bool,
    /// Milliseconds.
    pub created_at: int,
    /// Nanoseconds.
    pub system_time: Option<int>,
    /// Nanoseconds.
    pub valid_time: Option<int>,
}

impl StoredRow {
    /// When the row was recorded, in nanoseconds.
    pub open spec fn recorded(self) -> int {
        match self.system_time {
            Some(t) => t,
            None => self.created_at * 1000000,
        }
    }

    /// From when on the row is valid, in nanoseconds: from when it was recorded,
    /// unless it says otherwise.
    pub open spec fn valid_from(self) -> int {
        match self.valid_time {
            Some(t) => t,
            None => self.recorded(),
        }
    }

    /// Whether a read of `id` as of `system_time` shows the row: it is not
    /// deleted and was recorded by then.
    pub open spec fn shown_as_of(self, id: Seq<char>, system_time: int) -> bool {
        &&& self.persistence_id == id
        &&& !self.deleted
        &&& self.recorded() <= system_time
    }

    /// Whether a read of `id` for `valid_time` as of `system_time` shows the row.
    pub open spec fn shown_valid_as_of(
        self,
        id: Seq<char>,
        valid_time: int,
        system_time: int,
    ) -> bool {
        self.shown_as_of(id, system_time) && self.valid_from() <= valid_time
    }
}

/// The row that storing `row` puts into the journal.
pub open spec fn stored_row(row: RowView) -> StoredRow {
    StoredRow {
        persistence_id: row.persistence_id,
        sequence_nr: row.sequence_nr,
        deleted: false,
        created_at: row.created_at as int,
        system_time: Some(row.system_time),
        valid_time: row.valid_time,
    }
}

/// Whether rows stand in the order of their numbers.
pub open spec fn by_number(rows: Seq<StoredRow>) -> bool {
    forall|i: int, j: int|
        0 <= i < j < rows.len() ==> (#[trigger] rows[i]).sequence_nr < (#[trigger] rows[j]).sequence_nr
}

/// What a read of `id` as of `system_time` shows of the rows of a journal, which
/// are given in the order of their numbers.
pub open spec fn as_of(rows: Seq<StoredRow>, id: Seq<char>, system_time: int) -> Seq<StoredRow> {
    rows.filter(|r: StoredRow| r.shown_as_of(id, system_time))
}

/// What a read of `id` for `valid_time` as of `system_time` shows of the rows of
/// a journal, which are given in the order of their numbers.
pub open spec fn valid_as_of(
    rows: Seq<StoredRow>,
    id: Seq<char>,
    valid_time: int,
    system_time: int,
) -> Seq<StoredRow> {
    rows.filter(|r: StoredRow| r.shown_valid_as_of(id, valid_time, system_time))
}

/// The events of `id` recorded at or before `system_time` nanoseconds, without
/// deleted ones, in sequence order: the text asks for [`as_of`].
pub fn select_as_of(id: &str, system_time: i64) -> (r: Statement)
    ensures
        r.is(SELECT_AS_OF@, seq![ArgView::Text(id@), ArgView::Int(system_time as int)]),
        r.text@ == "SELECT persistence_id, sequence_nr, payload, manifest, \
writer_uuid, deleted FROM event_journal \
WHERE persistence_id = ? AND deleted = 0 \
AND COALESCE(system_time, created_at * 1000000) <= ? \
ORDER BY sequence_nr ASC"@,
{
    let mut args: Vec<SqlValue> = Vec::new();
    args.push(SqlValue::Text(id.to_owned()));
    args.push(SqlValue::Int(system_time));
    assert(arg_views(args@) =~= seq![ArgView::Text(id@), ArgView::Int(system_time as int)]);
    Statement { text: SELECT_AS_OF, args }
}

/// The events of `id` recorded at or before `system_time` and valid at or
/// before `valid_time`, both in nanoseconds, without deleted ones, in sequence
/// order. An event without a valid time is valid from when it was recorded: the
/// text asks for [`valid_as_of`].
pub fn select_valid_as_of(id: &str, valid_time: i64, system_time: i64) -> (r: Statement)
    ensures
        r.is(
            SELECT_VALID_AS_OF@,
            seq![
                ArgView::Text(id@),
                ArgView::Int(system_time as int),
                ArgView::Int(valid_time as int),
            ],
        ),
        r.text@ == "SELECT persistence_id, sequence_nr, payload, \
manifest, writer_uuid, deleted FROM event_journal \
WHERE persistence_id = ? AND deleted = 0 \
AND COALESCE(system_time, created_at * 1000000) <= ? \
AND COALESCE(valid_time, COALESCE(system_time, created_at * 1000000)) <= ? \
ORDER BY sequence_nr ASC"@,
{
    let mut args: Vec<SqlValue> = Vec::new();
    args.push(SqlValue::Text(id.to_owned()));
    args.push(SqlValue::Int(system_time));
    args.push(SqlValue::Int(valid_time));
    assert(arg_views(args@) =~= seq![
        ArgView::Text(id@),
        ArgView::Int(system_time as int),
        ArgView::Int(valid_time as int),
    ]);
    Statement { text: SELECT_VALID_AS_OF, args }
}

// ---------------------------------------------------------------------------
// Laws
// ---------------------------------------------------------------------------
/// No lookahead: a row that was recorded after the instant of an as-of read is
/// not among the rows that the read shows, nor is a deleted one; every other row
/// of the id is.
pub proof fn later_rows_are_invisible(
    rows: Seq<StoredRow>,
    id: Seq<char>,
    system_time: int,
    row: StoredRow,
)
    ensures
        as_of(rows, id, system_time).contains(row) <==> rows.contains(row) && row.persistence_id
            == id && !row.deleted && row.recorded() <= system_time,
        row.recorded() > system_time ==> !as_of(rows, id, system_time).contains(row),
{
    lemma_shown(rows, |r: StoredRow| r.shown_as_of(id, system_time), row);
}

/// A read for a valid time shows of the rows of the as-of read those that are
/// valid by then; so a later recorded row is invisible to it too.
pub proof fn later_rows_are_invisible_to_valid_reads(
    rows: Seq<StoredRow>,
    id: Seq<char>,
    valid_time: int,
    system_time: int,
    row: StoredRow,
)
    ensures
        valid_as_of(rows, id, valid_time, system_time).contains(row) <==> as_of(
            rows,
            id,
            system_time,
        ).contains(row) && row.valid_from() <= valid_time,
        row.recorded() > system_time ==> !valid_as_of(rows, id, valid_time, system_time).contains(
            row,
        ),
{
    lemma_shown(
        rows,
        |r: StoredRow| r.shown_valid_as_of(id, valid_time, system_time),
        row,
    );
    lemma_shown(rows, |r: StoredRow| r.shown_as_of(id, system_time), row);
}

/// What was known stays known: rows that are stored behind others, and recorded
/// after an instant, change nothing of what a read as of that instant shows.
pub proof fn later_writes_change_no_earlier_read(
    rows: Seq<StoredRow>,
    later: Seq<StoredRow>,
    id: Seq<char>,
    system_time: int,
)
    requires
        forall|i: int| 0 <= i < later.len() ==> (#[trigger] later[i]).recorded() > system_time,
    ensures
        as_of(rows + later, id, system_time) == as_of(rows, id, system_time),
    decreases later.len(),
{
    let shown = |r: StoredRow| r.shown_as_of(id, system_time);
    reveal(Seq::filter);
    if later.len() == 0 {
        assert(rows + later =~= rows);
    } else {
        let init = later.drop_last();
        assert forall|i: int| 0 <= i < init.len() implies (#[trigger] init[i]).recorded()
            > system_time by {
            assert(init[i] == later[i]);
        }
        later_writes_change_no_earlier_read(rows, init, id, system_time);
        assert((rows + later).drop_last() =~= rows + init);
        assert((rows + later).last() == later[later.len() - 1]);
    }
}

/// A read shows the rows in the order of their numbers.
pub proof fn reads_keep_the_order(rows: Seq<StoredRow>, id: Seq<char>, system_time: int)
    requires
        by_number(rows),
    ensures
        by_number(as_of(rows, id, system_time)),
    decreases rows.len(),
{
    let shown = |r: StoredRow| r.shown_as_of(id, system_time);
    reveal(Seq::filter);
    if rows.len() > 0 {
        let init = rows.drop_last();
        assert forall|i: int, j: int| 0 <= i < j < init.len() implies (
        #[trigger] init[i]).sequence_nr < (#[trigger] init[j]).sequence_nr by {
            assert(init[i] == rows[i] && init[j] == rows[j]);
        }
        reads_keep_the_order(init, id, system_time);
        let kept = as_of(init, id, system_time);
        if shown(rows.last()) {
            let all = kept.push(rows.last());
            assert forall|i: int, j: int| 0 <= i < j < all.len() implies (
            #[trigger] all[i]).sequence_nr < (#[trigger] all[j]).sequence_nr by {
                if j == kept.len() {
                    assert(kept.contains(kept[i]));
                    lemma_shown(init, shown, kept[i]);
                    let k = choose|k: int| 0 <= k < init.len() && init[k] == kept[i];
                    assert(rows[k] == kept[i]);
                    assert(rows[rows.len() - 1] == rows.last());
                }
            }
        }
    }
}

/// A message that is written shows in the reads as of the time it was recorded
/// at and later, and in no earlier one.
pub proof fn messages_show_from_their_recording_on(
    config: WormConfig,
    prev: Seq<u8>,
    msg: ReprView,
    created_at: i64,
    system_time: int,
)
    ensures
        stored_row(journal::row_of(config, prev, msg, created_at)).shown_as_of(
            msg.persistence_id,
            system_time,
        ) <==> journal::system_time_of(created_at) <= system_time,
{
}

/// The arguments of the statements that store a row: each of its columns once, in
/// the order of the table, marked as not deleted; a tag with the id and the number
/// of its row; a head with the number and the hash of the last row.
pub proof fn inserts_name_every_column(row: RowView, tag: Seq<char>)
    ensures
        ({
            let s = event_insert(row);
            &&& s.text == "INSERT INTO event_journal \
(persistence_id, sequence_nr, payload, manifest, writer_uuid, deleted, created_at, \
prev_hash, row_hash, system_time, valid_time) VALUES (?, ?, ?, ?, ?, ?, ?, ?, ?, ?, ?)"@
            &&& s.args.len() == 11
            &&& s.args[0] == ArgView::Text(row.persistence_id)
            &&& s.args[1] == ArgView::Int(row.sequence_nr)
            &&& s.args[2] == ArgView::Blob(row.payload)
            &&& s.args[3] == ArgView::Text(row.manifest)
            &&& s.args[4] == ArgView::Text(row.writer_uuid)
            &&& s.args[5] == ArgView::SmallInt(0)
            &&& s.args[6] == ArgView::Int(row.created_at as int)
            &&& s.args[7] == ArgView::OptionalBlob(row.prev_hash)
            &&& s.args[8] == ArgView::OptionalBlob(row.row_hash)
            &&& s.args[9] == ArgView::Int(row.system_time)
            &&& s.args[10] == ArgView::OptionalInt(row.valid_time)
        }),
        ({
            let s = tag_insert(row, tag);
            &&& s.text
                == "INSERT INTO event_tags (persistence_id, sequence_nr, tag) VALUES (?, ?, ?)"@
            &&& s.args.len() == 3
            &&& s.args[0] == ArgView::Text(row.persistence_id)
            &&& s.args[1] == ArgView::Int(row.sequence_nr)
            &&& s.args[2] == ArgView::Text(tag)
        }),
        ({
            let s = head_insert(row);
            &&& s.text
                == "INSERT INTO event_chain_heads (persistence_id, sequence_nr, row_hash) VALUES (?, ?, ?)"@
            &&& s.args.len() == 3
            &&& s.args[0] == ArgView::Text(row.persistence_id)
            &&& s.args[1] == ArgView::Int(row.sequence_nr)
            &&& s.args[2] == ArgView::OptionalBlob(row.row_hash)
        }),
{
}

/// A row is known from when it was recorded: the system time of the row, or the
/// milliseconds of its creation where an earlier schema left that out. It is valid
/// from its valid time, or from when it is known.
pub proof fn rows_are_known_from_their_recording(
    row: StoredRow,
    id: Seq<char>,
    valid_time: int,
    system_time: int,
)
    ensures
        row.system_time matches Some(t) ==> row.recorded() == t,
        row.system_time is None ==> row.recorded() == row.created_at * 1_000_000,
        row.valid_time matches Some(t) ==> row.valid_from() == t,
        row.valid_time is None ==> row.valid_from() == row.recorded(),
        row.shown_as_of(id, system_time) <==> row.persistence_id == id && !row.deleted
            && row.recorded() <= system_time,
        row.shown_valid_as_of(id, valid_time, system_time) <==> row.persistence_id == id
            && !row.deleted && row.recorded() <= system_time && row.valid_from() <= valid_time,
{
}

/// Limits that a signed number holds are passed on as they are, larger ones as
/// the largest signed number.
pub proof fn limits_are_held_in_range(v: u64)
    ensures
        v <= i64::MAX ==> clamped(v) == v,
        v > i64::MAX ==> clamped(v) == i64::MAX,
{
}

/// A filtered run holds exactly the rows that are kept.
proof fn lemma_shown(rows: Seq<StoredRow>, keep: spec_fn(StoredRow) -> bool, row: StoredRow)
    ensures
        rows.filter(keep).contains(row) <==> rows.contains(row) && keep(row),
{
    let kept = rows.filter(keep);
    if kept.contains(row) {
        rows.lemma_filter_contains_rev(keep, row);
        let k = choose|k: int| 0 <= k < kept.len() && kept[k] == row;
        rows.lemma_filter_pred(keep, k);
    }
    if rows.contains(row) && keep(row) {
        let k = choose|k: int| 0 <= k < rows.len() && rows[k] == row;
        rows.lemma_filter_contains(keep, k);
    }
}

} // verus!
