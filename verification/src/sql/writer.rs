//! What a write to the journal does, step by step: the messages go batch by
//! batch, one batch per persistence id, and a batch is stored whole or the write
//! is given up.

use crate::ordmap;
use crate::persistence::repr::{self, PersistentRepr, ReprView};
use crate::sql::journal::{
    self, group_by_id, plan_batch, Batch, JournalError, JournalRow, RowView,
};
use crate::sql::statement::{self, insert_event, insert_head, insert_tag, Statement, StatementView};
use crate::sql::worm::{self, unsigned, HeadView, LinkView, WormConfig};
use vstd::prelude::*;

verus! {

/// The statements as mathematical values.
pub open spec fn statement_views(statements: Seq<Statement>) -> Seq<StatementView> {
    statements.map_values(|s: Statement| s@)
}

/// The statements that store a row: the row, then its tags.
pub open spec fn row_statements(row: RowView) -> Seq<StatementView> {
    seq![statement::event_insert(row)] + row.tags.map_values(|t: Seq<char>| statement::tag_insert(row, t))
}

/// The statements that store rows, one row behind the other.
pub open spec fn rows_statements(rows: Seq<RowView>) -> Seq<StatementView>
    decreases rows.len(),
{
    if rows.len() == 0 {
        Seq::empty()
    } else {
        rows_statements(rows.drop_last()) + row_statements(rows.last())
    }
}

/// The statements that store a batch: its rows and, where the chain is kept, the
/// head that it ends at.
pub open spec fn batch_statements(config: WormConfig, rows: Seq<RowView>) -> Seq<StatementView> {
    if config.hash_chain && rows.len() > 0 {
        rows_statements(rows).push(statement::head_insert(rows.last()))
    } else {
        rows_statements(rows)
    }
}

/// Appends the statements that store a row.
fn push_row(statements: &mut Vec<Statement>, row: &JournalRow)
    ensures
        statement_views(final(statements)@) == statement_views(old(statements)@) + row_statements(
            row@,
        ),
{
    let ghost before = statement_views(statements@);
    let ghost tags = row@.tags.map_values(|t: Seq<char>| statement::tag_insert(row@, t));
    let s: Statement = insert_event(row);
    statements.push(s);
    assert(statement_views(statements@) =~= before + seq![statement::event_insert(row@)]);
    let ghost head = statement_views(statements@);
    let mut i: usize = 0;
    assert(head + tags.take(0) =~= head);
    while i < row.tags.len()
        invariant
            i <= row.tags.len(),
            tags == row@.tags.map_values(|t: Seq<char>| statement::tag_insert(row@, t)),
            statement_views(statements@) == head + tags.take(i as int),
        decreases row.tags.len() - i,
    {
        let ghost listed = statement_views(statements@);
        let t: Statement = insert_tag(row, i);
        statements.push(t);
        i = i + 1;
        assert(statement_views(statements@) =~= listed.push(tags[i - 1]));
        assert(head + tags.take(i as int) =~= (head + tags.take(i - 1)).push(tags[i - 1]));
    }
    assert(tags.take(i as int) =~= tags);
    assert(statement_views(statements@) =~= before + row_statements(row@));
}

/// The statements that store rows.
pub fn store(rows: &Vec<JournalRow>) -> (r: Vec<Statement>)
    ensures
        statement_views(r@) == rows_statements(journal::row_views(rows@)),
{
    let ghost all = journal::row_views(rows@);
    let mut r: Vec<Statement> = Vec::new();
    let mut i: usize = 0;
    assert(all.take(0) =~= Seq::<RowView>::empty());
    assert(statement_views(r@) =~= Seq::<StatementView>::empty());
    while i < rows.len()
        invariant
            i <= rows.len(),
            all == journal::row_views(rows@),
            statement_views(r@) == rows_statements(all.take(i as int)),
        decreases rows.len() - i,
    {
        push_row(&mut r, &rows[i]);
        i = i + 1;
        assert(all.take(i as int).drop_last() =~= all.take(i - 1));
    }
    assert(all.take(i as int) =~= all);
    r
}

/// A write under way.
pub struct JournalWriter {
    config: WormConfig,
    batches: Vec<Batch>,
}

/// The messages of one persistence id, as a mathematical value.
pub struct BatchView {
    pub id: Seq<char>,
    pub messages: Seq<ReprView>,
}

/// A write under way, as a mathematical value.
pub struct WriterView {
    pub config: WormConfig,
    /// The batches that are still to be stored, the next one first.
    pub batches: Seq<BatchView>,
}

pub open spec fn batch_views(batches: Seq<Batch>) -> Seq<BatchView> {
    batches.map_values(
        |b: Batch|
            BatchView { id: b.persistence_id@, messages: repr::repr_views(b.messages@) },
    )
}

/// Whether `batches` are `messages` by persistence id: the ids in ascending
/// order, each with its messages in the order given, and none left out.
pub open spec fn is_grouping(messages: Seq<ReprView>, batches: Seq<BatchView>) -> bool {
    &&& forall|i: int, j: int|
        0 <= i < j < batches.len() ==> ordmap::text_before(
            (#[trigger] batches[i]).id,
            (#[trigger] batches[j]).id,
        )
    &&& forall|i: int|
        0 <= i < batches.len() ==> (#[trigger] batches[i]).messages.len() > 0
            && batches[i].messages == journal::messages_of(messages, batches[i].id)
    &&& forall|id: Seq<char>|
        (#[trigger] journal::messages_of(messages, id)).len() > 0 ==> exists|i: int|
            0 <= i < batches.len() && (#[trigger] batches[i]).id == id
}

impl View for JournalWriter {
    type V = WriterView;

    closed spec fn view(&self) -> WriterView {
        WriterView { config: self.config, batches: batch_views(self.batches@) }
    }
}

/// What storing a batch comes to: its statements, or the first message out of
/// order.
pub open spec fn is_stored(
    r: Result<Vec<Statement>, JournalError>,
    config: WormConfig,
    highest: Option<i64>,
    last_hash: Option<Seq<u8>>,
    messages: Seq<ReprView>,
    times: Seq<i64>,
) -> bool {
    match journal::batch_rows(
        config,
        last_hash.unwrap_or(Seq::empty()),
        journal::next_number(highest),
        messages,
        times,
    ) {
        Ok(rows) => r matches Ok(v) && statement_views(v@) == batch_statements(config, rows),
        Err(d) => r == Err::<Vec<Statement>, JournalError>(
            JournalError::SequenceOutOfOrder { expected: d.expected, got: d.got },
        ),
    }
}

impl JournalWriter {
    /// The write of `messages`.
    pub fn new(config: WormConfig, messages: Vec<PersistentRepr>) -> (r: JournalWriter)
        ensures
            r@.config == config,
            is_grouping(repr::repr_views(messages@), r@.batches),
    {
        let ghost msgs = repr::repr_views(messages@);
        let r = JournalWriter { config, batches: group_by_id(messages) };
        proof {
            let views = r@.batches;
            assert forall|i: int| 0 <= i < views.len() implies (#[trigger] views[i]).messages.len()
                > 0 && views[i].messages == journal::messages_of(msgs, views[i].id) by {
                let b = r.batches@[i];
                assert(repr::repr_views(b.messages@).len() == b.messages@.len());
            }
            assert forall|i: int, j: int|
                0 <= i < j < views.len() implies ordmap::text_before(
                (#[trigger] views[i]).id,
                (#[trigger] views[j]).id,
            ) by {
                let (a, b) = (r.batches@[i], r.batches@[j]);
                assert(ordmap::text_before(a.persistence_id@, b.persistence_id@));
            }
            assert forall|id: Seq<char>|
                (#[trigger] journal::messages_of(msgs, id)).len() > 0 implies exists|i: int|
                0 <= i < views.len() && (#[trigger] views[i]).id == id by {
                let i = choose|i: int|
                    0 <= i < r.batches.len() && (#[trigger] r.batches[i]).persistence_id@ == id;
                assert(views[i].id == id);
            }
        }
        r
    }

    /// The persistence id whose batch is stored next; none if all is stored, and
    /// the write is to be committed.
    pub fn next_id(&self) -> (r: Option<&str>)
        ensures
            r is Some <==> self@.batches.len() > 0,
            r matches Some(s) ==> s@ == self@.batches[0].id,
    {
        if self.batches.len() > 0 {
            Some(self.batches[0].persistence_id.as_str())
        } else {
            None
        }
    }

    /// How many messages the next batch holds.
    pub fn next_len(&self) -> (r: usize)
        ensures
            r == (if self@.batches.len() > 0 {
                self@.batches[0].messages.len()
            } else {
                0
            }),
    {
        if self.batches.len() > 0 {
            self.batches[0].messages.len()
        } else {
            0
        }
    }

    /// Whether the latest stored hash is needed to store a batch.
    pub fn is_chained(&self) -> (r: bool)
        ensures
            r == self@.config.hash_chain,
    {
        self.config.hash_chain
    }

    /// Whether there are numbers for the next batch behind `highest`.
    pub fn has_room(&self, highest: Option<i64>) -> (r: bool)
        ensures
            r == (self@.batches.len() > 0 ==> journal::next_number(highest) + self@.batches[0].messages.len()
                <= u64::MAX),
    {
        let first: u128 = match highest {
            Some(v) => unsigned(v) as u128 + 1,
            None => 1,
        };
        self.batches.len() == 0 || first + self.next_len() as u128 <= u64::MAX as u128
    }

    /// The statements that store the next batch. `highest` is the highest stored
    /// number of its id, `last_hash` the hash of its latest row, and `times` the
    /// times of recording in milliseconds, one per message. After a message out
    /// of order the write is given up: nothing is left to store.
    pub fn next_batch(
        &mut self,
        highest: Option<i64>,
        last_hash: Option<Vec<u8>>,
        times: &Vec<i64>,
    ) -> (r: Result<Vec<Statement>, JournalError>)
        requires
            old(self)@.batches.len() > 0,
            times.len() == old(self)@.batches[0].messages.len(),
            journal::next_number(highest) + times.len() <= u64::MAX,
        ensures
            is_stored(
                r,
                old(self)@.config,
                highest,
                worm::column(last_hash),
                old(self)@.batches[0].messages,
                times@,
            ),
            final(self)@.config == old(self)@.config,
            final(self)@.batches == if r is Ok {
                old(self)@.batches.drop_first()
            } else {
                Seq::empty()
            },
    {
        let batch: Batch = self.batches.remove(0);
        assert(batch_views(self.batches@) =~= old(self)@.batches.drop_first());
        match plan_batch(self.config, highest, last_hash, batch.messages, times) {
            Ok(rows) => {
                let mut statements: Vec<Statement> = store(&rows);
                if self.config.hash_chain && rows.len() > 0 {
                    let ghost stored = statement_views(statements@);
                    let head: Statement = insert_head(&rows[rows.len() - 1]);
                    statements.push(head);
                    assert(statement_views(statements@) =~= stored.push(head@));
                }
                Ok(statements)
            },
            Err(e) => {
                self.batches = Vec::new();
                assert(batch_views(self.batches@) =~= Seq::<BatchView>::empty());
                Err(e)
            },
        }
    }
}

// ---------------------------------------------------------------------------
// Laws
// ---------------------------------------------------------------------------
/// A write keeps a chain whole: where the stored rows end at their head, they do
/// so behind a batch too, with the head that the batch stores.
pub proof fn writes_keep_the_chain_whole(
    config: WormConfig,
    id: Seq<char>,
    stored: Seq<LinkView>,
    head: Option<HeadView>,
    expected: int,
    messages: Seq<ReprView>,
    times: Seq<i64>,
)
    requires
        config.hash_chain,
        worm::is_whole(id, stored, head),
        messages.len() > 0,
        forall|i: int| 0 <= i < messages.len() ==> (#[trigger] messages[i]).persistence_id == id,
    ensures
        journal::batch_rows(config, worm::chain_end(id, stored), expected, messages, times)
            matches Ok(rows) ==> {
            &&& rows.len() > 0
            &&& rows.last().row_hash is Some
            &&& worm::is_whole(
                id,
                stored + rows.map_values(|r: RowView| r.link()),
                Some(
                    HeadView {
                        sequence_nr: rows.last().sequence_nr as i64,
                        row_hash: rows.last().row_hash->0,
                    },
                ),
            )
        },
{
    let prev = worm::chain_end(id, stored);
    journal::writes_extend_the_chain(config, id, stored, expected, messages, times);
    journal::written_numbers_are_consecutive(config, prev, expected, messages, times);
    let plan = journal::batch_rows(config, prev, expected, messages, times);
    if plan is Ok {
        let rows = plan->Ok_0;
        let links = rows.map_values(|r: RowView| r.link());
        assert((stored + links).last() == rows.last().link());
        journal::latest_hash_is_the_end(id, stored + links);
    }
}

/// A write stores what it was given: every message is in the batch of its
/// persistence id, and every message of a batch was given and has its id.
pub proof fn every_message_is_stored(messages: Seq<ReprView>, batches: Seq<BatchView>, m: ReprView)
    requires
        is_grouping(messages, batches),
    ensures
        messages.contains(m) ==> exists|i: int|
            0 <= i < batches.len() && (#[trigger] batches[i]).id == m.persistence_id
                && batches[i].messages.contains(m),
        forall|i: int|
            0 <= i < batches.len() && (#[trigger] batches[i]).messages.contains(m)
                ==> messages.contains(m) && batches[i].id == m.persistence_id,
{
    let id = m.persistence_id;
    if messages.contains(m) {
        let k = choose|k: int| 0 <= k < messages.len() && messages[k] == m;
        let kept = journal::messages_of(messages, id);
        messages.lemma_filter_contains(|x: ReprView| x.persistence_id == id, k);
        assert(kept.contains(m));
        assert(kept.len() > 0);
        let i = choose|i: int| 0 <= i < batches.len() && (#[trigger] batches[i]).id == id;
        assert(batches[i].messages == kept);
    }
    assert forall|i: int|
        0 <= i < batches.len() && (#[trigger] batches[i]).messages.contains(
            m,
        ) implies messages.contains(m) && batches[i].id == m.persistence_id by {
        let own = batches[i].id;
        let of_batch = |x: ReprView| x.persistence_id == own;
        let kept = messages.filter(of_batch);
        assert(batches[i].messages =~= kept);
        messages.lemma_filter_contains_rev(of_batch, m);
        let k = choose|k: int| 0 <= k < kept.len() && kept[k] == m;
        messages.lemma_filter_pred(of_batch, k);
    }
}

/// A row is stored by its own statement and then one for each of its tags, in
/// their order.
pub proof fn tags_are_stored_behind_their_row(row: RowView, k: int)
    ensures
        row_statements(row).len() == row.tags.len() + 1,
        row_statements(row)[0] == statement::event_insert(row),
        0 <= k < row.tags.len() ==> row_statements(row)[k + 1] == statement::tag_insert(
            row,
            row.tags[k],
        ),
{
}

/// Rows are stored in their order, and where the chain is kept the head of the
/// last one behind all of them; nothing is stored of no rows.
pub proof fn batches_are_stored_in_order(config: WormConfig, rows: Seq<RowView>, row: RowView)
    ensures
        rows_statements(Seq::empty()).len() == 0,
        rows_statements(rows.push(row)) == rows_statements(rows) + row_statements(row),
        batch_statements(config, Seq::empty()).len() == 0,
        !config.hash_chain ==> batch_statements(config, rows.push(row)) == rows_statements(rows)
            + row_statements(row),
        config.hash_chain ==> batch_statements(config, rows.push(row)) == (rows_statements(rows)
            + row_statements(row)).push(statement::head_insert(row)),
{
    assert(rows.push(row).drop_last() =~= rows);
}

} // verus!
