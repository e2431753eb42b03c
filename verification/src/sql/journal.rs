//! What the SQL journal writes and how it reads rows back.

use crate::ordmap;
use crate::ordmap::{Key, OrdMap};
use crate::persistence::repr;
use crate::persistence::repr::{PersistentRepr, ReprView};
use crate::scan;
use crate::sql::worm;
use crate::sql::worm::{compute_row_hash, signed, unsigned, LinkView, WormConfig};
use crate::text;
use vstd::prelude::*;

verus! {

/// Why a journal refuses a write.
#[derive(Debug, PartialEq, Eq)]
pub enum JournalError {
    /// The sequence number of a message is not the next of its persistence id.
    SequenceOutOfOrder { expected: u64, got: u64 },
    /// The database failed.
    Backend(String),
}

// ---------------------------------------------------------------------------
// Columns
// ---------------------------------------------------------------------------
/// `v`, at most the largest signed number.
pub fn clamp_i64(v: u64) -> (r: i64)
    ensures
        r == (if v > i64::MAX {
            i64::MAX as int
        } else {
            v as int
        }),
{
    if v > 0x7fff_ffff_ffff_ffff {
        i64::MAX
    } else {
        v as i64
    }
}

/// A nanosecond timestamp, at most the largest signed number.
pub fn clamp_nanos(v: u128) -> (r: i64)
    ensures
        r == (if v > i64::MAX {
            i64::MAX as int
        } else {
            v as int
        }),
{
    if v > 0x7fff_ffff_ffff_ffff {
        i64::MAX
    } else {
        v as i64
    }
}

/// The valid time that the first readable `valid_time:<nanos>` tag carries.
pub open spec fn valid_time(tags: Seq<Seq<char>>) -> Option<int>
    decreases tags.len(),
{
    if tags.len() == 0 {
        None
    } else {
        let t = tags[0];
        let p = "valid_time:"@;
        if scan::begins_with(t, p) && text::signed_value(t.skip(p.len() as int)) is Some {
            text::signed_value(t.skip(p.len() as int))
        } else {
            valid_time(tags.drop_first())
        }
    }
}

/// The valid time, in nanoseconds, that a `valid_time:<nanos>` tag carries;
/// `None` if no tag does, so that the column stays empty.
pub fn parse_valid_time(tags: &Vec<String>) -> (r: Option<i64>)
    ensures
        r is Some <==> valid_time(repr::tag_texts(tags@)) is Some,
        r matches Some(n) ==> valid_time(repr::tag_texts(tags@)) == Some(n as int),
{
    let ghost all = repr::tag_texts(tags@);
    let mut i: usize = 0;
    assert(all.skip(0) =~= all);
    while i < tags.len()
        invariant
            i <= tags.len(),
            all == repr::tag_texts(tags@),
            valid_time(all) == valid_time(all.skip(i as int)),
        decreases tags.len() - i,
    {
        assert(all.skip(i as int)[0] == tags@[i as int]@);
        assert(all.skip(i as int).drop_first() =~= all.skip(i + 1));
        if let Some(rest) = scan::strip_prefix(tags[i].as_str(), "valid_time:") {
            if let Some(n) = text::parse_i64(rest.as_str()) {
                return Some(n);
            }
        }
        i = i + 1;
    }
    None
}

/// The system time, in nanoseconds, of a row recorded at `created_at`
/// milliseconds, within the range of the column.
pub open spec fn system_time_of(created_at: i64) -> int {
    let nanos = created_at * 1_000_000;
    if nanos > i64::MAX {
        i64::MAX as int
    } else if nanos < i64::MIN {
        i64::MIN as int
    } else {
        nanos
    }
}

fn system_time(created_at: i64) -> (r: i64)
    ensures
        r == system_time_of(created_at),
{
    if created_at > 9_223_372_036_854 {
        i64::MAX
    } else if created_at < -9_223_372_036_854 {
        i64::MIN
    } else {
        created_at * 1_000_000
    }
}

// ---------------------------------------------------------------------------
// Writing
// ---------------------------------------------------------------------------
/// A row of the journal, with the tags of its event.
#[derive(Debug)]
pub struct JournalRow {
    pub persistence_id: String,
    pub sequence_nr: i64,
    pub payload: Vec<u8>,
    pub manifest: String,
    pub writer_uuid: String,
    pub created_at: i64,
    pub prev_hash: Option<Vec<u8>>,
    pub row_hash: Option<Vec<u8>>,
    pub system_time: i64,
    pub valid_time: Option<i64>,
    pub tags: Vec<String>,
}

/// A row as a mathematical value.
#[verifier::ext_equal]
pub struct RowView {
    pub persistence_id: Seq<char>,
    pub sequence_nr: int,
    pub payload: Seq<u8>,
    pub manifest: Seq<char>,
    pub writer_uuid: Seq<char>,
    pub created_at: i64,
    pub prev_hash: Option<Seq<u8>>,
    pub row_hash: Option<Seq<u8>>,
    pub system_time: int,
    pub valid_time: Option<int>,
    pub tags: Seq<Seq<char>>,
}

impl View for JournalRow {
    type V = RowView;

    open spec fn view(&self) -> RowView {
        RowView {
            persistence_id: self.persistence_id@,
            sequence_nr: self.sequence_nr as int,
            payload: self.payload@,
            manifest: self.manifest@,
            writer_uuid: self.writer_uuid@,
            created_at: self.created_at,
            prev_hash: worm::column(self.prev_hash),
            row_hash: worm::column(self.row_hash),
            system_time: self.system_time as int,
            valid_time: match self.valid_time {
                Some(n) => Some(n as int),
                None => None,
            },
            tags: repr::tag_texts(self.tags@),
        }
    }
}

impl RowView {
    /// The chain columns of the row.
    pub open spec fn link(self) -> LinkView {
        LinkView {
            sequence_nr: self.sequence_nr as i64,
            payload: self.payload,
            created_at: self.created_at,
            prev_hash: self.prev_hash,
            row_hash: self.row_hash,
        }
    }
}

pub open spec fn row_views(rows: Seq<JournalRow>) -> Seq<RowView> {
    rows.map_values(|r: JournalRow| r@)
}

/// The hash of the row of `msg` behind a row with hash `prev`.
pub open spec fn hash_of(prev: Seq<u8>, msg: ReprView, created_at: i64) -> Seq<u8> {
    worm::row_hash(prev, msg.persistence_id, msg.sequence_nr, msg.payload, created_at)
}

/// The row of `msg`, recorded at `created_at`, behind a row with hash `prev`.
pub open spec fn row_of(
    config: WormConfig,
    prev: Seq<u8>,
    msg: ReprView,
    created_at: i64,
) -> RowView {
    RowView {
        persistence_id: msg.persistence_id,
        sequence_nr: worm::as_signed(msg.sequence_nr),
        payload: msg.payload,
        manifest: msg.manifest,
        writer_uuid: msg.writer_uuid,
        created_at,
        prev_hash: if config.hash_chain && prev.len() > 0 {
            Some(prev)
        } else {
            None
        },
        row_hash: if config.hash_chain {
            Some(hash_of(prev, msg, created_at))
        } else {
            None
        },
        system_time: system_time_of(created_at),
        valid_time: valid_time(msg.tags),
        tags: msg.tags,
    }
}

/// A message whose number is not the expected one.
pub struct Disorder {
    pub expected: u64,
    pub got: u64,
}

/// The rows of a batch of one persistence id, or the first message out of
/// order. The first message must carry the number `expected`, each further one
/// the next; each row is chained to the one before it.
pub open spec fn batch_rows(
    config: WormConfig,
    prev: Seq<u8>,
    expected: int,
    msgs: Seq<ReprView>,
    times: Seq<i64>,
) -> Result<Seq<RowView>, Disorder>
    decreases msgs.len(),
{
    if msgs.len() == 0 {
        Ok(Seq::empty())
    } else if msgs[0].sequence_nr != expected {
        Err(Disorder { expected: expected as u64, got: msgs[0].sequence_nr })
    } else {
        let row = row_of(config, prev, msgs[0], times[0]);
        let next = if config.hash_chain {
            hash_of(prev, msgs[0], times[0])
        } else {
            prev
        };
        match batch_rows(config, next, expected + 1, msgs.drop_first(), times.drop_first()) {
            Ok(rows) => Ok(seq![row] + rows),
            Err(d) => Err(d),
        }
    }
}

/// The number that the next message of a persistence id carries, where its
/// highest stored number is `highest`.
pub open spec fn next_number(highest: Option<i64>) -> int {
    match highest {
        Some(v) => worm::as_unsigned(v) + 1,
        None => 1,
    }
}

/// Whether a result is the one that `plan` describes.
pub open spec fn is_plan(
    r: Result<Vec<JournalRow>, JournalError>,
    plan: Result<Seq<RowView>, Disorder>,
) -> bool {
    match plan {
        Ok(rows) => r matches Ok(v) && row_views(v@) == rows,
        Err(d) => r == Err::<Vec<JournalRow>, JournalError>(
            JournalError::SequenceOutOfOrder { expected: d.expected, got: d.got },
        ),
    }
}

/// The rows of a batch of messages of one persistence id.
///
/// `highest` is the highest stored number of the id, `last_hash` the hash of its
/// latest row, and `times` the times of recording in milliseconds, one per
/// message. A message out of order is an error, and nothing is to be written.
pub fn plan_batch(
    config: WormConfig,
    highest: Option<i64>,
    last_hash: Option<Vec<u8>>,
    batch: Vec<PersistentRepr>,
    times: &Vec<i64>,
) -> (r: Result<Vec<JournalRow>, JournalError>)
    requires
        times.len() == batch.len(),
        next_number(highest) + batch.len() <= u64::MAX,
    ensures
        is_plan(
            r,
            batch_rows(
                config,
                worm::column(last_hash).unwrap_or(Seq::empty()),
                next_number(highest),
                repr::repr_views(batch@),
                times@,
            ),
        ),
        config.hash_chain ==> (r matches Ok(rows) ==> worm::hashes_are_digests(
            row_views(rows@).map_values(|row: RowView| row.link()),
        )),
{
    let ghost msgs = repr::repr_views(batch@);
    let n: usize = batch.len();
    let mut prev: Vec<u8> = match last_hash {
        Some(h) => h,
        None => Vec::new(),
    };
    let ghost seed = prev@;
    let mut expected: u64 = match highest {
        Some(v) => unsigned(v) + 1,
        None => 1,
    };
    let ghost first = expected as int;
    let ghost whole = batch_rows(config, seed, first, msgs, times@);
    assert(seed == worm::column(last_hash).unwrap_or(Seq::empty()));
    let mut out: Vec<JournalRow> = Vec::new();
    let mut i: usize = 0;
    proof {
        assert(msgs.skip(0) =~= msgs);
        assert(times@.skip(0) =~= times@);
        lemma_empty_rows(out@);
        lemma_prepended(row_views(out@), whole);
    }
    for msg in it: batch
        invariant
            it.seq() == batch@,
            i == it.index(),
            i <= n,
            n == batch@.len(),
            n == times@.len(),
            msgs == repr::repr_views(batch@),
            expected == first + i,
            first + n <= u64::MAX,
            whole == batch_rows(
                config,
                worm::column(last_hash).unwrap_or(Seq::empty()),
                next_number(highest),
                msgs,
                times@,
            ),
            whole == prepended(
                row_views(out@),
                batch_rows(config, prev@, expected as int, msgs.skip(i as int), times@.skip(i as int)),
            ),
            config.hash_chain ==> forall|j: int|
                0 <= j < out@.len() ==> ((#[trigger] out@[j]).row_hash matches Some(h) && h@.len()
                    == 32),
    {
        let ghost rest = msgs.skip(i as int);
        let ghost clock = times@.skip(i as int);
        assert(rest[0] == msg@);
        assert(rest.drop_first() =~= msgs.skip(i + 1));
        assert(clock.drop_first() =~= times@.skip(i + 1));
        if msg.sequence_nr != expected {
            return Err(JournalError::SequenceOutOfOrder { expected, got: msg.sequence_nr });
        }
        let created_at: i64 = times[i];
        let ghost before = row_views(out@);
        let ghost from = prev@;
        let row: JournalRow = chained_row(config, &mut prev, msg, created_at);
        out.push(row);
        assert(row_views(out@) =~= before.push(row@));
        i = i + 1;
        proof {
            let tail = batch_rows(
                config,
                prev@,
                expected + 1,
                msgs.skip(i as int),
                times@.skip(i as int),
            );
            lemma_prepended_step(before, row@, tail);
        }
        expected = expected + 1;
    }
    proof {
        let links = row_views(out@).map_values(|row: RowView| row.link());
        if config.hash_chain {
            assert forall|j: int| 0 <= j < links.len() implies ((
            #[trigger] links[j]).row_hash matches Some(h) && h.len() == 32) by {
                assert(links[j] == out@[j]@.link());
            }
        }
    }
    Ok(out)
}

/// A plan with rows in front of it.
spec fn prepended(
    rows: Seq<RowView>,
    plan: Result<Seq<RowView>, Disorder>,
) -> Result<Seq<RowView>, Disorder> {
    match plan {
        Ok(more) => Ok(rows + more),
        Err(d) => Err(d),
    }
}

proof fn lemma_empty_rows(rows: Seq<JournalRow>)
    requires
        rows.len() == 0,
    ensures
        row_views(rows) == Seq::<RowView>::empty(),
{
    assert(row_views(rows) =~= Seq::<RowView>::empty());
}

proof fn lemma_prepended(rows: Seq<RowView>, plan: Result<Seq<RowView>, Disorder>)
    requires
        rows.len() == 0,
    ensures
        prepended(rows, plan) == plan,
{
    if let Ok(more) = plan {
        assert(rows + more =~= more);
    }
}

proof fn lemma_prepended_step(
    rows: Seq<RowView>,
    row: RowView,
    tail: Result<Seq<RowView>, Disorder>,
)
    ensures
        prepended(rows, prepended(seq![row], tail)) == prepended(rows.push(row), tail),
{
    if let Ok(more) = tail {
        assert(rows + (seq![row] + more) =~= rows.push(row) + more);
    }
}

/// The row of a message behind a row with hash `prev`, which becomes the hash
/// of the new row where the chain is kept.
fn chained_row(
    config: WormConfig,
    prev: &mut Vec<u8>,
    msg: PersistentRepr,
    created_at: i64,
) -> (r: JournalRow)
    ensures
        r@ == row_of(config, old(prev)@, msg@, created_at),
        final(prev)@ == (if config.hash_chain {
            hash_of(old(prev)@, msg@, created_at)
        } else {
            old(prev)@
        }),
        config.hash_chain ==> (r.row_hash matches Some(h) && h@.len() == 32),
{
    let mut prev_hash: Option<Vec<u8>> = None;
    let mut row_hash: Option<Vec<u8>> = None;
    if config.hash_chain {
        let hash: Vec<u8> = compute_row_hash(
            prev.as_slice(),
            msg.persistence_id.as_str(),
            msg.sequence_nr,
            msg.payload.as_slice(),
            created_at,
        );
        if prev.len() > 0 {
            prev_hash = Some(copy_of(prev));
        }
        *prev = copy_of(&hash);
        row_hash = Some(hash);
    }
    let valid: Option<i64> = parse_valid_time(&msg.tags);
    JournalRow {
        persistence_id: msg.persistence_id,
        sequence_nr: signed(msg.sequence_nr),
        payload: msg.payload,
        manifest: msg.manifest,
        writer_uuid: msg.writer_uuid,
        created_at,
        prev_hash,
        row_hash,
        system_time: system_time(created_at),
        valid_time: valid,
        tags: msg.tags,
    }
}

/// A copy of a run of bytes.
fn copy_of(bytes: &Vec<u8>) -> (r: Vec<u8>)
    ensures
        r@ == bytes@,
{
    let mut r: Vec<u8> = Vec::new();
    r.extend_from_slice(bytes.as_slice());
    assert(r@ =~= bytes@);
    r
}

/// What the journal writes keeps the chain: the rows of a batch, behind rows
/// that are a chain, are a chain with them. The batch is seeded with the hash of
/// the latest row, so this holds across separate writes.
pub proof fn writes_extend_the_chain(
    config: WormConfig,
    id: Seq<char>,
    stored: Seq<LinkView>,
    expected: int,
    msgs: Seq<ReprView>,
    times: Seq<i64>,
)
    requires
        config.hash_chain,
        worm::is_chain(id, stored),
        forall|i: int| 0 <= i < msgs.len() ==> (#[trigger] msgs[i]).persistence_id == id,
    ensures
        batch_rows(config, worm::chain_end(id, stored), expected, msgs, times) matches Ok(rows)
            ==> worm::is_chain(id, stored + rows.map_values(|r: RowView| r.link())),
    decreases msgs.len(),
{
    let prev = worm::chain_end(id, stored);
    if msgs.len() == 0 {
        let rows = Seq::<RowView>::empty();
        assert(stored + rows.map_values(|r: RowView| r.link()) =~= stored);
    } else if msgs[0].sequence_nr == expected {
        let row = row_of(config, prev, msgs[0], times[0]);
        let more = stored.push(row.link());
        let rest = msgs.drop_first();
        let next = hash_of(prev, msgs[0], times[0]);
        assert(msgs[0].persistence_id == id);
        assert(more.drop_last() =~= stored);
        assert(worm::chain_end(id, more) == next);
        assert(prev.len() == 0 ==> prev =~= Seq::<u8>::empty());
        assert(worm::is_chain(id, more));
        assert forall|i: int| 0 <= i < rest.len() implies (#[trigger] rest[i]).persistence_id
            == id by {
            assert(rest[i] == msgs[i + 1]);
        }
        writes_extend_the_chain(config, id, more, expected + 1, rest, times.drop_first());
        if let Ok(rows) = batch_rows(config, next, expected + 1, rest, times.drop_first()) {
            assert(stored + (seq![row] + rows).map_values(|r: RowView| r.link()) =~= more
                + rows.map_values(|r: RowView| r.link()));
        }
    }
}

/// The latest row of a chain stores the hash that the chain ends in, so a batch
/// seeded with it goes on where the chain ends.
pub proof fn latest_hash_is_the_end(id: Seq<char>, stored: Seq<LinkView>)
    requires
        worm::is_chain(id, stored),
        stored.len() > 0,
    ensures
        stored.last().row_hash == Some(worm::chain_end(id, stored)),
{
}

/// A batch that is written carries consecutive numbers from the next one on.
pub proof fn written_numbers_are_consecutive(
    config: WormConfig,
    prev: Seq<u8>,
    expected: int,
    msgs: Seq<ReprView>,
    times: Seq<i64>,
)
    ensures
        batch_rows(config, prev, expected, msgs, times) is Ok <==> forall|i: int|
            0 <= i < msgs.len() ==> (#[trigger] msgs[i]).sequence_nr == expected + i,
        batch_rows(config, prev, expected, msgs, times) matches Ok(rows) ==> rows.len()
            == msgs.len(),
    decreases msgs.len(),
{
    if msgs.len() > 0 {
        let next = if config.hash_chain {
            hash_of(prev, msgs[0], times[0])
        } else {
            prev
        };
        let rest = msgs.drop_first();
        written_numbers_are_consecutive(config, next, expected + 1, rest, times.drop_first());
        let plan = batch_rows(config, prev, expected, msgs, times);
        if plan is Ok {
            assert forall|i: int| 0 <= i < msgs.len() implies (#[trigger] msgs[i]).sequence_nr
                == expected + i by {
                if i > 0 {
                    assert(rest[i - 1] == msgs[i]);
                }
            }
        }
        if forall|i: int|
            0 <= i < msgs.len() ==> (#[trigger] msgs[i]).sequence_nr == expected + i {
            assert(msgs[0].sequence_nr == expected);
            assert forall|i: int| 0 <= i < rest.len() implies (#[trigger] rest[i]).sequence_nr
                == expected + 1 + i by {
                assert(rest[i] == msgs[i + 1]);
            }
        }
    }
}

// ---------------------------------------------------------------------------
// Grouping
// ---------------------------------------------------------------------------
/// The messages of one persistence id.
#[derive(Debug)]
pub struct Batch {
    pub persistence_id: String,
    pub messages: Vec<PersistentRepr>,
}

/// The messages of `id`, in order.
pub open spec fn messages_of(msgs: Seq<ReprView>, id: Seq<char>) -> Seq<ReprView> {
    msgs.filter(|m: ReprView| m.persistence_id == id)
}

/// Whether the entries of a map are the messages of `msgs` by persistence id.
spec fn grouped(map: Map<Seq<char>, Vec<PersistentRepr>>, msgs: Seq<ReprView>) -> bool {
    &&& forall|id: Seq<char>| #[trigger]
        map.contains_key(id) <==> messages_of(msgs, id).len() > 0
    &&& forall|id: Seq<char>| #[trigger]
        map.contains_key(id) ==> repr::repr_views(map[id]@) == messages_of(msgs, id)
}

/// Groups messages by persistence id: one batch per id, in the order of the
/// ids, each with its messages in the order given.
pub fn group_by_id(messages: Vec<PersistentRepr>) -> (r: Vec<Batch>)
    ensures
        forall|i: int, j: int|
            0 <= i < j < r.len() ==> ordmap::text_before(
                (#[trigger] r[i]).persistence_id@,
                (#[trigger] r[j]).persistence_id@,
            ),
        forall|i: int|
            0 <= i < r.len() ==> {
                &&& repr::repr_views((#[trigger] r[i]).messages@) == messages_of(
                    repr::repr_views(messages@),
                    r[i].persistence_id@,
                )
                &&& r[i].messages.len() > 0
            },
        forall|id: Seq<char>|
            (#[trigger] messages_of(repr::repr_views(messages@), id)).len() > 0 ==> exists|i: int|
                0 <= i < r.len() && (#[trigger] r[i]).persistence_id@ == id,
{
    let ghost msgs = repr::repr_views(messages@);
    let mut map: OrdMap<String, Vec<PersistentRepr>> = OrdMap::new();
    let ghost mut k: int = 0;
    proof {
        assert forall|id: Seq<char>| (#[trigger] messages_of(msgs.take(0), id)).len() == 0 by {
            reveal(Seq::filter);
        }
        assert(grouped(map@, msgs.take(0)));
    }
    for msg in it: messages
        invariant
            it.seq() == messages@,
            k == it.index(),
            0 <= k <= messages@.len(),
            msgs == repr::repr_views(messages@),
            map.wf(),
            grouped(map@, msgs.take(k)),
    {
        let key: String = msg.persistence_id.clone();
        let ghost id = key@;
        let ghost seen = msgs.take(k);
        let ghost old_map = map@;
        let mut batch: Vec<PersistentRepr> = match map.remove(&key) {
            Some(v) => v,
            None => Vec::new(),
        };
        let ghost before = repr::repr_views(batch@);
        proof {
            assert(old_map.contains_key(id) <==> messages_of(seen, id).len() > 0);
            if !old_map.contains_key(id) {
                assert(before =~= Seq::<ReprView>::empty());
                assert(messages_of(seen, id) =~= Seq::<ReprView>::empty());
            }
        }
        batch.push(msg);
        assert(repr::repr_views(batch@) =~= before.push(msg@));
        map.insert(key, batch);
        proof {
            let now = msgs.take(k + 1);
            assert(now.drop_last() =~= seen);
            assert(now.last() == msg@);
            assert forall|other: Seq<char>| #[trigger] messages_of(now, other) == (if other == id {
                messages_of(seen, other).push(msg@)
            } else {
                messages_of(seen, other)
            }) by {
                reveal(Seq::filter);
            }
            assert forall|other: Seq<char>| #[trigger]
                map@.contains_key(other) <==> messages_of(now, other).len() > 0 by {
                assert(old_map.contains_key(other) <==> messages_of(seen, other).len() > 0);
            }
            assert forall|other: Seq<char>| #[trigger]
                map@.contains_key(other) implies repr::repr_views(map@[other]@) == messages_of(
                now,
                other,
            ) by {
                if other != id {
                    assert(old_map.contains_key(other));
                }
            }
            k = k + 1;
        }
    }
    assert(msgs.take(k) =~= msgs);
    let ghost list = map.list();
    proof {
        map.lemma_list();
    }
    let ghost held = map@;
    let entries: Vec<(String, Vec<PersistentRepr>)> = map.into_entries();
    let mut out: Vec<Batch> = Vec::new();
    for entry in it: entries
        invariant
            it.seq() == list,
            out.len() == it.index(),
            it.index() <= list.len(),
            forall|i: int|
                0 <= i < out.len() ==> (#[trigger] out@[i]).persistence_id == list[i].0
                    && out@[i].messages == list[i].1,
    {
        out.push(Batch { persistence_id: entry.0, messages: entry.1 });
    }
    proof {
        assert forall|i: int| 0 <= i < out.len() implies repr::repr_views(
            (#[trigger] out[i]).messages@,
        ) == messages_of(msgs, out[i].persistence_id@) && out[i].messages.len() > 0 by {
            let e = list[i];
            assert(held.contains_key(e.0.model()));
            assert(repr::repr_views(out[i].messages@).len() == out[i].messages@.len());
        }
        assert forall|i: int, j: int| 0 <= i < j < out.len() implies ordmap::text_before(
            (#[trigger] out[i]).persistence_id@,
            (#[trigger] out[j]).persistence_id@,
        ) by {
            assert(<String as ordmap::Key>::before(list[i].0.model(), list[j].0.model()));
        }
        assert forall|id: Seq<char>| (#[trigger] messages_of(msgs, id)).len() > 0 implies exists|
            i: int,
        |
            0 <= i < out.len() && (#[trigger] out[i]).persistence_id@ == id by {
            assert(held.contains_key(id));
            let i = choose|i: int| ordmap::is_at(list, id, i);
            assert(out[i].persistence_id == list[i].0);
        }
    }
    out
}

// ---------------------------------------------------------------------------
// Reading
// ---------------------------------------------------------------------------
/// An event row as the database returns it.
#[derive(Debug)]
pub struct EventRecord {
    pub persistence_id: String,
    pub sequence_nr: i64,
    pub payload: Vec<u8>,
    pub manifest: String,
    pub writer_uuid: String,
    pub deleted: i32,
}

/// The event that a row and its tags make up.
pub fn to_repr(record: EventRecord, tags: Vec<String>) -> (r: PersistentRepr)
    ensures
        r@ == (ReprView {
            persistence_id: record.persistence_id@,
            sequence_nr: worm::as_unsigned(record.sequence_nr) as u64,
            payload: record.payload@,
            manifest: record.manifest@,
            writer_uuid: record.writer_uuid@,
            deleted: record.deleted != 0,
            tags: repr::tag_texts(tags@),
        }),
{
    PersistentRepr {
        persistence_id: record.persistence_id,
        sequence_nr: unsigned(record.sequence_nr),
        payload: record.payload,
        manifest: record.manifest,
        writer_uuid: record.writer_uuid,
        deleted: record.deleted != 0,
        tags,
    }
}

/// The event of a row found by `tag`: it carries that tag alone.
pub fn to_tagged_repr(record: EventRecord, tag: &str) -> (r: PersistentRepr)
    ensures
        r@ == (ReprView {
            persistence_id: record.persistence_id@,
            sequence_nr: worm::as_unsigned(record.sequence_nr) as u64,
            payload: record.payload@,
            manifest: record.manifest@,
            writer_uuid: record.writer_uuid@,
            deleted: record.deleted != 0,
            tags: seq![tag@],
        }),
{
    let mut tags: Vec<String> = Vec::new();
    tags.push(tag.to_owned());
    assert(repr::tag_texts(tags@) =~= seq![tag@]);
    to_repr(record, tags)
}

/// The highest number of a persistence id, where the database reports
/// `highest`; zero if there is none.
pub fn highest_number(highest: Option<i64>) -> (r: u64)
    ensures
        r == (match highest {
            Some(v) => worm::as_unsigned(v),
            None => 0,
        }),
{
    match highest {
        Some(v) => unsigned(v),
        None => 0,
    }
}

/// What is written is what is read: an event read back from the row it was
/// written to, with its tags, is the event, not deleted.
pub proof fn write_then_read(config: WormConfig, prev: Seq<u8>, msg: ReprView, created_at: i64)
    ensures
        ({
            let row = row_of(config, prev, msg, created_at);
            ReprView {
                persistence_id: row.persistence_id,
                sequence_nr: worm::as_unsigned(row.sequence_nr as i64) as u64,
                payload: row.payload,
                manifest: row.manifest,
                writer_uuid: row.writer_uuid,
                deleted: false,
                tags: row.tags,
            } == ReprView { deleted: false, ..msg }
        }),
{
}

// ---------------------------------------------------------------------------
// Laws of the columns
// ---------------------------------------------------------------------------
/// Of the tags of an event the first that reads `valid_time:` and a number gives
/// the valid time; where there is none, the event has no valid time.
pub proof fn first_readable_valid_time_counts(tags: Seq<Seq<char>>, i: int)
    ensures
        0 <= i < tags.len() && tells_valid_time(tags[i]) is Some && (forall|j: int|
            0 <= j < i ==> tells_valid_time(#[trigger] tags[j]) is None) ==> valid_time(tags)
            == tells_valid_time(tags[i]),
        valid_time(tags) is None <==> forall|j: int|
            0 <= j < tags.len() ==> tells_valid_time(#[trigger] tags[j]) is None,
    decreases tags.len(),
{
    reveal_strlit("valid_time:");
    if tags.len() > 0 {
        let t = tags[0];
        let p = "valid_time:"@;
        assert(t.len() >= 11 ==> t.subrange(0, 11) =~= t.take(11));
        assert(scan::begins_with(t, p) && text::signed_value(t.skip(11)) is Some
            <==> tells_valid_time(t) is Some);
        let rest = tags.drop_first();
        first_readable_valid_time_counts(rest, i - 1);
        if forall|j: int| 0 <= j < rest.len() ==> tells_valid_time(#[trigger] rest[j]) is None {
            assert forall|j: int|
                0 <= j < tags.len() && tells_valid_time(t) is None implies tells_valid_time(
                #[trigger] tags[j],
            ) is None by {
                if j > 0 {
                    assert(tags[j] == rest[j - 1]);
                }
            }
        } else {
            let j = choose|j: int|
                0 <= j < rest.len() && !(tells_valid_time(#[trigger] rest[j]) is None);
            assert(tags[j + 1] == rest[j]);
        }
        if 0 < i < tags.len() && (forall|j: int|
            0 <= j < i ==> tells_valid_time(#[trigger] tags[j]) is None) {
            assert(tags[i] == rest[i - 1]);
            assert(tells_valid_time(tags[0]) is None);
            assert forall|j: int| 0 <= j < i - 1 implies tells_valid_time(
                #[trigger] rest[j],
            ) is None by {
                assert(rest[j] == tags[j + 1]);
            }
        }
    }
}

/// The number behind `valid_time:` in a tag, if the tag is made up so.
pub open spec fn tells_valid_time(tag: Seq<char>) -> Option<int> {
    if tag.len() >= 11 && tag.take(11) == "valid_time:"@ {
        text::signed_value(tag.skip(11))
    } else {
        None
    }
}

/// The system time of a row is its time of recording in nanoseconds, held within
/// the range of the column.
pub proof fn system_time_is_in_nanoseconds(created_at: i64, later: i64)
    ensures
        i64::MIN <= created_at * 1_000_000 <= i64::MAX ==> system_time_of(created_at) == created_at
            * 1_000_000,
        created_at * 1_000_000 > i64::MAX ==> system_time_of(created_at) == i64::MAX,
        created_at * 1_000_000 < i64::MIN ==> system_time_of(created_at) == i64::MIN,
        created_at <= later ==> system_time_of(created_at) <= system_time_of(later),
{
}

/// A persistence id starts at number 1 and goes on behind the highest number that
/// is stored of it.
pub proof fn numbers_go_on_behind_the_highest(highest: Option<i64>)
    ensures
        highest is None ==> next_number(highest) == 1,
        highest matches Some(v) ==> (v >= 0 ==> next_number(highest) == v + 1),
{
}

/// A row holds what its message holds, with the time of recording; its hash
/// columns are filled only where the chain is kept, and the link to the row
/// before it only where there is one.
pub proof fn rows_hold_their_message(
    config: WormConfig,
    prev: Seq<u8>,
    msg: ReprView,
    created_at: i64,
)
    ensures
        ({
            let row = row_of(config, prev, msg, created_at);
            &&& row.persistence_id == msg.persistence_id
            &&& msg.sequence_nr <= i64::MAX ==> row.sequence_nr == msg.sequence_nr
            &&& row.payload == msg.payload
            &&& row.manifest == msg.manifest
            &&& row.writer_uuid == msg.writer_uuid
            &&& row.tags == msg.tags
            &&& row.created_at == created_at
            &&& row.system_time == system_time_of(created_at)
            &&& row.valid_time == valid_time(msg.tags)
            &&& row.row_hash is Some <==> config.hash_chain
            &&& row.prev_hash is Some <==> config.hash_chain && prev.len() > 0
            &&& row.prev_hash matches Some(h) ==> h == prev
            &&& row.row_hash matches Some(h) ==> h == worm::row_hash(
                prev,
                msg.persistence_id,
                msg.sequence_nr,
                msg.payload,
                created_at,
            )
        }),
{
}

/// The rows of a batch are those of its messages, in their order, each recorded
/// at its own time. Where the chain is kept, every row links to the row before it
/// in the batch and the first one to the row that was stored last; otherwise no
/// row has hash columns.
pub proof fn rows_follow_their_messages(
    config: WormConfig,
    prev: Seq<u8>,
    expected: int,
    msgs: Seq<ReprView>,
    times: Seq<i64>,
    i: int,
)
    requires
        0 <= i < msgs.len(),
        times.len() == msgs.len(),
    ensures
        batch_rows(config, prev, expected, msgs, times) matches Ok(rows) ==> {
            &&& rows.len() == msgs.len()
            &&& rows[i].persistence_id == msgs[i].persistence_id
            &&& rows[i].payload == msgs[i].payload
            &&& rows[i].manifest == msgs[i].manifest
            &&& rows[i].writer_uuid == msgs[i].writer_uuid
            &&& rows[i].tags == msgs[i].tags
            &&& rows[i].created_at == times[i]
            &&& msgs[i].sequence_nr <= i64::MAX ==> rows[i].sequence_nr == msgs[i].sequence_nr
            &&& rows[i].row_hash is Some <==> config.hash_chain
            &&& !config.hash_chain ==> rows[i].prev_hash is None
            &&& config.hash_chain && i == 0 ==> rows[i].prev_hash.unwrap_or(Seq::empty()) =~= prev
            &&& config.hash_chain && i > 0 ==> rows[i].prev_hash.unwrap_or(Seq::empty())
                =~= rows[i - 1].row_hash->0
        },
    decreases msgs.len(),
{
    let next = if config.hash_chain {
        hash_of(prev, msgs[0], times[0])
    } else {
        prev
    };
    written_numbers_are_consecutive(config, prev, expected, msgs, times);
    let rest = msgs.drop_first();
    let clock = times.drop_first();
    let plan = batch_rows(config, prev, expected, msgs, times);
    if plan is Ok {
        let rows = plan->Ok_0;
        assert(rows[0] == row_of(config, prev, msgs[0], times[0]));
        if i > 0 {
            rows_follow_their_messages(config, next, expected + 1, rest, clock, i - 1);
            let others = batch_rows(config, next, expected + 1, rest, clock)->Ok_0;
            assert(rows =~= seq![rows[0]] + others);
            assert(rows[i] == others[i - 1]);
            assert(rest[i - 1] == msgs[i]);
            assert(clock[i - 1] == times[i]);
            if i > 1 {
                assert(rows[i - 1] == others[i - 2]);
            }
        }
    }
}

/// A batch that is refused names the first message that does not carry the next
/// number, and the number that it should carry.
pub proof fn refusals_name_the_first_out_of_order(
    config: WormConfig,
    prev: Seq<u8>,
    expected: int,
    msgs: Seq<ReprView>,
    times: Seq<i64>,
    i: int,
)
    requires
        0 <= i < msgs.len(),
        0 <= expected,
        expected + i <= u64::MAX,
        forall|j: int| 0 <= j < i ==> (#[trigger] msgs[j]).sequence_nr == expected + j,
        msgs[i].sequence_nr != expected + i,
    ensures
        batch_rows(config, prev, expected, msgs, times) matches Err(d) && d.expected == expected + i
            && d.got == msgs[i].sequence_nr,
    decreases msgs.len(),
{
    if i > 0 {
        assert(msgs[0].sequence_nr == expected);
        let next = if config.hash_chain {
            hash_of(prev, msgs[0], times[0])
        } else {
            prev
        };
        let rest = msgs.drop_first();
        assert forall|j: int| 0 <= j < i - 1 implies (#[trigger] rest[j]).sequence_nr == expected
            + 1 + j by {
            assert(rest[j] == msgs[j + 1]);
        }
        assert(rest[i - 1] == msgs[i]);
        refusals_name_the_first_out_of_order(
            config,
            next,
            expected + 1,
            rest,
            times.drop_first(),
            i - 1,
        );
    }
}

/// The messages of an id are picked out in the order given: one more message is
/// the last of its own id and changes nothing for any other.
pub proof fn messages_keep_their_order(msgs: Seq<ReprView>, m: ReprView, id: Seq<char>)
    ensures
        messages_of(Seq::empty(), id).len() == 0,
        m.persistence_id == id ==> messages_of(msgs.push(m), id) == messages_of(msgs, id).push(m),
        m.persistence_id != id ==> messages_of(msgs.push(m), id) == messages_of(msgs, id),
{
    reveal(Seq::filter);
    assert(msgs.push(m).drop_last() =~= msgs);
}

} // verus!
