//! Write-once storage with a tamper-evident hash chain.
//!
//! With the hash chain on, each row of a persistence id stores the hash of the
//! row before it and its own: SHA-256 over the previous hash, the id, the
//! sequence number, the payload and the time of recording. An edit of any of
//! them breaks the link, and [`verify_rows`] reports the first row that does not
//! fit.
//!
//! A chain alone does not show that its newest rows are gone. So each write also
//! stores the [`ChainHead`]: the last number and hash of the persistence id. A
//! chain that does not end at its head was tampered with. Heads are only ever
//! added; the one with the highest number counts. Where none is stored, since the
//! chain is older than its heads, the rows alone are verified.

use crate::buffer;
use sha2::{Digest, Sha256};
use vstd::prelude::*;

verus! {

/// The SHA-256 digest of `data`.
pub uninterp spec fn sha256(data: Seq<u8>) -> Seq<u8>;

/// `Sha256::digest`: the digest of the bytes handed to it, 32 bytes long.
#[verifier::external_body]
fn sha256_of(data: &[u8]) -> (r: Vec<u8>)
    ensures
        r@ == sha256(data@),
        r@.len() == 32,
{
    Sha256::digest(data).to_vec()
}

/// Write-once toggles of a journal.
#[derive(Debug, Clone, Copy, PartialEq, Eq, Structural)]
pub struct WormConfig {
    /// Maintain the hash chain of each persistence id on write.
    pub hash_chain: bool,
    /// Install DDL that rejects updates and deletes of journal rows.
    pub deny_update_delete: bool,
}

impl Default for WormConfig {
    fn default() -> (r: Self)
        ensures
            r == (WormConfig { hash_chain: false, deny_update_delete: false }),
    {
        WormConfig { hash_chain: false, deny_update_delete: false }
    }
}

impl WormConfig {
    /// Both protections on.
    pub fn enforced() -> (r: Self)
        ensures
            r == (WormConfig { hash_chain: true, deny_update_delete: true }),
    {
        WormConfig { hash_chain: true, deny_update_delete: true }
    }
}

/// What can go wrong while a chain is verified.
#[derive(Debug, PartialEq, Eq)]
pub enum IntegrityError {
    /// The database refused.
    Backend(String),
}

impl IntegrityError {
    /// The error of a database, by its message.
    pub fn backend(message: &str) -> (r: IntegrityError)
        ensures
            r matches IntegrityError::Backend(s) && s@ == message@,
    {
        IntegrityError::Backend(message.to_string())
    }
}

/// Result of verifying the hash chain of a persistence id.
#[derive(Debug, Clone, Copy, PartialEq, Eq, Structural)]
pub enum ChainProof {
    /// Every stored hash matches a fresh recomputation.
    Intact { rows: u64 },
    /// The chain diverges at `first_bad_sequence_nr`: the earliest row whose
    /// recomputed hash or link to the row before it does not match, or, where
    /// every row fits, the first number at which the rows and the head differ.
    Tampered { first_bad_sequence_nr: u64 },
}

// ---------------------------------------------------------------------------
// Numbers
// ---------------------------------------------------------------------------
/// The unsigned number with the bits of `x`.
pub open spec fn as_unsigned(x: i64) -> int {
    if x >= 0 {
        x as int
    } else {
        x + 0x1_0000_0000_0000_0000
    }
}

/// The signed number with the bits of `x`.
pub open spec fn as_signed(x: u64) -> int {
    if x <= i64::MAX {
        x as int
    } else {
        x - 0x1_0000_0000_0000_0000
    }
}

/// The unsigned number with the bits of `x`.
pub fn unsigned(x: i64) -> (r: u64)
    ensures
        r == as_unsigned(x),
{
    if x >= 0 {
        x as u64
    } else {
        (x as i128 + 0x1_0000_0000_0000_0000) as u64
    }
}

/// The signed number with the bits of `x`.
pub fn signed(x: u64) -> (r: i64)
    ensures
        r == as_signed(x),
{
    if x <= 0x7fff_ffff_ffff_ffff {
        x as i64
    } else {
        (x as i128 - 0x1_0000_0000_0000_0000) as i64
    }
}

/// A number of 64 bits as eight bytes, the lowest first.
pub open spec fn little_endian(x: int) -> Seq<u8> {
    seq![
        (x % 256) as u8,
        (x / 0x100 % 256) as u8,
        (x / 0x1_0000 % 256) as u8,
        (x / 0x100_0000 % 256) as u8,
        (x / 0x1_0000_0000 % 256) as u8,
        (x / 0x100_0000_0000 % 256) as u8,
        (x / 0x1_0000_0000_0000 % 256) as u8,
        (x / 0x100_0000_0000_0000 % 256) as u8,
    ]
}

fn push_little_endian(out: &mut Vec<u8>, x: u64)
    ensures
        final(out)@ == old(out)@ + little_endian(x as int),
{
    let ghost before = out@;
    out.push((x % 256) as u8);
    out.push((x / 0x100 % 256) as u8);
    out.push((x / 0x1_0000 % 256) as u8);
    out.push((x / 0x100_0000 % 256) as u8);
    out.push((x / 0x1_0000_0000 % 256) as u8);
    out.push((x / 0x100_0000_0000 % 256) as u8);
    out.push((x / 0x1_0000_0000_0000 % 256) as u8);
    out.push((x / 0x100_0000_0000_0000 % 256) as u8);
    assert(out@ =~= before + little_endian(x as int));
}

// ---------------------------------------------------------------------------
// The chain
// ---------------------------------------------------------------------------
/// What the hash of a row covers.
#[verifier::opaque]
pub open spec fn row_preimage(
    prev: Seq<u8>,
    id: Seq<char>,
    sequence_nr: u64,
    payload: Seq<u8>,
    created_at: i64,
) -> Seq<u8> {
    prev + vstd::utf8::encode_utf8(id) + little_endian(sequence_nr as int) + payload
        + little_endian(as_unsigned(created_at))
}

/// The hash of a row.
pub open spec fn row_hash(
    prev: Seq<u8>,
    id: Seq<char>,
    sequence_nr: u64,
    payload: Seq<u8>,
    created_at: i64,
) -> Seq<u8> {
    sha256(row_preimage(prev, id, sequence_nr, payload, created_at))
}

/// Computes the hash of a journal row. `prev_hash` is the hash of the row
/// before it, empty for the first row of a chain.
pub fn compute_row_hash(
    prev_hash: &[u8],
    persistence_id: &str,
    sequence_nr: u64,
    payload: &[u8],
    created_at: i64,
) -> (r: Vec<u8>)
    ensures
        r@ == row_hash(prev_hash@, persistence_id@, sequence_nr, payload@, created_at),
        r@.len() == 32,
{
    let mut data: Vec<u8> = Vec::new();
    data.extend_from_slice(prev_hash);
    data.extend_from_slice(persistence_id.as_bytes());
    push_little_endian(&mut data, sequence_nr);
    data.extend_from_slice(payload);
    push_little_endian(&mut data, unsigned(created_at));
    proof {
        reveal(row_preimage);
        assert(data@ =~= row_preimage(
            prev_hash@,
            persistence_id@,
            sequence_nr,
            payload@,
            created_at,
        ));
    }
    sha256_of(data.as_slice())
}

/// The chain columns of a stored row.
#[derive(Debug)]
pub struct ChainRow {
    pub sequence_nr: i64,
    pub payload: Vec<u8>,
    pub created_at: i64,
    pub prev_hash: Option<Vec<u8>>,
    pub row_hash: Option<Vec<u8>>,
}

/// The chain columns of a row as a mathematical value.
#[verifier::ext_equal]
pub struct LinkView {
    pub sequence_nr: i64,
    pub payload: Seq<u8>,
    pub created_at: i64,
    pub prev_hash: Option<Seq<u8>>,
    pub row_hash: Option<Seq<u8>>,
}

/// The bytes of an optional column.
pub open spec fn column(c: Option<Vec<u8>>) -> Option<Seq<u8>> {
    match c {
        Some(v) => Some(v@),
        None => None,
    }
}

impl View for ChainRow {
    type V = LinkView;

    open spec fn view(&self) -> LinkView {
        LinkView {
            sequence_nr: self.sequence_nr,
            payload: self.payload@,
            created_at: self.created_at,
            prev_hash: column(self.prev_hash),
            row_hash: column(self.row_hash),
        }
    }
}

pub open spec fn link_views(rows: Seq<ChainRow>) -> Seq<LinkView> {
    rows.map_values(|r: ChainRow| r@)
}

/// Where the chain of a persistence id ends: the last number and hash that were
/// written.
#[derive(Debug, Clone, PartialEq, Eq)]
pub struct ChainHead {
    pub sequence_nr: i64,
    pub row_hash: Vec<u8>,
}

/// A head as a mathematical value.
#[verifier::ext_equal]
pub struct HeadView {
    pub sequence_nr: i64,
    pub row_hash: Seq<u8>,
}

impl View for ChainHead {
    type V = HeadView;

    open spec fn view(&self) -> HeadView {
        HeadView { sequence_nr: self.sequence_nr, row_hash: self.row_hash@ }
    }
}

pub open spec fn head_view(head: Option<&ChainHead>) -> Option<HeadView> {
    match head {
        Some(h) => Some(h@),
        None => None,
    }
}

impl LinkView {
    /// The hash that the row should carry behind a row with hash `prev`.
    pub open spec fn expected_hash(self, id: Seq<char>, prev: Seq<u8>) -> Seq<u8> {
        row_hash(prev, id, as_unsigned(self.sequence_nr) as u64, self.payload, self.created_at)
    }

    /// Whether the row fits behind a row with hash `prev`.
    pub open spec fn fits(self, id: Seq<char>, prev: Seq<u8>) -> bool {
        &&& self.prev_hash.unwrap_or(Seq::empty()) == prev
        &&& self.row_hash == Some(self.expected_hash(id, prev))
    }
}

/// The hash that a chain of rows ends in, where every row fits.
pub open spec fn chain_end(id: Seq<char>, rows: Seq<LinkView>) -> Seq<u8>
    decreases rows.len(),
{
    if rows.len() == 0 {
        Seq::empty()
    } else {
        rows.last().expected_hash(id, chain_end(id, rows.drop_last()))
    }
}

/// Whether every row fits behind the one before it.
pub open spec fn is_chain(id: Seq<char>, rows: Seq<LinkView>) -> bool
    decreases rows.len(),
{
    rows.len() == 0 || (is_chain(id, rows.drop_last()) && rows.last().fits(
        id,
        chain_end(id, rows.drop_last()),
    ))
}

/// Whether `i` is the first row that does not fit.
pub open spec fn first_misfit(id: Seq<char>, rows: Seq<LinkView>, i: int) -> bool {
    &&& 0 <= i < rows.len()
    &&& is_chain(id, rows.take(i))
    &&& !rows[i].fits(id, chain_end(id, rows.take(i)))
}

/// Whether the rows end at `head`, where there is one.
pub open spec fn ends_at(id: Seq<char>, rows: Seq<LinkView>, head: Option<HeadView>) -> bool {
    match head {
        None => true,
        Some(h) => {
            &&& rows.len() > 0
            &&& rows.last().sequence_nr == h.sequence_nr
            &&& chain_end(id, rows) == h.row_hash
        },
    }
}

/// Whether the rows are a chain from its first row to its head.
pub open spec fn is_whole(id: Seq<char>, rows: Seq<LinkView>, head: Option<HeadView>) -> bool {
    is_chain(id, rows) && ends_at(id, rows, head)
}

/// The last stored number, 0 without rows.
pub open spec fn last_number(rows: Seq<LinkView>) -> int {
    if rows.len() == 0 {
        0
    } else {
        as_unsigned(rows.last().sequence_nr)
    }
}

/// The first number at which the rows and a head that they do not end at
/// differ: the last one where both have it, else the first that one of them
/// lacks.
pub open spec fn parting(rows: Seq<LinkView>, head: HeadView) -> int {
    let (stored, written) = (last_number(rows), as_unsigned(head.sequence_nr));
    if stored == written {
        stored
    } else if stored < written {
        stored + 1
    } else {
        written + 1
    }
}

/// Recomputes the hash chain of the rows of a persistence id, in sequence
/// order, and reports the first row that does not fit, or where the rows and
/// the `head` that was written last part. Where all is well, every stored hash is
/// a SHA-256 digest.
pub fn verify_rows(persistence_id: &str, rows: &Vec<ChainRow>, head: Option<&ChainHead>) -> (r:
    ChainProof)
    requires
        rows.len() <= u64::MAX,
    ensures
        r is Intact <==> is_whole(persistence_id@, link_views(rows@), head_view(head)),
        match r {
            ChainProof::Intact { rows: n } => n == rows.len() && hashes_are_digests(
                link_views(rows@),
            ),
            ChainProof::Tampered { first_bad_sequence_nr } => {
                ||| exists|i: int|
                    #[trigger] first_misfit(persistence_id@, link_views(rows@), i)
                        && first_bad_sequence_nr == as_unsigned(rows@[i].sequence_nr)
                ||| {
                    &&& is_chain(persistence_id@, link_views(rows@))
                    &&& !ends_at(persistence_id@, link_views(rows@), head_view(head))
                    &&& head_view(head) matches Some(h)
                    &&& first_bad_sequence_nr == parting(link_views(rows@), h)
                }
            },
        },
{
    let ghost links = link_views(rows@);
    let mut expected_prev: Vec<u8> = Vec::new();
    let mut i: usize = 0;
    let none: Vec<u8> = Vec::new();
    assert(links.take(0) =~= Seq::<LinkView>::empty());
    while i < rows.len()
        invariant
            i <= rows.len(),
            links == link_views(rows@),
            none@ == Seq::<u8>::empty(),
            is_chain(persistence_id@, links.take(i as int)),
            expected_prev@ == chain_end(persistence_id@, links.take(i as int)),
            hashes_are_digests(links.take(i as int)),
        decreases rows.len() - i,
    {
        let row: &ChainRow = &rows[i];
        let seq: u64 = unsigned(row.sequence_nr);
        let stored_prev: &Vec<u8> = match &row.prev_hash {
            Some(h) => h,
            None => &none,
        };
        assert(links[i as int] == row@);
        if !buffer::same_bytes(stored_prev, &expected_prev) {
            proof {
                assert(first_misfit(persistence_id@, links, i as int));
                misfits_are_localised(persistence_id@, links, i as int, i as int);
            }
            return ChainProof::Tampered { first_bad_sequence_nr: seq };
        }
        let recomputed: Vec<u8> = compute_row_hash(
            expected_prev.as_slice(),
            persistence_id,
            seq,
            row.payload.as_slice(),
            row.created_at,
        );
        let matching: bool = match &row.row_hash {
            Some(stored) => buffer::same_bytes(stored, &recomputed),
            None => false,
        };
        if !matching {
            proof {
                assert(first_misfit(persistence_id@, links, i as int));
                misfits_are_localised(persistence_id@, links, i as int, i as int);
            }
            return ChainProof::Tampered { first_bad_sequence_nr: seq };
        }
        proof {
            lemma_chain_step(persistence_id@, links, i as int);
            let longer = links.take(i + 1);
            assert forall|j: int| 0 <= j < longer.len() implies (
            #[trigger] longer[j]).row_hash matches Some(h) && h.len() == 32 by {
                if j < i {
                    assert(links.take(i as int)[j] == longer[j]);
                }
            }
        }
        expected_prev = recomputed;
        i = i + 1;
    }
    assert(links.take(i as int) =~= links);
    let stored: u64 = if rows.len() == 0 {
        0
    } else {
        unsigned(rows[rows.len() - 1].sequence_nr)
    };
    let head: &ChainHead = match head {
        Some(h) => h,
        None => {
            return ChainProof::Intact { rows: i as u64 };
        },
    };
    let written: u64 = unsigned(head.sequence_nr);
    if rows.len() > 0 && rows[rows.len() - 1].sequence_nr == head.sequence_nr
        && buffer::same_bytes(&expected_prev, &head.row_hash) {
        ChainProof::Intact { rows: i as u64 }
    } else if stored == written {
        ChainProof::Tampered { first_bad_sequence_nr: stored }
    } else if stored < written {
        ChainProof::Tampered { first_bad_sequence_nr: stored + 1 }
    } else {
        ChainProof::Tampered { first_bad_sequence_nr: written + 1 }
    }
}

/// Whether every row carries a hash of the length of a SHA-256 digest.
pub open spec fn hashes_are_digests(rows: Seq<LinkView>) -> bool {
    forall|i: int|
        0 <= i < rows.len() ==> ((#[trigger] rows[i]).row_hash matches Some(h) && h.len() == 32)
}

/// A row that fits lengthens the chain.
pub proof fn lemma_chain_step(id: Seq<char>, rows: Seq<LinkView>, i: int)
    requires
        0 <= i < rows.len(),
        is_chain(id, rows.take(i)),
        rows[i].fits(id, chain_end(id, rows.take(i))),
    ensures
        is_chain(id, rows.take(i + 1)),
        chain_end(id, rows.take(i + 1)) == rows[i].expected_hash(id, chain_end(id, rows.take(i))),
{
    let next = rows.take(i + 1);
    assert(next.drop_last() =~= rows.take(i));
    assert(next.last() == rows[i]);
}

/// The rows in front of a row of a chain are a chain, and the row fits.
pub proof fn lemma_chain_prefix(id: Seq<char>, rows: Seq<LinkView>, i: int)
    requires
        is_chain(id, rows),
        0 <= i < rows.len(),
    ensures
        is_chain(id, rows.take(i)),
        rows[i].fits(id, chain_end(id, rows.take(i))),
    decreases rows.len(),
{
    let init = rows.drop_last();
    if i == rows.len() - 1 {
        assert(rows.take(i) =~= init);
    } else {
        lemma_chain_prefix(id, init, i);
        assert(init.take(i) =~= rows.take(i));
        assert(init[i] == rows[i]);
    }
}

/// A chain has no first misfit, and a run of rows that is no chain has exactly
/// one.
pub proof fn misfits_are_localised(id: Seq<char>, rows: Seq<LinkView>, i: int, j: int)
    requires
        first_misfit(id, rows, i),
    ensures
        !is_chain(id, rows),
        first_misfit(id, rows, j) ==> i == j,
{
    if is_chain(id, rows) {
        lemma_chain_prefix(id, rows, i);
    }
    if first_misfit(id, rows, j) {
        if i < j {
            lemma_chain_prefix(id, rows.take(j), i);
            assert(rows.take(j).take(i) =~= rows.take(i));
        } else if j < i {
            lemma_chain_prefix(id, rows.take(i), j);
            assert(rows.take(i).take(j) =~= rows.take(j));
        }
    }
}

/// An edit is detected at the first row it was made in, whatever became of the
/// rows behind it: if altered rows agree with a chain up to row `i`, and there
/// stands a row with the stored hash of the chain's, but whose payload, sequence
/// number or time give another hash, that row is the first misfit.
pub proof fn edits_are_detected(
    id: Seq<char>,
    rows: Seq<LinkView>,
    altered: Seq<LinkView>,
    i: int,
)
    requires
        is_chain(id, rows),
        0 <= i < rows.len(),
        i < altered.len(),
        altered.take(i) == rows.take(i),
        altered[i].row_hash == rows[i].row_hash,
        altered[i].expected_hash(id, chain_end(id, rows.take(i))) != rows[i].expected_hash(
            id,
            chain_end(id, rows.take(i)),
        ),
    ensures
        first_misfit(id, altered, i),
{
    lemma_chain_prefix(id, rows, i);
}

/// An edit that also recomputes the hash of its row is detected at the next
/// row, which is linked to the hash that the row had.
pub proof fn rehashed_edits_are_detected(
    id: Seq<char>,
    rows: Seq<LinkView>,
    i: int,
    edited: LinkView,
)
    requires
        is_chain(id, rows),
        0 <= i < rows.len() - 1,
        edited.expected_hash(id, chain_end(id, rows.take(i))) != rows[i].expected_hash(
            id,
            chain_end(id, rows.take(i)),
        ),
    ensures
        edited.fits(id, chain_end(id, rows.take(i))) ==> first_misfit(
            id,
            rows.update(i, edited),
            i + 1,
        ),
        !edited.fits(id, chain_end(id, rows.take(i))) ==> first_misfit(
            id,
            rows.update(i, edited),
            i,
        ),
{
    let altered = rows.update(i, edited);
    lemma_chain_prefix(id, rows, i);
    lemma_chain_prefix(id, rows, i + 1);
    lemma_chain_step(id, rows, i);
    assert(altered.take(i) =~= rows.take(i));
    if edited.fits(id, chain_end(id, rows.take(i))) {
        lemma_chain_step(id, altered, i);
        assert(altered[i + 1] == rows[i + 1]);
    }
}

/// A deletion or a new order is detected at the first row that is out of place:
/// if a later row of the chain stands where row `i` stood, it is the first
/// misfit, since it is linked to another row than the one before it.
pub proof fn displaced_rows_are_detected(
    id: Seq<char>,
    rows: Seq<LinkView>,
    altered: Seq<LinkView>,
    i: int,
    j: int,
)
    requires
        is_chain(id, rows),
        0 <= i < j < rows.len(),
        i < altered.len(),
        altered.take(i) == rows.take(i),
        altered[i] == rows[j],
        chain_end(id, rows.take(i)) != chain_end(id, rows.take(j)),
    ensures
        first_misfit(id, altered, i),
{
    lemma_chain_prefix(id, rows, i);
    lemma_chain_prefix(id, rows, j);
}

/// Whether the rows carry numbers from 1 on, each above the one before it.
pub open spec fn in_number_order(rows: Seq<LinkView>) -> bool {
    &&& forall|i: int|
        0 <= i < rows.len() ==> as_unsigned((#[trigger] rows[i]).sequence_nr) >= 1
    &&& forall|i: int, j: int|
        0 <= i < j < rows.len() ==> as_unsigned((#[trigger] rows[i]).sequence_nr) < as_unsigned(
            (#[trigger] rows[j]).sequence_nr,
        )
}

/// A deletion of the newest rows is detected, however many of them are gone: the
/// rows that are left are a chain, but it ends before the head, and the number
/// behind the last one left is reported. With consecutive numbers that is the
/// first row that is gone.
pub proof fn deleted_tails_are_detected(
    id: Seq<char>,
    rows: Seq<LinkView>,
    head: HeadView,
    kept: int,
)
    requires
        is_whole(id, rows, Some(head)),
        0 <= kept < rows.len(),
        in_number_order(rows),
    ensures
        is_chain(id, rows.take(kept)),
        !is_whole(id, rows.take(kept), Some(head)),
        parting(rows.take(kept), head) == last_number(rows.take(kept)) + 1,
        as_unsigned(rows[kept].sequence_nr) == last_number(rows.take(kept)) + 1 ==> parting(
            rows.take(kept),
            head,
        ) == as_unsigned(rows[kept].sequence_nr),
{
    lemma_chain_prefix(id, rows, kept);
    let left = rows.take(kept);
    assert(rows.last() == rows[rows.len() - 1]);
    if kept > 0 {
        assert(left.last() == rows[kept - 1]);
    }
}

/// An edit of the newest row, which no row behind it betrays, is detected even
/// where the hash of the row was recomputed: if the edit gives another hash, the
/// chain no longer ends at the head, and the row is reported.
pub proof fn edits_of_the_newest_row_are_detected(
    id: Seq<char>,
    rows: Seq<LinkView>,
    head: HeadView,
    edited: LinkView,
)
    requires
        is_whole(id, rows, Some(head)),
        edited.sequence_nr == rows.last().sequence_nr,
        edited.expected_hash(id, chain_end(id, rows.drop_last())) != chain_end(id, rows),
    ensures
        ({
            let altered = rows.drop_last().push(edited);
            let last = rows.len() - 1;
            &&& !is_whole(id, altered, Some(head))
            &&& first_misfit(id, altered, last) || (is_chain(id, altered) && parting(altered, head)
                == as_unsigned(rows.last().sequence_nr))
        }),
{
    let altered = rows.drop_last().push(edited);
    assert(altered.drop_last() =~= rows.drop_last());
    assert(altered.take(rows.len() - 1) =~= rows.drop_last());
}

/// Rows that begin in the middle of a chain are detected at once: the first of
/// them is linked to a row that is not there.
pub proof fn deleted_first_rows_are_detected(id: Seq<char>, altered: Seq<LinkView>)
    requires
        altered.len() > 0,
        altered[0].prev_hash.unwrap_or(Seq::empty()).len() > 0,
    ensures
        first_misfit(id, altered, 0),
{
    assert(altered.take(0) =~= Seq::empty());
}

// ---------------------------------------------------------------------------
// One head, one chain
// ---------------------------------------------------------------------------
/// What the hash of row `i` of a chain is taken of.
pub open spec fn preimage_at(id: Seq<char>, rows: Seq<LinkView>, i: int) -> Seq<u8> {
    row_preimage(
        chain_end(id, rows.take(i)),
        id,
        as_unsigned(rows[i].sequence_nr) as u64,
        rows[i].payload,
        rows[i].created_at,
    )
}

/// Whether a row of `a` and a row of `b` share a hash that is taken of different
/// bytes.
pub open spec fn shares_a_hash(id: Seq<char>, a: Seq<LinkView>, b: Seq<LinkView>) -> bool {
    exists|i: int, j: int|
        0 <= i < a.len() && 0 <= j < b.len() && #[trigger] preimage_at(id, a, i)
            != #[trigger] preimage_at(id, b, j) && sha256(preimage_at(id, a, i)) == sha256(
            preimage_at(id, b, j),
        )
}

/// Whether two runs of rows hold the same numbers, payloads and times.
pub open spec fn same_contents(a: Seq<LinkView>, b: Seq<LinkView>) -> bool {
    &&& a.len() == b.len()
    &&& forall|i: int|
        0 <= i < a.len() ==> (#[trigger] a[i]).sequence_nr == b[i].sequence_nr && a[i].payload
            == b[i].payload && a[i].created_at == b[i].created_at
}

/// Whether the first row of `a` stands for a later row of `b`, as many rows from
/// the end: the same bytes are hashed, though one row is linked to no row and
/// the other to one.
pub open spec fn starts_inside(id: Seq<char>, a: Seq<LinkView>, b: Seq<LinkView>) -> bool {
    0 < a.len() < b.len() && preimage_at(id, a, 0) == preimage_at(id, b, b.len() - a.len())
}

/// Any tampering is detected: whatever rows were edited, re-hashed, deleted or
/// put elsewhere, rows that still make a whole chain with the head that was
/// written hold what was written, number for number, payload for payload and
/// time for time. The exceptions: two of the hashed byte strings, one of either
/// run, have the same SHA-256 digest; or a row was made to be first whose bytes,
/// with no link, are those of a later row with its link.
pub proof fn whole_chains_with_one_head_agree(
    id: Seq<char>,
    rows: Seq<LinkView>,
    altered: Seq<LinkView>,
    head: HeadView,
)
    requires
        is_whole(id, rows, Some(head)),
        is_whole(id, altered, Some(head)),
        hashes_are_digests(rows),
        hashes_are_digests(altered),
    ensures
        same_contents(rows, altered) || shares_a_hash(id, rows, altered) || starts_inside(
            id,
            rows,
            altered,
        ) || starts_inside(id, altered, rows),
{
    lemma_chains_with_one_end_agree(id, rows, altered);
}

/// Two chains with consecutive numbers from 1 that end at one head hold the same
/// payloads and times, unless two of the hashed byte strings, one of either, have
/// the same SHA-256 digest.
pub proof fn consecutive_chains_with_one_head_agree(
    id: Seq<char>,
    rows: Seq<LinkView>,
    altered: Seq<LinkView>,
    head: HeadView,
)
    requires
        is_whole(id, rows, Some(head)),
        is_whole(id, altered, Some(head)),
        numbered_from_one(rows),
        numbered_from_one(altered),
        hashes_are_digests(rows),
        hashes_are_digests(altered),
    ensures
        same_contents(rows, altered) || shares_a_hash(id, rows, altered),
{
    assert(rows.last() == rows[rows.len() - 1]);
    assert(altered.last() == altered[altered.len() - 1]);
    lemma_chains_with_one_end_agree(id, rows, altered);
}

/// Whether the rows carry consecutive numbers, the first of them 1.
pub open spec fn numbered_from_one(rows: Seq<LinkView>) -> bool {
    forall|i: int| 0 <= i < rows.len() ==> as_unsigned((#[trigger] rows[i]).sequence_nr) == i + 1
}

proof fn lemma_chains_with_one_end_agree(id: Seq<char>, a: Seq<LinkView>, b: Seq<LinkView>)
    requires
        a.len() > 0,
        b.len() > 0,
        is_chain(id, a),
        is_chain(id, b),
        chain_end(id, a) == chain_end(id, b),
        hashes_are_digests(a),
        hashes_are_digests(b),
    ensures
        same_contents(a, b) || shares_a_hash(id, a, b) || starts_inside(id, a, b) || starts_inside(
            id,
            b,
            a,
        ),
    decreases a.len(),
{
    let (m, n) = (a.len() - 1, b.len() - 1);
    let (x, y) = (a.drop_last(), b.drop_last());
    assert(a.take(m) =~= x);
    assert(b.take(n) =~= y);
    assert(a[m] == a.last() && b[n] == b.last());
    if preimage_at(id, a, m) == preimage_at(id, b, n) && (m == 0 <==> n == 0) {
        lemma_end_is_a_digest(id, a);
        lemma_end_is_a_digest(id, b);
        lemma_preimage_determines(id, chain_end(id, x), a.last(), chain_end(id, y), b.last());
        if m > 0 {
            lemma_digests_of_prefix(a);
            lemma_digests_of_prefix(b);
            lemma_chains_with_one_end_agree(id, x, y);
            lemma_preimages_of_prefix(id, a);
            lemma_preimages_of_prefix(id, b);
            if same_contents(x, y) {
                assert forall|i: int| 0 <= i < a.len() implies (#[trigger] a[i]).sequence_nr
                    == b[i].sequence_nr && a[i].payload == b[i].payload && a[i].created_at
                    == b[i].created_at by {
                    if i < m {
                        assert(x[i] == a[i] && y[i] == b[i]);
                    }
                }
            } else if shares_a_hash(id, x, y) {
                let (i, j) = choose|i: int, j: int|
                    0 <= i < x.len() && 0 <= j < y.len() && #[trigger] preimage_at(id, x, i)
                        != #[trigger] preimage_at(id, y, j) && sha256(preimage_at(id, x, i))
                        == sha256(preimage_at(id, y, j));
                assert(preimage_at(id, a, i) == preimage_at(id, x, i));
                assert(preimage_at(id, b, j) == preimage_at(id, y, j));
            }
        } else {
            assert(same_contents(a, b));
        }
    }
}

proof fn lemma_digests_of_prefix(rows: Seq<LinkView>)
    requires
        rows.len() > 0,
        hashes_are_digests(rows),
    ensures
        hashes_are_digests(rows.drop_last()),
{
    let init = rows.drop_last();
    assert forall|i: int| 0 <= i < init.len() implies ((#[trigger] init[i]).row_hash matches Some(h)
        && h.len() == 32) by {
        assert(rows[i] == init[i]);
    }
}

proof fn lemma_preimages_of_prefix(id: Seq<char>, rows: Seq<LinkView>)
    requires
        rows.len() > 0,
    ensures
        forall|i: int|
            0 <= i < rows.len() - 1 ==> #[trigger] preimage_at(id, rows.drop_last(), i)
                == preimage_at(id, rows, i),
{
    let init = rows.drop_last();
    assert forall|i: int| 0 <= i < rows.len() - 1 implies #[trigger] preimage_at(id, init, i)
        == preimage_at(id, rows, i) by {
        assert(init.take(i) =~= rows.take(i));
        assert(init[i] == rows[i]);
    }
}

/// The hash that the last row of a chain is linked to: none for the first row,
/// else a digest.
proof fn lemma_end_is_a_digest(id: Seq<char>, rows: Seq<LinkView>)
    requires
        rows.len() > 0,
        is_chain(id, rows),
        hashes_are_digests(rows),
    ensures
        chain_end(id, rows.drop_last()).len() == (if rows.len() == 1 {
            0int
        } else {
            32
        }),
{
    let init = rows.drop_last();
    if rows.len() > 1 {
        reveal_with_fuel(is_chain, 2);
        assert(init.last() == rows[rows.len() - 2]);
        assert(init.last().row_hash == Some(chain_end(id, init)));
    }
}

/// The bytes that are hashed determine the row, where the links are of one
/// length.
proof fn lemma_preimage_determines(
    id: Seq<char>,
    p: Seq<u8>,
    r: LinkView,
    q: Seq<u8>,
    s: LinkView,
)
    requires
        p.len() == q.len(),
        row_preimage(p, id, as_unsigned(r.sequence_nr) as u64, r.payload, r.created_at)
            == row_preimage(q, id, as_unsigned(s.sequence_nr) as u64, s.payload, s.created_at),
    ensures
        p == q,
        r.sequence_nr == s.sequence_nr,
        r.payload == s.payload,
        r.created_at == s.created_at,
{
    reveal(row_preimage);
    let name = vstd::utf8::encode_utf8(id);
    let (k, l) = (p.len() as int, name.len() as int);
    let a = row_preimage(p, id, as_unsigned(r.sequence_nr) as u64, r.payload, r.created_at);
    let b = row_preimage(q, id, as_unsigned(s.sequence_nr) as u64, s.payload, s.created_at);
    let n = r.payload.len() as int;
    assert(a.len() == k + l + 8 + n + 8);
    assert(b.len() == k + l + 8 + s.payload.len() + 8);
    assert(a.subrange(0, k) =~= p);
    assert(b.subrange(0, k) =~= q);
    let (c, d) = (little_endian(as_unsigned(r.sequence_nr)), little_endian(as_unsigned(s.sequence_nr)));
    assert(a.subrange(k + l, k + l + 8) =~= c);
    assert(b.subrange(k + l, k + l + 8) =~= d);
    lemma_little_endian(as_unsigned(r.sequence_nr), as_unsigned(s.sequence_nr));
    assert(a.subrange(k + l + 8, k + l + 8 + n) =~= r.payload);
    assert(b.subrange(k + l + 8, k + l + 8 + n) =~= s.payload);
    let (e, f) = (little_endian(as_unsigned(r.created_at)), little_endian(as_unsigned(s.created_at)));
    assert(a.subrange(k + l + 8 + n, a.len() as int) =~= e);
    assert(b.subrange(k + l + 8 + n, a.len() as int) =~= f);
    lemma_little_endian(as_unsigned(r.created_at), as_unsigned(s.created_at));
}

/// Eight bytes stand for one number.
proof fn lemma_little_endian(x: int, y: int)
    requires
        0 <= x < 0x1_0000_0000_0000_0000,
        0 <= y < 0x1_0000_0000_0000_0000,
        little_endian(x) == little_endian(y),
    ensures
        x == y,
{
    lemma_bytes_of(x);
    lemma_bytes_of(y);
    let (a, b) = (little_endian(x), little_endian(y));
    assert(a[0] == b[0] && a[1] == b[1] && a[2] == b[2] && a[3] == b[3]);
    assert(a[4] == b[4] && a[5] == b[5] && a[6] == b[6] && a[7] == b[7]);
}

proof fn lemma_bytes_of(x: int)
    requires
        0 <= x < 0x1_0000_0000_0000_0000,
    ensures
        ({
            let a = little_endian(x);
            x == a[0] + 0x100 * a[1] + 0x1_0000 * a[2] + 0x100_0000 * a[3] + 0x1_0000_0000 * a[4]
                + 0x100_0000_0000 * a[5] + 0x1_0000_0000_0000 * a[6] + 0x100_0000_0000_0000 * a[7]
        }),
{
    assert(x / 0x100 / 0x100 == x / 0x1_0000);
    assert(x / 0x1_0000 / 0x100 == x / 0x100_0000);
    assert(x / 0x100_0000 / 0x100 == x / 0x1_0000_0000);
    assert(x / 0x1_0000_0000 / 0x100 == x / 0x100_0000_0000);
    assert(x / 0x100_0000_0000 / 0x100 == x / 0x1_0000_0000_0000);
    assert(x / 0x1_0000_0000_0000 / 0x100 == x / 0x100_0000_0000_0000);
    assert(x / 0x100_0000_0000_0000 < 0x100);
}

// ---------------------------------------------------------------------------
// Rows one by one
// ---------------------------------------------------------------------------
/// A chain, row by row: every row stores, as the hash before it, the hash of the
/// row in front of it (nothing in front of the first), and as its own the
/// SHA-256 digest of that hash and of what the row holds.
pub proof fn chains_link_row_by_row(id: Seq<char>, rows: Seq<LinkView>)
    ensures
        is_chain(id, rows) <==> forall|i: int| 0 <= i < rows.len() ==> #[trigger] links_to_the_one_before(id, rows, i),
        is_chain(id, rows) && rows.len() > 0 ==> rows.last().row_hash == Some(chain_end(id, rows)),
        chain_end(id, Seq::empty()).len() == 0,
    decreases rows.len(),
{
    if rows.len() > 0 {
        let init = rows.drop_last();
        let last = rows.len() - 1;
        chains_link_row_by_row(id, init);
        assert forall|i: int| 0 <= i < last implies (#[trigger] links_to_the_one_before(id, rows, i)
            <==> links_to_the_one_before(id, init, i)) by {
            assert(init[i] == rows[i]);
            if i > 0 {
                assert(init[i - 1] == rows[i - 1]);
            }
        }
        if forall|i: int| 0 <= i < rows.len() ==> #[trigger] links_to_the_one_before(id, rows, i) {
            assert forall|i: int| 0 <= i < init.len() implies #[trigger] links_to_the_one_before(
                id,
                init,
                i,
            ) by {
                assert(links_to_the_one_before(id, rows, i));
            }
            assert(links_to_the_one_before(id, rows, last));
        }
        if init.len() > 0 {
            assert(init.last() == rows[last - 1]);
        } else {
            assert(chain_end(id, init) =~= Seq::<u8>::empty());
        }
        if is_chain(id, rows) {
            assert(links_to_the_one_before(id, rows, last));
            assert forall|i: int| 0 <= i < rows.len() implies #[trigger] links_to_the_one_before(
                id,
                rows,
                i,
            ) by {
                if i < last {
                    assert(links_to_the_one_before(id, init, i));
                }
            }
        }
    }
}

/// Whether row `i` links to the row in front of it and carries the digest of its
/// own contents.
pub open spec fn links_to_the_one_before(id: Seq<char>, rows: Seq<LinkView>, i: int) -> bool {
    let row = rows[i];
    let prev = row.prev_hash.unwrap_or(Seq::empty());
    &&& i == 0 ==> prev == Seq::<u8>::empty()
    &&& i > 0 ==> rows[i - 1].row_hash == Some(prev)
    &&& row.row_hash == Some(
        sha256(
            row_preimage(
                prev,
                id,
                as_unsigned(row.sequence_nr) as u64,
                row.payload,
                row.created_at,
            ),
        ),
    )
}

/// A chain is whole where it has no head, or where its last row carries the
/// number and the hash of the head; with a head there is at least one row.
pub proof fn heads_are_the_last_row(id: Seq<char>, rows: Seq<LinkView>, head: HeadView)
    ensures
        is_whole(id, rows, None) <==> is_chain(id, rows),
        is_whole(id, rows, Some(head)) <==> {
            &&& is_chain(id, rows)
            &&& rows.len() > 0
            &&& rows.last().sequence_nr == head.sequence_nr
            &&& rows.last().row_hash == Some(head.row_hash)
        },
{
    chains_link_row_by_row(id, rows);
}

/// Rows and a head part where the shorter of the two ends: behind the smaller of
/// the last stored and the last written number, or at it where they are equal.
pub proof fn parting_is_where_the_shorter_ends(rows: Seq<LinkView>, head: HeadView)
    ensures
        last_number(rows) == as_unsigned(head.sequence_nr) ==> parting(rows, head) == last_number(
            rows,
        ),
        last_number(rows) < as_unsigned(head.sequence_nr) ==> parting(rows, head) == last_number(
            rows,
        ) + 1,
        last_number(rows) > as_unsigned(head.sequence_nr) ==> parting(rows, head) == as_unsigned(
            head.sequence_nr,
        ) + 1,
        rows.len() == 0 ==> last_number(rows) == 0,
        rows.len() > 0 && rows.last().sequence_nr >= 0 ==> last_number(rows)
            == rows.last().sequence_nr,
{
}

/// Signed and unsigned numbers of the same bits turn into each other; numbers
/// that both can hold stay as they are.
pub proof fn signs_turn_into_each_other(x: i64, n: u64)
    ensures
        0 <= as_unsigned(x) <= u64::MAX,
        i64::MIN <= as_signed(n) <= i64::MAX,
        as_signed(as_unsigned(x) as u64) == x,
        as_unsigned(as_signed(n) as i64) == n,
        x >= 0 ==> as_unsigned(x) == x,
        n <= i64::MAX ==> as_signed(n) == n,
{
}

/// Eight bytes, the lowest first, hold a number of 64 bits: each byte counts 256
/// times the one before it.
pub proof fn bytes_add_up_to_the_number(x: u64)
    ensures
        little_endian(x as int).len() == 8,
        ({
            let b = little_endian(x as int);
            b[0] + 0x100 * b[1] + 0x1_0000 * b[2] + 0x100_0000 * b[3] + 0x1_0000_0000 * b[4]
                + 0x100_0000_0000 * b[5] + 0x1_0000_0000_0000 * b[6] + 0x100_0000_0000_0000 * b[7]
                == x
        }),
{
    let n = x as int;
    let q1 = n / 0x100;
    let q2 = n / 0x1_0000;
    let q3 = n / 0x100_0000;
    let q4 = n / 0x1_0000_0000;
    let q5 = n / 0x100_0000_0000;
    let q6 = n / 0x1_0000_0000_0000;
    let q7 = n / 0x100_0000_0000_0000;
    assert(q2 == q1 / 256);
    assert(q3 == q2 / 256);
    assert(q4 == q3 / 256);
    assert(q5 == q4 / 256);
    assert(q6 == q5 / 256);
    assert(q7 == q6 / 256);
    assert(q7 < 256);
}

/// What the hash of a row covers: the hash before it, the id, the number, the
/// payload and the time of recording, one behind the other.
pub proof fn hashes_cover_the_whole_row(
    prev: Seq<u8>,
    id: Seq<char>,
    sequence_nr: u64,
    payload: Seq<u8>,
    created_at: i64,
)
    ensures
        ({
            let data = row_preimage(prev, id, sequence_nr, payload, created_at);
            let name = vstd::utf8::encode_utf8(id);
            let a = (prev.len() + name.len()) as int;
            &&& data.len() == a + 16 + payload.len()
            &&& data.take(prev.len() as int) == prev
            &&& data.subrange(prev.len() as int, a) == name
            &&& data.subrange(a, a + 8) == little_endian(sequence_nr as int)
            &&& data.subrange(a + 8, a + 8 + payload.len()) == payload
            &&& data.skip(a + 8 + payload.len()) == little_endian(as_unsigned(created_at))
        }),
{
    reveal(row_preimage);
}

/// The first misfit is the row that does not link to the one before it, or does
/// not carry the digest of its contents, while every row in front of it does.
pub proof fn first_misfit_is_the_first_broken_link(id: Seq<char>, rows: Seq<LinkView>, i: int)
    requires
        0 <= i < rows.len(),
    ensures
        first_misfit(id, rows, i) <==> {
            &&& !links_to_the_one_before(id, rows, i)
            &&& forall|j: int| 0 <= j < i ==> #[trigger] links_to_the_one_before(id, rows, j)
        },
{
    let front = rows.take(i);
    let upto = rows.take(i + 1);
    chains_link_row_by_row(id, front);
    chains_link_row_by_row(id, upto);
    assert(upto.drop_last() =~= front);
    assert(upto.last() == rows[i]);
    assert forall|j: int| 0 <= j <= i implies (#[trigger] links_to_the_one_before(id, rows, j)
        <==> links_to_the_one_before(id, upto, j)) by {
        assert(upto[j] == rows[j]);
        if j > 0 {
            assert(upto[j - 1] == rows[j - 1]);
        }
    }
    assert forall|j: int| 0 <= j < i implies (#[trigger] links_to_the_one_before(id, rows, j)
        <==> links_to_the_one_before(id, front, j)) by {
        assert(front[j] == rows[j]);
        if j > 0 {
            assert(front[j - 1] == rows[j - 1]);
        }
    }
    if is_chain(id, front) {
        assert forall|j: int| 0 <= j < i implies #[trigger] links_to_the_one_before(
            id,
            rows,
            j,
        ) by {
            assert(links_to_the_one_before(id, front, j));
        }
    }
    if forall|j: int| 0 <= j < i ==> #[trigger] links_to_the_one_before(id, rows, j) {
        assert forall|j: int| 0 <= j < front.len() implies #[trigger] links_to_the_one_before(
            id,
            front,
            j,
        ) by {
            assert(links_to_the_one_before(id, rows, j));
        }
        if links_to_the_one_before(id, rows, i) {
            assert forall|j: int| 0 <= j < upto.len() implies #[trigger] links_to_the_one_before(
                id,
                upto,
                j,
            ) by {
                assert(links_to_the_one_before(id, rows, j));
            }
        }
    }
    if is_chain(id, upto) {
        assert(links_to_the_one_before(id, upto, i));
        assert(links_to_the_one_before(id, rows, i));
    }
}

} // verus!
