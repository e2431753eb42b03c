//! A persisted event.

use vstd::prelude::*;

verus! {

/// An event as a journal stores it.
#[derive(Debug, PartialEq, Eq)]
pub struct PersistentRepr {
    pub persistence_id: String,
    pub sequence_nr: u64,
    pub payload: Vec<u8>,
    pub manifest: String,
    pub writer_uuid: String,
    pub deleted: bool,
    pub tags: Vec<String>,
}

/// A persisted event as a mathematical value.
#[verifier::ext_equal]
pub struct ReprView {
    pub persistence_id: Seq<char>,
    pub sequence_nr: u64,
    pub payload: Seq<u8>,
    pub manifest: Seq<char>,
    pub writer_uuid: Seq<char>,
    pub deleted: bool,
    pub tags: Seq<Seq<char>>,
}

/// The texts of a run of tags.
pub open spec fn tag_texts(tags: Seq<String>) -> Seq<Seq<char>> {
    tags.map_values(|t: String| t@)
}

impl View for PersistentRepr {
    type V = ReprView;

    open spec fn view(&self) -> ReprView {
        ReprView {
            persistence_id: self.persistence_id@,
            sequence_nr: self.sequence_nr,
            payload: self.payload@,
            manifest: self.manifest@,
            writer_uuid: self.writer_uuid@,
            deleted: self.deleted,
            tags: tag_texts(self.tags@),
        }
    }
}

impl Default for PersistentRepr {
    fn default() -> (r: Self)
        ensures
            r@ == ReprView::blank(),
    {
        let r = PersistentRepr {
            persistence_id: String::new(),
            sequence_nr: 0,
            payload: Vec::new(),
            manifest: String::new(),
            writer_uuid: String::new(),
            deleted: false,
            tags: Vec::new(),
        };
        assert(r@ =~= ReprView::blank());
        r
    }
}

impl ReprView {
    /// An event with nothing in it.
    pub open spec fn blank() -> ReprView {
        ReprView {
            persistence_id: Seq::empty(),
            sequence_nr: 0,
            payload: Seq::empty(),
            manifest: Seq::empty(),
            writer_uuid: Seq::empty(),
            deleted: false,
            tags: Seq::empty(),
        }
    }
}

/// A run of events.
pub open spec fn repr_views(reprs: Seq<PersistentRepr>) -> Seq<ReprView> {
    reprs.map_values(|r: PersistentRepr| r@)
}

/// A blank event is empty, has number 0 and is not deleted.
pub proof fn blank_events_hold_nothing()
    ensures
        ({
            let e = ReprView::blank();
            &&& e.persistence_id.len() == 0
            &&& e.sequence_nr == 0
            &&& e.payload.len() == 0
            &&& e.manifest.len() == 0
            &&& e.writer_uuid.len() == 0
            &&& !e.deleted
            &&& e.tags.len() == 0
        }),
{
}

} // verus!
