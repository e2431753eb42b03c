//! Message metadata: trace context and baggage that travel with a message from
//! actor to actor.

use crate::ordmap::{self, Key, OrdMap};
use vstd::prelude::*;

verus! {

/// Trace context in the manner of W3C, and a small map of texts. Empty unless
/// something is put in.
#[derive(Debug, PartialEq, Eq)]
pub struct Metadata {
    trace_id: Option<String>,
    span_id: Option<String>,
    baggage: OrdMap<String, String>,
}

/// The model of [`Metadata`].
#[verifier::ext_equal]
pub struct MetadataView {
    pub trace_id: Option<Seq<char>>,
    pub span_id: Option<Seq<char>>,
    pub baggage: Map<Seq<char>, Seq<char>>,
}

/// The characters of an optional text.
pub open spec fn text_of(s: Option<String>) -> Option<Seq<char>> {
    match s {
        Some(s) => Some(s@),
        None => None,
    }
}

/// The texts of a map of strings.
pub open spec fn texts_of(m: Map<Seq<char>, String>) -> Map<Seq<char>, Seq<char>> {
    m.map_values(|v: String| v@)
}

impl MetadataView {
    /// No trace context and no baggage.
    pub open spec fn blank() -> MetadataView {
        MetadataView { trace_id: None, span_id: None, baggage: Map::empty() }
    }
}

impl View for Metadata {
    type V = MetadataView;

    closed spec fn view(&self) -> MetadataView {
        MetadataView {
            trace_id: text_of(self.trace_id),
            span_id: text_of(self.span_id),
            baggage: texts_of(self.baggage@),
        }
    }
}

/// Whether `r` lists the entries of `m`, each once, by ascending key.
pub open spec fn lists(m: Map<Seq<char>, Seq<char>>, r: Seq<(&str, &str)>) -> bool {
    &&& forall|i: int|
        0 <= i < r.len() ==> m.contains_key((#[trigger] r[i]).0@) && m[r[i].0@] == r[i].1@
    &&& forall|k: Seq<char>|
        m.contains_key(k) ==> exists|i: int| 0 <= i < r.len() && (#[trigger] r[i]).0@ == k
    &&& forall|i: int, j: int|
        0 <= i < j < r.len() ==> ordmap::text_before((#[trigger] r[i]).0@, (#[trigger] r[j]).0@)
}

impl Metadata {
    /// Whether the baggage is in order.
    pub closed spec fn wf(&self) -> bool {
        self.baggage.wf()
    }

    /// Empty metadata.
    pub fn new() -> (r: Metadata)
        ensures
            r.wf(),
            r@ == MetadataView::blank(),
    {
        let r = Metadata { trace_id: None, span_id: None, baggage: OrdMap::new() };
        assert(r@ =~= MetadataView::blank());
        r
    }

    /// Metadata with a trace and a span.
    pub fn with_trace(trace_id: &str, span_id: &str) -> (r: Metadata)
        ensures
            r.wf(),
            r@ == (MetadataView {
                trace_id: Some(trace_id@),
                span_id: Some(span_id@),
                ..MetadataView::blank()
            }),
    {
        let mut r: Metadata = Metadata::new();
        r.set_trace_id(trace_id);
        r.set_span_id(span_id);
        r
    }

    /// The trace id, if there is one.
    pub fn trace_id(&self) -> (r: Option<&str>)
        ensures
            r is Some <==> self@.trace_id is Some,
            r matches Some(s) ==> self@.trace_id == Some(s@),
    {
        match &self.trace_id {
            Some(s) => Some(s.as_str()),
            None => None,
        }
    }

    /// The span id, if there is one.
    pub fn span_id(&self) -> (r: Option<&str>)
        ensures
            r is Some <==> self@.span_id is Some,
            r matches Some(s) ==> self@.span_id == Some(s@),
    {
        match &self.span_id {
            Some(s) => Some(s.as_str()),
            None => None,
        }
    }

    /// Set the trace id.
    pub fn set_trace_id(&mut self, trace_id: &str)
        requires
            old(self).wf(),
        ensures
            final(self).wf(),
            final(self)@ == (MetadataView { trace_id: Some(trace_id@), ..old(self)@ }),
    {
        self.trace_id = Some(trace_id.to_string());
    }

    /// Set the span id.
    pub fn set_span_id(&mut self, span_id: &str)
        requires
            old(self).wf(),
        ensures
            final(self).wf(),
            final(self)@ == (MetadataView { span_id: Some(span_id@), ..old(self)@ }),
    {
        self.span_id = Some(span_id.to_string());
    }

    /// Put a value in the baggage. A value that the key had is replaced.
    pub fn set_baggage(&mut self, key: &str, value: &str)
        requires
            old(self).wf(),
        ensures
            final(self).wf(),
            final(self)@ == (MetadataView {
                baggage: old(self)@.baggage.insert(key@, value@),
                ..old(self)@
            }),
    {
        let k: String = key.to_string();
        let v: String = value.to_string();
        let _ = self.baggage.insert(k, v);
        assert(self@.baggage =~= old(self)@.baggage.insert(key@, value@));
    }

    /// The baggage of `key`.
    pub fn baggage(&self, key: &str) -> (r: Option<&str>)
        requires
            self.wf(),
        ensures
            r is Some <==> self@.baggage.contains_key(key@),
            r matches Some(v) ==> self@.baggage[key@] == v@,
    {
        let k: String = key.to_string();
        match self.baggage.get(&k) {
            Some(v) => Some(v.as_str()),
            None => None,
        }
    }

    /// The baggage, by ascending key.
    pub fn baggage_iter(&self) -> (r: Vec<(&str, &str)>)
        requires
            self.wf(),
        ensures
            lists(self@.baggage, r@),
    {
        let mut r: Vec<(&str, &str)> = Vec::new();
        let ghost all = self.baggage.list();
        proof {
            self.baggage.lemma_list();
        }
        let mut i: usize = 0;
        while i < self.baggage.len()
            invariant
                i <= all.len(),
                self.wf(),
                all == self.baggage.list(),
                r@.len() == i,
                forall|j: int|
                    0 <= j < i ==> (#[trigger] r@[j]).0@ == all[j].0@ && r@[j].1@ == all[j].1@,
            decreases all.len() - i,
        {
            let k: &String = self.baggage.key_at(i);
            let v: &String = self.baggage.value_at(i);
            r.push((k.as_str(), v.as_str()));
            i = i + 1;
        }
        proof {
            let m = self@.baggage;
            assert forall|k: Seq<char>| m.contains_key(k) implies exists|j: int|
                0 <= j < r@.len() && (#[trigger] r@[j]).0@ == k by {
                assert(self.baggage@.contains_key(k));
                let j = choose|j: int| ordmap::is_at(all, k, j);
                assert(r@[j].0@ == k);
            }
        }
        r
    }

    /// Whether there is neither trace context nor baggage.
    pub fn is_empty(&self) -> (r: bool)
        requires
            self.wf(),
        ensures
            r == (self@ == MetadataView::blank()),
    {
        proof {
            self.baggage.lemma_list();
            if self.baggage.list().len() == 0 {
                ordmap::lemma_no_entries(self.baggage.list());
                assert(self@.baggage =~= Map::empty());
            } else {
                let k = self.baggage.list()[0].0.model();
                assert(self@.baggage.contains_key(k));
                assert(!Map::<Seq<char>, Seq<char>>::empty().contains_key(k));
            }
        }
        self.trace_id.is_none() && self.span_id.is_none() && self.baggage.len() == 0
    }

    /// The same metadata once more.
    pub fn duplicate(&self) -> (r: Metadata)
        requires
            self.wf(),
        ensures
            r.wf(),
            r@ == self@,
    {
        let mut r: Metadata = Metadata::new();
        if let Some(t) = self.trace_id() {
            r.set_trace_id(t);
        }
        if let Some(s) = self.span_id() {
            r.set_span_id(s);
        }
        let ghost all = self.baggage.list();
        proof {
            self.baggage.lemma_list();
            ordmap::lemma_no_entries(all.take(0));
            assert(r@.baggage =~= texts_of(ordmap::as_map(all.take(0))));
        }
        let mut i: usize = 0;
        while i < self.baggage.len()
            invariant
                i <= all.len(),
                self.wf(),
                r.wf(),
                all == self.baggage.list(),
                ordmap::ascending(all),
                r@.trace_id == self@.trace_id,
                r@.span_id == self@.span_id,
                r@.baggage == texts_of(ordmap::as_map(all.take(i as int))),
            decreases all.len() - i,
        {
            r.set_baggage(self.baggage.key_at(i).as_str(), self.baggage.value_at(i).as_str());
            i = i + 1;
            proof {
                ordmap::lemma_one_more(all, i - 1);
                assert(r@.baggage =~= texts_of(ordmap::as_map(all.take(i as int))));
            }
        }
        assert(all.take(i as int) =~= all);
        assert(r@ =~= self@);
        r
    }
}

/// What an interceptor holds while a message is handled. It is let go when
/// handling is over.
#[must_use]
pub struct SpanGuard<G> {
    held: Option<G>,
}

impl<G> SpanGuard<G> {
    /// What is held.
    pub closed spec fn held(&self) -> Option<G> {
        self.held
    }

    /// A guard that holds nothing.
    pub fn none() -> (r: SpanGuard<G>)
        ensures
            r.held() is None,
    {
        SpanGuard { held: None }
    }

    /// A guard that holds `guard`.
    pub fn holding(guard: G) -> (r: SpanGuard<G>)
        ensures
            r.held() == Some(guard),
    {
        SpanGuard { held: Some(guard) }
    }
}

/// A hook around the handling of messages. By default it holds nothing and hands
/// the metadata on as they came.
pub trait MessageInterceptor {
    /// What is held while a message is handled.
    type Guard;

    /// Called before a message is handled, with its metadata.
    fn before_handle(&self, meta: &Metadata) -> (r: SpanGuard<Self::Guard>)
        requires
            meta.wf(),
        default_ensures
            r.held() is None,
    {
        SpanGuard::none()
    }

    /// The metadata of messages that are sent while a message with the metadata
    /// `parent` is handled.
    fn outgoing(&self, parent: &Metadata) -> (r: Metadata)
        requires
            parent.wf(),
        ensures
            r.wf(),
        default_ensures
            r@ == parent@,
    {
        parent.duplicate()
    }
}

/// Blank metadata name no trace and no span and carry no baggage.
pub proof fn blank_metadata_hold_nothing(key: Seq<char>)
    ensures
        MetadataView::blank().trace_id is None,
        MetadataView::blank().span_id is None,
        !MetadataView::blank().baggage.contains_key(key),
{
}

/// A listing of baggage names every key exactly once, with its value.
pub proof fn listings_are_complete(m: Map<Seq<char>, Seq<char>>, r: Seq<(&str, &str)>, k: Seq<char>)
    requires
        lists(m, r),
    ensures
        m.contains_key(k) <==> exists|i: int| 0 <= i < r.len() && (#[trigger] r[i]).0@ == k,
        forall|i: int| 0 <= i < r.len() && (#[trigger] r[i]).0@ == k ==> r[i].1@ == m[k],
        forall|i: int, j: int|
            0 <= i < j < r.len() ==> (#[trigger] r[i]).0@ != (#[trigger] r[j]).0@
                && ordmap::text_before(r[i].0@, r[j].0@),
{
    assert forall|i: int, j: int| 0 <= i < j < r.len() implies (#[trigger] r[i]).0@ != (
    #[trigger] r[j]).0@ && ordmap::text_before(r[i].0@, r[j].0@) by {
        ordmap::lemma_text_irreflexive(r[i].0@);
    }
}

} // verus!
