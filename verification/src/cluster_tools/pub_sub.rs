//! Topics and their subscribers.

use crate::ordmap::{self, Key, OrdMap};
use vstd::prelude::*;

verus! {

/// The subscribers of each topic, in the order in which they subscribed.
pub struct DistributedPubSub<C> {
    topics: OrdMap<String, Vec<C>>,
}

/// The subscribers of each topic.
pub open spec fn lists_of<C>(m: Map<Seq<char>, Vec<C>>) -> Map<Seq<char>, Seq<C>> {
    m.map_values(|v: Vec<C>| v@)
}

impl<C> View for DistributedPubSub<C> {
    type V = Map<Seq<char>, Seq<C>>;

    closed spec fn view(&self) -> Map<Seq<char>, Seq<C>> {
        lists_of(self.topics@)
    }
}

/// The subscribers of `topic`: none, where no one ever subscribed.
pub open spec fn subscribers_of<C>(m: Map<Seq<char>, Seq<C>>, topic: Seq<char>) -> Seq<C> {
    if m.contains_key(topic) {
        m[topic]
    } else {
        Seq::empty()
    }
}

/// Whether `r` names every topic of `m` once, in ascending order.
pub open spec fn names<C>(m: Map<Seq<char>, Seq<C>>, r: Seq<&str>) -> bool {
    &&& forall|i: int| 0 <= i < r.len() ==> m.contains_key((#[trigger] r[i])@)
    &&& forall|k: Seq<char>|
        m.contains_key(k) ==> exists|i: int| 0 <= i < r.len() && (#[trigger] r[i])@ == k
    &&& forall|i: int, j: int|
        0 <= i < j < r.len() ==> ordmap::text_before((#[trigger] r[i])@, (#[trigger] r[j])@)
}

impl<C> DistributedPubSub<C> {
    /// Whether the topics are in order.
    pub closed spec fn wf(&self) -> bool {
        self.topics.wf()
    }

    /// No topics yet.
    pub fn new() -> (r: DistributedPubSub<C>)
        ensures
            r.wf(),
            r@ == Map::<Seq<char>, Seq<C>>::empty(),
    {
        let r = DistributedPubSub { topics: OrdMap::new() };
        assert(r@ =~= Map::<Seq<char>, Seq<C>>::empty());
        r
    }

    /// Add a subscriber to a topic, behind those that it has.
    pub fn subscribe(&mut self, topic: &str, subscriber: C)
        requires
            old(self).wf(),
        ensures
            final(self).wf(),
            final(self)@ == old(self)@.insert(
                topic@,
                subscribers_of(old(self)@, topic@).push(subscriber),
            ),
    {
        let name: String = topic.to_string();
        let mut list: Vec<C> = match self.topics.remove(&name) {
            Some(list) => list,
            None => Vec::new(),
        };
        list.push(subscriber);
        let _ = self.topics.insert(name, list);
        assert(self@ =~= old(self)@.insert(
            topic@,
            subscribers_of(old(self)@, topic@).push(subscriber),
        ));
    }

    /// The subscribers of a topic, in the order in which they subscribed.
    pub fn subscribers(&self, topic: &str) -> (r: Option<&Vec<C>>)
        requires
            self.wf(),
        ensures
            r is Some <==> self@.contains_key(topic@),
            r matches Some(v) ==> v@ == subscribers_of(self@, topic@),
    {
        let name: String = topic.to_string();
        self.topics.get(&name)
    }

    /// The names of the topics, in ascending order.
    pub fn topics(&self) -> (r: Vec<&str>)
        requires
            self.wf(),
        ensures
            names(self@, r@),
    {
        let mut r: Vec<&str> = Vec::new();
        let ghost all = self.topics.list();
        proof {
            self.topics.lemma_list();
        }
        let mut i: usize = 0;
        while i < self.topics.len()
            invariant
                i <= all.len(),
                all == self.topics.list(),
                r@.len() == i,
                forall|j: int| 0 <= j < i ==> (#[trigger] r@[j])@ == all[j].0@,
            decreases all.len() - i,
        {
            r.push(self.topics.key_at(i).as_str());
            i = i + 1;
        }
        proof {
            assert forall|k: Seq<char>| self@.contains_key(k) implies exists|j: int|
                0 <= j < r@.len() && (#[trigger] r@[j])@ == k by {
                assert(self.topics@.contains_key(k));
                let j = choose|j: int| ordmap::is_at(all, k, j);
                assert(r@[j]@ == k);
            }
        }
        r
    }
}

/// A subscriber is added behind those that the topic has, and to no other topic;
/// a topic that no one subscribed to has no subscribers.
pub proof fn subscriptions_are_kept_apart<C>(
    m: Map<Seq<char>, Seq<C>>,
    topic: Seq<char>,
    subscriber: C,
    other: Seq<char>,
)
    ensures
        ({
            let after = m.insert(topic, subscribers_of(m, topic).push(subscriber));
            &&& m.contains_key(topic) ==> after[topic] == m[topic].push(subscriber)
            &&& !m.contains_key(topic) ==> after[topic] == seq![subscriber]
            &&& other != topic ==> subscribers_of(after, other) == subscribers_of(m, other)
        }),
        !m.contains_key(topic) ==> subscribers_of(m, topic).len() == 0,
{
}

/// A listing names every topic exactly once, in ascending order.
pub proof fn every_topic_is_named_once<C>(m: Map<Seq<char>, Seq<C>>, r: Seq<&str>, k: Seq<char>)
    requires
        names(m, r),
    ensures
        m.contains_key(k) <==> exists|i: int| 0 <= i < r.len() && (#[trigger] r[i])@ == k,
        forall|i: int, j: int|
            0 <= i < j < r.len() ==> (#[trigger] r[i])@ != (#[trigger] r[j])@
                && ordmap::text_before(r[i]@, r[j]@),
{
    assert forall|i: int, j: int| 0 <= i < j < r.len() implies (#[trigger] r[i])@ != (
    #[trigger] r[j])@ && ordmap::text_before(r[i]@, r[j]@) by {
        ordmap::lemma_text_irreflexive(r[i]@);
    }
}

} // verus!
