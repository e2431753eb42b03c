//! Signed exposure that converges across replicas.
//!
//! [`SignedSum`] keeps a positive and a negative accumulator per node. A node's
//! own accumulators only grow, so replicas merge by taking the larger value of
//! each; the net exposure is the sum of the positive accumulators less the sum
//! of the negative ones. Accumulation saturates: exposure never wraps.
//! [`SignedSumMap`] keys such exposures.

use crate::ordmap;
use crate::ordmap::{Key, OrdMap};
use vstd::prelude::*;

verus! {

/// Accumulators by node.
pub type NodeTotals = Map<Seq<char>, i128>;

/// The accumulator of `node`; zero if it has none.
pub open spec fn total_of(m: NodeTotals, node: Seq<char>) -> int {
    if m.contains_key(node) {
        m[node] as int
    } else {
        0
    }
}

/// `n`, at most the largest exposure.
pub open spec fn capped(n: int) -> int {
    if n > i128::MAX {
        i128::MAX as int
    } else {
        n
    }
}

pub open spec fn larger(a: int, b: int) -> int {
    if a >= b {
        a
    } else {
        b
    }
}

/// Accumulators are magnitudes, of finitely many nodes.
pub open spec fn magnitudes(m: NodeTotals) -> bool {
    m.dom().finite() && forall|node: Seq<char>| #[trigger]
        m.contains_key(node) ==> m[node] >= 0
}

/// The accumulators after `amount` was added to that of `node`.
pub open spec fn with_added(m: NodeTotals, node: Seq<char>, amount: int) -> NodeTotals {
    m.insert(node, capped(total_of(m, node) + amount) as i128)
}

/// The accumulators after every one of `d` was added.
pub open spec fn with_all_added(m: NodeTotals, d: NodeTotals) -> NodeTotals {
    Map::new(
        |node: Seq<char>| m.contains_key(node) || d.contains_key(node),
        |node: Seq<char>| capped(total_of(m, node) + total_of(d, node)) as i128,
    )
}

/// The larger accumulator of each node.
pub open spec fn node_max(a: NodeTotals, b: NodeTotals) -> NodeTotals {
    Map::new(
        |node: Seq<char>| a.contains_key(node) || b.contains_key(node),
        |node: Seq<char>| larger(total_of(a, node), total_of(b, node)) as i128,
    )
}

/// The sum of the accumulators of all nodes.
pub open spec fn grand_total(m: NodeTotals) -> int
    decreases m.dom().len(),
    when m.dom().finite()
{
    if m.dom().is_empty() {
        0
    } else {
        let node = m.dom().choose();
        m[node] + grand_total(m.remove(node))
    }
}

/// The converging part of an exposure: what replicas exchange and merge.
#[verifier::ext_equal]
pub struct Totals {
    pub pos: NodeTotals,
    pub neg: NodeTotals,
}

impl Totals {
    pub open spec fn none() -> Totals {
        Totals { pos: Map::empty(), neg: Map::empty() }
    }

    pub open spec fn valid(self) -> bool {
        magnitudes(self.pos) && magnitudes(self.neg)
    }

    /// What two replicas agree on.
    pub open spec fn merged(self, other: Totals) -> Totals {
        Totals { pos: node_max(self.pos, other.pos), neg: node_max(self.neg, other.neg) }
    }

    /// The net exposure.
    pub open spec fn net(self) -> int {
        capped(grand_total(self.pos)) - capped(grand_total(self.neg))
    }

    pub open spec fn plus(self, delta: Totals) -> Totals {
        Totals {
            pos: with_all_added(self.pos, delta.pos),
            neg: with_all_added(self.neg, delta.neg),
        }
    }

    /// The exposure after `node` contributed `delta`: its magnitude goes to the
    /// accumulator of its sign.
    pub open spec fn contributed(self, node: Seq<char>, delta: int) -> Totals {
        if delta >= 0 {
            Totals { pos: with_added(self.pos, node, delta), ..self }
        } else {
            Totals { neg: with_added(self.neg, node, capped(-delta)), ..self }
        }
    }
}

// ---------------------------------------------------------------------------
// Laws
// ---------------------------------------------------------------------------
/// Merging is commutative.
pub proof fn merge_commutes(a: Totals, b: Totals)
    ensures
        a.merged(b) == b.merged(a),
{
    assert(a.merged(b).pos =~= b.merged(a).pos);
    assert(a.merged(b).neg =~= b.merged(a).neg);
}

/// Merging is associative.
pub proof fn merge_associates(a: Totals, b: Totals, c: Totals)
    requires
        a.valid(),
        b.valid(),
        c.valid(),
    ensures
        a.merged(b).merged(c) == a.merged(b.merged(c)),
{
    lemma_node_max_associates(a.pos, b.pos, c.pos);
    lemma_node_max_associates(a.neg, b.neg, c.neg);
}

/// Merging is idempotent: a state already absorbed changes nothing.
pub proof fn merge_absorbs(a: Totals, b: Totals)
    requires
        a.valid(),
        b.valid(),
    ensures
        a.merged(a) == a,
        a.merged(b).merged(b) == a.merged(b),
        a.merged(b).merged(a) == a.merged(b),
        a.merged(b).valid(),
{
    lemma_node_max_absorbs(a.pos, b.pos);
    lemma_node_max_absorbs(a.neg, b.neg);
    lemma_node_max_absorbs(a.pos, a.pos);
    lemma_node_max_absorbs(a.neg, a.neg);
    assert(node_max(a.pos, a.pos) =~= a.pos);
    assert(node_max(a.neg, a.neg) =~= a.neg);
}

/// What a run of replicas agrees on, merged from left to right.
pub open spec fn merged_all(replicas: Seq<Totals>) -> Totals
    decreases replicas.len(),
{
    if replicas.len() == 0 {
        Totals::none()
    } else {
        merged_all(replicas.drop_last()).merged(replicas.last())
    }
}

/// Convergence: replicas that saw the same states agree, in whatever order and
/// however often they merged them.
pub proof fn merge_order_is_irrelevant(a: Seq<Totals>, b: Seq<Totals>)
    requires
        forall|i: int| 0 <= i < a.len() ==> (#[trigger] a[i]).valid(),
        forall|i: int| 0 <= i < b.len() ==> (#[trigger] b[i]).valid(),
        forall|t: Totals| a.contains(t) <==> b.contains(t),
    ensures
        merged_all(a) == merged_all(b),
{
    lemma_merged_all_valid(a);
    lemma_merged_all_valid(b);
    assert forall|i: int| 0 <= i < b.len() implies merged_all(a).merged(#[trigger] b[i])
        == merged_all(a) by {
        assert(b.contains(b[i]));
        let j = choose|j: int| 0 <= j < a.len() && a[j] == b[i];
        lemma_merged_all_absorbs(a, j);
    }
    assert forall|i: int| 0 <= i < a.len() implies merged_all(b).merged(#[trigger] a[i])
        == merged_all(b) by {
        assert(a.contains(a[i]));
        let j = choose|j: int| 0 <= j < b.len() && b[j] == a[i];
        lemma_merged_all_absorbs(b, j);
    }
    lemma_merged_all_least(merged_all(a), b);
    lemma_merged_all_least(merged_all(b), a);
    merge_commutes(merged_all(a), merged_all(b));
}

/// A node's contribution never shrinks an accumulator, so a replica that merges
/// a later state of a node holds that later state.
pub proof fn contribution_is_absorbed(t: Totals, node: Seq<char>, delta: int)
    requires
        t.valid(),
        i128::MIN <= delta <= i128::MAX,
    ensures
        t.contributed(node, delta).valid(),
        t.merged(t.contributed(node, delta)) == t.contributed(node, delta),
{
    let after = t.contributed(node, delta);
    assert(node_max(t.pos, after.pos) =~= after.pos);
    assert(node_max(t.neg, after.neg) =~= after.neg);
}

/// Shipping a delta is as good as shipping the state: if a replica stands where
/// this one stood when the delta began, applying the delta brings it to where
/// this one stands. The relation holds when a delta begins and every
/// contribution keeps it.
pub proof fn delta_tracks_state(base: Totals, now: Totals, pending: Totals, node: Seq<char>, delta: int)
    requires
        base.valid(),
        pending.valid(),
        now == base.plus(pending),
        i128::MIN <= delta <= i128::MAX,
    ensures
        base.plus(Totals::none()) == base,
        now.contributed(node, delta) == base.plus(pending.contributed(node, delta)),
        pending.contributed(node, delta).valid(),
{
    assert(base.plus(Totals::none()).pos =~= base.pos);
    assert(base.plus(Totals::none()).neg =~= base.neg);
    let p = pending.contributed(node, delta);
    assert(now.contributed(node, delta).pos =~= base.plus(p).pos);
    assert(now.contributed(node, delta).neg =~= base.plus(p).neg);
}

/// While nothing saturates, a contribution moves the net exposure by exactly
/// its amount.
pub proof fn contribution_is_exact(t: Totals, node: Seq<char>, delta: int)
    requires
        t.valid(),
        i128::MIN < delta <= i128::MAX,
        grand_total(t.pos) + (if delta > 0 {
            delta
        } else {
            0
        }) <= i128::MAX,
        grand_total(t.neg) + (if delta < 0 {
            -delta
        } else {
            0
        }) <= i128::MAX,
    ensures
        t.contributed(node, delta).net() == t.net() + delta,
{
    lemma_total_bounds(t.pos, node);
    lemma_total_bounds(t.neg, node);
    if delta >= 0 {
        lemma_total_insert(t.pos, node, (total_of(t.pos, node) + delta) as i128);
    } else {
        lemma_total_insert(t.neg, node, (total_of(t.neg, node) - delta) as i128);
    }
}

// ---------------------------------------------------------------------------
// Lemmas
// ---------------------------------------------------------------------------
proof fn lemma_node_max_associates(a: NodeTotals, b: NodeTotals, c: NodeTotals)
    requires
        magnitudes(a),
        magnitudes(b),
        magnitudes(c),
    ensures
        node_max(node_max(a, b), c) == node_max(a, node_max(b, c)),
{
    assert(node_max(node_max(a, b), c) =~= node_max(a, node_max(b, c)));
}

proof fn lemma_node_max_absorbs(a: NodeTotals, b: NodeTotals)
    requires
        magnitudes(a),
        magnitudes(b),
    ensures
        node_max(node_max(a, b), b) == node_max(a, b),
        node_max(node_max(a, b), a) == node_max(a, b),
        magnitudes(node_max(a, b)),
{
    assert(node_max(a, b).dom() =~= a.dom().union(b.dom()));
    assert(node_max(node_max(a, b), b) =~= node_max(a, b));
    assert(node_max(node_max(a, b), a) =~= node_max(a, b));
}

proof fn lemma_merged_all_valid(replicas: Seq<Totals>)
    requires
        forall|i: int| 0 <= i < replicas.len() ==> (#[trigger] replicas[i]).valid(),
    ensures
        merged_all(replicas).valid(),
    decreases replicas.len(),
{
    if replicas.len() > 0 {
        lemma_merged_all_valid(replicas.drop_last());
        merge_absorbs(merged_all(replicas.drop_last()), replicas.last());
    }
}

proof fn lemma_merged_all_absorbs(replicas: Seq<Totals>, i: int)
    requires
        forall|i: int| 0 <= i < replicas.len() ==> (#[trigger] replicas[i]).valid(),
        0 <= i < replicas.len(),
    ensures
        merged_all(replicas).merged(replicas[i]) == merged_all(replicas),
    decreases replicas.len(),
{
    let init = replicas.drop_last();
    let rest = merged_all(init);
    lemma_merged_all_valid(init);
    if i == replicas.len() - 1 {
        merge_absorbs(rest, replicas.last());
    } else {
        lemma_merged_all_absorbs(init, i);
        merge_associates(rest, replicas.last(), replicas[i]);
        merge_commutes(replicas.last(), replicas[i]);
        merge_associates(rest, replicas[i], replicas.last());
    }
}

proof fn lemma_merged_all_least(top: Totals, replicas: Seq<Totals>)
    requires
        top.valid(),
        forall|i: int| 0 <= i < replicas.len() ==> (#[trigger] replicas[i]).valid(),
        forall|i: int| 0 <= i < replicas.len() ==> top.merged(#[trigger] replicas[i]) == top,
    ensures
        top.merged(merged_all(replicas)) == top,
    decreases replicas.len(),
{
    if replicas.len() == 0 {
        assert(node_max(top.pos, Map::empty()) =~= top.pos);
        assert(node_max(top.neg, Map::empty()) =~= top.neg);
    } else {
        let init = replicas.drop_last();
        lemma_merged_all_least(top, init);
        lemma_merged_all_valid(init);
        merge_associates(top, merged_all(init), replicas.last());
        assert(replicas.last() == replicas[replicas.len() - 1]);
    }
}

/// Any node can be split off the sum first.
proof fn lemma_total_remove(m: NodeTotals, node: Seq<char>)
    requires
        m.dom().finite(),
        m.contains_key(node),
    ensures
        grand_total(m) == m[node] + grand_total(m.remove(node)),
    decreases m.dom().len(),
{
    let first = m.dom().choose();
    if first != node {
        lemma_total_remove(m.remove(first), node);
        lemma_total_remove(m.remove(node), first);
        assert(m.remove(first).remove(node) =~= m.remove(node).remove(first));
    }
}

proof fn lemma_total_insert(m: NodeTotals, node: Seq<char>, v: i128)
    requires
        m.dom().finite(),
    ensures
        grand_total(m.insert(node, v)) == grand_total(m) - total_of(m, node) + v,
{
    let out = m.insert(node, v);
    lemma_total_remove(out, node);
    if m.contains_key(node) {
        lemma_total_remove(m, node);
        assert(out.remove(node) =~= m.remove(node));
    } else {
        assert(out.remove(node) =~= m);
    }
}

proof fn lemma_total_bounds(m: NodeTotals, node: Seq<char>)
    requires
        magnitudes(m),
    ensures
        0 <= total_of(m, node) <= grand_total(m),
    decreases m.dom().len(),
{
    if m.dom().is_empty() {
    } else {
        let first = m.dom().choose();
        let rest = m.remove(first);
        assert(magnitudes(rest));
        lemma_total_bounds(rest, node);
        assert(m.contains_key(first));
        if node != first {
            assert(total_of(rest, node) == total_of(m, node));
        } else {
            lemma_total_bounds(rest, first);
        }
    }
}

// ---------------------------------------------------------------------------
// Exposure
// ---------------------------------------------------------------------------
type Accumulators = OrdMap<String, i128>;

fn largest(a: i128, b: i128) -> (r: i128)
    ensures
        r == larger(a as int, b as int),
{
    if a >= b {
        a
    } else {
        b
    }
}

fn saturating(a: i128, b: i128) -> (r: i128)
    requires
        a >= 0,
        b >= 0,
    ensures
        r == capped(a + b),
{
    if a > i128::MAX - b {
        i128::MAX
    } else {
        a + b
    }
}

/// The accumulator of `node`.
fn slot(map: &Accumulators, node: &String) -> (r: i128)
    requires
        map.wf(),
    ensures
        r == total_of(map@, node@),
{
    match map.get(node) {
        Some(v) => *v,
        None => 0,
    }
}

/// Saturating accumulation for one node.
fn add_into(map: &mut Accumulators, node: String, amount: i128)
    requires
        old(map).wf(),
        magnitudes(old(map)@),
        amount >= 0,
    ensures
        final(map).wf(),
        final(map)@ == with_added(old(map)@, node@, amount as int),
        magnitudes(final(map)@),
{
    let have: i128 = slot(map, &node);
    map.insert(node, saturating(have, amount));
}

/// Takes over the larger accumulator of each node.
fn max_into(map: &mut Accumulators, other: &Accumulators)
    requires
        old(map).wf(),
        magnitudes(old(map)@),
        other.wf(),
        magnitudes(other@),
    ensures
        final(map).wf(),
        final(map)@ == node_max(old(map)@, other@),
        magnitudes(final(map)@),
{
    let ghost start = map@;
    let ghost list = other.list();
    let mut i: usize = 0;
    proof {
        other.lemma_list();
        ordmap::lemma_no_entries(list.take(0));
        assert(node_max(start, Map::empty()) =~= start);
    }
    while i < other.len()
        invariant
            i <= list.len(),
            list == other.list(),
            other.wf(),
            magnitudes(other@),
            map.wf(),
            map@ == node_max(start, ordmap::as_map(list.take(i as int))),
            magnitudes(map@),
        decreases list.len() - i,
    {
        proof {
            other.lemma_list();
            ordmap::lemma_one_more(list, i as int);
        }
        let node: String = other.key_at(i).clone();
        let theirs: i128 = *other.value_at(i);
        assert(other@.contains_key(list[i as int].0.model()));
        let mine: i128 = slot(map, &node);
        let ghost seen = ordmap::as_map(list.take(i as int));
        let ghost before = map@;
        map.insert(node, largest(mine, theirs));
        i = i + 1;
        proof {
            assert(map@ =~= node_max(start, seen.insert(node@, theirs)));
        }
    }
    proof {
        other.lemma_list();
        assert(list.take(i as int) =~= list);
    }
}

/// Adds every accumulator of `delta`.
fn add_all_into(map: &mut Accumulators, delta: &Accumulators)
    requires
        old(map).wf(),
        magnitudes(old(map)@),
        delta.wf(),
        magnitudes(delta@),
    ensures
        final(map).wf(),
        final(map)@ == with_all_added(old(map)@, delta@),
        magnitudes(final(map)@),
{
    let ghost start = map@;
    let ghost list = delta.list();
    let mut i: usize = 0;
    proof {
        delta.lemma_list();
        ordmap::lemma_no_entries(list.take(0));
        assert(with_all_added(start, Map::empty()) =~= start);
    }
    while i < delta.len()
        invariant
            i <= list.len(),
            list == delta.list(),
            delta.wf(),
            magnitudes(delta@),
            magnitudes(start),
            map.wf(),
            map@ == with_all_added(start, ordmap::as_map(list.take(i as int))),
            magnitudes(map@),
        decreases list.len() - i,
    {
        proof {
            delta.lemma_list();
            ordmap::lemma_one_more(list, i as int);
        }
        let node: String = delta.key_at(i).clone();
        let amount: i128 = *delta.value_at(i);
        assert(delta@.contains_key(list[i as int].0.model()));
        let ghost seen = ordmap::as_map(list.take(i as int));
        add_into(map, node, amount);
        i = i + 1;
        proof {
            assert(map@ =~= with_all_added(start, seen.insert(node@, amount)));
        }
    }
    proof {
        delta.lemma_list();
        assert(list.take(i as int) =~= list);
    }
}

/// The sum of all accumulators, saturating.
fn saturating_sum(map: &Accumulators) -> (r: i128)
    requires
        map.wf(),
        magnitudes(map@),
    ensures
        r == capped(grand_total(map@)),
        r >= 0,
{
    let ghost list = map.list();
    let mut acc: i128 = 0;
    let mut i: usize = 0;
    proof {
        map.lemma_list();
        ordmap::lemma_no_entries(list.take(0));
    }
    while i < map.len()
        invariant
            i <= list.len(),
            list == map.list(),
            map.wf(),
            magnitudes(map@),
            acc >= 0,
            ordmap::as_map(list.take(i as int)).dom().finite(),
            grand_total(ordmap::as_map(list.take(i as int))) >= 0,
            acc == capped(grand_total(ordmap::as_map(list.take(i as int)))),
        decreases list.len() - i,
    {
        proof {
            map.lemma_list();
            ordmap::lemma_one_more(list, i as int);
        }
        let v: i128 = *map.value_at(i);
        assert(map@.contains_key(list[i as int].0.model()));
        proof {
            lemma_total_insert(
                ordmap::as_map(list.take(i as int)),
                list[i as int].0.model(),
                v,
            );
        }
        acc = saturating(acc, v);
        i = i + 1;
    }
    proof {
        map.lemma_list();
        assert(list.take(i as int) =~= list);
    }
    acc
}

/// Per-node positive and negative accumulators of one signed exposure.
#[derive(Debug, PartialEq, Eq)]
pub struct SignedSum {
    pos: Accumulators,
    neg: Accumulators,
    /// Accumulated since the last [`take_delta`](Self::take_delta).
    pending_pos: Accumulators,
    pending_neg: Accumulators,
}

/// The increments accumulated since the last [`SignedSum::take_delta`].
#[derive(Debug, PartialEq, Eq)]
pub struct SignedSumDelta {
    pos: Accumulators,
    neg: Accumulators,
}

impl View for SignedSumDelta {
    type V = Totals;

    closed spec fn view(&self) -> Totals {
        Totals { pos: self.pos@, neg: self.neg@ }
    }
}

impl SignedSumDelta {
    pub closed spec fn wf(&self) -> bool {
        self.pos.wf() && self.neg.wf() && self@.valid()
    }

    /// The positive increment of `node`, if it has one.
    pub fn positive(&self, node: &str) -> (r: Option<i128>)
        requires
            self.wf(),
        ensures
            r == self@.pos.get(node@),
    {
        match self.pos.get(&node.to_owned()) {
            Some(v) => Some(*v),
            None => None,
        }
    }

    /// The negative increment of `node`, as a magnitude, if it has one.
    pub fn negative(&self, node: &str) -> (r: Option<i128>)
        requires
            self.wf(),
        ensures
            r == self@.neg.get(node@),
    {
        match self.neg.get(&node.to_owned()) {
            Some(v) => Some(*v),
            None => None,
        }
    }
}

/// An exposure with what has accumulated since its last delta.
#[verifier::ext_equal]
pub struct SumView {
    pub totals: Totals,
    pub pending: Totals,
}

impl SumView {
    pub open spec fn none() -> SumView {
        SumView { totals: Totals::none(), pending: Totals::none() }
    }

    pub open spec fn valid(self) -> bool {
        self.totals.valid() && self.pending.valid()
    }

    pub open spec fn contributed(self, node: Seq<char>, delta: int) -> SumView {
        SumView {
            totals: self.totals.contributed(node, delta),
            pending: self.pending.contributed(node, delta),
        }
    }

    pub open spec fn merged(self, other: SumView) -> SumView {
        SumView { totals: self.totals.merged(other.totals), ..self }
    }
}

impl View for SignedSum {
    type V = SumView;

    closed spec fn view(&self) -> SumView {
        SumView {
            totals: Totals { pos: self.pos@, neg: self.neg@ },
            pending: Totals { pos: self.pending_pos@, neg: self.pending_neg@ },
        }
    }
}

/// A copy of accumulators.
fn copied(map: &Accumulators) -> (r: Accumulators)
    requires
        map.wf(),
        magnitudes(map@),
    ensures
        r.wf(),
        r@ == map@,
{
    let mut r: Accumulators = OrdMap::new();
    max_into(&mut r, map);
    assert(r@ =~= map@);
    r
}

impl Default for SignedSum {
    fn default() -> (r: Self)
        ensures
            r.wf(),
            r@ == SumView::none(),
    {
        SignedSum::new()
    }
}

impl SignedSum {
    pub closed spec fn wf(&self) -> bool {
        self.pos.wf() && self.neg.wf() && self.pending_pos.wf() && self.pending_neg.wf()
            && self@.valid()
    }

    /// A well-formed exposure holds magnitudes.
    pub proof fn lemma_valid(&self)
        requires
            self.wf(),
        ensures
            self@.valid(),
    {
    }

    /// No exposure.
    pub fn new() -> (r: Self)
        ensures
            r.wf(),
            r@ == SumView::none(),
    {
        SignedSum {
            pos: OrdMap::new(),
            neg: OrdMap::new(),
            pending_pos: OrdMap::new(),
            pending_neg: OrdMap::new(),
        }
    }

    /// Another exposure with the same contents.
    pub fn duplicate(&self) -> (r: Self)
        requires
            self.wf(),
        ensures
            r.wf(),
            r@ == self@,
    {
        SignedSum {
            pos: copied(&self.pos),
            neg: copied(&self.neg),
            pending_pos: copied(&self.pending_pos),
            pending_neg: copied(&self.pending_neg),
        }
    }

    /// Applies a signed `delta` attributed to `node`.
    ///
    /// A `delta` of at least zero adds to the node's positive accumulator, a
    /// negative one adds its magnitude to the node's negative accumulator.
    /// Accumulation saturates.
    pub fn add(&mut self, node: &str, delta: i128)
        requires
            old(self).wf(),
        ensures
            final(self).wf(),
            final(self)@ == old(self)@.contributed(node@, delta as int),
    {
        if delta >= 0 {
            add_into(&mut self.pos, node.to_owned(), delta);
            add_into(&mut self.pending_pos, node.to_owned(), delta);
        } else {
            let magnitude: i128 = if delta == i128::MIN {
                i128::MAX
            } else {
                -delta
            };
            add_into(&mut self.neg, node.to_owned(), magnitude);
            add_into(&mut self.pending_neg, node.to_owned(), magnitude);
        }
    }

    /// Net signed exposure: the sum of the positive accumulators less the sum
    /// of the negative ones, each sum saturating.
    pub fn value(&self) -> (r: i128)
        requires
            self.wf(),
        ensures
            r == self@.totals.net(),
    {
        let pos: i128 = saturating_sum(&self.pos);
        let neg: i128 = saturating_sum(&self.neg);
        pos - neg
    }

    /// Merges the state of another replica: the larger accumulator of each node.
    pub fn merge(&mut self, other: &Self)
        requires
            old(self).wf(),
            other.wf(),
        ensures
            final(self).wf(),
            final(self)@ == old(self)@.merged(other@),
    {
        max_into(&mut self.pos, &other.pos);
        max_into(&mut self.neg, &other.neg);
    }

    /// The increments since the last call, if there were any.
    pub fn take_delta(&mut self) -> (r: Option<SignedSumDelta>)
        requires
            old(self).wf(),
        ensures
            final(self).wf(),
            final(self)@ == (SumView { pending: Totals::none(), ..old(self)@ }),
            r is None <==> old(self)@.pending == Totals::none(),
            r matches Some(d) ==> d.wf() && d@ == old(self)@.pending,
    {
        proof {
            self.pending_pos.lemma_list();
            self.pending_neg.lemma_list();
        }
        if self.pending_pos.len() == 0 && self.pending_neg.len() == 0 {
            proof {
                ordmap::lemma_no_entries(self.pending_pos.list());
                ordmap::lemma_no_entries(self.pending_neg.list());
            }
            return None;
        }
        proof {
            if self.pending_pos.list().len() > 0 {
                assert(self.pending_pos@.contains_key(self.pending_pos.list()[0].0.model()));
            } else {
                assert(self.pending_neg@.contains_key(self.pending_neg.list()[0].0.model()));
            }
        }
        let mut pos: Accumulators = OrdMap::new();
        let mut neg: Accumulators = OrdMap::new();
        std::mem::swap(&mut pos, &mut self.pending_pos);
        std::mem::swap(&mut neg, &mut self.pending_neg);
        Some(SignedSumDelta { pos, neg })
    }

    /// Adds the increments of another replica.
    pub fn merge_delta(&mut self, delta: &SignedSumDelta)
        requires
            old(self).wf(),
            delta.wf(),
        ensures
            final(self).wf(),
            final(self)@ == (SumView { totals: old(self)@.totals.plus(delta@), ..old(self)@ }),
    {
        add_all_into(&mut self.pos, &delta.pos);
        add_all_into(&mut self.neg, &delta.neg);
    }
}

// ---------------------------------------------------------------------------
// Keyed exposure
// ---------------------------------------------------------------------------
/// The exposure under `key`; none if the key is absent.
pub open spec fn sum_of<M>(m: Map<M, SumView>, key: M) -> SumView {
    if m.contains_key(key) {
        m[key]
    } else {
        SumView::none()
    }
}

/// Keyed exposures merge key by key.
pub open spec fn merged_keys<M>(a: Map<M, SumView>, b: Map<M, SumView>) -> Map<M, SumView> {
    Map::new(
        |key: M| a.contains_key(key) || b.contains_key(key),
        |key: M|
            if b.contains_key(key) {
                sum_of(a, key).merged(b[key])
            } else {
                a[key]
            },
    )
}

/// The converging part of keyed exposures.
pub open spec fn totals_of<M>(m: Map<M, SumView>) -> Map<M, Totals> {
    m.map_values(|s: SumView| s.totals)
}

pub open spec fn all_valid<M>(m: Map<M, SumView>) -> bool {
    forall|key: M| #[trigger] m.contains_key(key) ==> m[key].valid()
}

/// Map of `K` to exposure: converging net exposure per key.
#[derive(Debug, PartialEq, Eq)]
pub struct SignedSumMap<K> {
    entries: OrdMap<K, SignedSum>,
}

impl<K: Key> View for SignedSumMap<K> {
    type V = Map<K::Model, SumView>;

    closed spec fn view(&self) -> Map<K::Model, SumView> {
        self.entries@.map_values(|s: SignedSum| s@)
    }
}

impl<K: Key> SignedSumMap<K> {
    pub closed spec fn wf(&self) -> bool {
        &&& self.entries.wf()
        &&& forall|key: K::Model| #[trigger]
            self.entries@.contains_key(key) ==> self.entries@[key].wf()
    }

    /// A well-formed map holds magnitudes.
    pub proof fn lemma_valid(&self)
        requires
            self.wf(),
        ensures
            all_valid(self@),
    {
        assert forall|key: K::Model| #[trigger] self@.contains_key(key) implies self@[key].valid() by {
            assert(self.entries@.contains_key(key));
            self.entries@[key].lemma_valid();
        }
    }

    pub fn new() -> (r: Self)
        ensures
            r.wf(),
            r@ == Map::<K::Model, SumView>::empty(),
    {
        let r = SignedSumMap { entries: OrdMap::new() };
        assert(r@ =~= Map::<K::Model, SumView>::empty());
        r
    }

    /// The exposure under `key`, taken out of the map; none if it is absent.
    fn take(&mut self, key: &K) -> (r: SignedSum)
        requires
            old(self).wf(),
        ensures
            final(self).wf(),
            final(self)@ == old(self)@.remove(key.model()),
            r.wf(),
            r@ == sum_of(old(self)@, key.model()),
    {
        let taken: Option<SignedSum> = self.entries.remove(key);
        assert(self@ =~= old(self)@.remove(key.model()));
        match taken {
            Some(s) => s,
            None => SignedSum::new(),
        }
    }

    fn put(&mut self, key: K, sum: SignedSum)
        requires
            old(self).wf(),
            sum.wf(),
        ensures
            final(self).wf(),
            final(self)@ == old(self)@.insert(key.model(), sum@),
    {
        self.entries.insert(key, sum);
        assert(self@ =~= old(self)@.insert(key.model(), sum@));
    }

    /// Applies a signed `delta` attributed to `node` for `key`.
    pub fn add(&mut self, key: K, node: &str, delta: i128)
        requires
            old(self).wf(),
        ensures
            final(self).wf(),
            final(self)@ == old(self)@.insert(
                key.model(),
                sum_of(old(self)@, key.model()).contributed(node@, delta as int),
            ),
    {
        let mut sum: SignedSum = self.take(&key);
        sum.add(node, delta);
        self.put(key, sum);
        assert(self@ =~= old(self)@.insert(
            key.model(),
            sum_of(old(self)@, key.model()).contributed(node@, delta as int),
        ));
    }

    /// Net signed exposure for `key` (zero if the key is absent).
    pub fn get(&self, key: &K) -> (r: i128)
        requires
            self.wf(),
        ensures
            r == sum_of(self@, key.model()).totals.net(),
    {
        match self.entries.get(key) {
            Some(s) => s.value(),
            None => 0,
        }
    }

    /// The keys with their net exposures, in key order.
    pub fn entries(&self) -> (r: Vec<(&K, i128)>)
        requires
            self.wf(),
        ensures
            forall|i: int, j: int|
                0 <= i < j < r.len() ==> K::before(
                    (#[trigger] r[i]).0.model(),
                    (#[trigger] r[j]).0.model(),
                ),
            forall|i: int|
                0 <= i < r.len() ==> self@.contains_key((#[trigger] r[i]).0.model()) && r[i].1
                    == self@[r[i].0.model()].totals.net(),
            forall|key: K::Model| #[trigger]
                self@.contains_key(key) ==> exists|i: int|
                    0 <= i < r.len() && (#[trigger] r[i]).0.model() == key,
    {
        let mut out: Vec<(&K, i128)> = Vec::new();
        let mut i: usize = 0;
        let ghost list = self.entries.list();
        proof {
            self.entries.lemma_list();
        }
        while i < self.entries.len()
            invariant
                i <= list.len(),
                list == self.entries.list(),
                self.wf(),
                out.len() == i,
                forall|j: int| 0 <= j < i ==> (#[trigger] out@[j]).0.model() == list[j].0.model(),
                forall|j: int|
                    0 <= j < i ==> self@.contains_key((#[trigger] out@[j]).0.model()) && out@[j].1
                        == self@[out@[j].0.model()].totals.net(),
            decreases list.len() - i,
        {
            proof {
                self.entries.lemma_list();
                assert(self.entries@.contains_key(list[i as int].0.model()));
            }
            out.push((self.entries.key_at(i), self.entries.value_at(i).value()));
            i = i + 1;
        }
        proof {
            self.entries.lemma_list();
            assert forall|key: K::Model| #[trigger] self@.contains_key(key) implies exists|i: int|
                0 <= i < out.len() && (#[trigger] out[i]).0.model() == key by {
                assert(self.entries@.contains_key(key));
                let j = choose|j: int| ordmap::is_at(list, key, j);
                assert(out@[j].0.model() == list[j].0.model());
            }
        }
        out
    }

    /// Merges the state of another replica, key by key.
    pub fn merge(&mut self, other: &Self)
        requires
            old(self).wf(),
            other.wf(),
        ensures
            final(self).wf(),
            final(self)@ == merged_keys(old(self)@, other@),
    {
        let ghost start = self@;
        let ghost list = other.entries.list();
        let mut i: usize = 0;
        proof {
            other.entries.lemma_list();
            ordmap::lemma_no_entries(list.take(0));
            assert(merged_keys(start, Map::<K::Model, SumView>::empty()) =~= start);
            assert(views_of(list.take(0)) =~= Map::<K::Model, SumView>::empty());
        }
        while i < other.entries.len()
            invariant
                i <= list.len(),
                list == other.entries.list(),
                other.wf(),
                self.wf(),
                self@ == merged_keys(start, views_of(list.take(i as int))),
            decreases list.len() - i,
        {
            proof {
                other.entries.lemma_list();
                ordmap::lemma_one_more(list, i as int);
                assert(other.entries@.contains_key(list[i as int].0.model()));
            }
            let key: K = other.entries.key_at(i).duplicate();
            let ghost before = self@;
            let ghost seen = views_of(list.take(i as int));
            let mut sum: SignedSum = self.take(&key);
            sum.merge(other.entries.value_at(i));
            self.put(key, sum);
            proof {
                let theirs = list[i as int].1@;
                assert(views_of(list.take(i + 1)) =~= seen.insert(key.model(), theirs));
                assert(self@ =~= merged_keys(start, seen.insert(key.model(), theirs)));
            }
            i = i + 1;
        }
        proof {
            other.entries.lemma_list();
            assert(list.take(i as int) =~= list);
        }
    }
}

/// The exposures of a run of entries.
spec fn views_of<K: Key>(entries: Seq<(K, SignedSum)>) -> Map<K::Model, SumView> {
    ordmap::as_map(entries).map_values(|s: SignedSum| s@)
}

/// Keyed exposures converge as plain ones do: merging them is commutative,
/// associative and idempotent on what replicas exchange.
pub proof fn keyed_merge_converges<M>(
    a: Map<M, SumView>,
    b: Map<M, SumView>,
    c: Map<M, SumView>,
)
    requires
        all_valid(a),
        all_valid(b),
        all_valid(c),
    ensures
        totals_of(merged_keys(a, b)) == totals_of(merged_keys(b, a)),
        totals_of(merged_keys(merged_keys(a, b), c)) == totals_of(
            merged_keys(a, merged_keys(b, c)),
        ),
        totals_of(merged_keys(a, a)) == totals_of(a),
        totals_of(merged_keys(merged_keys(a, b), b)) == totals_of(merged_keys(a, b)),
{
    assert forall|x: Totals| x.valid() implies #[trigger] Totals::none().merged(x) == x && x.merged(
        Totals::none(),
    ) == x by {
        assert(node_max(Map::empty(), x.pos) =~= x.pos);
        assert(node_max(Map::empty(), x.neg) =~= x.neg);
        assert(node_max(x.pos, Map::empty()) =~= x.pos);
        assert(node_max(x.neg, Map::empty()) =~= x.neg);
    }
    let ab = merged_keys(a, b);
    let bc = merged_keys(b, c);
    assert forall|key: M| a.contains_key(key) || b.contains_key(key) || c.contains_key(key) implies {
        let x = sum_of(a, key).totals;
        let y = sum_of(b, key).totals;
        let z = sum_of(c, key).totals;
        &&& x.valid() && y.valid() && z.valid()
        &&& #[trigger] sum_of(ab, key).totals == x.merged(y)
        &&& #[trigger] sum_of(bc, key).totals == y.merged(z)
        &&& x.merged(y) == y.merged(x)
        &&& x.merged(y).merged(z) == x.merged(y.merged(z))
        &&& x.merged(x) == x
        &&& x.merged(y).merged(y) == x.merged(y)
    } by {
        let x = sum_of(a, key).totals;
        let y = sum_of(b, key).totals;
        let z = sum_of(c, key).totals;
        merge_commutes(x, y);
        merge_associates(x, y, z);
        merge_absorbs(x, y);
        merge_absorbs(y, z);
        assert(Totals::none().merged(y) == y);
        assert(Totals::none().merged(x) == x);
        assert(Totals::none().merged(z) == z);
        assert(Totals::none().merged(Totals::none()) == Totals::none());
    }
    assert forall|key: M| a.contains_key(key) || b.contains_key(key) implies totals_of(
        merged_keys(b, a),
    )[key] == totals_of(ab)[key] by {
        assert(sum_of(ab, key).totals == sum_of(a, key).totals.merged(sum_of(b, key).totals));
        merge_commutes(sum_of(a, key).totals, sum_of(b, key).totals);
        assert(Totals::none().merged(sum_of(b, key).totals) == sum_of(b, key).totals);
        assert(Totals::none().merged(sum_of(a, key).totals) == sum_of(a, key).totals);
    }
    assert(totals_of(ab) =~= totals_of(merged_keys(b, a)));
    assert forall|key: M|
        a.contains_key(key) || b.contains_key(key) || c.contains_key(key) implies totals_of(
        merged_keys(ab, c),
    )[key] == totals_of(merged_keys(a, bc))[key] by {
        assert(sum_of(ab, key).totals == sum_of(a, key).totals.merged(sum_of(b, key).totals));
        assert(sum_of(bc, key).totals == sum_of(b, key).totals.merged(sum_of(c, key).totals));
        assert(Totals::none().merged(sum_of(a, key).totals) == sum_of(a, key).totals);
        assert(Totals::none().merged(sum_of(b, key).totals) == sum_of(b, key).totals);
    }
    assert(totals_of(merged_keys(ab, c)) =~= totals_of(merged_keys(a, bc)));
    assert forall|key: M| a.contains_key(key) implies totals_of(merged_keys(a, a))[key]
        == totals_of(a)[key] by {
        assert(sum_of(ab, key).totals == sum_of(a, key).totals.merged(sum_of(b, key).totals));
    }
    assert(totals_of(merged_keys(a, a)) =~= totals_of(a));
    assert forall|key: M| a.contains_key(key) || b.contains_key(key) implies totals_of(
        merged_keys(ab, b),
    )[key] == totals_of(ab)[key] by {
        assert(sum_of(ab, key).totals == sum_of(a, key).totals.merged(sum_of(b, key).totals));
    }
    assert(totals_of(merged_keys(ab, b)) =~= totals_of(ab));
}

/// A contribution of at least zero raises the positive accumulator of its node by
/// its amount, a negative one raises the negative accumulator by its magnitude,
/// each up to the largest exposure; no other accumulator moves.
pub proof fn contribution_moves_one_accumulator(t: Totals, node: Seq<char>, delta: int, other: Seq<char>)
    requires
        t.valid(),
        i128::MIN <= delta <= i128::MAX,
    ensures
        ({
            let after = t.contributed(node, delta);
            &&& delta >= 0 ==> {
                &&& after.neg == t.neg
                &&& after.pos.contains_key(node)
                &&& total_of(t.pos, node) + delta <= i128::MAX ==> after.pos[node] == total_of(
                    t.pos,
                    node,
                ) + delta
                &&& total_of(t.pos, node) + delta > i128::MAX ==> after.pos[node] == i128::MAX
            }
            &&& delta < 0 ==> {
                &&& after.pos == t.pos
                &&& after.neg.contains_key(node)
                &&& total_of(t.neg, node) - delta <= i128::MAX ==> after.neg[node] == total_of(
                    t.neg,
                    node,
                ) - delta
                &&& total_of(t.neg, node) - delta > i128::MAX ==> after.neg[node] == i128::MAX
            }
            &&& other != node ==> after.pos.get(other) == t.pos.get(other) && after.neg.get(other)
                == t.neg.get(other)
        }),
        !t.pos.contains_key(other) ==> total_of(t.pos, other) == 0,
        t.pos.contains_key(other) ==> total_of(t.pos, other) == t.pos[other],
{
}

/// A merge holds, for every node that either side knows, the larger of the two
/// accumulators, and knows no other node. What waits to be sent as a delta is not
/// touched by it.
pub proof fn merge_takes_the_larger(a: Totals, b: Totals, node: Seq<char>, x: SumView, y: SumView)
    requires
        a.valid(),
        b.valid(),
    ensures
        ({
            let m = a.merged(b);
            &&& m.pos.contains_key(node) <==> a.pos.contains_key(node) || b.pos.contains_key(node)
            &&& m.neg.contains_key(node) <==> a.neg.contains_key(node) || b.neg.contains_key(node)
            &&& a.pos.contains_key(node) ==> m.pos[node] >= a.pos[node]
            &&& b.pos.contains_key(node) ==> m.pos[node] >= b.pos[node]
            &&& a.neg.contains_key(node) ==> m.neg[node] >= a.neg[node]
            &&& b.neg.contains_key(node) ==> m.neg[node] >= b.neg[node]
            &&& m.pos.contains_key(node) ==> (a.pos.contains_key(node) && m.pos[node]
                == a.pos[node]) || (b.pos.contains_key(node) && m.pos[node] == b.pos[node])
            &&& m.neg.contains_key(node) ==> (a.neg.contains_key(node) && m.neg[node]
                == a.neg[node]) || (b.neg.contains_key(node) && m.neg[node] == b.neg[node])
        }),
        x.merged(y).totals == x.totals.merged(y.totals),
        x.merged(y).pending == x.pending,
{
}

/// A delta adds, for every node it names, its increment to the accumulator, up to
/// the largest exposure; a node it does not name keeps its accumulators.
pub proof fn delta_adds_up(t: Totals, d: Totals, node: Seq<char>)
    requires
        t.valid(),
        d.valid(),
    ensures
        ({
            let after = t.plus(d);
            &&& after.pos.contains_key(node) <==> t.pos.contains_key(node) || d.pos.contains_key(
                node,
            )
            &&& after.neg.contains_key(node) <==> t.neg.contains_key(node) || d.neg.contains_key(
                node,
            )
            &&& !d.pos.contains_key(node) ==> after.pos.get(node) == t.pos.get(node)
            &&& !d.neg.contains_key(node) ==> after.neg.get(node) == t.neg.get(node)
            &&& d.pos.contains_key(node) && total_of(t.pos, node) + d.pos[node] <= i128::MAX
                ==> after.pos[node] == total_of(t.pos, node) + d.pos[node]
            &&& d.pos.contains_key(node) && total_of(t.pos, node) + d.pos[node] > i128::MAX
                ==> after.pos[node] == i128::MAX
            &&& d.neg.contains_key(node) && total_of(t.neg, node) + d.neg[node] <= i128::MAX
                ==> after.neg[node] == total_of(t.neg, node) + d.neg[node]
            &&& d.neg.contains_key(node) && total_of(t.neg, node) + d.neg[node] > i128::MAX
                ==> after.neg[node] == i128::MAX
        }),
{
}

/// The sum over the nodes counts each node once: without nodes it is zero, and a
/// further node adds its accumulator. The net exposure is the positive sum less
/// the negative one, each at most the largest exposure.
pub proof fn sums_count_each_node(m: NodeTotals, node: Seq<char>, amount: i128, t: Totals)
    requires
        magnitudes(m),
        !m.contains_key(node),
        amount >= 0,
        t.valid(),
    ensures
        grand_total(Map::empty()) == 0,
        grand_total(m.insert(node, amount)) == grand_total(m) + amount,
        grand_total(t.pos) <= i128::MAX && grand_total(t.neg) <= i128::MAX ==> t.net()
            == grand_total(t.pos) - grand_total(t.neg),
        grand_total(t.pos) > i128::MAX && grand_total(t.neg) <= i128::MAX ==> t.net() == i128::MAX
            - grand_total(t.neg),
        grand_total(t.pos) <= i128::MAX && grand_total(t.neg) > i128::MAX ==> t.net()
            == grand_total(t.pos) - i128::MAX,
        grand_total(t.pos) > i128::MAX && grand_total(t.neg) > i128::MAX ==> t.net() == 0,
        Totals::none().net() == 0,
{
    lemma_total_insert(m, node, amount);
}

/// A contribution is both counted and kept for the next delta.
pub proof fn contribution_waits_to_be_sent(s: SumView, node: Seq<char>, delta: int)
    ensures
        s.contributed(node, delta).totals == s.totals.contributed(node, delta),
        s.contributed(node, delta).pending == s.pending.contributed(node, delta),
        s.contributed(node, delta).pending != Totals::none(),
{
    let after = s.pending.contributed(node, delta);
    if delta >= 0 {
        assert(after.pos.contains_key(node));
    } else {
        assert(after.neg.contains_key(node));
    }
}

/// Keyed exposures merge key by key: a key that one side lacks keeps what the
/// other side holds of it, and no key is lost or made up.
pub proof fn keys_merge_apart<M>(a: Map<M, SumView>, b: Map<M, SumView>, key: M)
    requires
        all_valid(a),
        all_valid(b),
    ensures
        merged_keys(a, b).contains_key(key) <==> a.contains_key(key) || b.contains_key(key),
        a.contains_key(key) && !b.contains_key(key) ==> merged_keys(a, b)[key] == a[key],
        !a.contains_key(key) && b.contains_key(key) ==> merged_keys(a, b)[key].totals
            == b[key].totals,
        a.contains_key(key) && b.contains_key(key) ==> merged_keys(a, b)[key].totals
            == a[key].totals.merged(b[key].totals),
        !a.contains_key(key) ==> sum_of(a, key).totals.net() == 0,
        a.contains_key(key) ==> sum_of(a, key) == a[key],
{
    if b.contains_key(key) {
        let x = b[key].totals;
        assert(node_max(Map::empty(), x.pos) =~= x.pos);
        assert(node_max(Map::empty(), x.neg) =~= x.neg);
    }
}

} // verus!
