//! A map that keeps its entries in key order.

use crate::text;
use vstd::prelude::*;

verus! {

/// How two keys stand to each other.
#[derive(Debug, Clone, Copy, PartialEq, Eq, Structural)]
pub enum Order {
    Less,
    Equal,
    Greater,
}

/// A type that can key an [`OrdMap`]: its values have a strict total order.
pub trait Key: Sized {
    /// What distinguishes one key from another.
    type Model;

    spec fn model(&self) -> Self::Model;

    /// Whether `a` comes before `b`.
    spec fn before(a: Self::Model, b: Self::Model) -> bool;

    proof fn irreflexive(a: Self::Model)
        ensures
            !Self::before(a, a),
    ;

    proof fn transitive(a: Self::Model, b: Self::Model, c: Self::Model)
        requires
            Self::before(a, b),
            Self::before(b, c),
        ensures
            Self::before(a, c),
    ;

    proof fn total(a: Self::Model, b: Self::Model)
        ensures
            a == b || Self::before(a, b) || Self::before(b, a),
    ;

    /// Compares two keys.
    fn compare(&self, other: &Self) -> (r: Order)
        ensures
            match r {
                Order::Less => Self::before(self.model(), other.model()),
                Order::Equal => self.model() == other.model(),
                Order::Greater => Self::before(other.model(), self.model()),
            },
    ;

    /// Another key that stands for the same.
    fn duplicate(&self) -> (r: Self)
        ensures
            r.model() == self.model(),
    ;
}

/// Lexicographic order by character.
pub open spec fn text_before(a: Seq<char>, b: Seq<char>) -> bool
    decreases a.len(),
{
    if b.len() == 0 {
        false
    } else if a.len() == 0 {
        true
    } else {
        a[0] < b[0] || (a[0] == b[0] && text_before(a.drop_first(), b.drop_first()))
    }
}

pub proof fn lemma_text_irreflexive(a: Seq<char>)
    ensures
        !text_before(a, a),
    decreases a.len(),
{
    if a.len() > 0 {
        lemma_text_irreflexive(a.drop_first());
    }
}

pub proof fn lemma_text_transitive(a: Seq<char>, b: Seq<char>, c: Seq<char>)
    requires
        text_before(a, b),
        text_before(b, c),
    ensures
        text_before(a, c),
    decreases a.len(),
{
    if a.len() > 0 && b.len() > 0 && c.len() > 0 && a[0] == b[0] && b[0] == c[0] {
        lemma_text_transitive(a.drop_first(), b.drop_first(), c.drop_first());
    }
}

pub proof fn lemma_text_total(a: Seq<char>, b: Seq<char>)
    ensures
        a == b || text_before(a, b) || text_before(b, a),
    decreases a.len(),
{
    if a.len() == 0 && b.len() == 0 {
        assert(a =~= b);
    } else if a.len() > 0 && b.len() > 0 && a[0] == b[0] {
        lemma_text_total(a.drop_first(), b.drop_first());
        if a.drop_first() == b.drop_first() {
            assert(a =~= seq![a[0]] + a.drop_first());
            assert(b =~= seq![b[0]] + b.drop_first());
        }
    }
}

/// Compares two strings lexicographically by character.
pub fn compare_text(a: &str, b: &str) -> (r: Order)
    ensures
        match r {
            Order::Less => text_before(a@, b@),
            Order::Equal => a@ == b@,
            Order::Greater => text_before(b@, a@),
        },
{
    let x: Vec<char> = text::chars_of(a);
    let y: Vec<char> = text::chars_of(b);
    let mut i: usize = 0;
    assert(x@.skip(0) =~= x@);
    assert(y@.skip(0) =~= y@);
    while i < x.len() && i < y.len()
        invariant
            i <= x.len(),
            i <= y.len(),
            x@.take(i as int) == y@.take(i as int),
            text_before(x@.skip(i as int), y@.skip(i as int)) ==> text_before(x@, y@),
            text_before(y@.skip(i as int), x@.skip(i as int)) ==> text_before(y@, x@),
            x@ == a@,
            y@ == b@,
        decreases x.len() - i,
    {
        let p: char = x[i];
        let q: char = y[i];
        if p < q {
            return Order::Less;
        }
        if p > q {
            return Order::Greater;
        }
        assert(x@.skip(i as int).drop_first() =~= x@.skip(i + 1));
        assert(y@.skip(i as int).drop_first() =~= y@.skip(i + 1));
        assert(x@.take(i + 1) =~= x@.take(i as int).push(p));
        assert(y@.take(i + 1) =~= y@.take(i as int).push(q));
        i = i + 1;
    }
    if i < y.len() {
        Order::Less
    } else if i < x.len() {
        Order::Greater
    } else {
        assert(x@.take(i as int) =~= x@);
        assert(y@.take(i as int) =~= y@);
        Order::Equal
    }
}

impl Key for String {
    type Model = Seq<char>;

    open spec fn model(&self) -> Seq<char> {
        self@
    }

    open spec fn before(a: Seq<char>, b: Seq<char>) -> bool {
        text_before(a, b)
    }

    proof fn irreflexive(a: Seq<char>) {
        lemma_text_irreflexive(a);
    }

    proof fn transitive(a: Seq<char>, b: Seq<char>, c: Seq<char>) {
        lemma_text_transitive(a, b, c);
    }

    proof fn total(a: Seq<char>, b: Seq<char>) {
        lemma_text_total(a, b);
    }

    fn compare(&self, other: &Self) -> Order {
        compare_text(self.as_str(), other.as_str())
    }

    fn duplicate(&self) -> Self {
        self.clone()
    }
}

impl<'a> Key for &'a str {
    type Model = Seq<char>;

    open spec fn model(&self) -> Seq<char> {
        self@
    }

    open spec fn before(a: Seq<char>, b: Seq<char>) -> bool {
        text_before(a, b)
    }

    proof fn irreflexive(a: Seq<char>) {
        lemma_text_irreflexive(a);
    }

    proof fn transitive(a: Seq<char>, b: Seq<char>, c: Seq<char>) {
        lemma_text_transitive(a, b, c);
    }

    proof fn total(a: Seq<char>, b: Seq<char>) {
        lemma_text_total(a, b);
    }

    fn compare(&self, other: &Self) -> Order {
        compare_text(self, other)
    }

    fn duplicate(&self) -> Self {
        *self
    }
}

/// A map whose entries stand in strictly ascending key order.
#[derive(Debug, PartialEq, Eq)]
pub struct OrdMap<K, V> {
    entries: Vec<(K, V)>,
}

/// Whether the keys of `entries` ascend strictly.
pub open spec fn ascending<K: Key, V>(entries: Seq<(K, V)>) -> bool {
    forall|i: int, j: int|
        0 <= i < j < entries.len() ==> K::before(
            (#[trigger] entries[i]).0.model(),
            (#[trigger] entries[j]).0.model(),
        )
}

/// The position of `key`, if it is there.
pub open spec fn is_at<K: Key, V>(entries: Seq<(K, V)>, key: K::Model, i: int) -> bool {
    0 <= i < entries.len() && entries[i].0.model() == key
}

/// The entries as a mathematical map.
pub open spec fn as_map<K: Key, V>(entries: Seq<(K, V)>) -> Map<K::Model, V> {
    Map::new(
        |key: K::Model| exists|i: int| is_at(entries, key, i),
        |key: K::Model| entries[choose|i: int| is_at(entries, key, i)].1,
    )
}

proof fn lemma_entry<K: Key, V>(entries: Seq<(K, V)>, i: int)
    requires
        ascending(entries),
        0 <= i < entries.len(),
    ensures
        as_map(entries).contains_key(entries[i].0.model()),
        as_map(entries)[entries[i].0.model()] == entries[i].1,
{
    let key = entries[i].0.model();
    assert(is_at(entries, key, i));
    let j = choose|j: int| is_at(entries, key, j);
    if j != i {
        K::irreflexive(key);
    }
}

proof fn lemma_absent<K: Key, V>(entries: Seq<(K, V)>, key: K::Model)
    requires
        forall|i: int| 0 <= i < entries.len() ==> (#[trigger] entries[i]).0.model() != key,
    ensures
        !as_map(entries).contains_key(key),
{
}

/// One more entry behind the others adds its key.
pub proof fn lemma_one_more<K: Key, V>(entries: Seq<(K, V)>, i: int)
    requires
        ascending(entries),
        0 <= i < entries.len(),
    ensures
        as_map(entries.take(i + 1)) == as_map(entries.take(i)).insert(
            entries[i].0.model(),
            entries[i].1,
        ),
        !as_map(entries.take(i)).contains_key(entries[i].0.model()),
{
    let head = entries.take(i);
    let next = entries.take(i + 1);
    let key = entries[i].0.model();
    assert forall|j: int| 0 <= j < head.len() implies K::before(
        (#[trigger] head[j]).0.model(),
        key,
    ) by {
        assert(head[j] == entries[j]);
    }
    assert(ascending(head)) by {
        assert forall|a: int, b: int| 0 <= a < b < head.len() implies K::before(
            (#[trigger] head[a]).0.model(),
            (#[trigger] head[b]).0.model(),
        ) by {
            assert(head[a] == entries[a]);
            assert(head[b] == entries[b]);
        }
    }
    lemma_inserted(head, i, entries[i]);
    assert(head.insert(i, entries[i]) =~= next);
    assert forall|j: int| 0 <= j < head.len() implies (#[trigger] head[j]).0.model() != key by {
        K::irreflexive(key);
    }
    lemma_absent(head, key);
}

/// No entries, no keys.
pub proof fn lemma_no_entries<K: Key, V>(entries: Seq<(K, V)>)
    requires
        entries.len() == 0,
    ensures
        as_map(entries) == Map::<K::Model, V>::empty(),
{
    assert(as_map(entries) =~= Map::<K::Model, V>::empty());
}

impl<K: Key, V> View for OrdMap<K, V> {
    type V = Map<K::Model, V>;

    closed spec fn view(&self) -> Map<K::Model, V> {
        as_map(self.entries@)
    }
}

impl<K: Key, V> OrdMap<K, V> {
    /// Whether the entries ascend.
    pub closed spec fn wf(&self) -> bool {
        ascending(self.entries@)
    }

    /// The entries in key order.
    pub closed spec fn list(&self) -> Seq<(K, V)> {
        self.entries@
    }

    /// What the map holds is what its entries say, and they ascend.
    pub proof fn lemma_list(&self)
        requires
            self.wf(),
        ensures
            ascending(self.list()),
            self@ == as_map(self.list()),
            forall|i: int|
                0 <= i < self.list().len() ==> {
                    let e = #[trigger] self.list()[i];
                    self@.contains_key(e.0.model()) && self@[e.0.model()] == e.1
                },
            forall|key: K::Model| #[trigger]
                self@.contains_key(key) ==> exists|i: int| is_at(self.list(), key, i),
    {
        assert forall|i: int| 0 <= i < self.list().len() implies {
            let e = #[trigger] self.list()[i];
            self@.contains_key(e.0.model()) && self@[e.0.model()] == e.1
        } by {
            lemma_entry(self.entries@, i);
        }
        assert forall|key: K::Model| #[trigger] self@.contains_key(key) implies exists|i: int|
            is_at(self.list(), key, i) by {
            assert(as_map(self.entries@).contains_key(key));
            let i = choose|i: int| is_at(self.entries@, key, i);
            assert(is_at(self.list(), key, i));
        }
    }

    pub fn new() -> (r: Self)
        ensures
            r.wf(),
            r@ == Map::<K::Model, V>::empty(),
            r.list() == Seq::<(K, V)>::empty(),
    {
        let r = OrdMap { entries: Vec::new() };
        assert(r@ =~= Map::<K::Model, V>::empty());
        r
    }

    pub fn len(&self) -> (n: usize)
        ensures
            n == self.list().len(),
    {
        self.entries.len()
    }

    /// The entries, in key order.
    pub fn into_entries(self) -> (r: Vec<(K, V)>)
        ensures
            r@ == self.list(),
    {
        self.entries
    }

    /// The key at position `i` of the key order.
    pub fn key_at(&self, i: usize) -> (r: &K)
        requires
            i < self.list().len(),
        ensures
            *r == self.list()[i as int].0,
    {
        &self.entries[i].0
    }

    /// The value at position `i` of the key order.
    pub fn value_at(&self, i: usize) -> (r: &V)
        requires
            i < self.list().len(),
        ensures
            *r == self.list()[i as int].1,
    {
        &self.entries[i].1
    }

    /// The position of `key`, or the position it would take, and whether it is
    /// there.
    fn search(&self, key: &K) -> (r: (usize, bool))
        requires
            self.wf(),
        ensures
            r.0 <= self.entries@.len(),
            r.1 ==> r.0 < self.entries@.len() && self.entries@[r.0 as int].0.model() == key.model(),
            !r.1 ==> !self@.contains_key(key.model()),
            forall|j: int|
                0 <= j < r.0 ==> K::before(
                    (#[trigger] self.entries@[j]).0.model(),
                    key.model(),
                ),
            forall|j: int|
                r.0 < j < self.entries@.len() ==> K::before(
                    key.model(),
                    (#[trigger] self.entries@[j]).0.model(),
                ),
            !r.1 && r.0 < self.entries@.len() ==> K::before(
                key.model(),
                self.entries@[r.0 as int].0.model(),
            ),
    {
        let mut i: usize = 0;
        while i < self.entries.len()
            invariant
                i <= self.entries.len(),
                self.wf(),
                forall|j: int|
                    0 <= j < i ==> K::before(
                        (#[trigger] self.entries@[j]).0.model(),
                        key.model(),
                    ),
            decreases self.entries.len() - i,
        {
            match self.entries[i].0.compare(key) {
                Order::Less => {
                    i = i + 1;
                },
                Order::Equal => {
                    return (i, true);
                },
                Order::Greater => {
                    proof {
                        assert forall|j: int| i < j < self.entries@.len() implies K::before(
                            key.model(),
                            (#[trigger] self.entries@[j]).0.model(),
                        ) by {
                            K::transitive(
                                key.model(),
                                self.entries@[i as int].0.model(),
                                self.entries@[j].0.model(),
                            );
                        }
                        assert forall|j: int| 0 <= j < self.entries@.len() implies (
                        #[trigger] self.entries@[j]).0.model() != key.model() by {
                            K::irreflexive(key.model());
                        }
                        lemma_absent(self.entries@, key.model());
                    }
                    return (i, false);
                },
            }
        }
        proof {
            assert forall|j: int| 0 <= j < self.entries@.len() implies (
            #[trigger] self.entries@[j]).0.model() != key.model() by {
                K::irreflexive(key.model());
            }
            lemma_absent(self.entries@, key.model());
        }
        (i, false)
    }

    /// The value of `key`.
    pub fn get(&self, key: &K) -> (r: Option<&V>)
        requires
            self.wf(),
        ensures
            r is Some <==> self@.contains_key(key.model()),
            r matches Some(v) ==> *v == self@[key.model()],
    {
        let (i, found): (usize, bool) = self.search(key);
        if found {
            proof {
                lemma_entry(self.entries@, i as int);
            }
            Some(&self.entries[i].1)
        } else {
            None
        }
    }

    /// Sets the value of `key` and returns the value it had.
    pub fn insert(&mut self, key: K, value: V) -> (r: Option<V>)
        requires
            old(self).wf(),
        ensures
            final(self).wf(),
            final(self)@ == old(self)@.insert(key.model(), value),
            r is Some <==> old(self)@.contains_key(key.model()),
            r matches Some(v) ==> v == old(self)@[key.model()],
    {
        let (i, found): (usize, bool) = self.search(&key);
        let ghost before = self.entries@;
        if found {
            let mut entry: (K, V) = (key, value);
            proof {
                lemma_entry(before, i as int);
            }
            self.entries.set_and_swap(i, &mut entry);
            proof {
                assert(self.entries@ =~= before.update(i as int, (key, value)));
                lemma_replaced(before, i as int, (key, value));
            }
            Some(entry.1)
        } else {
            self.entries.insert(i, (key, value));
            proof {
                lemma_inserted(before, i as int, (key, value));
            }
            None
        }
    }

    /// Removes `key` and returns the value it had.
    pub fn remove(&mut self, key: &K) -> (r: Option<V>)
        requires
            old(self).wf(),
        ensures
            final(self).wf(),
            final(self)@ == old(self)@.remove(key.model()),
            r is Some <==> old(self)@.contains_key(key.model()),
            r matches Some(v) ==> v == old(self)@[key.model()],
    {
        let (i, found): (usize, bool) = self.search(key);
        let ghost before = self.entries@;
        if found {
            let entry: (K, V) = self.entries.remove(i);
            proof {
                lemma_entry(before, i as int);
                lemma_removed(before, i as int);
            }
            Some(entry.1)
        } else {
            assert(self@ =~= old(self)@.remove(key.model()));
            None
        }
    }
}

proof fn lemma_replaced<K: Key, V>(entries: Seq<(K, V)>, i: int, entry: (K, V))
    requires
        ascending(entries),
        0 <= i < entries.len(),
        entries[i].0.model() == entry.0.model(),
    ensures
        ascending(entries.update(i, entry)),
        as_map(entries.update(i, entry)) == as_map(entries).insert(entry.0.model(), entry.1),
{
    let out = entries.update(i, entry);
    let key = entry.0.model();
    let map = as_map(entries).insert(key, entry.1);
    assert(ascending(out));
    assert forall|j: int| 0 <= j < out.len() implies map.contains_key(
        (#[trigger] out[j]).0.model(),
    ) && map[out[j].0.model()] == out[j].1 by {
        lemma_entry(entries, j);
        if j != i {
            assert(out[j] == entries[j]);
            K::irreflexive(key);
            if j < i {
                assert(K::before(entries[j].0.model(), entries[i].0.model()));
            } else {
                assert(K::before(entries[i].0.model(), entries[j].0.model()));
            }
        }
    }
    assert forall|k: K::Model| #[trigger] map.contains_key(k) implies exists|j: int|
        is_at(out, k, j) by {
        if k == key {
            assert(is_at(out, k, i));
        } else {
            let j = choose|j: int| is_at(entries, k, j);
            assert(is_at(out, k, j));
        }
    }
    lemma_same_map(entries, out, map);
}

/// A map is determined by what it holds under each key of its entries and by
/// holding no other key.
proof fn lemma_same_map<K: Key, V>(
    entries: Seq<(K, V)>,
    out: Seq<(K, V)>,
    map: Map<K::Model, V>,
)
    requires
        ascending(entries),
        ascending(out),
        forall|i: int|
            0 <= i < out.len() ==> map.contains_key((#[trigger] out[i]).0.model())
                && map[out[i].0.model()] == out[i].1,
        forall|key: K::Model| #[trigger]
            map.contains_key(key) ==> exists|i: int| is_at(out, key, i),
    ensures
        as_map(out) == map,
{
    assert forall|key: K::Model| as_map(out).contains_key(key) == map.contains_key(key) by {
        if as_map(out).contains_key(key) {
            let i = choose|i: int| is_at(out, key, i);
            assert(map.contains_key(out[i].0.model()));
        }
    }
    assert forall|key: K::Model| map.contains_key(key) implies as_map(out)[key] == map[key] by {
        let i = choose|i: int| is_at(out, key, i);
        lemma_entry(out, i);
        assert(map[out[i].0.model()] == out[i].1);
    }
    assert(as_map(out) =~= map);
}

proof fn lemma_inserted<K: Key, V>(entries: Seq<(K, V)>, i: int, entry: (K, V))
    requires
        ascending(entries),
        0 <= i <= entries.len(),
        forall|j: int|
            0 <= j < i ==> K::before((#[trigger] entries[j]).0.model(), entry.0.model()),
        forall|j: int|
            i <= j < entries.len() ==> K::before(
                entry.0.model(),
                (#[trigger] entries[j]).0.model(),
            ),
    ensures
        ascending(entries.insert(i, entry)),
        as_map(entries.insert(i, entry)) == as_map(entries).insert(entry.0.model(), entry.1),
{
    let out = entries.insert(i, entry);
    let key = entry.0.model();
    let map = as_map(entries).insert(key, entry.1);
    assert forall|a: int, b: int| 0 <= a < b < out.len() implies K::before(
        (#[trigger] out[a]).0.model(),
        (#[trigger] out[b]).0.model(),
    ) by {
        let p = if a < i {
            a
        } else {
            a - 1
        };
        let q = if b < i {
            b
        } else {
            b - 1
        };
        if a != i {
            assert(out[a] == entries[p]);
        }
        if b != i {
            assert(out[b] == entries[q]);
        }
    }
    assert forall|j: int| 0 <= j < out.len() implies map.contains_key(
        (#[trigger] out[j]).0.model(),
    ) && map[out[j].0.model()] == out[j].1 by {
        if j != i {
            let p = if j < i {
                j
            } else {
                j - 1
            };
            assert(out[j] == entries[p]);
            lemma_entry(entries, p);
            K::irreflexive(key);
        }
    }
    assert forall|k: K::Model| #[trigger] map.contains_key(k) implies exists|j: int|
        is_at(out, k, j) by {
        if k == key {
            assert(is_at(out, k, i));
        } else {
            let j = choose|j: int| is_at(entries, k, j);
            let p = if j < i {
                j
            } else {
                j + 1
            };
            assert(out[p] == entries[j]);
            assert(is_at(out, k, p));
        }
    }
    lemma_same_map(entries, out, map);
}

proof fn lemma_removed<K: Key, V>(entries: Seq<(K, V)>, i: int)
    requires
        ascending(entries),
        0 <= i < entries.len(),
    ensures
        ascending(entries.remove(i)),
        as_map(entries.remove(i)) == as_map(entries).remove(entries[i].0.model()),
{
    let out = entries.remove(i);
    let key = entries[i].0.model();
    let map = as_map(entries).remove(key);
    assert forall|a: int, b: int| 0 <= a < b < out.len() implies K::before(
        (#[trigger] out[a]).0.model(),
        (#[trigger] out[b]).0.model(),
    ) by {
        let p = if a < i {
            a
        } else {
            a + 1
        };
        let q = if b < i {
            b
        } else {
            b + 1
        };
        assert(out[a] == entries[p]);
        assert(out[b] == entries[q]);
    }
    assert forall|j: int| 0 <= j < out.len() implies map.contains_key(
        (#[trigger] out[j]).0.model(),
    ) && map[out[j].0.model()] == out[j].1 by {
        let p = if j < i {
            j
        } else {
            j + 1
        };
        assert(out[j] == entries[p]);
        lemma_entry(entries, p);
        if entries[p].0.model() == key {
            K::irreflexive(key);
            if p < i {
                assert(K::before(entries[p].0.model(), entries[i].0.model()));
            } else {
                assert(K::before(entries[i].0.model(), entries[p].0.model()));
            }
        }
    }
    assert forall|k: K::Model| #[trigger] map.contains_key(k) implies exists|j: int|
        is_at(out, k, j) by {
        let j = choose|j: int| is_at(entries, k, j);
        let p = if j < i {
            j
        } else {
            j - 1
        };
        assert(out[p] == entries[j]);
        assert(is_at(out, k, p));
    }
    lemma_same_map(entries, out, map);
}

/// Text is ordered by the first character that differs, and a text comes after
/// every shorter text that it begins with.
pub proof fn first_difference_orders(a: Seq<char>, b: Seq<char>, i: int)
    requires
        0 <= i <= a.len(),
        i <= b.len(),
        a.take(i) == b.take(i),
    ensures
        i < a.len() && i < b.len() && a[i] < b[i] ==> text_before(a, b),
        i < a.len() && i < b.len() && a[i] > b[i] ==> !text_before(a, b),
        i == a.len() && i < b.len() ==> text_before(a, b),
        i == b.len() ==> !text_before(a, b),
    decreases i,
{
    if i > 0 {
        assert(a[0] == a.take(i)[0]);
        assert(b[0] == b.take(i)[0]);
        assert(a.drop_first().take(i - 1) =~= a.take(i).drop_first());
        assert(b.drop_first().take(i - 1) =~= b.take(i).drop_first());
        first_difference_orders(a.drop_first(), b.drop_first(), i - 1);
    }
}

} // verus!
