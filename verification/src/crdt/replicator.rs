//! Replicated flags and registers, and the store that keeps them by key.

use crate::ordmap;
use crate::ordmap::{compare_text, OrdMap, Order};
use vstd::prelude::*;

verus! {

/// A flag that can be switched on and never off. Two copies merge to on if
/// either is on.
#[derive(Debug, Clone, Copy, PartialEq, Eq, Structural)]
pub struct Flag {
    on: bool,
}

impl View for Flag {
    type V = bool;

    closed spec fn view(&self) -> bool {
        self.on
    }
}

impl Flag {
    /// A flag that is off.
    pub fn new() -> (r: Self)
        ensures
            !r@,
    {
        Flag { on: false }
    }

    pub fn switch_on(&mut self)
        ensures
            final(self)@,
    {
        self.on = true;
    }

    pub fn enabled(&self) -> (r: bool)
        ensures
            r == self@,
    {
        self.on
    }

    pub fn merge(&mut self, other: &Flag)
        ensures
            final(self)@ == (old(self)@ || other@),
    {
        self.on = self.on || other.on;
    }
}

/// A register whose latest write wins. Two copies merge to the one with the
/// higher timestamp; of two with the same timestamp, to that of the node that
/// comes last.
#[derive(Debug)]
pub struct LwwRegister {
    node: String,
    value: u64,
    timestamp: u64,
}

/// A register as a mathematical value.
pub struct RegisterView {
    pub node: Seq<char>,
    pub value: u64,
    pub timestamp: u64,
}

impl RegisterView {
    /// Whether a write `other` replaces this one.
    pub open spec fn yields_to(self, other: RegisterView) -> bool {
        other.timestamp > self.timestamp || (other.timestamp == self.timestamp
            && ordmap::text_before(self.node, other.node))
    }

    pub open spec fn merged(self, other: RegisterView) -> RegisterView {
        if self.yields_to(other) {
            other
        } else {
            self
        }
    }
}

impl View for LwwRegister {
    type V = RegisterView;

    closed spec fn view(&self) -> RegisterView {
        RegisterView { node: self.node@, value: self.value, timestamp: self.timestamp }
    }
}

impl LwwRegister {
    pub fn new(node: &str, value: u64, timestamp: u64) -> (r: Self)
        ensures
            r@ == (RegisterView { node: node@, value, timestamp }),
    {
        LwwRegister { node: node.to_owned(), value, timestamp }
    }

    pub fn value(&self) -> (r: u64)
        ensures
            r == self@.value,
    {
        self.value
    }

    pub fn timestamp(&self) -> (r: u64)
        ensures
            r == self@.timestamp,
    {
        self.timestamp
    }

    fn yields_to(&self, other: &LwwRegister) -> (r: bool)
        ensures
            r == self@.yields_to(other@),
    {
        if other.timestamp == self.timestamp {
            match compare_text(self.node.as_str(), other.node.as_str()) {
                Order::Less => true,
                Order::Equal => {
                    proof {
                        ordmap::lemma_text_irreflexive(self.node@);
                    }
                    false
                },
                Order::Greater => {
                    proof {
                        if ordmap::text_before(self.node@, other.node@) {
                            ordmap::lemma_text_transitive(self.node@, other.node@, self.node@);
                            ordmap::lemma_text_irreflexive(self.node@);
                        }
                    }
                    false
                },
            }
        } else {
            other.timestamp > self.timestamp
        }
    }
}

impl Clone for LwwRegister {
    fn clone(&self) -> (r: Self)
        ensures
            r@ == self@,
    {
        LwwRegister {
            node: self.node.clone(),
            value: self.value,
            timestamp: self.timestamp,
        }
    }
}

/// Flags and registers by key.
#[derive(Debug)]
pub struct Replicator {
    flags: OrdMap<String, Flag>,
    registers: OrdMap<String, LwwRegister>,
}

/// A replicator as a mathematical value.
#[verifier::ext_equal]
pub struct ReplicatorView {
    pub flags: Map<Seq<char>, bool>,
    pub registers: Map<Seq<char>, RegisterView>,
}

impl ReplicatorView {
    /// Whether the flag under `key` is on.
    pub open spec fn is_on(self, key: Seq<char>) -> bool {
        self.flags.contains_key(key) && self.flags[key]
    }

    /// The replicator after a copy of a flag was merged in.
    pub open spec fn with_flag(self, key: Seq<char>, on: bool) -> ReplicatorView {
        ReplicatorView { flags: self.flags.insert(key, self.is_on(key) || on), ..self }
    }

    /// The replicator after a copy of a register was merged in.
    pub open spec fn with_register(self, key: Seq<char>, r: RegisterView) -> ReplicatorView {
        ReplicatorView {
            registers: self.registers.insert(
                key,
                if self.registers.contains_key(key) {
                    self.registers[key].merged(r)
                } else {
                    r
                },
            ),
            ..self
        }
    }

    /// The replicator after the whole of another one was merged in.
    pub open spec fn merged(self, other: ReplicatorView) -> ReplicatorView {
        ReplicatorView {
            flags: Map::new(
                |key: Seq<char>| self.flags.contains_key(key) || other.flags.contains_key(key),
                |key: Seq<char>| self.is_on(key) || other.is_on(key),
            ),
            registers: Map::new(
                |key: Seq<char>|
                    self.registers.contains_key(key) || other.registers.contains_key(key),
                |key: Seq<char>|
                    if !other.registers.contains_key(key) {
                        self.registers[key]
                    } else if !self.registers.contains_key(key) {
                        other.registers[key]
                    } else {
                        self.registers[key].merged(other.registers[key])
                    },
            ),
        }
    }
}

impl View for Replicator {
    type V = ReplicatorView;

    closed spec fn view(&self) -> ReplicatorView {
        ReplicatorView {
            flags: self.flags@.map_values(|f: Flag| f@),
            registers: self.registers@.map_values(|r: LwwRegister| r@),
        }
    }
}

impl Replicator {
    pub closed spec fn wf(&self) -> bool {
        self.flags.wf() && self.registers.wf()
    }

    /// Nothing stored.
    pub fn new() -> (r: Self)
        ensures
            r.wf(),
            r@ == (ReplicatorView { flags: Map::empty(), registers: Map::empty() }),
    {
        let r = Replicator { flags: OrdMap::new(), registers: OrdMap::new() };
        assert(r@.flags =~= Map::<Seq<char>, bool>::empty());
        assert(r@.registers =~= Map::<Seq<char>, RegisterView>::empty());
        r
    }

    /// Merges a copy of the flag under `key`.
    pub fn update_flag(&mut self, key: &str, flag: Flag)
        requires
            old(self).wf(),
        ensures
            final(self).wf(),
            final(self)@ == old(self)@.with_flag(key@, flag@),
    {
        let k: String = key.to_owned();
        let mut merged: Flag = flag;
        if let Some(held) = self.flags.get(&k) {
            merged.merge(held);
        }
        self.flags.insert(k, merged);
        assert(self@.flags =~= old(self)@.with_flag(key@, flag@).flags);
        assert(self@.registers =~= old(self)@.registers);
    }

    /// Merges a copy of the register under `key`.
    pub fn update_register(&mut self, key: &str, register: LwwRegister)
        requires
            old(self).wf(),
        ensures
            final(self).wf(),
            final(self)@ == old(self)@.with_register(key@, register@),
    {
        let k: String = key.to_owned();
        let stays: bool = match self.registers.get(&k) {
            Some(held) => !held.yields_to(&register),
            None => false,
        };
        if !stays {
            self.registers.insert(k, register);
        }
        assert(self@.flags =~= old(self)@.flags);
        assert(self@.registers =~= old(self)@.with_register(key@, register@).registers);
    }

    /// The flag under `key`.
    pub fn get_flag(&self, key: &str) -> (r: Option<Flag>)
        requires
            self.wf(),
        ensures
            r is Some <==> self@.flags.contains_key(key@),
            r matches Some(f) ==> f@ == self@.flags[key@],
    {
        match self.flags.get(&key.to_owned()) {
            Some(f) => Some(*f),
            None => None,
        }
    }

    /// The register under `key`.
    pub fn get_register(&self, key: &str) -> (r: Option<LwwRegister>)
        requires
            self.wf(),
        ensures
            r is Some <==> self@.registers.contains_key(key@),
            r matches Some(v) ==> v@ == self@.registers[key@],
    {
        match self.registers.get(&key.to_owned()) {
            Some(v) => Some(v.clone()),
            None => None,
        }
    }

    /// Merges the whole of another replicator.
    pub fn merge(&mut self, other: &Replicator)
        requires
            old(self).wf(),
            other.wf(),
        ensures
            final(self).wf(),
            final(self)@ == old(self)@.merged(other@),
    {
        let ghost start = self@;
        let ghost flags = other.flags.list();
        let mut i: usize = 0;
        proof {
            other.flags.lemma_list();
            ordmap::lemma_no_entries(flags.take(0));
            assert(self@.flags =~= merged_flags(start, flag_map(flags.take(0))));
        }
        while i < other.flags.len()
            invariant
                i <= flags.len(),
                flags == other.flags.list(),
                other.wf(),
                self.wf(),
                self@.registers == start.registers,
                self@.flags == merged_flags(start, flag_map(flags.take(i as int))),
            decreases flags.len() - i,
        {
            proof {
                other.flags.lemma_list();
                ordmap::lemma_one_more(flags, i as int);
            }
            let key: &String = other.flags.key_at(i);
            let flag: Flag = *other.flags.value_at(i);
            let ghost seen = flag_map(flags.take(i as int));
            self.update_flag(key.as_str(), flag);
            proof {
                assert(flag_map(flags.take(i + 1)) =~= seen.insert(key@, flag@));
                assert(self@.flags =~= merged_flags(start, seen.insert(key@, flag@)));
            }
            i = i + 1;
        }
        let ghost registers = other.registers.list();
        let mut j: usize = 0;
        proof {
            other.flags.lemma_list();
            other.registers.lemma_list();
            assert(flags.take(i as int) =~= flags);
            assert(self@.flags =~= start.merged(other@).flags);
            ordmap::lemma_no_entries(registers.take(0));
            assert(self@.registers =~= merged_registers(start, register_map(registers.take(0))));
        }
        while j < other.registers.len()
            invariant
                j <= registers.len(),
                registers == other.registers.list(),
                other.wf(),
                self.wf(),
                self@.flags == start.merged(other@).flags,
                self@.registers == merged_registers(start, register_map(registers.take(j as int))),
            decreases registers.len() - j,
        {
            proof {
                other.registers.lemma_list();
                ordmap::lemma_one_more(registers, j as int);
            }
            let key: &String = other.registers.key_at(j);
            let register: LwwRegister = other.registers.value_at(j).clone();
            let ghost seen = register_map(registers.take(j as int));
            self.update_register(key.as_str(), register);
            proof {
                assert(register_map(registers.take(j + 1)) =~= seen.insert(key@, register@));
                assert(self@.registers =~= merged_registers(
                    start,
                    seen.insert(key@, register@),
                ));
            }
            j = j + 1;
        }
        proof {
            other.registers.lemma_list();
            assert(registers.take(j as int) =~= registers);
            assert(self@.registers =~= start.merged(other@).registers);
        }
    }
}

spec fn flag_map(entries: Seq<(String, Flag)>) -> Map<Seq<char>, bool> {
    ordmap::as_map(entries).map_values(|f: Flag| f@)
}

spec fn register_map(entries: Seq<(String, LwwRegister)>) -> Map<Seq<char>, RegisterView> {
    ordmap::as_map(entries).map_values(|r: LwwRegister| r@)
}

spec fn merged_flags(start: ReplicatorView, flags: Map<Seq<char>, bool>) -> Map<Seq<char>, bool> {
    start.merged(ReplicatorView { flags, registers: Map::empty() }).flags
}

spec fn merged_registers(
    start: ReplicatorView,
    registers: Map<Seq<char>, RegisterView>,
) -> Map<Seq<char>, RegisterView> {
    start.merged(ReplicatorView { flags: Map::empty(), registers }).registers
}

/// A flag that is on stays on, whatever copies are merged in.
pub proof fn flags_latch(
    r: ReplicatorView,
    key: Seq<char>,
    other_key: Seq<char>,
    on: bool,
    register: RegisterView,
    other: ReplicatorView,
)
    requires
        r.is_on(key),
    ensures
        r.with_flag(other_key, on).is_on(key),
        r.with_register(other_key, register).is_on(key),
        r.merged(other).is_on(key),
        other.merged(r).is_on(key),
{
}

/// Of two writes to a register the one with the higher timestamp wins, whichever
/// is merged into the other; at the same timestamp the one of the node that comes
/// last in the order of text. Merging a write with itself changes nothing.
pub proof fn latest_write_wins(a: RegisterView, b: RegisterView)
    ensures
        a.timestamp < b.timestamp ==> a.merged(b) == b && b.merged(a) == b,
        a.timestamp == b.timestamp && ordmap::text_before(a.node, b.node) ==> a.merged(b) == b
            && b.merged(a) == b,
        a.timestamp == b.timestamp && a.node == b.node ==> a.merged(b) == a,
        a.merged(a) == a,
{
    ordmap::lemma_text_irreflexive(a.node);
    if ordmap::text_before(a.node, b.node) && ordmap::text_before(b.node, a.node) {
        ordmap::lemma_text_transitive(a.node, b.node, a.node);
    }
}

/// A copy merged under a key touches that key alone: the flag there is on if it
/// was on or the copy is, the register there is the later of the two writes.
pub proof fn copies_merge_under_their_key(
    r: ReplicatorView,
    key: Seq<char>,
    on: bool,
    write: RegisterView,
    other: Seq<char>,
)
    ensures
        r.with_flag(key, on).is_on(key) <==> r.is_on(key) || on,
        other != key ==> r.with_flag(key, on).flags.get(other) == r.flags.get(other),
        r.with_flag(key, on).registers == r.registers,
        r.with_register(key, write).flags == r.flags,
        r.with_register(key, write).registers.contains_key(key),
        !r.registers.contains_key(key) ==> r.with_register(key, write).registers[key] == write,
        r.registers.contains_key(key) && write.timestamp > r.registers[key].timestamp
            ==> r.with_register(key, write).registers[key] == write,
        r.registers.contains_key(key) && write.timestamp < r.registers[key].timestamp
            ==> r.with_register(key, write).registers[key] == r.registers[key],
        other != key ==> r.with_register(key, write).registers.get(other) == r.registers.get(other),
        r.is_on(key) <==> r.flags.get(key) == Some(true),
{
}

/// Two replicators merge key by key: a flag is on exactly if either side has it
/// on, a register that one side lacks is the other side's, and one that both hold
/// is the later of the two writes.
pub proof fn replicators_merge_key_by_key(a: ReplicatorView, b: ReplicatorView, key: Seq<char>)
    ensures
        a.merged(b).is_on(key) <==> a.is_on(key) || b.is_on(key),
        a.merged(b).registers.contains_key(key) <==> a.registers.contains_key(key)
            || b.registers.contains_key(key),
        a.registers.contains_key(key) && !b.registers.contains_key(key) ==> a.merged(
            b,
        ).registers[key] == a.registers[key],
        !a.registers.contains_key(key) && b.registers.contains_key(key) ==> a.merged(
            b,
        ).registers[key] == b.registers[key],
        a.registers.contains_key(key) && b.registers.contains_key(key)
            && a.registers[key].timestamp < b.registers[key].timestamp ==> a.merged(
            b,
        ).registers[key] == b.registers[key],
        a.registers.contains_key(key) && b.registers.contains_key(key)
            && a.registers[key].timestamp > b.registers[key].timestamp ==> a.merged(
            b,
        ).registers[key] == a.registers[key],
{
}

} // verus!
