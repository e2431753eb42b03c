//! Members of a cluster, and which of them can be reached.

use crate::text;
use vstd::prelude::*;

verus! {

/// The address of a member: the actor system that it runs.
#[derive(Debug, PartialEq, Eq)]
pub struct Address {
    system: String,
}

impl View for Address {
    type V = Seq<char>;

    closed spec fn view(&self) -> Seq<char> {
        self.system@
    }
}

impl Clone for Address {
    fn clone(&self) -> (r: Self)
        ensures
            r@ == self@,
    {
        Address { system: self.system.clone() }
    }
}

/// The text of an address.
pub open spec fn address_text(address: Seq<char>) -> Seq<char> {
    "akka://"@ + address
}

impl Address {
    /// The address of the system `name`.
    pub fn local(name: &str) -> (r: Self)
        ensures
            r@ == name@,
    {
        Address { system: name.to_owned() }
    }

    /// The address as text.
    pub fn to_text(&self) -> (r: String)
        ensures
            r@ == address_text(self@),
    {
        let mut out: String = "akka://".to_owned();
        out.append(self.system.as_str());
        out
    }

    /// Whether two addresses are the same.
    pub fn same(&self, other: &Address) -> (r: bool)
        ensures
            r == (self@ == other@),
    {
        text::same_text(self.system.as_str(), other.system.as_str())
    }
}

/// Lifecycle status of a member.
#[derive(Debug, Clone, Copy, PartialEq, Eq, Structural)]
pub enum MemberStatus {
    Joining,
    Up,
    Leaving,
    Exiting,
    Down,
    Removed,
}

/// A member of the cluster.
#[derive(Debug)]
pub struct Member {
    pub address: Address,
    pub roles: Vec<String>,
    pub status: MemberStatus,
}

/// A member as a mathematical value.
#[verifier::ext_equal]
pub struct MemberView {
    pub address: Seq<char>,
    pub roles: Seq<Seq<char>>,
    pub status: MemberStatus,
}

impl View for Member {
    type V = MemberView;

    open spec fn view(&self) -> MemberView {
        MemberView {
            address: self.address@,
            roles: self.roles@.map_values(|r: String| r@),
            status: self.status,
        }
    }
}

impl Member {
    /// A joining member.
    pub fn new(address: Address, roles: Vec<String>) -> (r: Self)
        ensures
            r@ == (MemberView {
                address: address@,
                roles: roles@.map_values(|r: String| r@),
                status: MemberStatus::Joining,
            }),
    {
        Member { address, roles, status: MemberStatus::Joining }
    }
}

impl MemberView {
    /// Whether the member still takes part in the cluster.
    pub open spec fn takes_part(self) -> bool {
        self.status != MemberStatus::Down && self.status != MemberStatus::Removed
    }
}

/// Who finds whom unreachable.
#[derive(Debug)]
pub struct Reachability {
    /// Pairs of observer and subject.
    records: Vec<(Address, Address)>,
}

impl View for Reachability {
    type V = Set<(Seq<char>, Seq<char>)>;

    closed spec fn view(&self) -> Set<(Seq<char>, Seq<char>)> {
        pairs(self.records@)
    }
}

/// The pairs that a run of records holds.
spec fn pairs(records: Seq<(Address, Address)>) -> Set<(Seq<char>, Seq<char>)> {
    Set::new(
        |p: (Seq<char>, Seq<char>)|
            exists|i: int| #![trigger records[i]] 0 <= i < records.len() && records[i].0@ == p.0 && records[i].1@
                == p.1,
    )
}

/// Whether no observer finds `subject` unreachable.
pub open spec fn reachable_in(
    records: Set<(Seq<char>, Seq<char>)>,
    subject: Seq<char>,
) -> bool {
    forall|observer: Seq<char>| !#[trigger] records.contains((observer, subject))
}

impl Reachability {
    /// Everyone reaches everyone.
    pub fn new() -> (r: Self)
        ensures
            r@ == Set::<(Seq<char>, Seq<char>)>::empty(),
    {
        let r = Reachability { records: Vec::new() };
        assert(r@ =~= Set::<(Seq<char>, Seq<char>)>::empty());
        r
    }

    /// Records that `observer` finds `subject` unreachable.
    pub fn unreachable(&mut self, observer: Address, subject: Address)
        ensures
            final(self)@ == old(self)@.insert((observer@, subject@)),
    {
        let ghost before = self.records@;
        self.records.push((observer, subject));
        proof {
            let after = self.records@;
            assert forall|p: (Seq<char>, Seq<char>)| pairs(after).contains(p) == pairs(
                before,
            ).insert((observer@, subject@)).contains(p) by {
                if pairs(before).contains(p) {
                    let i = choose|i: int|
                        #![trigger before[i]]
                        0 <= i < before.len() && before[i].0@ == p.0 && before[i].1@ == p.1;
                    assert(after[i] == before[i]);
                }
                if p == (observer@, subject@) {
                    assert(after[before.len() as int] == (observer, subject));
                }
                if pairs(after).contains(p) {
                    let i = choose|i: int|
                        #![trigger after[i]]
                        0 <= i < after.len() && after[i].0@ == p.0 && after[i].1@ == p.1;
                    if i < before.len() {
                        assert(before[i] == after[i]);
                    }
                }
            }
            assert(pairs(after) =~= pairs(before).insert((observer@, subject@)));
        }
    }

    /// Records that `observer` reaches `subject` again.
    pub fn reachable(&mut self, observer: Address, subject: Address)
        ensures
            final(self)@ == old(self)@.remove((observer@, subject@)),
    {
        let ghost before = self.records@;
        let mut kept: Vec<(Address, Address)> = Vec::new();
        let mut i: usize = 0;
        while i < self.records.len()
            invariant
                i <= self.records.len(),
                self.records@ == before,
                forall|p: (Seq<char>, Seq<char>)| #[trigger]
                    pairs(kept@).contains(p) <==> pairs(before.take(i as int)).contains(p) && p != (
                        observer@,
                        subject@,
                    ),
            decreases self.records.len() - i,
        {
            let o: Address = self.records[i].0.clone();
            let s: Address = self.records[i].1.clone();
            let ghost held = kept@;
            let drop: bool = o.same(&observer) && s.same(&subject);
            if !drop {
                kept.push((o, s));
            }
            proof {
                let now = before.take(i + 1);
                let prev = before.take(i as int);
                assert forall|p: (Seq<char>, Seq<char>)| #[trigger]
                    pairs(kept@).contains(p) <==> pairs(now).contains(p) && p != (
                        observer@,
                        subject@,
                    ) by {
                    lemma_pairs_push(held, kept@, p);
                    lemma_pairs_push(prev, now, p);
                    assert(pairs(held).contains(p) <==> pairs(prev).contains(p) && p != (
                        observer@,
                        subject@,
                    ));
                }
            }
            i = i + 1;
        }
        self.records = kept;
        proof {
            assert(before.take(i as int) =~= before);
            assert forall|p: (Seq<char>, Seq<char>)| self@.contains(p) == old(self)@.remove(
                (observer@, subject@),
            ).contains(p) by {
                assert(pairs(kept@).contains(p) <==> pairs(before.take(i as int)).contains(p) && p
                    != (observer@, subject@));
            }
            assert(self@ =~= old(self)@.remove((observer@, subject@)));
        }
    }

    /// Whether no observer finds `subject` unreachable.
    pub fn is_reachable(&self, subject: &Address) -> (r: bool)
        ensures
            r == reachable_in(self@, subject@),
    {
        let mut i: usize = 0;
        while i < self.records.len()
            invariant
                i <= self.records.len(),
                forall|j: int| 0 <= j < i ==> (#[trigger] self.records@[j]).1@ != subject@,
            decreases self.records.len() - i,
        {
            if self.records[i].1.same(subject) {
                proof {
                    let p = (self.records@[i as int].0@, subject@);
                    assert(pairs(self.records@).contains(p));
                }
                return false;
            }
            i = i + 1;
        }
        true
    }
}

/// A run of records that is another one, or another one and one record more.
proof fn lemma_pairs_push(
    a: Seq<(Address, Address)>,
    b: Seq<(Address, Address)>,
    p: (Seq<char>, Seq<char>),
)
    requires
        a =~= b || (b.len() == a.len() + 1 && a =~= b.drop_last()),
    ensures
        pairs(b).contains(p) <==> pairs(a).contains(p) || (b.len() > a.len() && p == (
            b.last().0@,
            b.last().1@,
        )),
{
    if b.len() > a.len() {
        if pairs(a).contains(p) {
            let i = choose|i: int| #![trigger a[i]] 0 <= i < a.len() && a[i].0@ == p.0 && a[i].1@ == p.1;
            assert(b[i] == a[i]);
        }
        if p == (b.last().0@, b.last().1@) {
            assert(b[b.len() - 1] == b.last());
        }
        if pairs(b).contains(p) {
            let i = choose|i: int| #![trigger b[i]] 0 <= i < b.len() && b[i].0@ == p.0 && b[i].1@ == p.1;
            if i < a.len() {
                assert(a[i] == b[i]);
            }
        }
    }
}

/// What a node knows of the cluster.
#[derive(Debug)]
pub struct MembershipState {
    pub members: Vec<Member>,
    pub reachability: Reachability,
}

/// The members of a run.
pub open spec fn member_views(members: Seq<Member>) -> Seq<MemberView> {
    members.map_values(|m: Member| m@)
}

impl MembershipState {
    /// No member.
    pub fn new() -> (r: Self)
        ensures
            member_views(r.members@) == Seq::<MemberView>::empty(),
            r.reachability@ == Set::<(Seq<char>, Seq<char>)>::empty(),
    {
        let r = MembershipState { members: Vec::new(), reachability: Reachability::new() };
        assert(member_views(r.members@) =~= Seq::<MemberView>::empty());
        r
    }

    /// Replaces the first member with the address of `member`, or adds `member`
    /// at the end.
    pub fn add_or_update(&mut self, member: Member)
        ensures
            member_views(final(self).members@) == with_member(
                member_views(old(self).members@),
                member@,
            ),
            final(self).reachability == old(self).reachability,
    {
        let ghost before = member_views(self.members@);
        let mut i: usize = 0;
        while i < self.members.len()
            invariant
                i <= self.members.len(),
                before == member_views(self.members@),
                before == member_views(old(self).members@),
                forall|j: int| 0 <= j < i ==> (#[trigger] before[j]).address != member@.address,
                self.reachability == old(self).reachability,
            decreases self.members.len() - i,
        {
            if self.members[i].address.same(&member.address) {
                proof {
                    lemma_with_member(before, member@, i as int);
                }
                self.members.set(i, member);
                assert(member_views(self.members@) =~= before.update(i as int, member@));
                return ;
            }
            assert(before[i as int].address != member@.address);
            i = i + 1;
        }
        proof {
            lemma_with_member(before, member@, i as int);
        }
        self.members.push(member);
        assert(member_views(self.members@) =~= before.push(member@));
    }
}

/// The members once `m` was added, or took the place of the first member with
/// its address.
pub open spec fn with_member(members: Seq<MemberView>, m: MemberView) -> Seq<MemberView>
    decreases members.len(),
{
    if members.len() == 0 {
        seq![m]
    } else if members[0].address == m.address {
        members.update(0, m)
    } else {
        seq![members[0]] + with_member(members.drop_first(), m)
    }
}

proof fn lemma_with_member(members: Seq<MemberView>, m: MemberView, n: int)
    requires
        0 <= n <= members.len(),
        n < members.len() ==> members[n].address == m.address,
        forall|j: int| 0 <= j < n ==> (#[trigger] members[j]).address != m.address,
    ensures
        with_member(members, m) == (if n < members.len() {
            members.update(n, m)
        } else {
            members.push(m)
        }),
    decreases n,
{
    if n == 0 {
        if members.len() == 0 {
            assert(members.push(m) =~= seq![m]);
        }
    } else {
        let rest = members.drop_first();
        assert forall|j: int| 0 <= j < n - 1 implies (#[trigger] rest[j]).address != m.address by {
            assert(rest[j] == members[j + 1]);
        }
        assert(members[0].address != m.address);
        lemma_with_member(rest, m, n - 1);
        if n < members.len() {
            assert(seq![members[0]] + rest.update(n - 1, m) =~= members.update(n, m));
        } else {
            assert(seq![members[0]] + rest.push(m) =~= members.push(m));
        }
    }
}

/// A member takes the place of the first one with its address, and otherwise goes
/// to the end; every other member stays where it is.
pub proof fn member_takes_its_place(members: Seq<MemberView>, m: MemberView, n: int)
    requires
        0 <= n <= members.len(),
        n < members.len() ==> members[n].address == m.address,
        forall|j: int| 0 <= j < n ==> (#[trigger] members[j]).address != m.address,
    ensures
        ({
            let after = with_member(members, m);
            &&& after.len() == if n < members.len() {
                members.len()
            } else {
                members.len() + 1
            }
            &&& after[n] == m
            &&& forall|i: int| 0 <= i < members.len() && i != n ==> #[trigger] after[i] == members[i]
        }),
{
    lemma_with_member(members, m, n);
}

} // verus!
