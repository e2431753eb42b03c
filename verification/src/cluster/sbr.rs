//! Downing strategies: which side of a partition survives.

use crate::cluster::member::{Member, MemberView};
use crate::text;
use vstd::prelude::*;

verus! {

/// What a strategy decides.
#[derive(Debug, Clone, Copy, PartialEq, Eq, Structural)]
pub enum DowningDecision {
    /// Wait.
    Stay,
    /// This side survives.
    DownUnreachable,
    /// Nobody survives.
    DownAll,
    /// This side loses.
    DownSelf,
}

/// The members behind a run of references.
pub open spec fn side(members: Seq<&Member>) -> Seq<MemberView> {
    members.map_values(|m: &Member| m@)
}

/// Decides, from the reachable and the unreachable members, which side of a
/// partition survives.
pub trait DowningStrategy {
    /// Whether the strategy may decide `d` on these two sides.
    open spec fn may_decide(
        &self,
        reachable: Seq<MemberView>,
        unreachable: Seq<MemberView>,
        d: DowningDecision,
    ) -> bool {
        true
    }

    fn decide(&self, reachable: &Vec<&Member>, unreachable: &Vec<&Member>) -> (d: DowningDecision)
        ensures
            self.may_decide(side(reachable@), side(unreachable@), d),
    ;
}

/// What an observer is told.
#[derive(Debug, Clone, Copy, PartialEq, Eq, Structural)]
pub enum QuorumEvent {
    Lost,
    Regained,
}

/// Is told when this side loses its quorum, and when it has it back.
pub trait QuorumObserver {
    /// What the observer has been told, in order.
    open spec fn told(&self) -> Seq<QuorumEvent> {
        arbitrary()
    }

    /// Whether the observer is well-formed.
    open spec fn wf(&self) -> bool {
        true
    }

    fn on_quorum_lost(&mut self)
        requires
            old(self).wf(),
        ensures
            final(self).wf(),
            final(self).told() == old(self).told().push(QuorumEvent::Lost),
    ;

    fn on_quorum_regained(&mut self)
        requires
            old(self).wf(),
        ensures
            final(self).wf(),
            final(self).told() == old(self).told().push(QuorumEvent::Regained),
    ;
}

/// An observer that does nothing.
pub struct NoObserver {
    told: Ghost<Seq<QuorumEvent>>,
}

impl NoObserver {
    pub fn new() -> (r: Self)
        ensures
            r.told() == Seq::<QuorumEvent>::empty(),
    {
        NoObserver { told: Ghost(Seq::empty()) }
    }
}

impl QuorumObserver for NoObserver {
    closed spec fn told(&self) -> Seq<QuorumEvent> {
        self.told@
    }

    open spec fn wf(&self) -> bool {
        true
    }

    fn on_quorum_lost(&mut self) {
        self.told = Ghost(self.told@.push(QuorumEvent::Lost));
    }

    fn on_quorum_regained(&mut self) {
        self.told = Ghost(self.told@.push(QuorumEvent::Regained));
    }
}

/// This side survives if and only if it reaches at least a fixed number of
/// members.
#[derive(Debug, Clone, Copy)]
pub struct StaticQuorumStrategy {
    pub quorum_size: usize,
}

impl DowningStrategy for StaticQuorumStrategy {
    open spec fn may_decide(
        &self,
        reachable: Seq<MemberView>,
        unreachable: Seq<MemberView>,
        d: DowningDecision,
    ) -> bool {
        d == (if reachable.len() >= self.quorum_size {
            DowningDecision::DownUnreachable
        } else {
            DowningDecision::DownSelf
        })
    }

    fn decide(&self, reachable: &Vec<&Member>, unreachable: &Vec<&Member>) -> (d: DowningDecision)
        ensures
            d == DowningDecision::DownUnreachable <==> reachable@.len() >= self.quorum_size,
            d == DowningDecision::DownSelf <==> reachable@.len() < self.quorum_size,
    {
        if reachable.len() >= self.quorum_size {
            DowningDecision::DownUnreachable
        } else {
            DowningDecision::DownSelf
        }
    }
}

/// This side survives if and only if the members it reaches weigh enough. Each
/// role has a weight; a member weighs as much as its heaviest role.
#[derive(Debug)]
pub struct RoleWeightedQuorum {
    weights: Vec<(String, u32)>,
    min_quorum_weight: u32,
}

/// The weight of `role`: that of its last entry, zero if it has none.
pub open spec fn role_weight(weights: Seq<(Seq<char>, u32)>, role: Seq<char>) -> u32
    decreases weights.len(),
{
    if weights.len() == 0 {
        0
    } else if weights.last().0 == role {
        weights.last().1
    } else {
        role_weight(weights.drop_last(), role)
    }
}

/// The weight of the heaviest of `roles`.
pub open spec fn heaviest(weights: Seq<(Seq<char>, u32)>, roles: Seq<Seq<char>>) -> u32
    decreases roles.len(),
{
    if roles.len() == 0 {
        0
    } else {
        let w = role_weight(weights, roles.last());
        let rest = heaviest(weights, roles.drop_last());
        if w >= rest {
            w
        } else {
            rest
        }
    }
}

/// The sum of the weights of the members.
pub open spec fn total_weight(weights: Seq<(Seq<char>, u32)>, members: Seq<MemberView>) -> nat
    decreases members.len(),
{
    if members.len() == 0 {
        0
    } else {
        total_weight(weights, members.drop_last()) + heaviest(
            weights,
            members.last().roles,
        ) as nat
    }
}

impl RoleWeightedQuorum {
    /// The weights, by role.
    pub closed spec fn table(&self) -> Seq<(Seq<char>, u32)> {
        self.weights@.map_values(|w: (String, u32)| (w.0@, w.1))
    }

    /// The least weight that survives.
    pub closed spec fn threshold(&self) -> u32 {
        self.min_quorum_weight
    }

    pub fn new(weights: Vec<(String, u32)>, min_quorum_weight: u32) -> (r: Self)
        ensures
            r.table() == weights@.map_values(|w: (String, u32)| (w.0@, w.1)),
            r.threshold() == min_quorum_weight,
    {
        RoleWeightedQuorum { weights, min_quorum_weight }
    }

    pub fn min_quorum_weight(&self) -> (r: u32)
        ensures
            r == self.threshold(),
    {
        self.min_quorum_weight
    }

    /// The weight of `role`, zero if it has none.
    pub fn weight_of(&self, role: &str) -> (r: u32)
        ensures
            r == role_weight(self.table(), role@),
    {
        let mut i: usize = self.weights.len();
        assert(self.table().take(i as int) =~= self.table());
        while i > 0
            invariant
                i <= self.weights.len(),
                role_weight(self.table(), role@) == role_weight(
                    self.table().take(i as int),
                    role@,
                ),
            decreases i,
        {
            assert(self.table().take(i as int).drop_last() =~= self.table().take(i - 1));
            assert(self.table().take(i as int).last() == self.table()[i - 1]);
            if text::same_text(self.weights[i - 1].0.as_str(), role) {
                return self.weights[i - 1].1;
            }
            i = i - 1;
        }
        0
    }

    /// The weight of a member: that of its heaviest role.
    pub fn member_weight(&self, member: &Member) -> (r: u32)
        ensures
            r == heaviest(self.table(), member@.roles),
    {
        let mut best: u32 = 0;
        let mut i: usize = 0;
        while i < member.roles.len()
            invariant
                i <= member.roles.len(),
                best == heaviest(self.table(), member@.roles.take(i as int)),
            decreases member.roles.len() - i,
        {
            assert(member@.roles.take(i + 1).drop_last() =~= member@.roles.take(i as int));
            assert(member@.roles.take(i + 1).last() == member.roles@[i as int]@);
            let w: u32 = self.weight_of(member.roles[i].as_str());
            if w >= best {
                best = w;
            }
            i = i + 1;
        }
        assert(member@.roles.take(i as int) =~= member@.roles);
        best
    }
}

impl DowningStrategy for RoleWeightedQuorum {
    open spec fn may_decide(
        &self,
        reachable: Seq<MemberView>,
        unreachable: Seq<MemberView>,
        d: DowningDecision,
    ) -> bool {
        d == (if total_weight(self.table(), reachable) >= self.threshold() {
            DowningDecision::DownUnreachable
        } else {
            DowningDecision::DownSelf
        })
    }

    fn decide(&self, reachable: &Vec<&Member>, unreachable: &Vec<&Member>) -> DowningDecision {
        let mut i: usize = 0;
        let mut sum: u64 = 0;
        let ghost all = side(reachable@);
        while i < reachable.len()
            invariant
                i <= reachable.len(),
                all == side(reachable@),
                i > 0 ==> sum < self.threshold(),
                sum <= u32::MAX,
                sum == total_weight(self.table(), all.take(i as int)),
            decreases reachable.len() - i,
        {
            assert(all.take(i + 1).drop_last() =~= all.take(i as int));
            assert(all.take(i + 1).last() == reachable@[i as int]@);
            sum = sum + self.member_weight(reachable[i]) as u64;
            i = i + 1;
            if sum >= self.min_quorum_weight as u64 {
                proof {
                    lemma_prefix_weight(self.table(), all, i as int);
                }
                return DowningDecision::DownUnreachable;
            }
        }
        assert(all.take(i as int) =~= all);
        if sum >= self.min_quorum_weight as u64 {
            DowningDecision::DownUnreachable
        } else {
            DowningDecision::DownSelf
        }
    }
}

/// Reaching more members never makes a side lighter.
pub proof fn lemma_prefix_weight(weights: Seq<(Seq<char>, u32)>, members: Seq<MemberView>, i: int)
    requires
        0 <= i <= members.len(),
    ensures
        total_weight(weights, members.take(i)) <= total_weight(weights, members),
    decreases members.len() - i,
{
    if i == members.len() {
        assert(members.take(i) =~= members);
    } else {
        lemma_prefix_weight(weights, members, i + 1);
        assert(members.take(i + 1).drop_last() =~= members.take(i));
    }
}

// ---------------------------------------------------------------------------
// Laws
// ---------------------------------------------------------------------------
/// With a static quorum this side survives exactly if it reaches at least the
/// quorum, whatever the other side holds, and otherwise downs itself; there is
/// no third decision.
pub proof fn static_quorum_counts_members(
    s: StaticQuorumStrategy,
    reachable: Seq<MemberView>,
    unreachable: Seq<MemberView>,
    d: DowningDecision,
)
    ensures
        s.may_decide(reachable, unreachable, d) <==> {
            ||| d == DowningDecision::DownUnreachable && reachable.len() >= s.quorum_size
            ||| d == DowningDecision::DownSelf && reachable.len() < s.quorum_size
        },
{
}

/// With weighted roles this side survives exactly if the members it reaches weigh
/// at least the threshold together, and otherwise downs itself.
pub proof fn weighted_quorum_weighs_members(
    s: RoleWeightedQuorum,
    reachable: Seq<MemberView>,
    unreachable: Seq<MemberView>,
    d: DowningDecision,
)
    ensures
        s.may_decide(reachable, unreachable, d) <==> {
            ||| d == DowningDecision::DownUnreachable && total_weight(s.table(), reachable)
                >= s.threshold()
            ||| d == DowningDecision::DownSelf && total_weight(s.table(), reachable)
                < s.threshold()
        },
{
}

/// The weight of a role is that of its last entry; a role without an entry weighs
/// nothing.
pub proof fn last_entry_of_a_role_counts(
    weights: Seq<(Seq<char>, u32)>,
    role: Seq<char>,
    i: int,
)
    ensures
        0 <= i < weights.len() && weights[i].0 == role && (forall|j: int|
            i < j < weights.len() ==> (#[trigger] weights[j]).0 != role) ==> role_weight(
            weights,
            role,
        ) == weights[i].1,
        (forall|j: int| 0 <= j < weights.len() ==> (#[trigger] weights[j]).0 != role)
            ==> role_weight(weights, role) == 0,
    decreases weights.len(),
{
    if weights.len() > 0 {
        let init = weights.drop_last();
        last_entry_of_a_role_counts(init, role, i);
        if forall|j: int| 0 <= j < weights.len() ==> (#[trigger] weights[j]).0 != role {
            assert(weights[weights.len() - 1].0 != role);
            assert forall|j: int| 0 <= j < init.len() implies (#[trigger] init[j]).0 != role by {
                assert(init[j] == weights[j]);
            }
        }
        if 0 <= i < weights.len() - 1 && weights[i].0 == role && (forall|j: int|
            i < j < weights.len() ==> (#[trigger] weights[j]).0 != role) {
            assert(weights[weights.len() - 1].0 != role);
            assert forall|j: int| i < j < init.len() implies (#[trigger] init[j]).0 != role by {
                assert(init[j] == weights[j]);
            }
        }
    }
}

/// A member weighs as much as its heaviest role: no role of it weighs more, and
/// one of its roles weighs as much, unless the member weighs nothing.
pub proof fn member_weighs_its_heaviest_role(
    weights: Seq<(Seq<char>, u32)>,
    roles: Seq<Seq<char>>,
)
    ensures
        forall|i: int|
            0 <= i < roles.len() ==> role_weight(weights, #[trigger] roles[i]) <= heaviest(
                weights,
                roles,
            ),
        heaviest(weights, roles) > 0 ==> exists|i: int|
            0 <= i < roles.len() && role_weight(weights, #[trigger] roles[i]) == heaviest(
                weights,
                roles,
            ),
    decreases roles.len(),
{
    if roles.len() > 0 {
        let init = roles.drop_last();
        member_weighs_its_heaviest_role(weights, init);
        assert forall|i: int| 0 <= i < roles.len() implies role_weight(weights, #[trigger] roles[i])
            <= heaviest(weights, roles) by {
            if i < roles.len() - 1 {
                assert(init[i] == roles[i]);
            }
        }
        if heaviest(weights, roles) > 0 {
            if heaviest(weights, roles) == role_weight(weights, roles.last()) {
                assert(roles[roles.len() - 1] == roles.last());
            } else {
                let i = choose|i: int|
                    0 <= i < init.len() && role_weight(weights, #[trigger] init[i]) == heaviest(
                        weights,
                        init,
                    );
                assert(roles[i] == init[i]);
            }
        }
    }
}

/// One more member adds its own weight to that of a side, whatever the order; an
/// empty side weighs nothing.
pub proof fn weights_of_members_add_up(
    weights: Seq<(Seq<char>, u32)>,
    members: Seq<MemberView>,
    m: MemberView,
)
    ensures
        total_weight(weights, Seq::empty()) == 0,
        total_weight(weights, members.push(m)) == total_weight(weights, members) + heaviest(
            weights,
            m.roles,
        ),
{
    assert(members.push(m).drop_last() =~= members);
}

} // verus!
