//! Pairs a [`DowningStrategy`] with a stability deadline: once a partition has
//! been observed for long enough, the strategy is asked, and its decision
//! becomes the action that the leader applies.

use crate::cluster::member;
use crate::cluster::member::{Member, MemberStatus, MemberView, MembershipState};
use crate::cluster::sbr;
use crate::cluster::sbr::{
    DowningDecision, DowningStrategy, NoObserver, QuorumEvent, QuorumObserver,
};
use crate::time::{LogicalTime, Span};
use vstd::prelude::*;

verus! {

/// Action that [`SbrRuntime::tick`] returns.
#[derive(Debug, PartialEq, Eq)]
#[non_exhaustive]
pub enum SbrAction {
    /// No change: the partition is not yet stable, or nothing was decided.
    Nothing,
    /// Down each address (the unreachable side).
    DownUnreachable(Vec<String>),
    /// Down every member.
    DownAll(Vec<String>),
    /// Down this node: this side lost.
    DownSelf,
}

/// An action as a mathematical value.
pub enum ActionView {
    Nothing,
    DownUnreachable(Seq<Seq<char>>),
    DownAll(Seq<Seq<char>>),
    DownSelf,
}

/// The texts of a run of strings.
pub open spec fn texts(strings: Seq<String>) -> Seq<Seq<char>> {
    strings.map_values(|s: String| s@)
}

impl View for SbrAction {
    type V = ActionView;

    open spec fn view(&self) -> ActionView {
        match self {
            SbrAction::Nothing => ActionView::Nothing,
            SbrAction::DownUnreachable(v) => ActionView::DownUnreachable(texts(v@)),
            SbrAction::DownAll(v) => ActionView::DownAll(texts(v@)),
            SbrAction::DownSelf => ActionView::DownSelf,
        }
    }
}

/// The addresses of a run of members, as text.
pub open spec fn addresses(members: Seq<MemberView>) -> Seq<Seq<char>> {
    members.map_values(|m: MemberView| member::address_text(m.address))
}

/// The members that take part and can be reached.
pub open spec fn reachable_side(
    members: Seq<MemberView>,
    records: Set<(Seq<char>, Seq<char>)>,
) -> Seq<MemberView> {
    members.filter(|m: MemberView| m.takes_part() && member::reachable_in(records, m.address))
}

/// The members that take part and cannot be reached.
pub open spec fn unreachable_side(
    members: Seq<MemberView>,
    records: Set<(Seq<char>, Seq<char>)>,
) -> Seq<MemberView> {
    members.filter(|m: MemberView| m.takes_part() && !member::reachable_in(records, m.address))
}

/// The time from `since` to `now`; none if `now` is earlier.
pub open spec fn elapsed(now: u64, since: u64) -> int {
    if now >= since {
        now - since
    } else {
        0
    }
}

/// The state of a runtime as a mathematical value.
#[verifier::ext_equal]
pub struct SbrView {
    /// When a partition was first observed; `None` while there is none.
    pub unstable_since: Option<u64>,
    /// Whether the loss of the quorum was announced and its return was not.
    pub quorum_lost: bool,
    /// What the observer, where there is one, has been told.
    pub told: Option<Seq<QuorumEvent>>,
}

impl SbrView {
    /// The runtime after the observer was told `event`.
    pub open spec fn tell(self, event: QuorumEvent) -> SbrView {
        SbrView {
            told: match self.told {
                Some(t) => Some(t.push(event)),
                None => None,
            },
            ..self
        }
    }

    /// The runtime once every member can be reached.
    pub open spec fn healed(self) -> SbrView {
        let s = SbrView { unstable_since: None, ..self };
        if self.quorum_lost {
            SbrView { quorum_lost: false, ..s }.tell(QuorumEvent::Regained)
        } else {
            s
        }
    }

    /// The runtime once a partition is observed at `now`.
    pub open spec fn observing(self, now: u64) -> SbrView {
        SbrView {
            unstable_since: Some(
                match self.unstable_since {
                    Some(t) => t,
                    None => now,
                },
            ),
            ..self
        }
    }

    /// Whether the partition, where there is one, has lasted at least `limit`.
    pub open spec fn stable(self, now: u64, limit: Span) -> bool {
        match self.unstable_since {
            Some(since) => elapsed(now, since) >= limit.total_nanos(),
            None => true,
        }
    }

    /// What the runtime does about the decision `d`.
    pub open spec fn decided(
        self,
        d: DowningDecision,
        members: Seq<MemberView>,
        unreachable: Seq<MemberView>,
    ) -> (SbrView, ActionView) {
        match d {
            DowningDecision::Stay => (self, ActionView::Nothing),
            DowningDecision::DownUnreachable => (
                self,
                ActionView::DownUnreachable(addresses(unreachable)),
            ),
            DowningDecision::DownAll => (self, ActionView::DownAll(addresses(members))),
            DowningDecision::DownSelf => (
                if self.quorum_lost {
                    self
                } else {
                    SbrView { quorum_lost: true, ..self }.tell(QuorumEvent::Lost)
                },
                ActionView::DownSelf,
            ),
        }
    }
}

/// Runtime that pairs a strategy with a stability deadline.
pub struct SbrRuntime<S, O> {
    strategy: S,
    stable_after: Span,
    unstable_since: Option<LogicalTime>,
    observer: Option<O>,
    quorum_lost: bool,
}

impl<S: DowningStrategy, O: QuorumObserver> View for SbrRuntime<S, O> {
    type V = SbrView;

    closed spec fn view(&self) -> SbrView {
        SbrView {
            unstable_since: match self.unstable_since {
                Some(t) => Some(t.0),
                None => None,
            },
            quorum_lost: self.quorum_lost,
            told: match self.observer {
                Some(o) => Some(o.told()),
                None => None,
            },
        }
    }
}

impl<S: DowningStrategy> SbrRuntime<S, NoObserver> {
    pub fn new(strategy: S, stable_after: Span) -> (r: Self)
        requires
            stable_after.valid(),
        ensures
            r@ == (SbrView { unstable_since: None, quorum_lost: false, told: None }),
            r.strategy() == strategy,
            r.stable_after() == stable_after,
            r.wf(),
    {
        SbrRuntime {
            strategy,
            stable_after,
            unstable_since: None,
            observer: None,
            quorum_lost: false,
        }
    }
}

impl<S: DowningStrategy, O: QuorumObserver> SbrRuntime<S, O> {
    /// The strategy that is asked.
    pub closed spec fn strategy(&self) -> S {
        self.strategy
    }

    /// How long a partition must last before the strategy is asked.
    pub closed spec fn stable_after(&self) -> Span {
        self.stable_after
    }

    pub closed spec fn wf(&self) -> bool {
        self.stable_after.valid() && (self.observer matches Some(o) ==> o.wf())
    }

    /// Attaches an observer.
    pub fn with_observer<P: QuorumObserver>(self, observer: P) -> (r: SbrRuntime<S, P>)
        requires
            self.wf(),
            observer.wf(),
        ensures
            r@ == (SbrView { told: Some(observer.told()), ..self@ }),
            r.strategy() == self.strategy(),
            r.stable_after() == self.stable_after(),
            r.wf(),
    {
        SbrRuntime {
            strategy: self.strategy,
            stable_after: self.stable_after,
            unstable_since: self.unstable_since,
            observer: Some(observer),
            quorum_lost: self.quorum_lost,
        }
    }

    /// The observer, where there is one.
    pub fn observer(&self) -> (r: Option<&O>)
        ensures
            r is Some <==> self@.told is Some,
            r matches Some(o) ==> self@.told == Some(o.told()),
    {
        self.observer.as_ref()
    }

    /// Announces the loss of the quorum, once per loss.
    fn note_quorum_lost(&mut self)
        requires
            old(self).wf(),
        ensures
            final(self)@ == (if old(self)@.quorum_lost {
                old(self)@
            } else {
                SbrView { quorum_lost: true, ..old(self)@ }.tell(QuorumEvent::Lost)
            }),
            final(self).strategy() == old(self).strategy(),
            final(self).stable_after() == old(self).stable_after(),
            final(self).wf(),
    {
        if !self.quorum_lost {
            self.quorum_lost = true;
            if let Some(o) = self.observer.as_mut() {
                o.on_quorum_lost();
            }
        }
    }

    /// Announces that the quorum is back, if its loss was announced.
    fn note_quorum_regained(&mut self)
        requires
            old(self).wf(),
        ensures
            final(self)@ == (if old(self)@.quorum_lost {
                SbrView { quorum_lost: false, ..old(self)@ }.tell(QuorumEvent::Regained)
            } else {
                old(self)@
            }),
            final(self).strategy() == old(self).strategy(),
            final(self).stable_after() == old(self).stable_after(),
            final(self).wf(),
    {
        if self.quorum_lost {
            self.quorum_lost = false;
            if let Some(o) = self.observer.as_mut() {
                o.on_quorum_regained();
            }
        }
    }

    /// Whether `now` is at least `stable_after` past `since`.
    fn is_due(&self, now: LogicalTime, since: LogicalTime) -> (r: bool)
        requires
            self.wf(),
        ensures
            r == (elapsed(now.0, since.0) >= self.stable_after().total_nanos()),
            now.0 >= since.0 ==> (r <==> now.0 - since.0 >= self.stable_after().secs * 1_000_000_000
                + self.stable_after().nanos),
    {
        let passed: u64 = if now.0 >= since.0 {
            now.0 - since.0
        } else {
            0
        };
        let limit: u128 = self.stable_after.secs as u128 * 1_000_000_000
            + self.stable_after.nanos as u128;
        passed as u128 >= limit
    }

    /// What the runtime does about the decision `d` on a stable partition.
    pub fn apply(
        &mut self,
        d: DowningDecision,
        state: &MembershipState,
        unreachable: &Vec<&Member>,
    ) -> (r: SbrAction)
        requires
            old(self).wf(),
        ensures
            (final(self)@, r@) == old(self)@.decided(
                d,
                member::member_views(state.members@),
                sbr::side(unreachable@),
            ),
            final(self).strategy() == old(self).strategy(),
            final(self).stable_after() == old(self).stable_after(),
            final(self).wf(),
    {
        match d {
            DowningDecision::Stay => SbrAction::Nothing,
            DowningDecision::DownUnreachable => {
                let mut out: Vec<String> = Vec::new();
                let mut i: usize = 0;
                let ghost all = addresses(sbr::side(unreachable@));
                while i < unreachable.len()
                    invariant
                        i <= unreachable.len(),
                        all == addresses(sbr::side(unreachable@)),
                        texts(out@) == all.take(i as int),
                    decreases unreachable.len() - i,
                {
                    let ghost before = texts(out@);
                    let text: String = unreachable[i].address.to_text();
                    out.push(text);
                    i = i + 1;
                    assert(texts(out@) =~= before.push(text@));
                    assert(texts(out@) =~= all.take(i as int));
                }
                assert(texts(out@) =~= all);
                SbrAction::DownUnreachable(out)
            },
            DowningDecision::DownAll => {
                let mut out: Vec<String> = Vec::new();
                let mut i: usize = 0;
                let ghost all = addresses(member::member_views(state.members@));
                while i < state.members.len()
                    invariant
                        i <= state.members.len(),
                        all == addresses(member::member_views(state.members@)),
                        texts(out@) == all.take(i as int),
                    decreases state.members.len() - i,
                {
                    let ghost before = texts(out@);
                    let text: String = state.members[i].address.to_text();
                    out.push(text);
                    i = i + 1;
                    assert(texts(out@) =~= before.push(text@));
                    assert(texts(out@) =~= all.take(i as int));
                }
                assert(texts(out@) =~= all);
                SbrAction::DownAll(out)
            },
            DowningDecision::DownSelf => {
                self.note_quorum_lost();
                SbrAction::DownSelf
            },
        }
    }

    /// One scheduling tick. Returns the action that the leader should apply:
    /// typically nothing, sometimes a downing list.
    pub fn tick(&mut self, state: &MembershipState, now: LogicalTime) -> (r: SbrAction)
        requires
            old(self).wf(),
        ensures
            ({
                let members = member::member_views(state.members@);
                let reached = reachable_side(members, state.reachability@);
                let lost = unreachable_side(members, state.reachability@);
                let watching = old(self)@.observing(now.0);
                if lost.len() == 0 {
                    final(self)@ == old(self)@.healed() && r@ == ActionView::Nothing
                } else if !watching.stable(now.0, old(self).stable_after()) {
                    final(self)@ == watching && r@ == ActionView::Nothing
                } else {
                    exists|d: DowningDecision| #[trigger]
                        old(self).strategy().may_decide(reached, lost, d) && (final(self)@, r@)
                            == watching.decided(d, members, lost)
                }
            }),
            final(self).strategy() == old(self).strategy(),
            final(self).stable_after() == old(self).stable_after(),
            final(self).wf(),
    {
        let ghost members = member::member_views(state.members@);
        let ghost records = state.reachability@;
        let ghost in_reach = |m: MemberView|
            m.takes_part() && member::reachable_in(records, m.address);
        let ghost out_of_reach = |m: MemberView|
            m.takes_part() && !member::reachable_in(records, m.address);
        let mut reachable: Vec<&Member> = Vec::new();
        let mut unreachable: Vec<&Member> = Vec::new();
        let mut i: usize = 0;
        proof {
            reveal(Seq::filter);
            assert(members.take(0) =~= Seq::<MemberView>::empty());
            assert(sbr::side(reachable@) =~= members.take(0).filter(in_reach));
            assert(sbr::side(unreachable@) =~= members.take(0).filter(out_of_reach));
        }
        while i < state.members.len()
            invariant
                i <= state.members.len(),
                members == member::member_views(state.members@),
                records == state.reachability@,
                in_reach == (|m: MemberView|
                    m.takes_part() && member::reachable_in(records, m.address)),
                out_of_reach == (|m: MemberView|
                    m.takes_part() && !member::reachable_in(records, m.address)),
                sbr::side(reachable@) == members.take(i as int).filter(in_reach),
                sbr::side(unreachable@) == members.take(i as int).filter(out_of_reach),
            decreases state.members.len() - i,
        {
            let m: &Member = &state.members[i];
            let ghost r0 = sbr::side(reachable@);
            let ghost u0 = sbr::side(unreachable@);
            proof {
                reveal(Seq::filter);
                assert(members.take(i + 1).drop_last() =~= members.take(i as int));
                assert(members.take(i + 1).last() == m@);
            }
            let takes_part: bool = m.status != MemberStatus::Down && m.status
                != MemberStatus::Removed;
            if takes_part {
                if state.reachability.is_reachable(&m.address) {
                    reachable.push(m);
                    assert(sbr::side(reachable@) =~= r0.push(m@));
                } else {
                    unreachable.push(m);
                    assert(sbr::side(unreachable@) =~= u0.push(m@));
                }
            }
            i = i + 1;
        }
        assert(members.take(i as int) =~= members);
        assert(sbr::side(unreachable@).len() == unreachable@.len());
        if unreachable.len() == 0 {
            self.unstable_since = None;
            self.note_quorum_regained();
            return SbrAction::Nothing;
        }
        let since: LogicalTime = match self.unstable_since {
            Some(t) => t,
            None => now,
        };
        self.unstable_since = Some(since);
        if !self.is_due(now, since) {
            return SbrAction::Nothing;
        }
        assert(self@ =~= old(self)@.observing(now.0));
        let d: DowningDecision = self.strategy.decide(&reachable, &unreachable);
        assert(old(self).strategy().may_decide(
            reachable_side(members, records),
            unreachable_side(members, records),
            d,
        ));
        self.apply(d, state, &unreachable)
    }

    /// Whether the partition, where there is one, has lasted at least
    /// `stable_after`.
    pub fn is_stable(&self, now: LogicalTime) -> (r: bool)
        requires
            self.wf(),
        ensures
            r == self@.stable(now.0, self.stable_after()),
    {
        match self.unstable_since {
            Some(t) => self.is_due(now, t),
            None => true,
        }
    }
}

/// The loss of the quorum is announced once per loss: a further decision
/// against this side tells nothing until the partition has healed, and the
/// return is announced only after a loss.
pub proof fn announcements_alternate(
    s: SbrView,
    members: Seq<MemberView>,
    unreachable: Seq<MemberView>,
)
    ensures
        ({
            let lost = s.decided(DowningDecision::DownSelf, members, unreachable).0;
            &&& lost.quorum_lost
            &&& lost.decided(DowningDecision::DownSelf, members, unreachable).0 == lost
            &&& !lost.healed().quorum_lost
            &&& lost.healed().healed() == lost.healed()
            &&& lost.told matches Some(t) ==> lost.healed().told == Some(
                t.push(QuorumEvent::Regained),
            )
            &&& !s.quorum_lost ==> s.healed().told == s.told
            &&& !s.quorum_lost ==> (s.told matches Some(t) ==> lost.told == Some(
                t.push(QuorumEvent::Lost),
            ))
            &&& s.quorum_lost ==> lost.told == s.told
        }),
{
}

/// A partition first observed at `t` and still there at a later `u` is stable at
/// `u` exactly if the time between them is at least the window; so it is stable
/// once the whole window has passed, and stays so. The time of the first
/// observation is kept while the partition lasts.
pub proof fn partitions_are_stable_after_the_window(
    s: SbrView,
    t: u64,
    u: u64,
    limit: Span,
)
    requires
        t <= u,
    ensures
        s.unstable_since == Some(t) ==> (s.stable(u, limit) <==> u - t >= limit.secs * 1_000_000_000
            + limit.nanos),
        s.unstable_since is None ==> s.observing(t).unstable_since == Some(t),
        s.unstable_since == Some(t) ==> s.observing(u) == s,
        s.unstable_since is None ==> (s.observing(t).observing(u).stable(u, limit) <==> u - t
            >= limit.secs * 1_000_000_000 + limit.nanos),
        s.observing(u).quorum_lost == s.quorum_lost,
        s.observing(u).told == s.told,
{
}

/// What a decision does: to stay does nothing, to down the unreachable side names
/// each of its members by its address, to down everyone names every member, and
/// to down this node names nobody; only the last one may change the runtime.
pub proof fn decisions_name_whom_to_down(
    s: SbrView,
    members: Seq<MemberView>,
    unreachable: Seq<MemberView>,
)
    ensures
        s.decided(DowningDecision::Stay, members, unreachable) == (s, ActionView::Nothing),
        ({
            let (after, action) = s.decided(
                DowningDecision::DownUnreachable,
                members,
                unreachable,
            );
            &&& after == s
            &&& action matches ActionView::DownUnreachable(out)
            &&& out.len() == unreachable.len()
            &&& forall|i: int|
                0 <= i < out.len() ==> #[trigger] out[i] == "akka://"@ + unreachable[i].address
        }),
        ({
            let (after, action) = s.decided(DowningDecision::DownAll, members, unreachable);
            &&& after == s
            &&& action matches ActionView::DownAll(out)
            &&& out.len() == members.len()
            &&& forall|i: int|
                0 <= i < out.len() ==> #[trigger] out[i] == "akka://"@ + members[i].address
        }),
        ({
            let (after, action) = s.decided(DowningDecision::DownSelf, members, unreachable);
            &&& action == ActionView::DownSelf
            &&& after.quorum_lost
            &&& after.unstable_since == s.unstable_since
        }),
{
}

/// The two sides of a partition: a member that is neither down nor removed is on
/// the unreachable side exactly if some observer finds it unreachable, and on
/// the reachable side otherwise; nobody else is on either side.
pub proof fn sides_split_the_members(
    members: Seq<MemberView>,
    records: Set<(Seq<char>, Seq<char>)>,
    m: MemberView,
)
    ensures
        unreachable_side(members, records).contains(m) <==> {
            &&& members.contains(m)
            &&& m.status != MemberStatus::Down
            &&& m.status != MemberStatus::Removed
            &&& exists|observer: Seq<char>| #[trigger] records.contains((observer, m.address))
        },
        reachable_side(members, records).contains(m) <==> {
            &&& members.contains(m)
            &&& m.status != MemberStatus::Down
            &&& m.status != MemberStatus::Removed
            &&& forall|observer: Seq<char>| !#[trigger] records.contains((observer, m.address))
        },
{
    let in_reach = |x: MemberView| x.takes_part() && member::reachable_in(records, x.address);
    let out_of_reach = |x: MemberView| x.takes_part() && !member::reachable_in(records, x.address);
    lemma_filtered(members, in_reach, m);
    lemma_filtered(members, out_of_reach, m);
}

/// A filtered run holds exactly what the run holds and the test lets through.
proof fn lemma_filtered(s: Seq<MemberView>, keep: spec_fn(MemberView) -> bool, m: MemberView)
    ensures
        s.filter(keep).contains(m) <==> s.contains(m) && keep(m),
    decreases s.len(),
{
    reveal(Seq::filter);
    if s.len() > 0 {
        let init = s.drop_last();
        lemma_filtered(init, keep, m);
        let kept = init.filter(keep);
        assert(s.contains(m) <==> init.contains(m) || m == s.last()) by {
            if init.contains(m) {
                let i = choose|i: int| 0 <= i < init.len() && init[i] == m;
                assert(s[i] == m);
            }
            if m == s.last() {
                assert(s[s.len() - 1] == m);
            }
            if s.contains(m) && m != s.last() {
                let i = choose|i: int| 0 <= i < s.len() && s[i] == m;
                assert(init[i] == m);
            }
        }
        if keep(s.last()) {
            let all = kept.push(s.last());
            assert(all.contains(m) <==> kept.contains(m) || m == s.last()) by {
                if kept.contains(m) {
                    let i = choose|i: int| 0 <= i < kept.len() && kept[i] == m;
                    assert(all[i] == m);
                }
                assert(all[kept.len() as int] == s.last());
                if all.contains(m) && m != s.last() {
                    let i = choose|i: int| 0 <= i < all.len() && all[i] == m;
                    assert(kept[i] == m);
                }
            }
        }
    }
}

/// Healing restarts the stability clock: a partition observed afterwards must
/// last the whole window again.
pub proof fn healing_restarts_the_window(s: SbrView, now: u64, later: u64, limit: Span)
    requires
        now <= later,
        later - now < limit.total_nanos(),
    ensures
        s.healed().stable(now, limit),
        !s.healed().observing(now).stable(later, limit),
{
}

} // verus!
