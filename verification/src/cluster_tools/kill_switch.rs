//! Cluster-wide kill switch: an emergency-halt latch.
//!
//! The latch is a replicated [`Flag`]. Flags merge by "or", so once any node
//! has engaged the switch the engaged state survives merge and gossip: no lost
//! delta and no stale copy un-latches it.
//!
//! A flag cannot be switched off, so the switch is versioned by epoch: the
//! current epoch is held in a replicated register, and the latch of each epoch
//! has a key of its own. [`ClusterKillSwitch::reset`] moves to the next epoch,
//! whose latch is fresh; the old latch stays on as an audit record. A reset
//! takes two distinct, non-empty approvers, and each one is recorded with both
//! of them and the epoch it moved to.
//!
//! Engaging only flips the latch. Bringing the node to a safe stop is a
//! separate step: registered [`HaltGuarded`] parties are told to halt and
//! acknowledge, and peers are sent a [`HaltPdu::Halt`] that they acknowledge
//! with a [`HaltPdu::Ack`].

use crate::cluster::sbr::{QuorumEvent, QuorumObserver};
use crate::crdt::replicator::{Flag, LwwRegister, RegisterView, Replicator, ReplicatorView};
use crate::scan;
use crate::text;
use vstd::prelude::*;

verus! {

/// Why the kill switch was engaged.
#[derive(Debug, PartialEq, Eq)]
#[non_exhaustive]
pub enum HaltReason {
    /// An operator pulled the switch; carries a note.
    Manual(String),
    /// The quorum was lost.
    QuorumLost,
    /// A risk guard tripped; carries a description.
    RiskBreach(String),
}

/// A reason as a mathematical value.
pub enum ReasonView {
    Manual(Seq<char>),
    QuorumLost,
    RiskBreach(Seq<char>),
}

impl View for HaltReason {
    type V = ReasonView;

    open spec fn view(&self) -> ReasonView {
        match self {
            HaltReason::Manual(s) => ReasonView::Manual(s@),
            HaltReason::QuorumLost => ReasonView::QuorumLost,
            HaltReason::RiskBreach(s) => ReasonView::RiskBreach(s@),
        }
    }
}

impl Clone for HaltReason {
    fn clone(&self) -> (r: Self)
        ensures
            r@ == self@,
    {
        match self {
            HaltReason::Manual(s) => HaltReason::Manual(s.clone()),
            HaltReason::QuorumLost => HaltReason::QuorumLost,
            HaltReason::RiskBreach(s) => HaltReason::RiskBreach(s.clone()),
        }
    }
}

/// Identifies an engage operation of this process; later ones are larger.
#[derive(Debug, Clone, Copy, PartialEq, Eq, Structural, PartialOrd, Ord)]
pub struct HaltToken(pub u64);

/// A party that must be brought to a safe stop when the switch engages.
pub trait HaltGuarded: Sized {
    /// The reasons with which the party was told to halt, in order.
    open spec fn halts(&self) -> Seq<ReasonView> {
        arbitrary()
    }

    /// Stop accepting new work and prepare to acknowledge; must not block for
    /// long.
    fn on_halt(&mut self, reason: &HaltReason)
        ensures
            final(self).halts() == old(self).halts().push(reason@),
    ;
}

/// Two-person authorization of a reset.
#[derive(Debug)]
pub struct ResetAuthorization {
    pub approver_a: String,
    pub approver_b: String,
}

/// Result of bringing the cluster to a safe stop. `acked` and `total` count
/// local parties and remote peers together.
#[derive(Debug, Clone, Copy, PartialEq, Eq, Structural)]
pub struct QuiescenceReport {
    /// How many parties acknowledged in time.
    pub acked: usize,
    /// How many parties were expected to acknowledge.
    pub total: usize,
    /// Whether some party did not acknowledge in time.
    pub timed_out: bool,
    /// How many remote peers acknowledged in time.
    pub remote_acked: usize,
    /// How many remote peers a halt was sent to.
    pub remote_total: usize,
}

impl QuiescenceReport {
    /// Combines the counts of the local and the remote tier.
    pub fn combine(
        local_acked: usize,
        local_total: usize,
        remote_acked: usize,
        remote_total: usize,
    ) -> (r: Self)
        requires
            local_acked + remote_acked <= usize::MAX,
            local_total + remote_total <= usize::MAX,
        ensures
            r.acked == local_acked + remote_acked,
            r.total == local_total + remote_total,
            r.timed_out <==> local_acked + remote_acked < local_total + remote_total,
            r.remote_acked == remote_acked,
            r.remote_total == remote_total,
    {
        let acked: usize = local_acked + remote_acked;
        let total: usize = local_total + remote_total;
        QuiescenceReport { acked, total, timed_out: acked < total, remote_acked, remote_total }
    }
}

/// Why a reset is refused.
#[derive(Debug, Clone, Copy, PartialEq, Eq, Structural)]
pub enum ResetError {
    /// An approver is missing.
    MissingApprover,
    /// Both approvers are the same identity.
    DuplicateApprover,
}

impl ResetError {
    /// The refusal in words.
    pub fn message(&self) -> (r: &'static str)
        ensures
            r@ == (match self {
                ResetError::MissingApprover => "reset requires two non-empty approvers"@,
                ResetError::DuplicateApprover =>
                    "reset requires two distinct approvers (got the same identity twice)"@,
            }),
    {
        match self {
            ResetError::MissingApprover => "reset requires two non-empty approvers",
            ResetError::DuplicateApprover =>
                "reset requires two distinct approvers (got the same identity twice)",
        }
    }
}

/// A reset that was made: who approved it and the epoch it moved to.
#[derive(Debug, Clone, PartialEq, Eq)]
pub struct ResetRecord {
    pub approver_a: String,
    pub approver_b: String,
    pub epoch: u64,
}

/// A reset as a mathematical value.
#[verifier::ext_equal]
pub struct ResetView {
    pub approver_a: Seq<char>,
    pub approver_b: Seq<char>,
    pub epoch: u64,
}

impl View for ResetRecord {
    type V = ResetView;

    open spec fn view(&self) -> ResetView {
        ResetView {
            approver_a: self.approver_a@,
            approver_b: self.approver_b@,
            epoch: self.epoch,
        }
    }
}

pub open spec fn reset_views(resets: Seq<ResetRecord>) -> Seq<ResetView> {
    resets.map_values(|r: ResetRecord| r@)
}

/// What nodes send each other.
#[derive(Debug, PartialEq, Eq)]
#[non_exhaustive]
pub enum HaltPdu {
    /// Engage the latch of `epoch`, bring the local parties to a safe stop and
    /// acknowledge to `from`.
    Halt { from: String, epoch: u64, reason: HaltReason },
    /// `from` has brought its parties to a safe stop for `epoch`.
    Ack { from: String, epoch: u64 },
}

/// A message between nodes as a mathematical value.
pub enum PduView {
    Halt { from: Seq<char>, epoch: u64, reason: ReasonView },
    Ack { from: Seq<char>, epoch: u64 },
}

impl View for HaltPdu {
    type V = PduView;

    open spec fn view(&self) -> PduView {
        match self {
            HaltPdu::Halt { from, epoch, reason } => PduView::Halt {
                from: from@,
                epoch: *epoch,
                reason: reason@,
            },
            HaltPdu::Ack { from, epoch } => PduView::Ack { from: from@, epoch: *epoch },
        }
    }
}

/// A message to send to a peer.
#[derive(Debug, PartialEq, Eq)]
pub struct Outgoing {
    pub to: String,
    pub pdu: HaltPdu,
}

impl View for Outgoing {
    type V = (Seq<char>, PduView);

    open spec fn view(&self) -> (Seq<char>, PduView) {
        (self.to@, self.pdu@)
    }
}

pub open spec fn outgoing_views(out: Seq<Outgoing>) -> Seq<(Seq<char>, PduView)> {
    out.map_values(|o: Outgoing| o@)
}

/// What a node does with an inbound message.
#[derive(Debug)]
pub enum PduReaction {
    /// Wait for the parties `waiting` to acknowledge, then send `ack`.
    Halting { waiting: Vec<usize>, ack: Outgoing },
    /// A peer's acknowledgement was recorded.
    Recorded,
}

// ---------------------------------------------------------------------------
// The state of a switch
// ---------------------------------------------------------------------------
/// The key of the epoch register.
pub open spec fn epoch_key(base: Seq<char>) -> Seq<char> {
    base + "::epoch"@
}

/// The key of the latch of an epoch.
pub open spec fn flag_key(base: Seq<char>, epoch: u64) -> Seq<char> {
    base + "::flag::"@ + text::decimal(epoch as nat)
}

/// A registered party as a mathematical value.
#[verifier::ext_equal]
pub struct PartyView {
    /// What the party was told.
    pub halts: Seq<ReasonView>,
    /// Whether it has not acknowledged yet.
    pub ack_due: bool,
}

impl PartyView {
    /// The party after it was told to halt.
    pub open spec fn halted(self, reason: ReasonView) -> PartyView {
        PartyView { halts: self.halts.push(reason), ..self }
    }

    /// The party after it acknowledged.
    pub open spec fn acknowledged(self) -> PartyView {
        PartyView { ack_due: false, ..self }
    }
}

/// The positions of the parties whose acknowledgement is due, in order.
pub open spec fn due_positions(parties: Seq<PartyView>) -> Seq<int>
    decreases parties.len(),
{
    if parties.len() == 0 {
        Seq::empty()
    } else if parties.last().ack_due {
        due_positions(parties.drop_last()).push(parties.len() - 1)
    } else {
        due_positions(parties.drop_last())
    }
}

/// A switch as a mathematical value.
#[verifier::ext_equal]
pub struct SwitchView {
    pub replicator: ReplicatorView,
    pub base: Seq<char>,
    pub node: Seq<char>,
    /// The source of tokens and timestamps.
    pub seq: u64,
    pub last_reason: Option<ReasonView>,
    pub parties: Seq<PartyView>,
    /// Which peer acknowledged which epoch.
    pub acks: Set<(u64, Seq<char>)>,
    /// The resets that this node made, the oldest first.
    pub resets: Seq<ResetView>,
}

impl SwitchView {
    /// The current epoch.
    pub open spec fn epoch(self) -> u64 {
        if self.replicator.registers.contains_key(epoch_key(self.base)) {
            self.replicator.registers[epoch_key(self.base)].value
        } else {
            0
        }
    }

    /// Whether the latch of the current epoch is on.
    pub open spec fn engaged(self) -> bool {
        self.replicator.is_on(flag_key(self.base, self.epoch()))
    }

    /// The switch over another state of its replicator.
    pub open spec fn over(self, replicator: ReplicatorView) -> SwitchView {
        SwitchView { replicator, ..self }
    }

    /// The switch after the latch of `epoch` was engaged.
    pub open spec fn latched(self, epoch: u64, reason: ReasonView) -> SwitchView {
        SwitchView {
            replicator: self.replicator.with_flag(flag_key(self.base, epoch), true),
            last_reason: Some(reason),
            ..self
        }
    }

    /// The switch after the next token was handed out.
    pub open spec fn ticked(self) -> SwitchView {
        SwitchView { seq: (self.seq + 1) as u64, ..self }
    }

    /// The switch after its parties were told to halt.
    pub open spec fn halted(self, reason: ReasonView) -> SwitchView {
        SwitchView { parties: self.parties.map_values(|p: PartyView| p.halted(reason)), ..self }
    }

    /// The switch after the party at `position` acknowledged.
    pub open spec fn acknowledged(self, position: int) -> SwitchView {
        SwitchView {
            parties: self.parties.update(position, self.parties[position].acknowledged()),
            ..self
        }
    }

    /// How many of the parties at `waiting` have acknowledged.
    pub open spec fn acked_parties(self, waiting: Seq<int>) -> nat {
        waiting.filter(|p: int| !self.parties[p].ack_due).len()
    }

    /// How many of `peers` have acknowledged `epoch`.
    pub open spec fn acked_peers(self, epoch: u64, peers: Seq<Seq<char>>) -> nat {
        peers.filter(|p: Seq<char>| self.acks.contains((epoch, p))).len()
    }

    /// The timestamp of the next write to the epoch register: a fresh one,
    /// above that of the register.
    pub open spec fn write_time(self) -> int {
        let held = if self.replicator.registers.contains_key(epoch_key(self.base)) {
            self.replicator.registers[epoch_key(self.base)].timestamp
        } else {
            0
        };
        if self.seq + 1 > held {
            self.seq + 1
        } else {
            held + 1
        }
    }

    /// The switch after `a` and `b` moved it to the next epoch.
    pub open spec fn advanced(self, a: Seq<char>, b: Seq<char>) -> SwitchView {
        SwitchView {
            replicator: self.replicator.with_register(
                epoch_key(self.base),
                RegisterView {
                    node: self.node,
                    value: (self.epoch() + 1) as u64,
                    timestamp: self.write_time() as u64,
                },
            ),
            seq: (self.seq + 1) as u64,
            last_reason: None,
            resets: self.resets.push(
                ResetView { approver_a: a, approver_b: b, epoch: (self.epoch() + 1) as u64 },
            ),
            ..self
        }
    }
}

/// Why a reset with these approvers is refused, if it is.
pub open spec fn refusal(a: Seq<char>, b: Seq<char>) -> Option<ResetError> {
    if scan::trimmed(a).len() == 0 || scan::trimmed(b).len() == 0 {
        Some(ResetError::MissingApprover)
    } else if a == b {
        Some(ResetError::DuplicateApprover)
    } else {
        None
    }
}

// ---------------------------------------------------------------------------
// The switch
// ---------------------------------------------------------------------------
/// Why a reset with this authorization is refused, if it is: an approver is
/// blank, or both are the same.
pub fn refused(authz: &ResetAuthorization) -> (r: Option<ResetError>)
    ensures
        r == refusal(authz.approver_a@, authz.approver_b@),
{
    if scan::is_blank(authz.approver_a.as_str()) || scan::is_blank(authz.approver_b.as_str()) {
        Some(ResetError::MissingApprover)
    } else if text::same_text(authz.approver_a.as_str(), authz.approver_b.as_str()) {
        Some(ResetError::DuplicateApprover)
    } else {
        None
    }
}

/// A registered party, and whether it has not acknowledged yet.
struct Guarded<P> {
    party: P,
    ack_due: bool,
}

spec fn party_view<P: HaltGuarded>(g: Guarded<P>) -> PartyView {
    PartyView { halts: g.party.halts(), ack_due: g.ack_due }
}

spec fn party_views<P: HaltGuarded>(parties: Seq<Guarded<P>>) -> Seq<PartyView> {
    parties.map_values(|g: Guarded<P>| party_view(g))
}

/// The acknowledgements that a log holds.
spec fn ack_set(log: Seq<(u64, String)>) -> Set<(u64, Seq<char>)> {
    Set::new(
        |p: (u64, Seq<char>)|
            exists|i: int|
                #![trigger log[i]]
                0 <= i < log.len() && log[i].0 == p.0 && log[i].1@ == p.1,
    )
}

/// Distributed emergency-halt latch.
pub struct ClusterKillSwitch<P> {
    replicator: Replicator,
    base_key: String,
    node: String,
    seq: u64,
    last_reason: Option<HaltReason>,
    guarded: Vec<Guarded<P>>,
    remote_acks: Vec<(u64, String)>,
    resets: Vec<ResetRecord>,
}

impl<P: HaltGuarded> View for ClusterKillSwitch<P> {
    type V = SwitchView;

    closed spec fn view(&self) -> SwitchView {
        SwitchView {
            replicator: self.replicator@,
            base: self.base_key@,
            node: self.node@,
            seq: self.seq,
            last_reason: match self.last_reason {
                Some(r) => Some(r@),
                None => None,
            },
            parties: party_views(self.guarded@),
            acks: ack_set(self.remote_acks@),
            resets: reset_views(self.resets@),
        }
    }
}

impl<P: HaltGuarded> ClusterKillSwitch<P> {
    pub closed spec fn wf(&self) -> bool {
        self.replicator.wf()
    }

    /// A switch over `replicator`, gating on `base_key`; `node` is the stable id
    /// of this node. The epoch register is written at 0 if it is absent.
    pub fn new(replicator: Replicator, base_key: &str, node: &str) -> (r: Self)
        requires
            replicator.wf(),
        ensures
            r.wf(),
            ({
                let absent = !replicator@.registers.contains_key(epoch_key(base_key@));
                r@ == (SwitchView {
                    replicator: if absent {
                        replicator@.with_register(
                            epoch_key(base_key@),
                            RegisterView { node: node@, value: 0, timestamp: 1 },
                        )
                    } else {
                        replicator@
                    },
                    base: base_key@,
                    node: node@,
                    seq: if absent {
                        1
                    } else {
                        0
                    },
                    last_reason: None,
                    parties: Seq::empty(),
                    acks: Set::empty(),
                    resets: Seq::empty(),
                })
            }),
    {
        let mut r = ClusterKillSwitch {
            replicator,
            base_key: base_key.to_owned(),
            node: node.to_owned(),
            seq: 0,
            last_reason: None,
            guarded: Vec::new(),
            remote_acks: Vec::new(),
            resets: Vec::new(),
        };
        let key: String = r.epoch_key();
        if r.replicator.get_register(key.as_str()).is_none() {
            let ts: u64 = r.next_ts();
            let register: LwwRegister = LwwRegister::new(r.node.as_str(), 0, ts);
            r.replicator.update_register(key.as_str(), register);
        }
        assert(r@.parties =~= Seq::<PartyView>::empty());
        assert(r@.acks =~= Set::<(u64, Seq<char>)>::empty());
        assert(r@.resets =~= Seq::<ResetView>::empty());
        r
    }

    /// The backing replicator.
    pub fn replicator(&self) -> (r: &Replicator)
        requires
            self.wf(),
        ensures
            r@ == self@.replicator,
            r.wf(),
    {
        &self.replicator
    }

    /// Merges a copy of a flag into the backing replicator.
    pub fn update_flag(&mut self, key: &str, flag: Flag)
        requires
            old(self).wf(),
        ensures
            final(self).wf(),
            final(self)@ == old(self)@.over(old(self)@.replicator.with_flag(key@, flag@)),
    {
        self.replicator.update_flag(key, flag);
    }

    /// Merges what another node gossips into the backing replicator.
    pub fn absorb(&mut self, other: &Replicator)
        requires
            old(self).wf(),
            other.wf(),
        ensures
            final(self).wf(),
            final(self)@ == old(self)@.over(old(self)@.replicator.merged(other@)),
    {
        self.replicator.merge(other);
    }

    fn epoch_key(&self) -> (r: String)
        ensures
            r@ == epoch_key(self@.base),
    {
        let mut key: String = self.base_key.clone();
        key.append("::epoch");
        key
    }

    fn flag_key(&self, epoch: u64) -> (r: String)
        ensures
            r@ == flag_key(self@.base, epoch),
    {
        let number: String = text::decimal_text(epoch);
        let mut key: String = self.base_key.clone();
        key.append("::flag::");
        key.append(number.as_str());
        key
    }

    fn next_ts(&mut self) -> (r: u64)
        requires
            old(self)@.seq < u64::MAX,
            old(self).wf(),
        ensures
            final(self).wf(),
            final(self)@ == old(self)@.ticked(),
            r == old(self)@.seq + 1,
    {
        self.seq = self.seq + 1;
        self.seq
    }

    /// Current epoch (0 if unset).
    pub fn epoch(&self) -> (r: u64)
        requires
            self.wf(),
        ensures
            r == self@.epoch(),
    {
        let key: String = self.epoch_key();
        match self.replicator.get_register(key.as_str()) {
            Some(r) => r.value(),
            None => 0,
        }
    }

    /// Whether there is a number left for the token of another halt.
    pub fn has_tokens_left(&self) -> (r: bool)
        ensures
            r == (self@.seq < u64::MAX),
    {
        self.seq < u64::MAX
    }

    /// The resets that this node made, the oldest first.
    pub fn resets(&self) -> (r: &Vec<ResetRecord>)
        ensures
            reset_views(r@) == self@.resets,
    {
        &self.resets
    }

    /// Whether there are numbers left for another halt and another reset.
    pub fn has_numbers_left(&self) -> (r: bool)
        requires
            self.wf(),
        ensures
            r == (self@.seq < u64::MAX && self@.epoch() < u64::MAX && self@.write_time()
                < u64::MAX),
    {
        let key: String = self.epoch_key();
        let held: u64 = match self.replicator.get_register(key.as_str()) {
            Some(r) => r.timestamp(),
            None => 0,
        };
        self.seq < u64::MAX - 1 && held < u64::MAX - 1 && self.epoch() < u64::MAX
    }

    /// Engages the latch of the current epoch and records `reason`. Engaging
    /// twice is safe.
    pub fn engage(&mut self, reason: HaltReason) -> (r: HaltToken)
        requires
            old(self).wf(),
            old(self)@.seq < u64::MAX,
        ensures
            final(self).wf(),
            final(self)@ == old(self)@.latched(old(self)@.epoch(), reason@).ticked(),
            r.0 == old(self)@.seq + 1,
    {
        let epoch: u64 = self.epoch();
        self.engage_epoch(epoch, reason);
        HaltToken(self.next_ts())
    }

    /// Engages the latch of `epoch` and records `reason`.
    fn engage_epoch(&mut self, epoch: u64, reason: HaltReason)
        requires
            old(self).wf(),
        ensures
            final(self).wf(),
            final(self)@ == old(self)@.latched(epoch, reason@),
    {
        let key: String = self.flag_key(epoch);
        let mut flag: Flag = match self.replicator.get_flag(key.as_str()) {
            Some(f) => f,
            None => Flag::new(),
        };
        flag.switch_on();
        self.replicator.update_flag(key.as_str(), flag);
        self.last_reason = Some(reason);
    }

    /// Whether the latch of the current epoch is on.
    pub fn is_engaged(&self) -> (r: bool)
        requires
            self.wf(),
        ensures
            r == self@.engaged(),
    {
        let key: String = self.flag_key(self.epoch());
        match self.replicator.get_flag(key.as_str()) {
            Some(f) => f.enabled(),
            None => false,
        }
    }

    /// The reason of the most recent engage of this node, if any.
    pub fn last_reason(&self) -> (r: Option<HaltReason>)
        ensures
            r is Some <==> self@.last_reason is Some,
            r matches Some(x) ==> self@.last_reason == Some(x@),
    {
        match &self.last_reason {
            Some(r) => Some(r.clone()),
            None => None,
        }
    }

    /// Registers a party to halt and returns its position; its acknowledgement
    /// is due.
    pub fn register_guarded(&mut self, party: P) -> (r: usize)
        requires
            old(self).wf(),
        ensures
            final(self).wf(),
            final(self)@ == (SwitchView {
                parties: old(self)@.parties.push(
                    PartyView { halts: party.halts(), ack_due: true },
                ),
                ..old(self)@
            }),
            r == old(self)@.parties.len(),
    {
        let n: usize = self.guarded.len();
        self.guarded.push(Guarded { party, ack_due: true });
        assert(self@.parties =~= old(self)@.parties.push(
            PartyView { halts: party.halts(), ack_due: true },
        ));
        n
    }

    /// Records that the party at `position` has acknowledged that it stopped.
    pub fn acknowledge(&mut self, position: usize)
        requires
            old(self).wf(),
            position < old(self)@.parties.len(),
        ensures
            final(self).wf(),
            final(self)@ == old(self)@.acknowledged(position as int),
    {
        self.guarded[position].ack_due = false;
        assert(self@.parties =~= old(self)@.acknowledged(position as int).parties);
    }

    /// How many of the parties at `waiting` have acknowledged.
    pub fn local_ack_count(&self, waiting: &Vec<usize>) -> (r: usize)
        requires
            forall|i: int| 0 <= i < waiting.len() ==> #[trigger] waiting[i] < self@.parties.len(),
        ensures
            r == self@.acked_parties(positions(waiting@)),
            r <= waiting.len(),
    {
        let ghost all = positions(waiting@);
        let ghost acked = |p: int| !self@.parties[p].ack_due;
        let mut n: usize = 0;
        let mut i: usize = 0;
        proof {
            reveal(Seq::filter);
            assert(all.take(0).filter(acked) =~= Seq::<int>::empty());
        }
        while i < waiting.len()
            invariant
                i <= waiting.len(),
                n <= i,
                all == positions(waiting@),
                acked == (|p: int| !self@.parties[p].ack_due),
                n == all.take(i as int).filter(acked).len(),
                forall|j: int|
                    0 <= j < waiting.len() ==> #[trigger] waiting[j] < self@.parties.len(),
            decreases waiting.len() - i,
        {
            proof {
                reveal(Seq::filter);
                assert(all.take(i + 1).drop_last() =~= all.take(i as int));
                assert(all.take(i + 1).last() == waiting@[i as int]);
                assert(waiting[i as int] < self@.parties.len());
            }
            if !self.guarded[waiting[i]].ack_due {
                n = n + 1;
            }
            i = i + 1;
        }
        assert(all.take(i as int) =~= all);
        n
    }

    /// Tells every registered party to halt, and returns the positions of those
    /// that have not acknowledged yet.
    fn halt_parties(&mut self, reason: &HaltReason) -> (r: Vec<usize>)
        requires
            old(self).wf(),
        ensures
            final(self).wf(),
            final(self)@ == old(self)@.halted(reason@),
            positions(r@) == due_positions(old(self)@.parties),
            final(self)@.parties.len() == old(self)@.parties.len(),
            forall|i: int|
                0 <= i < old(self)@.parties.len() ==> (#[trigger] final(self)@.parties[i]).halts
                    == old(self)@.parties[i].halts.push(reason@),
            forall|i: int|
                0 <= i < old(self)@.parties.len() ==> (#[trigger] final(self)@.parties[i]).ack_due
                    == old(self)@.parties[i].ack_due,
    {
        let ghost start = self@;
        let mut waiting: Vec<usize> = Vec::new();
        let mut i: usize = 0;
        assert(start.parties.take(0) =~= Seq::<PartyView>::empty());
        assert(positions(waiting@) =~= Seq::<int>::empty());
        while i < self.guarded.len()
            invariant
                i <= self.guarded.len(),
                self.guarded@.len() == start.parties.len(),
                self.wf(),
                self@ == (SwitchView { parties: self@.parties, ..start }),
                forall|j: int|
                    0 <= j < i ==> (#[trigger] self@.parties[j]) == start.parties[j].halted(
                        reason@,
                    ),
                forall|j: int|
                    i <= j < start.parties.len() ==> (#[trigger] self@.parties[j])
                        == start.parties[j],
                positions(waiting@) == due_positions(start.parties.take(i as int)),
            decreases self.guarded.len() - i,
        {
            let ghost before = self@;
            let due: bool = self.guarded[i].ack_due;
            assert(before.parties[i as int] == start.parties[i as int]);
            self.guarded[i].party.on_halt(reason);
            let ghost listed = positions(waiting@);
            proof {
                assert(start.parties.take(i + 1).drop_last() =~= start.parties.take(i as int));
                assert(start.parties.take(i + 1).last() == start.parties[i as int]);
                assert(self@.parties =~= before.parties.update(
                    i as int,
                    before.parties[i as int].halted(reason@),
                ));
            }
            if due {
                waiting.push(i);
                assert(positions(waiting@) =~= listed.push(i as int));
            }
            i = i + 1;
        }
        assert(start.parties.take(i as int) =~= start.parties);
        assert(self@.parties =~= start.halted(reason@).parties);
        waiting
    }

    /// The local tier of a safe stop: tells every registered party to halt with
    /// the latest reason and returns the positions of those to wait for: every
    /// party that has not acknowledged.
    pub fn begin_local(&mut self) -> (r: Vec<usize>)
        requires
            old(self).wf(),
        ensures
            final(self).wf(),
            final(self)@ == old(self)@.halted(stop_reason(old(self)@)),
            positions(r@) == due_positions(old(self)@.parties),
            final(self)@.parties.len() == old(self)@.parties.len(),
            forall|i: int|
                0 <= i < old(self)@.parties.len() ==> (#[trigger] final(self)@.parties[i]).halts
                    == old(self)@.parties[i].halts.push(
                    match old(self)@.last_reason {
                        Some(reason) => reason,
                        None => ReasonView::Manual(Seq::empty()),
                    },
                ),
            forall|i: int|
                0 <= i < old(self)@.parties.len() ==> (#[trigger] final(self)@.parties[i]).ack_due
                    == old(self)@.parties[i].ack_due,
    {
        let reason: HaltReason = self.stop_reason();
        self.halt_parties(&reason)
    }

    /// The latest reason; an empty note if there is none.
    pub fn stop_reason(&self) -> (r: HaltReason)
        ensures
            r@ == stop_reason(self@),
    {
        match &self.last_reason {
            Some(r) => r.clone(),
            None => HaltReason::Manual(String::new()),
        }
    }

    /// The remote tier of a safe stop of `epoch`: the halts to send to `peers`.
    /// What they acknowledged of it before is forgotten.
    pub fn begin_remote(&mut self, epoch: u64, reason: &HaltReason, peers: &Vec<String>) -> (r: Vec<
        Outgoing,
    >)
        requires
            old(self).wf(),
        ensures
            final(self).wf(),
            final(self)@ == (SwitchView {
                acks: if peers.len() == 0 {
                    old(self)@.acks
                } else {
                    old(self)@.acks.filter(|p: (u64, Seq<char>)| p.0 != epoch)
                },
                ..old(self)@
            }),
            outgoing_views(r@) == peer_texts(peers@).map_values(
                |to: Seq<char>|
                    (
                        to,
                        PduView::Halt { from: old(self)@.node, epoch, reason: reason@ },
                    ),
            ),
    {
        if peers.len() > 0 {
            self.forget_acks(epoch);
        }
        let ghost pdu = PduView::Halt { from: self@.node, epoch, reason: reason@ };
        let ghost all = peer_texts(peers@).map_values(|to: Seq<char>| (to, pdu));
        let mut out: Vec<Outgoing> = Vec::new();
        let mut i: usize = 0;
        assert(outgoing_views(out@) =~= all.take(0));
        while i < peers.len()
            invariant
                i <= peers.len(),
                pdu == (PduView::Halt { from: self@.node, epoch, reason: reason@ }),
                all == peer_texts(peers@).map_values(|to: Seq<char>| (to, pdu)),
                outgoing_views(out@) == all.take(i as int),
            decreases peers.len() - i,
        {
            let ghost before = outgoing_views(out@);
            let o = Outgoing {
                to: peers[i].clone(),
                pdu: HaltPdu::Halt { from: self.node.clone(), epoch, reason: reason.clone() },
            };
            out.push(o);
            i = i + 1;
            assert(outgoing_views(out@) =~= before.push(o@));
            assert(outgoing_views(out@) =~= all.take(i as int));
        }
        assert(outgoing_views(out@) =~= all);
        out
    }

    /// Forgets the acknowledgements of `epoch`.
    fn forget_acks(&mut self, epoch: u64)
        requires
            old(self).wf(),
        ensures
            final(self).wf(),
            final(self)@ == (SwitchView {
                acks: old(self)@.acks.filter(|p: (u64, Seq<char>)| p.0 != epoch),
                ..old(self)@
            }),
    {
        let ghost before = self.remote_acks@;
        let mut kept: Vec<(u64, String)> = Vec::new();
        let mut i: usize = 0;
        while i < self.remote_acks.len()
            invariant
                i <= self.remote_acks.len(),
                self.remote_acks@ == before,
                forall|p: (u64, Seq<char>)| #[trigger]
                    ack_set(kept@).contains(p) <==> ack_set(before.take(i as int)).contains(p)
                        && p.0 != epoch,
            decreases self.remote_acks.len() - i,
        {
            let e: u64 = self.remote_acks[i].0;
            let n: String = self.remote_acks[i].1.clone();
            let ghost held = kept@;
            if e != epoch {
                kept.push((e, n));
            }
            proof {
                let now = before.take(i + 1);
                let prev = before.take(i as int);
                assert forall|p: (u64, Seq<char>)| #[trigger]
                    ack_set(kept@).contains(p) <==> ack_set(now).contains(p) && p.0 != epoch by {
                    lemma_ack_push(held, kept@, p);
                    lemma_ack_push(prev, now, p);
                    assert(ack_set(held).contains(p) <==> ack_set(prev).contains(p) && p.0
                        != epoch);
                }
            }
            i = i + 1;
        }
        self.remote_acks = kept;
        proof {
            assert(before.take(i as int) =~= before);
            assert(self@.acks =~= old(self)@.acks.filter(|p: (u64, Seq<char>)| p.0 != epoch));
        }
    }

    /// How many of `peers` have acknowledged `epoch`.
    pub fn remote_ack_count(&self, epoch: u64, peers: &Vec<String>) -> (r: usize)
        ensures
            r == self@.acked_peers(epoch, peer_texts(peers@)),
            r <= peers.len(),
    {
        let ghost all = peer_texts(peers@);
        let ghost acked = |p: Seq<char>| self@.acks.contains((epoch, p));
        let mut n: usize = 0;
        let mut i: usize = 0;
        proof {
            reveal(Seq::filter);
            assert(all.take(0).filter(acked) =~= Seq::<Seq<char>>::empty());
        }
        while i < peers.len()
            invariant
                i <= peers.len(),
                n <= i,
                all == peer_texts(peers@),
                acked == (|p: Seq<char>| self@.acks.contains((epoch, p))),
                n == all.take(i as int).filter(acked).len(),
            decreases peers.len() - i,
        {
            proof {
                reveal(Seq::filter);
                assert(all.take(i + 1).drop_last() =~= all.take(i as int));
                assert(all.take(i + 1).last() == peers@[i as int]@);
            }
            if self.has_ack(epoch, peers[i].as_str()) {
                n = n + 1;
            }
            i = i + 1;
        }
        assert(all.take(i as int) =~= all);
        n
    }

    /// Whether waiting for the acknowledgements of `peers` is over, and how many
    /// of them acknowledged `epoch`: it is over once all of them did or the
    /// deadline is past.
    pub fn remote_wait(&self, epoch: u64, peers: &Vec<String>, past_deadline: bool) -> (r: Option<
        usize,
    >)
        ensures
            r is None <==> !past_deadline && self@.acked_peers(epoch, peer_texts(peers@))
                < peers.len(),
            r matches Some(n) ==> n == self@.acked_peers(epoch, peer_texts(peers@)),
    {
        let acked: usize = self.remote_ack_count(epoch, peers);
        if past_deadline || acked >= peers.len() {
            Some(acked)
        } else {
            None
        }
    }

    /// Whether `peer` has acknowledged `epoch`.
    fn has_ack(&self, epoch: u64, peer: &str) -> (r: bool)
        ensures
            r == self@.acks.contains((epoch, peer@)),
    {
        let mut i: usize = 0;
        while i < self.remote_acks.len()
            invariant
                i <= self.remote_acks.len(),
                forall|j: int|
                    0 <= j < i ==> !((#[trigger] self.remote_acks@[j]).0 == epoch
                        && self.remote_acks@[j].1@ == peer@),
            decreases self.remote_acks.len() - i,
        {
            if self.remote_acks[i].0 == epoch && text::same_text(
                self.remote_acks[i].1.as_str(),
                peer,
            ) {
                assert(self.remote_acks@[i as int].0 == epoch);
                return true;
            }
            i = i + 1;
        }
        false
    }

    /// Takes in a message from a peer. A halt engages the latch of its epoch
    /// and tells the local parties to halt; once they have acknowledged, the
    /// acknowledgement goes back to the sender. An acknowledgement is recorded.
    pub fn apply_pdu(&mut self, pdu: HaltPdu) -> (r: PduReaction)
        requires
            old(self).wf(),
        ensures
            final(self).wf(),
            match pdu@ {
                PduView::Halt { from, epoch, reason } => {
                    &&& final(self)@ == old(self)@.latched(epoch, reason).halted(reason)
                    &&& r matches PduReaction::Halting { waiting, ack }
                    &&& positions(waiting@) == due_positions(old(self)@.parties)
                    &&& ack@ == (from, PduView::Ack { from: old(self)@.node, epoch })
                },
                PduView::Ack { from, epoch } => {
                    &&& final(self)@ == (SwitchView {
                        acks: old(self)@.acks.insert((epoch, from)),
                        ..old(self)@
                    })
                    &&& r is Recorded
                },
            },
    {
        match pdu {
            HaltPdu::Halt { from, epoch, reason } => {
                self.engage_epoch(epoch, reason.clone());
                let waiting: Vec<usize> = self.halt_parties(&reason);
                PduReaction::Halting {
                    waiting,
                    ack: Outgoing {
                        to: from,
                        pdu: HaltPdu::Ack { from: self.node.clone(), epoch },
                    },
                }
            },
            HaltPdu::Ack { from, epoch } => {
                let ghost before = self.remote_acks@;
                self.remote_acks.push((epoch, from));
                proof {
                    let after = self.remote_acks@;
                    assert forall|p: (u64, Seq<char>)| ack_set(after).contains(p) == ack_set(
                        before,
                    ).insert((epoch, from@)).contains(p) by {
                        lemma_ack_push(before, after, p);
                    }
                    assert(self@.acks =~= old(self)@.acks.insert((epoch, from@)));
                }
                PduReaction::Recorded
            },
        }
    }

    /// Moves to the next epoch, whose latch is fresh; the old latch stays as an
    /// audit record. Takes two distinct, non-empty approvers, who are recorded
    /// with the new epoch.
    pub fn reset(&mut self, authz: ResetAuthorization) -> (r: Result<u64, ResetError>)
        requires
            old(self).wf(),
            refusal(authz.approver_a@, authz.approver_b@) is None ==> old(self)@.epoch() < u64::MAX
                && old(self)@.write_time() < u64::MAX,
        ensures
            final(self).wf(),
            match refusal(authz.approver_a@, authz.approver_b@) {
                Some(e) => r == Err::<u64, ResetError>(e) && final(self)@ == old(self)@,
                None => {
                    &&& final(self)@ == old(self)@.advanced(
                        authz.approver_a@,
                        authz.approver_b@,
                    )
                    &&& r == Ok::<u64, ResetError>((old(self)@.epoch() + 1) as u64)
                },
            },
    {
        if let Some(e) = refused(&authz) {
            return Err(e);
        }
        let key: String = self.epoch_key();
        let new_epoch: u64 = self.epoch() + 1;
        let held: u64 = match self.replicator.get_register(key.as_str()) {
            Some(r) => r.timestamp(),
            None => 0,
        };
        let fresh: u64 = self.next_ts();
        let ts: u64 = if fresh > held {
            fresh
        } else {
            held + 1
        };
        let register: LwwRegister = LwwRegister::new(self.node.as_str(), new_epoch, ts);
        self.replicator.update_register(key.as_str(), register);
        self.last_reason = None;
        self.resets.push(
            ResetRecord {
                approver_a: authz.approver_a,
                approver_b: authz.approver_b,
                epoch: new_epoch,
            },
        );
        assert(self@.resets =~= old(self)@.advanced(
            authz.approver_a@,
            authz.approver_b@,
        ).resets);
        Ok(new_epoch)
    }
}

/// The reason that parties are told: the latest, or an empty note.
pub open spec fn stop_reason(s: SwitchView) -> ReasonView {
    match s.last_reason {
        Some(r) => r,
        None => ReasonView::Manual(Seq::empty()),
    }
}

/// Positions as mathematical numbers.
pub open spec fn positions(v: Seq<usize>) -> Seq<int> {
    v.map_values(|n: usize| n as int)
}

/// The node ids of a run of peers.
pub open spec fn peer_texts(peers: Seq<String>) -> Seq<Seq<char>> {
    peers.map_values(|p: String| p@)
}

/// A log that is another one, or another one and one acknowledgement more.
proof fn lemma_ack_push(a: Seq<(u64, String)>, b: Seq<(u64, String)>, p: (u64, Seq<char>))
    requires
        a =~= b || (b.len() == a.len() + 1 && a =~= b.drop_last()),
    ensures
        ack_set(b).contains(p) <==> ack_set(a).contains(p) || (b.len() > a.len() && p == (
            b.last().0,
            b.last().1@,
        )),
{
    if b.len() > a.len() {
        if ack_set(a).contains(p) {
            let i = choose|i: int|
                #![trigger a[i]]
                0 <= i < a.len() && a[i].0 == p.0 && a[i].1@ == p.1;
            assert(b[i] == a[i]);
        }
        if p == (b.last().0, b.last().1@) {
            assert(b[b.len() - 1] == b.last());
        }
        if ack_set(b).contains(p) {
            let i = choose|i: int|
                #![trigger b[i]]
                0 <= i < b.len() && b[i].0 == p.0 && b[i].1@ == p.1;
            if i < a.len() {
                assert(a[i] == b[i]);
            }
        }
    }
}

/// Engages the kill switch when the quorum is lost. Its return clears nothing:
/// recovery is an explicit reset.
pub struct KillSwitchQuorumObserver<P> {
    pub switch: ClusterKillSwitch<P>,
    /// What the observer has been told.
    pub told: Ghost<Seq<QuorumEvent>>,
}

impl<P: HaltGuarded> KillSwitchQuorumObserver<P> {
    pub fn new(switch: ClusterKillSwitch<P>) -> (r: Self)
        ensures
            r.switch == switch,
            r.told() == Seq::<QuorumEvent>::empty(),
    {
        KillSwitchQuorumObserver { switch, told: Ghost(Seq::empty()) }
    }
}

impl<P: HaltGuarded> QuorumObserver for KillSwitchQuorumObserver<P> {
    open spec fn told(&self) -> Seq<QuorumEvent> {
        self.told@
    }

    open spec fn wf(&self) -> bool {
        self.switch.wf()
    }

    fn on_quorum_lost(&mut self)
        ensures
            ({
                let latched = old(self).switch@.latched(
                    old(self).switch@.epoch(),
                    ReasonView::QuorumLost,
                );
                final(self).switch@ == if latched.seq < u64::MAX {
                    latched.ticked()
                } else {
                    latched
                }
            }),
            final(self).switch@.engaged(),
    {
        let epoch: u64 = self.switch.epoch();
        self.switch.engage_epoch(epoch, HaltReason::QuorumLost);
        if self.switch.seq < u64::MAX {
            self.switch.next_ts();
        }
        self.told = Ghost(self.told@.push(QuorumEvent::Lost));
    }

    fn on_quorum_regained(&mut self)
        ensures
            final(self).switch == old(self).switch,
    {
        self.told = Ghost(self.told@.push(QuorumEvent::Regained));
    }
}

// ---------------------------------------------------------------------------
// Laws
// ---------------------------------------------------------------------------
/// The keys of the latches of two epochs differ.
pub proof fn latches_are_apart(base: Seq<char>, a: u64, b: u64)
    requires
        flag_key(base, a) == flag_key(base, b),
    ensures
        a == b,
{
    let p = base + "::flag::"@;
    assert(flag_key(base, a).skip(p.len() as int) =~= text::decimal(a as nat));
    assert(flag_key(base, b).skip(p.len() as int) =~= text::decimal(b as nat));
    text::decimal_is_injective(a as nat, b as nat);
}

/// Once engaged, the switch stays engaged whatever is merged into its
/// replicator, as long as the epoch does not move.
pub proof fn engaged_survives_merge(
    s: SwitchView,
    key: Seq<char>,
    on: bool,
    other: ReplicatorView,
)
    requires
        s.engaged(),
    ensures
        s.over(s.replicator.with_flag(key, on)).engaged(),
        s.over(s.replicator.merged(other)).epoch() == s.epoch() ==> s.over(
            s.replicator.merged(other),
        ).engaged(),
{
}

/// Engaging engages, and engaging again keeps it so.
pub proof fn engaging_latches(s: SwitchView, reason: ReasonView)
    ensures
        s.latched(s.epoch(), reason).ticked().engaged(),
        s.latched(s.epoch(), reason).ticked().epoch() == s.epoch(),
{
}

/// A valid reset re-arms: the epoch moves on by one, the switch is no longer
/// engaged unless the next epoch's latch was on already, and the latch of the
/// old epoch stays as it was. The reset is recorded, behind the earlier ones.
pub proof fn reset_rearms(s: SwitchView, a: Seq<char>, b: Seq<char>)
    requires
        s.epoch() < u64::MAX,
        s.write_time() < u64::MAX,
    ensures
        ({
            let after = s.advanced(a, b);
            &&& after.epoch() == s.epoch() + 1
            &&& after.engaged() == s.replicator.is_on(flag_key(s.base, (s.epoch() + 1) as u64))
            &&& forall|epoch: u64| #[trigger]
                after.replicator.is_on(flag_key(s.base, epoch)) == s.replicator.is_on(
                    flag_key(s.base, epoch),
                )
            &&& after.last_reason is None
            &&& after.resets == s.resets.push(
                ResetView { approver_a: a, approver_b: b, epoch: after.epoch() },
            )
        }),
{
}

/// A safe stop tells every registered party, whether or not it acknowledged an
/// earlier one: each party's halts are those before it followed by the reason,
/// and who has acknowledged stays as it was. Nothing else of the switch changes.
pub proof fn everyone_is_told(s: SwitchView, reason: ReasonView)
    ensures
        ({
            let after = s.halted(reason);
            &&& after.parties.len() == s.parties.len()
            &&& forall|i: int|
                0 <= i < s.parties.len() ==> {
                    &&& (#[trigger] after.parties[i]).halts == s.parties[i].halts.push(reason)
                    &&& after.parties[i].ack_due == s.parties[i].ack_due
                }
            &&& after.replicator == s.replicator
            &&& after.base == s.base
            &&& after.node == s.node
            &&& after.seq == s.seq
            &&& after.last_reason == s.last_reason
            &&& after.acks == s.acks
            &&& after.resets == s.resets
        }),
        s.last_reason matches Some(r) ==> stop_reason(s) == r,
        s.last_reason is None ==> stop_reason(s) == ReasonView::Manual(Seq::empty()),
{
}

/// An acknowledgement settles the party that gave it and no other, and takes
/// nothing back of what the party was told.
pub proof fn acknowledgement_settles_one_party(s: SwitchView, position: int)
    requires
        0 <= position < s.parties.len(),
    ensures
        ({
            let after = s.acknowledged(position);
            &&& after.parties.len() == s.parties.len()
            &&& !after.parties[position].ack_due
            &&& after.parties[position].halts == s.parties[position].halts
            &&& forall|i: int|
                0 <= i < s.parties.len() && i != position ==> #[trigger] after.parties[i]
                    == s.parties[i]
            &&& after.replicator == s.replicator
            &&& after.seq == s.seq
            &&& after.last_reason == s.last_reason
            &&& after.acks == s.acks
            &&& after.resets == s.resets
        }),
{
}

/// The parties to wait for are exactly those that have not acknowledged, each
/// once, in the order of their registration.
pub proof fn waits_for_the_parties_that_are_due(parties: Seq<PartyView>)
    ensures
        ({
            let due = due_positions(parties);
            &&& due.len() <= parties.len()
            &&& forall|k: int|
                0 <= k < due.len() ==> 0 <= #[trigger] due[k] < parties.len()
                    && parties[due[k]].ack_due
            &&& forall|j: int, k: int|
                0 <= j < k < due.len() ==> #[trigger] due[j] < #[trigger] due[k]
            &&& forall|i: int|
                0 <= i < parties.len() && (#[trigger] parties[i]).ack_due ==> due.contains(i)
        }),
    decreases parties.len(),
{
    if parties.len() > 0 {
        waits_for_the_parties_that_are_due(parties.drop_last());
    }
    assert forall|i: int| 0 <= i < parties.len() && (#[trigger] parties[i]).ack_due implies
        due_positions(parties).contains(i) by {
        lemma_due(parties, i);
    }
}

/// Engaging turns on the latch of that epoch and no other, and records the
/// reason in place of an earlier one; the epoch, the parties, the
/// acknowledgements and the resets stay as they were.
pub proof fn engaging_turns_on_one_latch(s: SwitchView, epoch: u64, reason: ReasonView)
    ensures
        ({
            let after = s.latched(epoch, reason);
            &&& after.replicator.is_on(flag_key(s.base, epoch))
            &&& forall|other: u64|
                other != epoch ==> #[trigger] after.replicator.is_on(flag_key(s.base, other))
                    == s.replicator.is_on(flag_key(s.base, other))
            &&& after.replicator.registers == s.replicator.registers
            &&& after.last_reason == Some(reason)
            &&& after.epoch() == s.epoch()
            &&& after.parties == s.parties
            &&& after.acks == s.acks
            &&& after.resets == s.resets
            &&& after.seq == s.seq
            &&& after.node == s.node
            &&& after.base == s.base
        }),
        s.seq < u64::MAX ==> s.ticked().seq == s.seq + 1,
        s.ticked().replicator == s.replicator,
        s.ticked().last_reason == s.last_reason,
        s.ticked().parties == s.parties,
        s.ticked().acks == s.acks,
        s.ticked().resets == s.resets,
{
    assert forall|other: u64| other != epoch implies #[trigger] s.latched(
        epoch,
        reason,
    ).replicator.is_on(flag_key(s.base, other)) == s.replicator.is_on(flag_key(s.base, other)) by {
        if flag_key(s.base, other) == flag_key(s.base, epoch) {
            latches_are_apart(s.base, other, epoch);
        }
    }
}

/// A halt from a peer engages the latch of its epoch, so a switch that stands at
/// that epoch is engaged, and it moves no epoch.
pub proof fn halt_from_a_peer_engages(s: SwitchView, epoch: u64, reason: ReasonView)
    ensures
        ({
            let after = s.latched(epoch, reason).halted(reason);
            &&& after.epoch() == s.epoch()
            &&& s.epoch() == epoch ==> after.engaged()
            &&& s.epoch() != epoch ==> after.engaged() == s.engaged()
        }),
{
    engaging_turns_on_one_latch(s, epoch, reason);
    everyone_is_told(s.latched(epoch, reason), reason);
    assert(s.engaged() == s.replicator.is_on(flag_key(s.base, s.epoch())));
}

/// A reset is granted exactly to two different approvers who both name more than
/// white space. A blank one is missing, also where both are the same; otherwise
/// the same one twice is a duplicate.
pub proof fn reset_takes_two_people(a: Seq<char>, b: Seq<char>)
    ensures
        refusal(a, b) is None <==> {
            &&& a != b
            &&& exists|i: int| 0 <= i < a.len() && !scan::is_space(#[trigger] a[i])
            &&& exists|i: int| 0 <= i < b.len() && !scan::is_space(#[trigger] b[i])
        },
        refusal(a, b) == Some(ResetError::MissingApprover) <==> {
            ||| forall|i: int| 0 <= i < a.len() ==> scan::is_space(#[trigger] a[i])
            ||| forall|i: int| 0 <= i < b.len() ==> scan::is_space(#[trigger] b[i])
        },
{
    scan::trimming_removes_the_ends(a);
    scan::trimming_removes_the_ends(b);
}

/// A reset writes the epoch register later than the copy it replaces and than
/// any token of this node, so that a copy from before the reset, merged in
/// afterwards, does not undo it. It touches no latch, no other register, no party
/// and no acknowledgement.
pub proof fn reset_is_not_undone(s: SwitchView, a: Seq<char>, b: Seq<char>)
    requires
        s.epoch() < u64::MAX,
        s.write_time() < u64::MAX,
    ensures
        ({
            let after = s.advanced(a, b);
            let key = epoch_key(s.base);
            let written = after.replicator.registers[key];
            &&& after.replicator.registers.contains_key(key)
            &&& written.node == s.node
            &&& written.value == s.epoch() + 1
            &&& written.timestamp > s.seq
            &&& s.replicator.registers.contains_key(key) ==> written.timestamp
                > s.replicator.registers[key].timestamp
            &&& after.seq == s.seq + 1
            &&& after.replicator.flags == s.replicator.flags
            &&& forall|k: Seq<char>|
                k != key ==> (#[trigger] after.replicator.registers.contains_key(k)
                    == s.replicator.registers.contains_key(k)) && (
                s.replicator.registers.contains_key(k) ==> after.replicator.registers[k]
                    == s.replicator.registers[k])
            &&& after.parties == s.parties
            &&& after.acks == s.acks
            &&& after.node == s.node
            &&& after.base == s.base
            &&& after.over(after.replicator.merged(s.replicator)).epoch() == s.epoch() + 1
        }),
{
}

/// The peers that acknowledged an epoch are counted one by one: a peer counts
/// exactly if its acknowledgement of that epoch was recorded.
pub proof fn peers_are_counted(s: SwitchView, epoch: u64, peers: Seq<Seq<char>>, peer: Seq<char>)
    ensures
        s.acked_peers(epoch, Seq::empty()) == 0,
        s.acks.contains((epoch, peer)) ==> s.acked_peers(epoch, peers.push(peer)) == s.acked_peers(
            epoch,
            peers,
        ) + 1,
        !s.acks.contains((epoch, peer)) ==> s.acked_peers(epoch, peers.push(peer))
            == s.acked_peers(epoch, peers),
{
    reveal(Seq::filter);
    assert(peers.push(peer).drop_last() =~= peers);
}

/// The parties that acknowledged are counted one by one among those waited for.
pub proof fn parties_are_counted(s: SwitchView, waiting: Seq<int>, position: int)
    ensures
        s.acked_parties(Seq::empty()) == 0,
        !s.parties[position].ack_due ==> s.acked_parties(waiting.push(position))
            == s.acked_parties(waiting) + 1,
        s.parties[position].ack_due ==> s.acked_parties(waiting.push(position))
            == s.acked_parties(waiting),
{
    reveal(Seq::filter);
    assert(waiting.push(position).drop_last() =~= waiting);
}

/// Telling the parties to halt counts for no acknowledgement: whoever was due
/// before is due in the next wait too, and one acknowledgement takes exactly
/// its own party out.
pub proof fn halting_acknowledges_nobody(s: SwitchView, reason: ReasonView, position: int)
    requires
        0 <= position < s.parties.len(),
    ensures
        due_positions(s.halted(reason).parties) == due_positions(s.parties),
        !due_positions(s.acknowledged(position).parties).contains(position),
        forall|i: int|
            0 <= i < s.parties.len() && i != position ==> (due_positions(
                s.acknowledged(position).parties,
            ).contains(i) <==> #[trigger] due_positions(s.parties).contains(i)),
{
    let halted = s.halted(reason).parties;
    lemma_same_due(s.parties, halted);
    let acked = s.acknowledged(position).parties;
    assert forall|i: int| 0 <= i < s.parties.len() implies (due_positions(acked).contains(i)
        <==> acked[i].ack_due) && (#[trigger] due_positions(s.parties).contains(i)
        <==> s.parties[i].ack_due) by {
        lemma_due(acked, i);
        lemma_due(s.parties, i);
    }
    assert(due_positions(s.parties).contains(position) <==> s.parties[position].ack_due);
}

/// A position is listed exactly where the party there is due.
pub proof fn lemma_due(parties: Seq<PartyView>, i: int)
    ensures
        due_positions(parties).contains(i) <==> 0 <= i < parties.len() && parties[i].ack_due,
    decreases parties.len(),
{
    if parties.len() > 0 {
        let init = parties.drop_last();
        lemma_due(init, i);
        let listed = due_positions(init);
        if parties.last().ack_due {
            let all = listed.push(parties.len() - 1);
            assert(all[listed.len() as int] == parties.len() - 1);
            if listed.contains(i) {
                let k = choose|k: int| 0 <= k < listed.len() && listed[k] == i;
                assert(all[k] == i);
            }
            if all.contains(i) {
                let k = choose|k: int| 0 <= k < all.len() && all[k] == i;
                if k < listed.len() {
                    assert(listed[k] == i);
                }
            }
        }
    }
}

/// The positions depend on nothing but who is due.
proof fn lemma_same_due(a: Seq<PartyView>, b: Seq<PartyView>)
    requires
        a.len() == b.len(),
        forall|i: int| 0 <= i < a.len() ==> (#[trigger] a[i]).ack_due == b[i].ack_due,
    ensures
        due_positions(a) == due_positions(b),
    decreases a.len(),
{
    if a.len() > 0 {
        assert(a[a.len() - 1].ack_due == b[b.len() - 1].ack_due);
        assert forall|i: int| 0 <= i < a.len() - 1 implies (#[trigger] a.drop_last()[i]).ack_due
            == b.drop_last()[i].ack_due by {
            assert(a[i].ack_due == b[i].ack_due);
        }
        lemma_same_due(a.drop_last(), b.drop_last());
    }
}

/// The epoch is what the register under the epoch key of the switch holds, 0
/// where it holds nothing, and the switch is engaged exactly if the latch of that
/// epoch is on. What is absorbed moves the epoch exactly if its register was
/// written later.
pub proof fn switch_reads_its_epoch(s: SwitchView, other: ReplicatorView)
    ensures
        ({
            let key = s.base + "::epoch"@;
            let mine = s.replicator.registers;
            let theirs = other.registers;
            let after = s.over(s.replicator.merged(other));
            &&& mine.contains_key(key) ==> s.epoch() == mine[key].value
            &&& !mine.contains_key(key) ==> s.epoch() == 0
            &&& s.engaged() <==> s.replicator.flags.get(
                s.base + "::flag::"@ + text::decimal(s.epoch() as nat),
            ) == Some(true)
            &&& !theirs.contains_key(key) ==> after.epoch() == s.epoch()
            &&& !mine.contains_key(key) && theirs.contains_key(key) ==> after.epoch()
                == theirs[key].value
            &&& mine.contains_key(key) && theirs.contains_key(key) && theirs[key].timestamp
                > mine[key].timestamp ==> after.epoch() == theirs[key].value
            &&& mine.contains_key(key) && theirs.contains_key(key) && theirs[key].timestamp
                < mine[key].timestamp ==> after.epoch() == s.epoch()
            &&& after.parties == s.parties
            &&& after.acks == s.acks
            &&& after.last_reason == s.last_reason
            &&& after.resets == s.resets
            &&& after.seq == s.seq
        }),
{
}

} // verus!
