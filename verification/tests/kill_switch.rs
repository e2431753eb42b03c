use std::sync::{Arc, Mutex};

use atomr::cluster::sbr::QuorumObserver;
use atomr::cluster_tools::kill_switch::{refused, Outgoing, PduReaction};
use atomr::cluster_tools::{
    ClusterKillSwitch, HaltGuarded, HaltPdu, HaltReason, KillSwitchQuorumObserver,
    QuiescenceReport, ResetAuthorization, ResetError, ResetRecord,
};
use atomr::crdt::{Flag, LwwRegister, Replicator};

struct Party {
    halted: Arc<Mutex<Vec<HaltReason>>>,
}

impl HaltGuarded for Party {
    fn on_halt(&mut self, reason: &HaltReason) {
        self.halted.lock().unwrap().push(reason.clone());
    }
}

fn party() -> (Party, Arc<Mutex<Vec<HaltReason>>>) {
    let halted = Arc::new(Mutex::new(Vec::new()));
    (Party { halted: halted.clone() }, halted)
}

fn switch() -> ClusterKillSwitch<Party> {
    ClusterKillSwitch::new(Replicator::new(), "atomr/killswitch", "node-1")
}

fn begin_remote(ks: &mut ClusterKillSwitch<Party>, peers: &Vec<String>) -> Vec<Outgoing> {
    let (epoch, reason) = (ks.epoch(), ks.stop_reason());
    ks.begin_remote(epoch, &reason, peers)
}

fn authz(a: &str, b: &str) -> ResetAuthorization {
    ResetAuthorization { approver_a: a.to_string(), approver_b: b.to_string() }
}

#[test]
fn engage_latches_and_is_engaged() {
    let mut ks = switch();
    assert!(!ks.is_engaged());
    let t = ks.engage(HaltReason::Manual("drill".into()));
    assert!(ks.is_engaged());
    assert_eq!(ks.last_reason(), Some(HaltReason::Manual("drill".into())));
    assert!(t.0 > 0);
    ks.engage(HaltReason::Manual("again".into()));
    assert!(ks.is_engaged());
}

#[test]
fn engaged_survives_independent_merge_of_off_copy() {
    let mut ks = switch();
    ks.engage(HaltReason::QuorumLost);
    let epoch = ks.epoch();
    ks.update_flag(&format!("atomr/killswitch::flag::{epoch}"), Flag::new());
    assert!(ks.is_engaged());
}

#[test]
fn reset_requires_two_distinct_nonempty_approvers() {
    let mut ks = switch();
    ks.engage(HaltReason::Manual("x".into()));
    assert!(ks.is_engaged());
    assert_eq!(ks.reset(authz("", "bob")), Err(ResetError::MissingApprover));
    assert_eq!(ks.reset(authz("amy", "amy")), Err(ResetError::DuplicateApprover));
    assert!(ks.is_engaged());
    let new_epoch = ks.reset(authz("amy", "bob")).expect("valid authz");
    assert_eq!(new_epoch, 1);
    assert!(!ks.is_engaged(), "new epoch flag must start unset");
    assert!(ks.last_reason().is_none());
    ks.engage(HaltReason::RiskBreach("limit".into()));
    assert!(ks.is_engaged());
}

#[test]
fn await_quiescence_collects_acks() {
    let mut ks = switch();
    let (p, halted) = party();
    let position = ks.register_guarded(p);
    ks.engage(HaltReason::Manual("drill".into()));
    let waiting = ks.begin_local();
    assert_eq!(waiting, vec![position]);
    assert_eq!(*halted.lock().unwrap(), vec![HaltReason::Manual("drill".into())]);
    assert_eq!(ks.local_ack_count(&waiting), 0);
    ks.acknowledge(position);
    let report = QuiescenceReport::combine(ks.local_ack_count(&waiting), waiting.len(), 0, 0);
    assert_eq!(report.total, 1);
    assert_eq!(report.acked, 1);
    assert!(!report.timed_out);
    assert!(ks.begin_local().is_empty(), "who acknowledged is not waited for again");
}

#[test]
fn who_did_not_acknowledge_is_waited_for_again() {
    let mut ks = switch();
    let (p, halted) = party();
    let first = ks.register_guarded(p);
    let (q, _) = party();
    let second = ks.register_guarded(q);
    assert_eq!(ks.begin_local(), vec![first, second]);
    ks.acknowledge(second);
    let waiting = ks.begin_local();
    assert_eq!(waiting, vec![first]);
    let report = QuiescenceReport::combine(ks.local_ack_count(&waiting), waiting.len(), 0, 0);
    assert_eq!((report.acked, report.total, report.timed_out), (0, 1, true));
    assert_eq!(halted.lock().unwrap().len(), 2);
    match ks.apply_pdu(HaltPdu::Halt { from: "B".into(), epoch: 0, reason: HaltReason::QuorumLost }) {
        PduReaction::Halting { waiting, .. } => assert_eq!(waiting, vec![first]),
        PduReaction::Recorded => panic!("a halt is answered"),
    }
}

#[test]
fn remote_wait_ends_with_all_acks_or_the_deadline() {
    let mut a = switch();
    let peers = vec!["B".to_string(), "C".to_string()];
    begin_remote(&mut a, &peers);
    assert_eq!(a.remote_wait(0, &peers, false), None);
    a.apply_pdu(HaltPdu::Ack { from: "B".into(), epoch: 0 });
    a.apply_pdu(HaltPdu::Ack { from: "C".into(), epoch: 7 });
    assert_eq!(a.remote_wait(0, &peers, false), None);
    assert_eq!(a.remote_wait(0, &peers, true), Some(1));
    a.apply_pdu(HaltPdu::Ack { from: "C".into(), epoch: 0 });
    assert_eq!(a.remote_wait(0, &peers, false), Some(2));
    assert_eq!(a.remote_wait(0, &vec![], false), Some(0));
}

#[test]
fn resets_are_recorded() {
    let mut ks = switch();
    assert!(ks.resets().is_empty());
    assert!(ks.reset(authz("amy", "")).is_err());
    assert!(ks.resets().is_empty());
    ks.reset(authz("amy", "bob")).unwrap();
    ks.reset(authz("bob", "cat")).unwrap();
    let record = |a: &str, b: &str, epoch: u64| ResetRecord {
        approver_a: a.to_string(),
        approver_b: b.to_string(),
        epoch,
    };
    assert_eq!(ks.resets(), &vec![record("amy", "bob", 1), record("bob", "cat", 2)]);
}

#[test]
fn authorizations_are_refused_before_anything_else() {
    assert_eq!(refused(&authz("amy", "bob")), None);
    assert_eq!(refused(&authz("amy", "  ")), Some(ResetError::MissingApprover));
    assert_eq!(refused(&authz("amy", "amy")), Some(ResetError::DuplicateApprover));
    assert!(switch().has_tokens_left());
}

#[test]
fn await_quiescence_times_out_without_ack() {
    let mut ks = switch();
    let (p, _halted) = party();
    ks.register_guarded(p);
    let waiting = ks.begin_local();
    let report = QuiescenceReport::combine(ks.local_ack_count(&waiting), waiting.len(), 0, 0);
    assert_eq!(report.total, 1);
    assert!(report.timed_out);
}

#[test]
fn quorum_observer_engages_on_loss() {
    let mut obs = KillSwitchQuorumObserver::new(switch());
    assert!(!obs.switch.is_engaged());
    obs.on_quorum_lost();
    assert!(obs.switch.is_engaged());
    assert_eq!(obs.switch.last_reason(), Some(HaltReason::QuorumLost));
    obs.on_quorum_regained();
    assert!(obs.switch.is_engaged());
}

#[test]
fn no_transport_reports_zero_remote() {
    let mut ks = switch();
    ks.engage(HaltReason::Manual("x".into()));
    let peers: Vec<String> = vec![];
    assert!(begin_remote(&mut ks, &peers).is_empty());
    let local = ks.begin_local();
    let report =
        QuiescenceReport::combine(0, local.len(), ks.remote_ack_count(0, &peers), peers.len());
    assert_eq!(report.remote_total, 0);
    assert_eq!(report.remote_acked, 0);
    assert_eq!(report.total, 0);
    assert!(!report.timed_out);
}

#[test]
fn cross_node_halt_fans_out_and_collects_remote_acks() {
    let mut a: ClusterKillSwitch<Party> = ClusterKillSwitch::new(Replicator::new(), "atomr/ks", "A");
    let mut b: ClusterKillSwitch<Party> = ClusterKillSwitch::new(Replicator::new(), "atomr/ks", "B");
    let (p, b_halted) = party();
    b.register_guarded(p);

    a.engage(HaltReason::RiskBreach("limit breach".into()));
    let peers = vec!["B".to_string()];
    let out = begin_remote(&mut a, &peers);
    assert_eq!(out.len(), 1);
    assert_eq!(out[0].to, "B");
    for o in out {
        match b.apply_pdu(o.pdu) {
            PduReaction::Halting { waiting, ack } => {
                assert_eq!(waiting.len(), 1);
                assert_eq!(ack.to, "A");
                assert!(matches!(a.apply_pdu(ack.pdu), PduReaction::Recorded));
            }
            PduReaction::Recorded => panic!("a halt is answered"),
        }
    }
    let local = a.begin_local();
    let report = QuiescenceReport::combine(
        0,
        local.len(),
        a.remote_ack_count(a.epoch(), &peers),
        peers.len(),
    );
    assert_eq!(report.remote_total, 1);
    assert_eq!(report.remote_acked, 1);
    assert_eq!(report.total, 1);
    assert_eq!(report.acked, 1);
    assert!(!report.timed_out);
    assert!(b.is_engaged());
    assert_eq!(b_halted.lock().unwrap().len(), 1);
    assert_eq!(b.last_reason(), Some(HaltReason::RiskBreach("limit breach".into())));
}

#[test]
fn cross_node_times_out_when_peer_silent() {
    let mut a: ClusterKillSwitch<Party> = ClusterKillSwitch::new(Replicator::new(), "atomr/ks", "A");
    let mut b: ClusterKillSwitch<Party> = ClusterKillSwitch::new(Replicator::new(), "atomr/ks", "B");
    a.engage(HaltReason::Manual("drill".into()));
    let peers = vec!["B".to_string()];
    for o in begin_remote(&mut a, &peers) {
        let _ = b.apply_pdu(o.pdu);
    }
    let report = QuiescenceReport::combine(0, 0, a.remote_ack_count(a.epoch(), &peers), 1);
    assert_eq!(report.remote_total, 1);
    assert_eq!(report.remote_acked, 0);
    assert!(report.timed_out, "missing remote ack must surface as a timeout");
    assert!(b.is_engaged());
}

#[test]
fn acks_of_an_earlier_stop_do_not_count() {
    let mut a: ClusterKillSwitch<Party> = ClusterKillSwitch::new(Replicator::new(), "k", "A");
    a.apply_pdu(HaltPdu::Ack { from: "B".into(), epoch: 0 });
    let peers = vec!["B".to_string()];
    assert_eq!(a.remote_ack_count(0, &peers), 1);
    begin_remote(&mut a, &peers);
    assert_eq!(a.remote_ack_count(0, &peers), 0);
}

#[test]
fn engaged_survives_absorbing_a_replica() {
    let mut a = switch();
    a.engage(HaltReason::QuorumLost);
    a.absorb(&Replicator::new());
    assert!(a.is_engaged());
    let mut b = switch();
    b.absorb(a.replicator());
    assert!(b.is_engaged());
}

#[test]
fn refusals_are_told_in_words() {
    assert_eq!(ResetError::MissingApprover.message(), "reset requires two non-empty approvers");
    assert_eq!(
        ResetError::DuplicateApprover.message(),
        "reset requires two distinct approvers (got the same identity twice)"
    );
}

#[test]
fn a_fresh_switch_has_numbers_left() {
    let mut ks = switch();
    assert!(ks.has_numbers_left());
    let mut full = Replicator::new();
    full.update_register(
        "atomr/killswitch::epoch",
        LwwRegister::new("node-2", u64::MAX, u64::MAX),
    );
    ks.absorb(&full);
    assert_eq!(ks.epoch(), u64::MAX);
    assert!(!ks.has_numbers_left());
}
