use atomr::cluster::sbr::QuorumObserver;
use atomr::cluster::{
    Address, DowningDecision, DowningStrategy, Member, MemberStatus, MembershipState,
    RoleWeightedQuorum, SbrAction, SbrRuntime, StaticQuorumStrategy,
};
use atomr::time::{LogicalTime, Span};

struct KeepMajorityStrategy;

impl DowningStrategy for KeepMajorityStrategy {
    fn decide(&self, reachable: &Vec<&Member>, unreachable: &Vec<&Member>) -> DowningDecision {
        if unreachable.is_empty() {
            DowningDecision::Stay
        } else if reachable.len() > unreachable.len() {
            DowningDecision::DownUnreachable
        } else {
            DowningDecision::DownSelf
        }
    }
}

struct Counter {
    lost: u32,
    regained: u32,
}

impl QuorumObserver for Counter {
    fn on_quorum_lost(&mut self) {
        self.lost += 1;
    }
    fn on_quorum_regained(&mut self) {
        self.regained += 1;
    }
}

fn member(addr: &str, status: MemberStatus) -> Member {
    let mut m = Member::new(Address::local(addr), vec![]);
    m.status = status;
    m
}

fn at_secs(secs: u64) -> LogicalTime {
    LogicalTime::from_millis(secs * 1000)
}

#[test]
fn none_when_no_partition() {
    let mut s = MembershipState::new();
    s.add_or_update(member("a", MemberStatus::Up));
    s.add_or_update(member("b", MemberStatus::Up));
    let mut rt = SbrRuntime::new(KeepMajorityStrategy, Span::from_secs(0));
    let r = rt.tick(&s, at_secs(1));
    assert_eq!(r, SbrAction::Nothing);
    assert!(rt.is_stable(at_secs(1)));
}

#[test]
fn waits_for_stability_window() {
    let mut s = MembershipState::new();
    s.add_or_update(member("a", MemberStatus::Up));
    s.add_or_update(member("b", MemberStatus::Up));
    s.add_or_update(member("c", MemberStatus::Up));
    s.reachability.unreachable(Address::local("b"), Address::local("c"));
    let mut rt = SbrRuntime::new(KeepMajorityStrategy, Span::from_secs(60));
    let now = at_secs(1);
    assert_eq!(rt.tick(&s, now), SbrAction::Nothing);
    assert!(!rt.is_stable(now));
}

#[test]
fn fires_after_stability_window_with_majority() {
    let mut s = MembershipState::new();
    s.add_or_update(member("a", MemberStatus::Up));
    s.add_or_update(member("b", MemberStatus::Up));
    s.add_or_update(member("c", MemberStatus::Up));
    s.reachability.unreachable(Address::local("b"), Address::local("c"));
    let mut rt = SbrRuntime::new(KeepMajorityStrategy, Span::from_secs(0));
    let r = rt.tick(&s, at_secs(1));
    match r {
        SbrAction::DownUnreachable(addrs) => {
            assert_eq!(addrs, vec!["akka://c".to_string()]);
        }
        other => panic!("expected DownUnreachable, got {other:?}"),
    }
}

#[test]
fn quorum_observer_fires_on_loss_and_regain() {
    let mut s = MembershipState::new();
    s.add_or_update(member("a", MemberStatus::Up));
    s.add_or_update(member("b", MemberStatus::Up));
    s.add_or_update(member("c", MemberStatus::Up));
    s.reachability.unreachable(Address::local("a"), Address::local("b"));
    s.reachability.unreachable(Address::local("a"), Address::local("c"));

    let mut rt = SbrRuntime::new(StaticQuorumStrategy { quorum_size: 3 }, Span::from_secs(0))
        .with_observer(Counter { lost: 0, regained: 0 });
    let now = at_secs(10);
    assert_eq!(rt.tick(&s, now), SbrAction::DownSelf);
    assert_eq!(rt.observer().unwrap().lost, 1);
    assert_eq!(rt.tick(&s, now), SbrAction::DownSelf);
    assert_eq!(rt.observer().unwrap().lost, 1);
    assert_eq!(rt.observer().unwrap().regained, 0);

    s.reachability.reachable(Address::local("a"), Address::local("b"));
    s.reachability.reachable(Address::local("a"), Address::local("c"));
    assert_eq!(rt.tick(&s, at_secs(11)), SbrAction::Nothing);
    assert_eq!(rt.observer().unwrap().regained, 1);
    assert_eq!(rt.tick(&s, at_secs(12)), SbrAction::Nothing);
    assert_eq!(rt.observer().unwrap().regained, 1);
}

#[test]
fn resets_clock_when_partition_heals() {
    let mut s = MembershipState::new();
    s.add_or_update(member("a", MemberStatus::Up));
    s.add_or_update(member("b", MemberStatus::Up));
    s.reachability.unreachable(Address::local("a"), Address::local("b"));
    let mut rt = SbrRuntime::new(KeepMajorityStrategy, Span::from_secs(60));
    let now = at_secs(10);
    let _ = rt.tick(&s, now);
    s.reachability.reachable(Address::local("a"), Address::local("b"));
    let r = rt.tick(&s, at_secs(11));
    assert_eq!(r, SbrAction::Nothing);
    assert!(rt.is_stable(at_secs(11)));
}

#[test]
fn role_weights_decide_the_quorum() {
    let q = RoleWeightedQuorum::new(vec![("core".to_string(), 5), ("edge".to_string(), 1)], 5);
    assert_eq!(q.min_quorum_weight(), 5);
    assert_eq!(q.weight_of("core"), 5);
    assert_eq!(q.weight_of("other"), 0);
    let core = Member::new(Address::local("a"), vec!["edge".to_string(), "core".to_string()]);
    let edge = Member::new(Address::local("b"), vec!["edge".to_string()]);
    assert_eq!(q.member_weight(&core), 5);
    assert_eq!(q.member_weight(&edge), 1);
    assert_eq!(q.decide(&vec![&core], &vec![&edge]), DowningDecision::DownUnreachable);
    assert_eq!(q.decide(&vec![&edge], &vec![&core]), DowningDecision::DownSelf);
}
