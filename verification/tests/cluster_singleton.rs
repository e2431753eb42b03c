use std::sync::{Arc, Mutex};

use atomr::actor::UntypedActorRef;
use atomr::cluster_tools::pub_sub::DistributedPubSub;
use atomr::cluster_tools::{
    ClusterSingletonManager, ClusterSingletonProxy, FenceToken, HandoffState, NoHandoff, Routed,
    SingletonHandoff, SingletonState,
};

type Manager = ClusterSingletonManager<u32, NoHandoff>;

struct Session {
    assumed: Arc<Mutex<Vec<(Option<Vec<u8>>, u64)>>>,
}

impl SingletonHandoff for Session {
    fn prepare_handoff(&mut self) -> HandoffState {
        HandoffState(b"session-42".to_vec())
    }
    fn take_over(&mut self, prior: Option<HandoffState>, fence: FenceToken) {
        self.assumed.lock().unwrap().push((prior.map(|p| p.0), fence.0));
    }
}

fn actor(name: &str) -> UntypedActorRef {
    UntypedActorRef::new(name)
}

#[test]
fn proxy_routes_to_current_singleton() {
    let mut mgr: Manager = ClusterSingletonManager::new();
    mgr.set_active_here(actor("singleton"));
    let proxy = ClusterSingletonProxy::new(mgr);
    assert!(proxy.singleton().is_some());
}

#[test]
fn handover_state_transitions() {
    let mut mgr: Manager = ClusterSingletonManager::new();
    assert!(matches!(mgr.state(), SingletonState::Inactive));
    mgr.begin_starting();
    assert!(matches!(mgr.state(), SingletonState::Starting));
    mgr.set_active_here(actor("s"));
    assert!(matches!(mgr.state(), SingletonState::Active { here: true, .. }));
    mgr.begin_handover();
    assert!(matches!(mgr.state(), SingletonState::HandingOver));
}

#[test]
fn proxy_buffers_during_handover_and_flushes_after() {
    let mut proxy = ClusterSingletonProxy::new(Manager::new());
    for n in 0..3 {
        assert!(matches!(proxy.send(n), Routed::Buffered));
    }
    assert_eq!(proxy.manager.buffered(), 3);
    let flushed = proxy.manager.set_active_here(actor("s"));
    assert_eq!(proxy.manager.buffered(), 0);
    assert_eq!(flushed, vec![0, 1, 2]);
    match proxy.send(3) {
        Routed::Deliver(to, n) => {
            assert_eq!(to.path(), "s");
            assert_eq!(n, 3);
        }
        _ => panic!("an active singleton is delivered to"),
    }
}

#[test]
fn full_buffer_drops_and_counts_overflow() {
    let mut proxy = ClusterSingletonProxy::new(Manager::with_buffer_size(2));
    assert!(matches!(proxy.send(1), Routed::Buffered));
    assert!(matches!(proxy.send(2), Routed::Buffered));
    assert!(matches!(proxy.send(3), Routed::Refused(3)));
    assert_eq!(proxy.manager.drops(), 1);
    assert_eq!(proxy.manager.buffered(), 2);
}

#[test]
fn fence_token_is_monotonic() {
    let mut mgr: Manager = ClusterSingletonManager::new();
    assert_eq!(mgr.fence(), FenceToken(0));
    mgr.set_active_here(actor("s"));
    let f1 = mgr.fence();
    mgr.begin_handover();
    mgr.set_active_here(actor("s"));
    let f2 = mgr.fence();
    assert!(f2 > f1, "fence must advance: {f1:?} -> {f2:?}");
    assert_eq!(f1, FenceToken(1));
    assert_eq!(f2, FenceToken(2));
}

#[test]
fn handoff_prepare_then_assume_carries_state_and_fence() {
    let assumed = Arc::new(Mutex::new(Vec::new()));
    let mut mgr: ClusterSingletonManager<u32, Session> =
        ClusterSingletonManager::with_handoff(Session { assumed: assumed.clone() });
    mgr.set_active_here(actor("s"));
    assert_eq!(assumed.lock().unwrap().last().cloned(), Some((None, 1)));
    mgr.begin_handover();
    mgr.set_active_here(actor("s"));
    assert_eq!(assumed.lock().unwrap().last().cloned(), Some((Some(b"session-42".to_vec()), 2)));
}

#[test]
fn handoff_buffering_still_works() {
    let assumed = Arc::new(Mutex::new(Vec::new()));
    let mgr: ClusterSingletonManager<u32, Session> =
        ClusterSingletonManager::with_handoff(Session { assumed });
    let mut proxy = ClusterSingletonProxy::new(mgr);
    for n in 0..2 {
        assert!(matches!(proxy.send(n), Routed::Buffered));
    }
    assert_eq!(proxy.manager.buffered(), 2);
    let flushed = proxy.manager.set_active_here(actor("s"));
    assert_eq!(flushed.len(), 2);
    assert_eq!(proxy.manager.buffered(), 0);
}

#[test]
fn set_active_remote_marks_here_false() {
    let mut mgr: Manager = ClusterSingletonManager::new();
    mgr.set_active_remote(actor("remote-host"));
    match mgr.state() {
        SingletonState::Active { here, .. } => assert!(!here),
        _ => panic!("expected active-remote"),
    }
}

#[test]
fn states_have_names() {
    let mut mgr: Manager = ClusterSingletonManager::new();
    assert_eq!(mgr.state().name(), "inactive");
    mgr.begin_starting();
    assert_eq!(mgr.state().name(), "starting");
    mgr.set_active_here(actor("s"));
    assert_eq!(mgr.state().name(), "active_here");
    mgr.set_active_remote(actor("s"));
    assert_eq!(mgr.state().name(), "active_remote");
    mgr.begin_handover();
    assert_eq!(mgr.state().name(), "handing_over");
    mgr.clear();
    assert!(mgr.current().is_none());
}

#[test]
fn subscribers_are_told_in_order() {
    let mut bus: DistributedPubSub<u32> = DistributedPubSub::new();
    bus.subscribe("orders", 1);
    bus.subscribe("fills", 2);
    bus.subscribe("orders", 3);
    assert_eq!(bus.subscribers("orders"), Some(&vec![1, 3]));
    assert_eq!(bus.subscribers("none"), None);
    assert_eq!(bus.topics(), vec!["fills", "orders"]);
}
