//! Cluster tools: the emergency-halt latch and the cluster singleton.

pub mod cluster_singleton;
pub mod kill_switch;
pub mod pub_sub;

pub use cluster_singleton::{
    ClusterSingletonManager, ClusterSingletonProxy, FenceToken, HandoffState, NoHandoff, Routed,
    SingletonHandoff, SingletonState,
};
pub use kill_switch::{
    ClusterKillSwitch, HaltGuarded, HaltPdu, HaltReason, HaltToken, KillSwitchQuorumObserver,
    QuiescenceReport, ResetAuthorization, ResetError, ResetRecord,
};
