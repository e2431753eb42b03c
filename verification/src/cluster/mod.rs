//! Cluster membership and split-brain resolution.

pub mod member;
pub mod sbr;
pub mod sbr_runtime;

pub use member::{Address, Member, MemberStatus, MembershipState, Reachability};
pub use sbr::{
    DowningDecision, DowningStrategy, NoObserver, QuorumObserver, RoleWeightedQuorum,
    StaticQuorumStrategy,
};
pub use sbr_runtime::{SbrAction, SbrRuntime};
