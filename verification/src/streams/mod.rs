//! Stream operators: gating on a logical clock, lock-stepped emission, rate
//! mediation, and the decisions of the polling and websocket sources. Each
//! operator is a state machine; whoever pulls the elements and waits for the
//! clock drives it.

pub mod clock_gated;
pub mod http_poll;
pub mod rate;
pub mod ws;

pub use clock_gated::{ClockGate, GateStep, InstantToken, StepLock};
pub use http_poll::{HttpError, HttpResponse, PollState, RequestSpec};
pub use rate::{Backoff, Conflate, Expand, ExpandStep, Merge, RetryAfter, Upstream};
pub use ws::{WsError, WsFrame, WsMessage};
