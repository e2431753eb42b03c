//! Emission that is coupled to a logical clock.
//!
//! A [`ClockGate`] looks one element ahead and lets it out only when the clock
//! has reached its event time. A [`StepLock`] hands a token out with each
//! element and asks for no further element until that token comes back.

use crate::time::LogicalTime;
use vstd::prelude::*;

verus! {

// ---------------------------------------------------------------------------
// Clock gate
// ---------------------------------------------------------------------------
/// What a clock gate does when it is asked for an element.
pub enum GateStep<T> {
    /// The source is exhausted.
    Finished,
    /// An element whose time has come. The next one is to be offered.
    Released(T),
    /// The next element is not due yet: ask again later.
    Wait,
}

/// A gate before a source. Event times must not fall from element to element;
/// then to hold one element back is to hold all behind it.
pub struct ClockGate<T> {
    peeked: Option<T>,
    started: bool,
    offered: Ghost<Seq<T>>,
    released: Ghost<Seq<T>>,
}

/// The model of [`ClockGate`].
#[verifier::ext_equal]
pub struct GateView<T> {
    /// The element that is held back.
    pub peeked: Option<T>,
    /// Whether the first element was asked for.
    pub started: bool,
    /// All elements that were offered, in order.
    pub offered: Seq<T>,
    /// All elements that were let out, in order.
    pub released: Seq<T>,
}

impl<T> View for ClockGate<T> {
    type V = GateView<T>;

    closed spec fn view(&self) -> GateView<T> {
        GateView {
            peeked: self.peeked,
            started: self.started,
            offered: self.offered@,
            released: self.released@,
        }
    }
}

impl<T> GateView<T> {
    /// Nothing is lost, doubled or reordered: what was offered is what was let
    /// out, and the element that is held.
    pub open spec fn valid(self) -> bool {
        match self.peeked {
            Some(item) => self.offered == self.released.push(item),
            None => self.offered == self.released,
        }
    }
}

/// `event_time` may tell the time `due` of `item`.
pub open spec fn tells<T, F: Fn(&T) -> LogicalTime>(
    event_time: F,
    item: T,
    due: LogicalTime,
) -> bool {
    call_ensures(event_time, (&item,), due)
}

impl<T> ClockGate<T> {
    /// A gate that has not asked for an element yet.
    pub fn new() -> (r: ClockGate<T>)
        ensures
            r@ == (GateView {
                peeked: None::<T>,
                started: false,
                offered: Seq::empty(),
                released: Seq::empty(),
            }),
            r@.valid(),
    {
        ClockGate {
            peeked: None,
            started: false,
            offered: Ghost(Seq::empty()),
            released: Ghost(Seq::empty()),
        }
    }

    /// Whether the first element is to be offered before any is asked for: true
    /// once.
    pub fn start(&mut self) -> (r: bool)
        ensures
            r == !old(self)@.started,
            final(self)@ == (GateView { started: true, ..old(self)@ }),
    {
        let first: bool = !self.started;
        self.started = true;
        first
    }

    /// Offer the next element of the source, or its end.
    pub fn offer(&mut self, item: Option<T>)
        requires
            old(self)@.valid(),
            old(self)@.peeked is None,
        ensures
            final(self)@.valid(),
            final(self)@.peeked == item,
            final(self)@.started == old(self)@.started,
            final(self)@.released == old(self)@.released,
            final(self)@.offered == (match item {
                Some(x) => old(self)@.offered.push(x),
                None => old(self)@.offered,
            }),
    {
        proof {
            if item is Some {
                self.offered@ = self.offered@.push(item->0);
            }
        }
        self.peeked = item;
    }

    /// Ask for an element when the clock stands at `now`. An element is let out
    /// only if its event time is not after `now`.
    pub fn poll<F: Fn(&T) -> LogicalTime>(&mut self, event_time: &F, now: LogicalTime) -> (r:
        GateStep<T>)
        requires
            old(self)@.valid(),
            forall|item: &T| call_requires(*event_time, (item,)),
        ensures
            final(self)@.valid(),
            final(self)@.started == old(self)@.started,
            final(self)@.offered == old(self)@.offered,
            match old(self)@.peeked {
                None => r is Finished && final(self)@ == old(self)@,
                Some(item) => exists|due: LogicalTime|
                    {
                        &&& #[trigger] tells(*event_time, item, due)
                        &&& if due.0 <= now.0 {
                            &&& r == GateStep::Released(item)
                            &&& final(self)@.peeked is None
                            &&& final(self)@.released == old(self)@.released.push(item)
                        } else {
                            &&& r is Wait
                            &&& final(self)@ == old(self)@
                        }
                    },
            },
    {
        match self.peeked.take() {
            None => GateStep::Finished,
            Some(item) => {
                let due: LogicalTime = event_time(&item);
                assert(tells(*event_time, item, due));
                if now.0 >= due.0 {
                    proof {
                        self.released@ = self.released@.push(item);
                    }
                    GateStep::Released(item)
                } else {
                    self.peeked = Some(item);
                    GateStep::Wait
                }
            },
        }
    }
}

/// Whatever is let out comes in the order in which it was offered, and nothing
/// is left out before it.
pub proof fn elements_keep_their_order<T>(gate: GateView<T>, i: int)
    requires
        gate.valid(),
        0 <= i < gate.released.len(),
    ensures
        i < gate.offered.len(),
        gate.released[i] == gate.offered[i],
{
}

/// What was offered to a gate is what it let out, and behind it the element that
/// it holds, if it holds one.
pub proof fn gate_loses_nothing<T>(gate: GateView<T>)
    ensures
        gate.valid() <==> {
            &&& gate.peeked is None ==> gate.offered == gate.released
            &&& gate.peeked is Some ==> gate.offered.len() == gate.released.len() + 1
                && gate.offered.drop_last() == gate.released && gate.offered.last()
                == gate.peeked->0
        },
{
    if let Some(item) = gate.peeked {
        assert(gate.released.push(item).drop_last() =~= gate.released);
        if gate.offered.len() == gate.released.len() + 1 && gate.offered.drop_last()
            == gate.released && gate.offered.last() == item {
            assert(gate.offered =~= gate.released.push(item));
        }
    }
}

/// Whether event times never fall along `items`.
pub open spec fn rises<T>(items: Seq<T>, time: spec_fn(T) -> LogicalTime) -> bool {
    forall|i: int, j: int|
        0 <= i <= j < items.len() ==> time(#[trigger] items[i]).0 <= time(#[trigger] items[j]).0
}

/// While a clock gate holds an element that is not due, none of the elements behind
/// it is due either: to hold one back is to hold back all that must be.
pub proof fn holding_one_holds_all<T>(
    gate: GateView<T>,
    behind: Seq<T>,
    time: spec_fn(T) -> LogicalTime,
    now: LogicalTime,
    j: int,
)
    requires
        gate.valid(),
        gate.peeked is Some,
        rises(gate.offered + behind, time),
        time(gate.peeked->0).0 > now.0,
        0 <= j < behind.len(),
    ensures
        time(behind[j]).0 > now.0,
{
    let all = gate.offered + behind;
    let held = gate.offered.len() - 1;
    assert(all[held] == gate.peeked->0);
    assert(all[gate.offered.len() + j] == behind[j]);
    assert(time(all[held]).0 <= time(all[gate.offered.len() + j]).0);
}

// ---------------------------------------------------------------------------
// Step lock
// ---------------------------------------------------------------------------
/// The token of an element that was handed out. Tokens rise by one from element
/// to element.
#[derive(Debug, Clone, Copy, PartialEq, Eq, PartialOrd, Ord, Hash, Structural)]
pub struct InstantToken(pub u64);

/// Hands out one element at a time, each with a token, and waits for that token
/// before it asks for another.
pub struct StepLock {
    next_token: u64,
    pending: Option<InstantToken>,
}

/// The model of [`StepLock`].
pub struct LockView {
    /// How many elements were handed out.
    pub handed_out: nat,
    /// The token that is awaited.
    pub pending: Option<InstantToken>,
}

impl View for StepLock {
    type V = LockView;

    closed spec fn view(&self) -> LockView {
        LockView { handed_out: self.next_token as nat, pending: self.pending }
    }
}

impl LockView {
    /// What is awaited is the token of the last element.
    pub open spec fn valid(self) -> bool {
        self.pending matches Some(t) ==> t.0 + 1 == self.handed_out
    }
}

impl StepLock {
    /// A lock that has handed nothing out.
    pub fn new() -> (r: StepLock)
        ensures
            r@.handed_out == 0,
            r@.pending is None,
            r@.valid(),
    {
        StepLock { next_token: 0, pending: None }
    }

    /// Whether an element may be asked for: not while a token is awaited.
    pub fn is_open(&self) -> (r: bool)
        ensures
            r == (self@.pending is None),
    {
        self.pending.is_none()
    }

    /// Take a token back. Only the awaited one opens the lock.
    pub fn ack(&mut self, token: InstantToken) -> (r: bool)
        requires
            old(self)@.valid(),
        ensures
            r == (old(self)@.pending == Some(token)),
            final(self)@ == if r {
                LockView { pending: None, ..old(self)@ }
            } else {
                old(self)@
            },
            final(self)@.valid(),
    {
        match self.pending {
            Some(awaited) => {
                if awaited.0 == token.0 {
                    self.pending = None;
                    true
                } else {
                    false
                }
            },
            None => false,
        }
    }

    /// Hand an element out.
    pub fn hand_out<T>(&mut self, item: T) -> (r: (T, InstantToken))
        requires
            old(self)@.valid(),
            old(self)@.pending is None,
            old(self)@.handed_out < u64::MAX,
        ensures
            r.0 == item,
            r.1.0 == old(self)@.handed_out,
            final(self)@ == (LockView {
                handed_out: old(self)@.handed_out + 1,
                pending: Some(r.1),
            }),
            final(self)@.valid(),
    {
        let token: InstantToken = InstantToken(self.next_token);
        self.next_token = self.next_token + 1;
        self.pending = Some(token);
        (item, token)
    }
}

} // verus!
