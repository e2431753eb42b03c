//! Cluster singleton: one logical actor across the cluster.
//!
//! ```text
//! Active(here) -- oldest changed ---> HandingOver -- handover ack --> Inactive
//! Inactive ------ elected oldest ---> Starting ----- started -------> Active(here)
//! Inactive ------ observed remote --> Active(remote)
//! ```
//!
//! While the singleton is not active, messages for it are buffered, up to a
//! limit, and handed out in order once it is.

use crate::actor::reference::UntypedActorRef;
use std::collections::VecDeque;
use vstd::prelude::*;

verus! {

/// Fencing token. It grows every time this node assumes the singleton, so
/// writers of a prior incarnation can be told by their lower token.
#[derive(Debug, Clone, Copy, PartialEq, Eq, Structural, PartialOrd, Ord, Hash)]
pub struct FenceToken(pub u64);

/// The serialized external session carried across a handover. Its bytes are
/// never looked at.
#[derive(Debug, PartialEq, Eq)]
pub struct HandoffState(pub Vec<u8>);

/// What a hook has been through, as a mathematical value.
#[verifier::ext_equal]
pub struct HookView {
    /// The sessions it gave out.
    pub prepared: Seq<Seq<u8>>,
    /// The sessions it was given, with the fencing token of each.
    pub assumed: Seq<(Option<Seq<u8>>, u64)>,
}

/// The bytes of an optional session.
pub open spec fn session(s: Option<HandoffState>) -> Option<Seq<u8>> {
    match s {
        Some(h) => Some(h.0@),
        None => None,
    }
}

/// Migrates external state (a broker session, a lease, an open file) when the
/// singleton moves.
pub trait SingletonHandoff: Sized {
    /// What the hook has been through.
    open spec fn history(&self) -> HookView {
        arbitrary()
    }

    /// Runs on the outgoing node when it hands over.
    fn prepare_handoff(&mut self) -> (r: HandoffState)
        ensures
            final(self).history() == (HookView {
                prepared: old(self).history().prepared.push(r.0@),
                ..old(self).history()
            }),
    ;

    /// Runs on the incoming node when it becomes the singleton, with the state
    /// captured on this node, if any, and the fresh token.
    fn take_over(&mut self, prior: Option<HandoffState>, fence: FenceToken)
        ensures
            final(self).history() == (HookView {
                assumed: old(self).history().assumed.push((session(prior), fence.0)),
                ..old(self).history()
            }),
    ;
}

/// A hook that migrates nothing.
pub struct NoHandoff {
    history: Ghost<HookView>,
}

impl SingletonHandoff for NoHandoff {
    closed spec fn history(&self) -> HookView {
        self.history@
    }

    fn prepare_handoff(&mut self) -> HandoffState {
        let r = HandoffState(Vec::new());
        self.history =
        Ghost(HookView { prepared: self.history@.prepared.push(r.0@), ..self.history@ });
        r
    }

    fn take_over(&mut self, prior: Option<HandoffState>, fence: FenceToken) {
        self.history =
        Ghost(
            HookView {
                assumed: self.history@.assumed.push((session(prior), fence.0)),
                ..self.history@
            },
        );
    }
}

/// Singleton lifecycle state.
#[derive(Debug, PartialEq, Eq)]
#[non_exhaustive]
pub enum SingletonState {
    /// No singleton known yet.
    Inactive,
    /// This node is about to become the singleton.
    Starting,
    /// The singleton lives at this reference.
    Active { ref_: UntypedActorRef, here: bool },
    /// This node was the singleton; another takes over.
    HandingOver,
}

/// A lifecycle state as a mathematical value.
pub enum StateView {
    Inactive,
    Starting,
    Active { path: Seq<char>, here: bool },
    HandingOver,
}

impl View for SingletonState {
    type V = StateView;

    open spec fn view(&self) -> StateView {
        match self {
            SingletonState::Inactive => StateView::Inactive,
            SingletonState::Starting => StateView::Starting,
            SingletonState::Active { ref_, here } => StateView::Active { path: ref_@, here: *here },
            SingletonState::HandingOver => StateView::HandingOver,
        }
    }
}

impl Clone for SingletonState {
    fn clone(&self) -> (r: Self)
        ensures
            r@ == self@,
    {
        match self {
            SingletonState::Inactive => SingletonState::Inactive,
            SingletonState::Starting => SingletonState::Starting,
            SingletonState::Active { ref_, here } => SingletonState::Active {
                ref_: ref_.clone(),
                here: *here,
            },
            SingletonState::HandingOver => SingletonState::HandingOver,
        }
    }
}

impl SingletonState {
    /// The name of the state.
    pub fn name(&self) -> (r: &'static str)
        ensures
            r@ == (match self@ {
                StateView::Inactive => "inactive"@,
                StateView::Starting => "starting"@,
                StateView::Active { here, .. } => if here {
                    "active_here"@
                } else {
                    "active_remote"@
                },
                StateView::HandingOver => "handing_over"@,
            }),
    {
        match self {
            SingletonState::Inactive => "inactive",
            SingletonState::Starting => "starting",
            SingletonState::Active { here, .. } => if *here {
                "active_here"
            } else {
                "active_remote"
            },
            SingletonState::HandingOver => "handing_over",
        }
    }
}

/// Where a message for the singleton goes.
#[derive(Debug, PartialEq, Eq)]
pub enum Routed<M> {
    /// To the singleton, now.
    Deliver(UntypedActorRef, M),
    /// To the buffer.
    Buffered,
    /// Nowhere: the buffer is full.
    Refused(M),
}

/// A manager as a mathematical value.
#[verifier::ext_equal]
pub struct ManagerView<M> {
    pub state: StateView,
    pub buffer: Seq<M>,
    pub buffer_size: nat,
    pub drops: u64,
    pub fence: u64,
    /// The hook, where there is one.
    pub hook: Option<HookView>,
    /// The session captured on this node and not yet assumed.
    pub prior: Option<Seq<u8>>,
}

impl<M> ManagerView<M> {
    /// A new manager.
    pub open spec fn fresh(buffer_size: nat, hook: Option<HookView>) -> ManagerView<M> {
        ManagerView {
            state: StateView::Inactive,
            buffer: Seq::empty(),
            buffer_size,
            drops: 0,
            fence: 0,
            hook,
            prior: None,
        }
    }

    pub open spec fn in_state(self, state: StateView) -> ManagerView<M> {
        ManagerView { state, ..self }
    }

    /// The manager once nothing is buffered.
    pub open spec fn flushed(self) -> ManagerView<M> {
        ManagerView { buffer: Seq::empty(), ..self }
    }

    /// The manager once this node assumed the singleton: the token grows, and
    /// the hook, where there is one, takes over the captured session.
    pub open spec fn assumed(self) -> ManagerView<M> {
        let token = (self.fence + 1) as u64;
        match self.hook {
            Some(h) => ManagerView {
                fence: token,
                hook: Some(
                    HookView { assumed: h.assumed.push((self.prior, token)), ..h },
                ),
                prior: None,
                ..self
            },
            None => ManagerView { fence: token, ..self },
        }
    }

    /// The manager once the hook, where there is one, gave out `captured`.
    pub open spec fn captured(self, captured: Seq<u8>) -> ManagerView<M> {
        match self.hook {
            Some(h) => ManagerView {
                hook: Some(HookView { prepared: h.prepared.push(captured), ..h }),
                prior: Some(captured),
                ..self
            },
            None => self,
        }
    }
}

/// Keeps track of where the singleton lives and buffers messages for it.
pub struct ClusterSingletonManager<M, H> {
    state: SingletonState,
    buffer: VecDeque<M>,
    buffer_size: usize,
    drops: u64,
    fence: u64,
    handoff: Option<H>,
    prior: Option<HandoffState>,
}

impl<M, H: SingletonHandoff> View for ClusterSingletonManager<M, H> {
    type V = ManagerView<M>;

    closed spec fn view(&self) -> ManagerView<M> {
        ManagerView {
            state: self.state@,
            buffer: self.buffer@,
            buffer_size: self.buffer_size as nat,
            drops: self.drops,
            fence: self.fence,
            hook: match self.handoff {
                Some(h) => Some(h.history()),
                None => None,
            },
            prior: session(self.prior),
        }
    }
}

impl<M> ClusterSingletonManager<M, NoHandoff> {
    /// A manager that buffers up to 1000 messages.
    pub fn new() -> (r: Self)
        ensures
            r@ == ManagerView::<M>::fresh(1000, None),
    {
        Self::with_buffer_size(1000)
    }

    /// A manager that buffers up to `size` messages.
    pub fn with_buffer_size(size: usize) -> (r: Self)
        ensures
            r@ == ManagerView::<M>::fresh(size as nat, None),
    {
        ClusterSingletonManager {
            state: SingletonState::Inactive,
            buffer: VecDeque::new(),
            buffer_size: size,
            drops: 0,
            fence: 0,
            handoff: None,
            prior: None,
        }
    }
}

impl<M, H: SingletonHandoff> ClusterSingletonManager<M, H> {
    /// A manager that migrates external state through `handoff`.
    pub fn with_handoff(handoff: H) -> (r: Self)
        ensures
            r@ == ManagerView::<M>::fresh(1000, Some(handoff.history())),
    {
        ClusterSingletonManager {
            state: SingletonState::Inactive,
            buffer: VecDeque::new(),
            buffer_size: 1000,
            drops: 0,
            fence: 0,
            handoff: Some(handoff),
            prior: None,
        }
    }

    pub fn state(&self) -> (r: SingletonState)
        ensures
            r@ == self@.state,
    {
        self.state.clone()
    }

    /// The current fencing token.
    pub fn fence(&self) -> (r: FenceToken)
        ensures
            r.0 == self@.fence,
    {
        FenceToken(self.fence)
    }

    /// Marks `r` as the singleton on this node: the fencing token grows, the
    /// hook, where there is one, takes over the captured session, and the
    /// buffered messages, in order, are handed out for delivery to `r`.
    pub fn set_active_here(&mut self, r: UntypedActorRef) -> (out: Vec<M>)
        requires
            old(self)@.fence < u64::MAX,
        ensures
            final(self)@ == old(self)@.assumed().in_state(
                StateView::Active { path: r@, here: true },
            ).flushed(),
            out@ == old(self)@.buffer,
    {
        self.fence = self.fence + 1;
        let token = FenceToken(self.fence);
        self.run_take_over(token);
        self.state = SingletonState::Active { ref_: r, here: true };
        self.flush()
    }

    /// Hands the captured session to the hook, where there is one.
    fn run_take_over(&mut self, token: FenceToken)
        ensures
            final(self)@ == (match old(self)@.hook {
                Some(h) => ManagerView {
                    hook: Some(
                        HookView { assumed: h.assumed.push((old(self)@.prior, token.0)), ..h },
                    ),
                    prior: None,
                    ..old(self)@
                },
                None => old(self)@,
            }),
    {
        if let Some(h) = self.handoff.as_mut() {
            let prior: Option<HandoffState> = self.prior.take();
            h.take_over(prior, token);
        }
    }

    /// Marks `r` as the singleton on another node; the buffered messages, in
    /// order, are handed out for delivery to `r`.
    pub fn set_active_remote(&mut self, r: UntypedActorRef) -> (out: Vec<M>)
        ensures
            final(self)@ == old(self)@.in_state(
                StateView::Active { path: r@, here: false },
            ).flushed(),
            out@ == old(self)@.buffer,
    {
        self.state = SingletonState::Active { ref_: r, here: false };
        self.flush()
    }

    /// Begins to hand over. The hook, where there is one, gives out its session,
    /// which the next local takeover picks up.
    pub fn begin_handover(&mut self)
        ensures
            exists|captured: Seq<u8>|
                final(self)@ == #[trigger] old(self)@.captured(captured).in_state(
                    StateView::HandingOver,
                ),
    {
        let ghost mut taken: Seq<u8> = Seq::empty();
        if let Some(h) = self.handoff.as_mut() {
            let captured: HandoffState = h.prepare_handoff();
            proof {
                taken = captured.0@;
            }
            self.prior = Some(captured);
        }
        self.state = SingletonState::HandingOver;
        assert(self@ =~= old(self)@.captured(taken).in_state(StateView::HandingOver));
    }

    /// Begins to start: this node was elected.
    pub fn begin_starting(&mut self)
        ensures
            final(self)@ == old(self)@.in_state(StateView::Starting),
    {
        self.state = SingletonState::Starting;
    }

    /// Forgets the current singleton.
    pub fn clear(&mut self)
        ensures
            final(self)@ == old(self)@.in_state(StateView::Inactive),
    {
        self.state = SingletonState::Inactive;
    }

    /// Where the singleton lives, if it is active.
    pub fn current(&self) -> (r: Option<UntypedActorRef>)
        ensures
            match self@.state {
                StateView::Active { path, .. } => r matches Some(x) && x@ == path,
                _ => r is None,
            },
    {
        match &self.state {
            SingletonState::Active { ref_, .. } => Some(ref_.clone()),
            _ => None,
        }
    }

    /// Routes a message: to the singleton if it is active, else to the buffer,
    /// unless that is full.
    fn buffer_or_deliver(&mut self, msg: M) -> (r: Routed<M>)
        requires
            old(self)@.drops < u64::MAX,
        ensures
            is_routed(old(self)@, final(self)@, msg, r),
            r is Refused <==> !(old(self)@.state is Active) && old(self)@.buffer.len()
                >= old(self)@.buffer_size,
            r is Deliver <==> old(self)@.state is Active,
            r is Buffered <==> final(self)@.buffer.len() > old(self)@.buffer.len(),
    {
        if let Some(target) = self.current() {
            return Routed::Deliver(target, msg);
        }
        if self.buffer.len() >= self.buffer_size {
            self.drops = self.drops + 1;
            return Routed::Refused(msg);
        }
        self.buffer.push_back(msg);
        Routed::Buffered
    }

    /// Takes everything out of the buffer, in order.
    fn flush(&mut self) -> (out: Vec<M>)
        ensures
            final(self)@ == old(self)@.flushed(),
            out@ == old(self)@.buffer,
    {
        let mut out: Vec<M> = Vec::new();
        let ghost all = self.buffer@;
        assert(out@ + self.buffer@ =~= all);
        while self.buffer.len() > 0
            invariant
                out@ + self.buffer@ == all,
                self@ == (ManagerView { buffer: self.buffer@, ..old(self)@ }),
                all == old(self)@.buffer,
            decreases self.buffer.len(),
        {
            let ghost before = self.buffer@;
            let ghost held = out@;
            if let Some(m) = self.buffer.pop_front() {
                out.push(m);
                assert(out@ + self.buffer@ =~= held + before);
            }
        }
        assert(out@ =~= all);
        assert(self.buffer@ =~= Seq::<M>::empty());
        out
    }

    /// How many messages wait for the singleton.
    pub fn buffered(&self) -> (r: usize)
        ensures
            r == self@.buffer.len(),
    {
        self.buffer.len()
    }

    /// How many messages were refused because the buffer was full.
    pub fn drops(&self) -> (r: u64)
        ensures
            r == self@.drops,
    {
        self.drops
    }
}

/// Whether `r` is how a message is routed, and `after` how it leaves a manager.
pub open spec fn is_routed<M>(
    before: ManagerView<M>,
    after: ManagerView<M>,
    msg: M,
    r: Routed<M>,
) -> bool {
    match before.state {
        StateView::Active { path, .. } => {
            &&& r matches Routed::Deliver(target, m)
            &&& target@ == path
            &&& m == msg
            &&& after == before
        },
        _ => if before.buffer.len() >= before.buffer_size {
            r == Routed::Refused(msg) && after == (ManagerView {
                drops: (before.drops + 1) as u64,
                ..before
            })
        } else {
            r == Routed::<M>::Buffered && after == (ManagerView {
                buffer: before.buffer.push(msg),
                ..before
            })
        },
    }
}

/// Routes messages to the current singleton, buffering while there is none.
pub struct ClusterSingletonProxy<M, H> {
    pub manager: ClusterSingletonManager<M, H>,
}

impl<M, H: SingletonHandoff> ClusterSingletonProxy<M, H> {
    pub fn new(manager: ClusterSingletonManager<M, H>) -> (r: Self)
        ensures
            r.manager == manager,
    {
        ClusterSingletonProxy { manager }
    }

    /// Where the singleton lives, if it is active.
    pub fn singleton(&self) -> (r: Option<UntypedActorRef>)
        ensures
            match self.manager@.state {
                StateView::Active { path, .. } => r matches Some(x) && x@ == path,
                _ => r is None,
            },
    {
        self.manager.current()
    }

    /// Routes a message: for delivery now if the singleton is active, else into
    /// the buffer, unless that is full.
    pub fn send(&mut self, msg: M) -> (r: Routed<M>)
        requires
            old(self).manager@.drops < u64::MAX,
        ensures
            is_routed(old(self).manager@, final(self).manager@, msg, r),
            r is Refused <==> !(old(self).manager@.state is Active)
                && old(self).manager@.buffer.len() >= old(self).manager@.buffer_size,
            r is Deliver <==> old(self).manager@.state is Active,
    {
        self.manager.buffer_or_deliver(msg)
    }
}

// ---------------------------------------------------------------------------
// Laws
// ---------------------------------------------------------------------------
/// The fencing token grows with every takeover of this node and changes at no
/// other step.
pub proof fn fence_is_monotonic<M>(
    m: ManagerView<M>,
    after: ManagerView<M>,
    state: StateView,
    captured: Seq<u8>,
    msg: M,
    r: Routed<M>,
)
    requires
        m.fence < u64::MAX,
        is_routed(m, after, msg, r),
    ensures
        m.assumed().in_state(state).flushed().fence > m.fence,
        m.in_state(state).fence == m.fence,
        m.in_state(state).flushed().fence == m.fence,
        m.captured(captured).in_state(state).fence == m.fence,
        after.fence == m.fence,
{
}

/// What a handover captured, the next takeover of this node hands to the hook,
/// once, with the token of the takeover.
pub proof fn session_is_carried_over<M>(
    m: ManagerView<M>,
    captured: Seq<u8>,
    state: StateView,
)
    requires
        m.hook is Some,
        m.fence < u64::MAX,
    ensures
        ({
            let taken = m.captured(captured).in_state(StateView::HandingOver).assumed().in_state(
                state,
            ).flushed();
            &&& taken.hook matches Some(h)
            &&& h.assumed.last() == (Some(captured), (m.fence + 1) as u64)
            &&& taken.prior is None
        }),
{
}

/// A message is refused exactly if the singleton is not active and the buffer
/// holds as many messages as it may. While the singleton is inactive, starting or
/// handing over and fewer are held, the message is buffered behind them and no
/// drop is counted; while it is active, the message goes to it and nothing of the
/// manager changes. A refused message comes back and counts as one drop.
pub proof fn messages_wait_while_there_is_room<M>(
    before: ManagerView<M>,
    after: ManagerView<M>,
    msg: M,
    r: Routed<M>,
)
    requires
        is_routed(before, after, msg, r),
        before.drops < u64::MAX,
    ensures
        r is Refused <==> !(before.state is Active) && before.buffer.len() >= before.buffer_size,
        (before.state is Inactive || before.state is Starting || before.state is HandingOver)
            && before.buffer.len() < before.buffer_size ==> {
            &&& r is Buffered
            &&& after.buffer == before.buffer.push(msg)
            &&& after.drops == before.drops
        },
        (before.state is Inactive || before.state is Starting || before.state is HandingOver)
            && before.buffer.len() >= before.buffer_size ==> {
            &&& r == Routed::Refused(msg)
            &&& after.buffer == before.buffer
            &&& after.drops == before.drops + 1
        },
        before.state matches StateView::Active { path, .. } ==> {
            &&& r matches Routed::Deliver(target, m)
            &&& target@ == path
            &&& m == msg
            &&& after == before
        },
        after.state == before.state,
        after.buffer_size == before.buffer_size,
        after.fence == before.fence,
        after.hook == before.hook,
        after.prior == before.prior,
{
}

/// Taking over the singleton raises the fencing token by exactly one and empties
/// the buffer. A hook, where there is one, is then given the captured session and
/// the new token behind what it was given before, and the session is used up;
/// without a hook nothing else changes.
pub proof fn takeover_raises_the_token<M>(m: ManagerView<M>, path: Seq<char>)
    requires
        m.fence < u64::MAX,
    ensures
        ({
            let after = m.assumed().in_state(StateView::Active { path, here: true }).flushed();
            &&& after.fence == m.fence + 1
            &&& after.state == StateView::Active { path, here: true }
            &&& after.buffer.len() == 0
            &&& after.buffer_size == m.buffer_size
            &&& after.drops == m.drops
            &&& m.hook is None ==> after.hook is None && after.prior == m.prior
            &&& m.hook matches Some(h) ==> {
                &&& after.prior is None
                &&& after.hook matches Some(g)
                &&& g.prepared == h.prepared
                &&& g.assumed == h.assumed.push((m.prior, (m.fence + 1) as u64))
            }
        }),
{
}

/// Handing over keeps what is buffered, the token and the drops, and captures the
/// session of the hook, where there is one, in place of an earlier one.
pub proof fn handover_captures_the_session<M>(m: ManagerView<M>, captured: Seq<u8>)
    ensures
        ({
            let after = m.captured(captured).in_state(StateView::HandingOver);
            &&& after.state is HandingOver
            &&& after.buffer == m.buffer
            &&& after.buffer_size == m.buffer_size
            &&& after.drops == m.drops
            &&& after.fence == m.fence
            &&& m.hook is None ==> after.hook is None && after.prior == m.prior
            &&& m.hook matches Some(h) ==> {
                &&& after.prior == Some(captured)
                &&& after.hook matches Some(g)
                &&& g.prepared == h.prepared.push(captured)
                &&& g.assumed == h.assumed
            }
        }),
{
}

/// A change of state alone keeps everything else, and a new manager knows no
/// singleton, holds nothing and starts at token 0.
pub proof fn states_change_alone<M>(m: ManagerView<M>, state: StateView, size: nat, hook: Option<HookView>)
    ensures
        m.in_state(state).state == state,
        m.in_state(state).buffer == m.buffer,
        m.in_state(state).buffer_size == m.buffer_size,
        m.in_state(state).drops == m.drops,
        m.in_state(state).fence == m.fence,
        m.in_state(state).hook == m.hook,
        m.in_state(state).prior == m.prior,
        m.flushed().buffer.len() == 0,
        m.flushed().state == m.state,
        m.flushed().drops == m.drops,
        m.flushed().buffer_size == m.buffer_size,
        m.flushed().hook == m.hook,
        m.flushed().prior == m.prior,
        ({
            let new = ManagerView::<M>::fresh(size, hook);
            &&& new.state is Inactive
            &&& new.buffer.len() == 0
            &&& new.buffer_size == size
            &&& new.drops == 0
            &&& new.fence == 0
            &&& new.hook == hook
            &&& new.prior is None
        }),
{
}

/// A message that was buffered is handed out once the singleton is active,
/// behind those buffered before it.
pub proof fn buffered_is_handed_out<M>(
    m: ManagerView<M>,
    after: ManagerView<M>,
    msg: M,
    r: Routed<M>,
)
    requires
        is_routed(m, after, msg, r),
        r is Buffered,
    ensures
        after.buffer == m.buffer.push(msg),
        after.buffer.len() <= after.buffer_size,
        after.flushed().buffer.len() == 0,
{
}

} // verus!
