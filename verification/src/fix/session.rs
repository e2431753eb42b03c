//! FIX session state machine.
//!
//! [`FixSession`] is a runtime-agnostic driver of the FIX session layer: it is
//! fed inbound messages and produces the outbound ones, so the protocol can be
//! exercised without a socket.
//!
//! * Logon handshake: [`FixSession::build_logon`] emits a Logon; an inbound
//!   Logon makes the session active.
//! * Heartbeats and test requests: an inbound TestRequest is answered with a
//!   Heartbeat that echoes its TestReqID.
//! * Sequence management: every outbound message takes the next number from the
//!   [`FixSeqStore`]; every accepted inbound message advances the expected one.
//! * Gap detection: an inbound number above the expected one triggers a
//!   ResendRequest and advances nothing.
//! * Gap fill: an inbound ResendRequest is answered with a SequenceReset that
//!   carries GapFillFlag.
//! * Logout: an inbound Logout is answered unless it answers ours, and the
//!   session is disconnected.

use crate::buffer;
use crate::calendar;
use crate::fix::message::{FixMessage, MsgKind, MsgType};
use crate::fix::message;
use crate::fix::seq_store;
use crate::fix::seq_store::FixSeqStore;
use crate::fix::tags;
use crate::fix::wire;
use crate::fix::wire::{FieldView, ParseFailure};
use crate::text;
use crate::time::{since_epoch, Span};
use bytes::Bytes;
use vstd::prelude::*;

verus! {

/// FIX protocol version.
#[derive(Debug, Clone, Copy, PartialEq, Eq, Structural)]
pub enum FixVersion {
    Fix42,
    Fix44,
    Fix50Sp2,
}

impl FixVersion {
    /// The BeginString of messages of this version.
    pub open spec fn begin(self) -> Seq<char> {
        match self {
            FixVersion::Fix42 => "FIX.4.2"@,
            FixVersion::Fix44 => "FIX.4.4"@,
            FixVersion::Fix50Sp2 => "FIXT.1.1"@,
        }
    }

    /// The BeginString (tag 8) for this version. FIX 5.0 SP2 uses the FIXT
    /// transport begin-string `FIXT.1.1`.
    pub fn begin_string(&self) -> (r: &'static str)
        ensures
            r@ == self.begin(),
    {
        match self {
            FixVersion::Fix42 => "FIX.4.2",
            FixVersion::Fix44 => "FIX.4.4",
            FixVersion::Fix50Sp2 => "FIXT.1.1",
        }
    }

    /// Whether this version uses the FIXT transport (FIX 5.0+), which needs
    /// DefaultApplVerID (tag 1137) on the Logon.
    pub fn is_fixt(&self) -> (r: bool)
        ensures
            r == (self is Fix50Sp2),
    {
        match self {
            FixVersion::Fix50Sp2 => true,
            _ => false,
        }
    }
}

/// Static configuration for a session.
#[derive(Debug)]
pub struct FixSessionConfig {
    pub version: FixVersion,
    pub sender_comp_id: String,
    pub target_comp_id: String,
    pub heartbeat: Span,
    /// Send ResetSeqNumFlag=Y on logon (and reset our store).
    pub reset_on_logon: bool,
}

/// A session's configuration as a mathematical value.
pub struct ConfigView {
    pub version: FixVersion,
    pub sender: Seq<char>,
    pub target: Seq<char>,
    pub heartbeat: Span,
    pub reset_on_logon: bool,
}

impl View for FixSessionConfig {
    type V = ConfigView;

    open spec fn view(&self) -> ConfigView {
        ConfigView {
            version: self.version,
            sender: self.sender_comp_id@,
            target: self.target_comp_id@,
            heartbeat: self.heartbeat,
            reset_on_logon: self.reset_on_logon,
        }
    }
}

impl Clone for FixSessionConfig {
    fn clone(&self) -> (r: Self)
        ensures
            r@ == self@,
    {
        FixSessionConfig {
            version: self.version,
            sender_comp_id: self.sender_comp_id.clone(),
            target_comp_id: self.target_comp_id.clone(),
            heartbeat: self.heartbeat,
            reset_on_logon: self.reset_on_logon,
        }
    }
}

impl FixSessionConfig {
    /// A configuration with a heartbeat of 30 seconds and no reset on logon.
    pub fn new(version: FixVersion, sender_comp_id: &str, target_comp_id: &str) -> (r: Self)
        ensures
            r@ == (ConfigView {
                version,
                sender: sender_comp_id@,
                target: target_comp_id@,
                heartbeat: Span { secs: 30, nanos: 0 },
                reset_on_logon: false,
            }),
    {
        FixSessionConfig {
            version,
            sender_comp_id: sender_comp_id.to_owned(),
            target_comp_id: target_comp_id.to_owned(),
            heartbeat: Span::from_secs(30),
            reset_on_logon: false,
        }
    }
}

/// Lifecycle state of the session.
#[derive(Debug, Clone, Copy, PartialEq, Eq, Structural)]
pub enum SessionState {
    Disconnected,
    LogonSent,
    Active,
    LogoutSent,
}

/// The result of [`FixSession::handle_inbound`].
#[derive(Debug)]
pub struct InboundOutcome {
    /// Administrative replies the session wants to send, in order.
    pub outbound: Vec<FixMessage>,
    /// An application message to surface to the application, if any.
    pub application: Option<FixMessage>,
    /// `Some((expected, received))` when a sequence gap was detected.
    pub gap_detected: Option<(u64, u64)>,
    /// True when a stale duplicate or malformed message was ignored.
    pub ignored_duplicate: bool,
}

/// The outcome of an inbound message as a mathematical value.
#[verifier::ext_equal]
pub struct OutcomeView {
    pub outbound: Seq<Seq<FieldView>>,
    pub application: Option<Seq<FieldView>>,
    pub gap_detected: Option<(u64, u64)>,
    pub ignored_duplicate: bool,
}

/// The fields of a run of messages.
pub open spec fn messages(ms: Seq<FixMessage>) -> Seq<Seq<FieldView>> {
    ms.map_values(|m: FixMessage| m@)
}

impl View for InboundOutcome {
    type V = OutcomeView;

    open spec fn view(&self) -> OutcomeView {
        OutcomeView {
            outbound: messages(self.outbound@),
            application: match self.application {
                Some(m) => Some(m@),
                None => None,
            },
            gap_detected: self.gap_detected,
            ignored_duplicate: self.ignored_duplicate,
        }
    }
}

impl OutcomeView {
    /// Nothing to send, nothing to surface.
    pub open spec fn quiet() -> OutcomeView {
        OutcomeView {
            outbound: Seq::empty(),
            application: None,
            gap_detected: None,
            ignored_duplicate: false,
        }
    }

    /// One administrative reply.
    pub open spec fn reply(fields: Seq<FieldView>) -> OutcomeView {
        OutcomeView { outbound: seq![fields], ..OutcomeView::quiet() }
    }

    /// The message was ignored.
    pub open spec fn ignored() -> OutcomeView {
        OutcomeView { ignored_duplicate: true, ..OutcomeView::quiet() }
    }
}

impl Default for InboundOutcome {
    fn default() -> (r: Self)
        ensures
            r@ == OutcomeView::quiet(),
    {
        let r = InboundOutcome {
            outbound: Vec::new(),
            application: None,
            gap_detected: None,
            ignored_duplicate: false,
        };
        assert(r@.outbound =~= Seq::<Seq<FieldView>>::empty());
        r
    }
}

// ---------------------------------------------------------------------------
// The protocol
// ---------------------------------------------------------------------------
/// A session as a mathematical value.
pub struct SessionView {
    pub config: ConfigView,
    /// The number that the next outbound message carries.
    pub out: u64,
    /// The number that the next inbound message is expected to carry.
    pub expected: u64,
    pub state: SessionState,
}

/// A message with one more field set.
pub open spec fn also(fields: Seq<FieldView>, tag: u32, value: Seq<char>) -> Seq<FieldView> {
    wire::with_value(fields, tag, value)
}

/// A message of a type, with no other field.
pub open spec fn only_type(kind: MsgKind) -> Seq<FieldView> {
    seq![FieldView { tag: tags::MSG_TYPE, value: kind.code() }]
}

impl SessionView {
    /// `fields` with the standard header: BeginString, the two parties, the
    /// sequence number and the sending time.
    pub open spec fn headed(self, fields: Seq<FieldView>, seq: u64, now: nat) -> Seq<FieldView> {
        let a = also(fields, tags::BEGIN_STRING, self.config.version.begin());
        let b = also(a, tags::SENDER_COMP_ID, self.config.sender);
        let c = also(b, tags::TARGET_COMP_ID, self.config.target);
        let d = also(c, tags::MSG_SEQ_NUM, text::decimal(seq as nat));
        also(d, tags::SENDING_TIME, calendar::timestamp(now))
    }

    /// `fields` as the next outbound message.
    pub open spec fn stamped(self, fields: Seq<FieldView>, now: nat) -> Seq<FieldView> {
        self.headed(fields, self.out, now)
    }

    /// The session after an outbound message took its number.
    pub open spec fn sent(self) -> SessionView {
        SessionView { out: seq_store::successor(self.out), ..self }
    }

    pub open spec fn in_state(self, state: SessionState) -> SessionView {
        SessionView { state, ..self }
    }

    /// The session with both counters at 1.
    pub open spec fn restarted(self) -> SessionView {
        SessionView { out: 1, expected: 1, ..self }
    }

    /// The session after the inbound message with number `seq` was processed.
    pub open spec fn observed(self, seq: Option<nat>) -> SessionView {
        match seq {
            Some(n) => SessionView {
                expected: seq_store::after_observing(self.expected, n as u64),
                ..self
            },
            None => self,
        }
    }

    /// The session as the Logon finds it.
    pub open spec fn before_logon(self) -> SessionView {
        if self.config.reset_on_logon {
            self.restarted()
        } else {
            self
        }
    }

    pub open spec fn logon_fields(self) -> Seq<FieldView> {
        let a = also(only_type(MsgKind::Logon), tags::ENCRYPT_METHOD, "0"@);
        let b = also(a, tags::HEART_BT_INT, text::decimal(self.config.heartbeat.secs as nat));
        let c = if self.config.reset_on_logon {
            also(b, tags::RESET_SEQ_NUM_FLAG, "Y"@)
        } else {
            b
        };
        if self.config.version is Fix50Sp2 {
            also(c, tags::DEFAULT_APPL_VER_ID, "9"@)
        } else {
            c
        }
    }

    /// The Logon that the session sends.
    pub open spec fn logon(self, now: nat) -> Seq<FieldView> {
        self.before_logon().stamped(self.logon_fields(), now)
    }

    /// The session after it sent its Logon.
    pub open spec fn after_logon(self) -> SessionView {
        self.before_logon().sent().in_state(SessionState::LogonSent)
    }

    pub open spec fn logout(self, reason: Option<Seq<char>>, now: nat) -> Seq<FieldView> {
        let base = only_type(MsgKind::Logout);
        self.stamped(
            match reason {
                Some(r) => also(base, tags::TEXT, r),
                None => base,
            },
            now,
        )
    }

    pub open spec fn heartbeat(self, id: Option<Seq<char>>, now: nat) -> Seq<FieldView> {
        let base = only_type(MsgKind::Heartbeat);
        self.stamped(
            match id {
                Some(i) => also(base, tags::TEST_REQ_ID, i),
                None => base,
            },
            now,
        )
    }

    pub open spec fn resend_request(self, begin: u64, end: u64, now: nat) -> Seq<FieldView> {
        let a = also(
            only_type(MsgKind::ResendRequest),
            tags::BEGIN_SEQ_NO,
            text::decimal(begin as nat),
        );
        self.stamped(also(a, tags::END_SEQ_NO, text::decimal(end as nat)), now)
    }

    /// A gap fill takes the number of the first message it stands for, not a
    /// fresh one.
    pub open spec fn gap_fill(self, begin: u64, new_seq: u64, now: nat) -> Seq<FieldView> {
        let a = also(only_type(MsgKind::SequenceReset), tags::GAP_FILL_FLAG, "Y"@);
        let b = also(a, tags::POSS_DUP_FLAG, "Y"@);
        let c = also(b, tags::NEW_SEQ_NO, text::decimal(new_seq as nat));
        self.headed(c, begin, now)
    }

    /// The number that a gap fill announces to a request that ends at `end`
    /// (0: no end): past the range, and at least where the session stands.
    pub open spec fn fill_target(self, end: nat) -> u64 {
        if end == 0 || end + 1 <= self.out {
            self.out
        } else {
            (end + 1) as u64
        }
    }

    /// How the session reacts to a message whose number does not stand in the
    /// way.
    pub open spec fn accept(self, msg: Seq<FieldView>, now: nat) -> (SessionView, OutcomeView) {
        let seq = message::number_of(msg, tags::MSG_SEQ_NUM);
        match message::kind_of(msg) {
            Some(MsgKind::Logon) => {
                let s = if is_reset_logon(msg) {
                    self.restarted()
                } else {
                    self
                };
                if self.state == SessionState::LogonSent {
                    (s.observed(seq).in_state(SessionState::Active), OutcomeView::quiet())
                } else {
                    (
                        s.after_logon().observed(seq).in_state(SessionState::Active),
                        OutcomeView::reply(s.logon(now)),
                    )
                }
            },
            Some(MsgKind::TestRequest) => {
                let s = self.observed(seq);
                let id = wire::first_value(msg, tags::TEST_REQ_ID);
                (s.sent(), OutcomeView::reply(s.heartbeat(id, now)))
            },
            Some(MsgKind::Heartbeat) => (self.observed(seq), OutcomeView::quiet()),
            Some(MsgKind::ResendRequest) => {
                let s = self.observed(seq);
                let begin = message::number_of(msg, tags::BEGIN_SEQ_NO).unwrap_or(1);
                let end = message::number_of(msg, tags::END_SEQ_NO).unwrap_or(0);
                (s, OutcomeView::reply(s.gap_fill(begin as u64, s.fill_target(end), now)))
            },
            Some(MsgKind::SequenceReset) => {
                let s = match message::number_of(msg, tags::NEW_SEQ_NO) {
                    Some(n) => if n >= 1 {
                        self.observed(Some((n - 1) as nat))
                    } else {
                        self
                    },
                    None => self,
                };
                (s, OutcomeView::quiet())
            },
            Some(MsgKind::Logout) => {
                let s = self.observed(seq);
                if self.state == SessionState::LogoutSent {
                    (s.in_state(SessionState::Disconnected), OutcomeView::quiet())
                } else {
                    (
                        s.sent().in_state(SessionState::Disconnected),
                        OutcomeView::reply(s.logout(None, now)),
                    )
                }
            },
            Some(_) => (
                self.observed(seq),
                OutcomeView { application: Some(msg), ..OutcomeView::quiet() },
            ),
            None => (self, OutcomeView::ignored()),
        }
    }

    /// Whether the number of `msg` is above the expected one and counts.
    pub open spec fn is_gap(self, msg: Seq<FieldView>) -> bool {
        !is_unsequenced(msg) && (message::number_of(msg, tags::MSG_SEQ_NUM) matches Some(n)
            && n > self.expected)
    }

    /// Whether the number of `msg` is below the expected one and counts.
    pub open spec fn is_stale(self, msg: Seq<FieldView>) -> bool {
        !is_unsequenced(msg) && (message::number_of(msg, tags::MSG_SEQ_NUM) matches Some(n)
            && n < self.expected)
    }

    /// How the session reacts to an inbound message.
    pub open spec fn react(self, msg: Seq<FieldView>, now: nat) -> (SessionView, OutcomeView) {
        if self.is_gap(msg) {
            let seq = message::number_of(msg, tags::MSG_SEQ_NUM).unwrap_or(0) as u64;
            (
                self.sent(),
                OutcomeView {
                    gap_detected: Some((self.expected, seq)),
                    ..OutcomeView::reply(self.resend_request(self.expected, 0, now))
                },
            )
        } else if self.is_stale(msg) {
            (self, OutcomeView::ignored())
        } else {
            self.accept(msg, now)
        }
    }

    /// Whether `msg` is a ResendRequest that the session would answer and whose
    /// range ends at the largest number, past which no number exists.
    pub open spec fn is_unanswerable(self, msg: Seq<FieldView>) -> bool {
        !self.is_gap(msg) && !self.is_stale(msg) && message::kind_of(msg) == Some(
            MsgKind::ResendRequest,
        ) && message::number_of(msg, tags::END_SEQ_NO) == Some(u64::MAX as nat)
    }
}

/// A Logon that carries ResetSeqNumFlag=Y.
pub open spec fn is_reset_logon(msg: Seq<FieldView>) -> bool {
    message::kind_of(msg) == Some(MsgKind::Logon) && (wire::first_value(
        msg,
        tags::RESET_SEQ_NUM_FLAG,
    ) matches Some(v) && (v == "Y"@ || v == "y"@))
}

/// Messages whose own number is not held against the expected one.
pub open spec fn is_unsequenced(msg: Seq<FieldView>) -> bool {
    message::kind_of(msg) == Some(MsgKind::SequenceReset) || is_reset_logon(msg)
}

// ---------------------------------------------------------------------------
// The driver
// ---------------------------------------------------------------------------
/// The driver: the state of the session, its configuration and the sequence
/// store.
pub struct FixSession<S> {
    config: FixSessionConfig,
    store: S,
    state: SessionState,
}

/// What a driving loop does with an inbound frame.
#[derive(Debug)]
pub enum FrameReaction {
    /// The frame does not parse: skip it.
    Skip,
    /// The frame asks to resend up to the largest sequence number, past which
    /// no number exists: it was not handled.
    Unanswerable,
    /// Write `wire`, forward `application`, and leave the loop if `stop`.
    Handled { wire: Vec<Bytes>, application: Option<FixMessage>, stop: bool },
}

/// The bytes of a run of buffers.
pub open spec fn frames(bs: Seq<Bytes>) -> Seq<Seq<u8>> {
    bs.map_values(|b: Bytes| buffer::contents(b))
}

/// The frames of a run of messages.
pub open spec fn encoded(ms: Seq<Seq<FieldView>>) -> Seq<Seq<u8>> {
    ms.map_values(|m: Seq<FieldView>| wire::frame(m))
}

impl<S: FixSeqStore> View for FixSession<S> {
    type V = SessionView;

    closed spec fn view(&self) -> SessionView {
        SessionView {
            config: self.config@,
            out: self.store.outbound(),
            expected: self.store.expected(),
            state: self.state,
        }
    }
}

impl<S: FixSeqStore> FixSession<S> {
    /// Construct a session from config and a sequence store.
    pub fn new(config: FixSessionConfig, store: S) -> (r: Self)
        ensures
            r@ == (SessionView {
                config: config@,
                out: store.outbound(),
                expected: store.expected(),
                state: SessionState::Disconnected,
            }),
    {
        FixSession { config, store, state: SessionState::Disconnected }
    }

    pub fn state(&self) -> (r: SessionState)
        ensures
            r == self@.state,
    {
        self.state
    }

    pub fn config(&self) -> (r: &FixSessionConfig)
        ensures
            r@ == self@.config,
    {
        &self.config
    }

    pub fn store(&self) -> (r: &S)
        ensures
            r.outbound() == self@.out,
            r.expected() == self@.expected,
    {
        &self.store
    }

    /// The sequence store, for the session that follows this one.
    pub fn into_store(self) -> (r: S)
        ensures
            r.outbound() == self@.out,
            r.expected() == self@.expected,
    {
        self.store
    }

    /// Puts the standard header on a message.
    fn put_header(&self, msg: &mut FixMessage, seq: u64, now: u64)
        ensures
            final(msg)@ == self@.headed(old(msg)@, seq, now as nat),
    {
        let number: String = text::decimal_text(seq);
        let time: String = calendar::timestamp_text(now);
        msg.set(tags::BEGIN_STRING, self.config.version.begin_string());
        msg.set(tags::SENDER_COMP_ID, self.config.sender_comp_id.as_str());
        msg.set(tags::TARGET_COMP_ID, self.config.target_comp_id.as_str());
        msg.set(tags::MSG_SEQ_NUM, number.as_str());
        msg.set(tags::SENDING_TIME, time.as_str());
    }

    /// Stamps the standard header onto a message and consumes an outbound
    /// sequence number.
    fn finalize_outbound(&mut self, msg: FixMessage, now: u64) -> (r: FixMessage)
        ensures
            r@ == old(self)@.stamped(msg@, now as nat),
            final(self)@ == old(self)@.sent(),
    {
        let seq: u64 = self.store.next_out();
        let mut out: FixMessage = msg;
        self.put_header(&mut out, seq, now);
        out
    }

    /// [`build_logon`](Self::build_logon) at the instant `now`, in seconds since
    /// the Unix epoch.
    pub fn build_logon_at(&mut self, now: u64) -> (r: FixMessage)
        ensures
            r@ == old(self)@.logon(now as nat),
            final(self)@ == old(self)@.after_logon(),
    {
        if self.config.reset_on_logon {
            self.store.reset();
        }
        let interval: String = text::decimal_text(self.config.heartbeat.as_secs());
        let mut msg: FixMessage = FixMessage::of_type(MsgType::Logon);
        msg.set(tags::ENCRYPT_METHOD, "0");
        msg.set(tags::HEART_BT_INT, interval.as_str());
        if self.config.reset_on_logon {
            msg.set(tags::RESET_SEQ_NUM_FLAG, "Y");
        }
        if self.config.version.is_fixt() {
            msg.set(tags::DEFAULT_APPL_VER_ID, "9");
        }
        let out: FixMessage = self.finalize_outbound(msg, now);
        self.state = SessionState::LogonSent;
        out
    }

    /// Builds a Logon and moves to [`SessionState::LogonSent`]. Where the
    /// configuration asks for it, the store is reset first and
    /// ResetSeqNumFlag=Y is added.
    pub fn build_logon(&mut self) -> (r: FixMessage)
        ensures
            exists|now: u64| r@ == #[trigger] old(self)@.logon(now as nat),
            final(self)@ == old(self)@.after_logon(),
    {
        let now: u64 = since_epoch().as_secs();
        self.build_logon_at(now)
    }

    /// [`build_logout`](Self::build_logout) at the instant `now`.
    pub fn build_logout_at(&mut self, reason: Option<&str>, now: u64) -> (r: FixMessage)
        ensures
            r@ == old(self)@.logout(text_of(reason), now as nat),
            final(self)@ == old(self)@.sent().in_state(SessionState::LogoutSent),
    {
        let mut msg: FixMessage = FixMessage::of_type(MsgType::Logout);
        if let Some(r) = reason {
            msg.set(tags::TEXT, r);
        }
        let out: FixMessage = self.finalize_outbound(msg, now);
        self.state = SessionState::LogoutSent;
        out
    }

    /// Builds a Logout with optional reason text and moves to
    /// [`SessionState::LogoutSent`].
    pub fn build_logout(&mut self, reason: Option<&str>) -> (r: FixMessage)
        ensures
            exists|now: u64| r@ == #[trigger] old(self)@.logout(text_of(reason), now as nat),
            final(self)@ == old(self)@.sent().in_state(SessionState::LogoutSent),
    {
        let now: u64 = since_epoch().as_secs();
        self.build_logout_at(reason, now)
    }

    /// [`build_heartbeat`](Self::build_heartbeat) at the instant `now`.
    pub fn build_heartbeat_at(&mut self, test_req_id: Option<&str>, now: u64) -> (r: FixMessage)
        ensures
            r@ == old(self)@.heartbeat(text_of(test_req_id), now as nat),
            final(self)@ == old(self)@.sent(),
    {
        let mut msg: FixMessage = FixMessage::of_type(MsgType::Heartbeat);
        if let Some(id) = test_req_id {
            msg.set(tags::TEST_REQ_ID, id);
        }
        self.finalize_outbound(msg, now)
    }

    /// Builds a Heartbeat, optionally echoing a TestReqID.
    pub fn build_heartbeat(&mut self, test_req_id: Option<&str>) -> (r: FixMessage)
        ensures
            exists|now: u64|
                r@ == #[trigger] old(self)@.heartbeat(text_of(test_req_id), now as nat),
            final(self)@ == old(self)@.sent(),
    {
        let now: u64 = since_epoch().as_secs();
        self.build_heartbeat_at(test_req_id, now)
    }

    /// The periodic heartbeat, to be driven by a timer on the configured
    /// interval.
    pub fn heartbeat(&mut self) -> (r: FixMessage)
        ensures
            exists|now: u64| r@ == #[trigger] old(self)@.heartbeat(None, now as nat),
            final(self)@ == old(self)@.sent(),
    {
        self.build_heartbeat(None)
    }

    /// [`build_resend_request`](Self::build_resend_request) at the instant `now`.
    pub fn build_resend_request_at(&mut self, begin: u64, end: u64, now: u64) -> (r: FixMessage)
        ensures
            r@ == old(self)@.resend_request(begin, end, now as nat),
            final(self)@ == old(self)@.sent(),
    {
        let first: String = text::decimal_text(begin);
        let last: String = text::decimal_text(end);
        let mut msg: FixMessage = FixMessage::of_type(MsgType::ResendRequest);
        msg.set(tags::BEGIN_SEQ_NO, first.as_str());
        msg.set(tags::END_SEQ_NO, last.as_str());
        self.finalize_outbound(msg, now)
    }

    /// Builds a ResendRequest for `begin` to `end`; an `end` of 0 means every
    /// message from `begin` onward.
    pub fn build_resend_request(&mut self, begin: u64, end: u64) -> (r: FixMessage)
        ensures
            exists|now: u64|
                r@ == #[trigger] old(self)@.resend_request(begin, end, now as nat),
            final(self)@ == old(self)@.sent(),
    {
        let now: u64 = since_epoch().as_secs();
        self.build_resend_request_at(begin, end, now)
    }

    /// [`build_gap_fill`](Self::build_gap_fill) at the instant `now`.
    pub fn build_gap_fill_at(&self, begin_seq: u64, new_seq_no: u64, now: u64) -> (r: FixMessage)
        ensures
            r@ == self@.gap_fill(begin_seq, new_seq_no, now as nat),
    {
        let target: String = text::decimal_text(new_seq_no);
        let mut msg: FixMessage = FixMessage::of_type(MsgType::SequenceReset);
        msg.set(tags::GAP_FILL_FLAG, "Y");
        msg.set(tags::POSS_DUP_FLAG, "Y");
        msg.set(tags::NEW_SEQ_NO, target.as_str());
        self.put_header(&mut msg, begin_seq, now);
        msg
    }

    /// Builds a SequenceReset with GapFillFlag=Y that advances the
    /// counterparty's expected number to `new_seq_no`. It carries the number
    /// `begin_seq` (the slot of the first skipped message) and consumes none.
    pub fn build_gap_fill(&self, begin_seq: u64, new_seq_no: u64) -> (r: FixMessage)
        ensures
            exists|now: u64| r@ == #[trigger] self@.gap_fill(begin_seq, new_seq_no, now as nat),
    {
        let now: u64 = since_epoch().as_secs();
        self.build_gap_fill_at(begin_seq, new_seq_no, now)
    }

    /// [`build_app_message`](Self::build_app_message) at the instant `now`.
    pub fn build_app_message_at(&mut self, msg: FixMessage, now: u64) -> (r: FixMessage)
        ensures
            r@ == old(self)@.stamped(msg@, now as nat),
            final(self)@ == old(self)@.sent(),
    {
        self.finalize_outbound(msg, now)
    }

    /// Stamps an application message with the header and consumes an outbound
    /// sequence number. The caller has set the message type.
    pub fn build_app_message(&mut self, msg: FixMessage) -> (r: FixMessage)
        ensures
            exists|now: u64| r@ == #[trigger] old(self)@.stamped(msg@, now as nat),
            final(self)@ == old(self)@.sent(),
    {
        let now: u64 = since_epoch().as_secs();
        self.build_app_message_at(msg, now)
    }

    /// Records the number of an accepted message.
    fn observe(&mut self, seq: Option<u64>)
        ensures
            final(self)@ == old(self)@.observed(
                match seq {
                    Some(n) => Some(n as nat),
                    None => None,
                },
            ),
    {
        if let Some(n) = seq {
            self.store.observed_in(n);
        }
    }

    /// Whether `msg` asks to resend up to the largest sequence number, past
    /// which no number exists, and would be answered.
    pub fn is_unanswerable(&self, msg: &FixMessage) -> (r: bool)
        ensures
            r == self@.is_unanswerable(msg@),
    {
        let is_resend: bool = match msg.msg_type() {
            Some(MsgType::ResendRequest) => true,
            _ => false,
        };
        let in_order: bool = match msg.seq_num() {
            Some(n) => n == self.store.current_in(),
            None => true,
        };
        let no_end: bool = match msg.get_u64(tags::END_SEQ_NO) {
            Some(n) => n == u64::MAX,
            None => false,
        };
        is_resend && in_order && no_end
    }

    /// [`handle_inbound`](Self::handle_inbound) at the instant `now`, in seconds
    /// since the Unix epoch.
    pub fn handle_inbound_at(&mut self, msg: FixMessage, now: u64) -> (r: InboundOutcome)
        requires
            !old(self)@.is_unanswerable(msg@),
        ensures
            (final(self)@, r@) == old(self)@.react(msg@, now as nat),
    {
        let mut outcome: InboundOutcome = InboundOutcome::default();
        let msg_type: Option<MsgType> = msg.msg_type();
        let seq: Option<u64> = msg.seq_num();
        let is_seq_reset: bool = match msg_type {
            Some(MsgType::SequenceReset) => true,
            _ => false,
        };
        let is_logon: bool = match msg_type {
            Some(MsgType::Logon) => true,
            _ => false,
        };
        let reset_flag: bool = match msg.get(tags::RESET_SEQ_NUM_FLAG) {
            Some(v) => text::same_text(v, "Y") || text::same_text(v, "y"),
            None => false,
        };
        let is_reset_logon: bool = is_logon && reset_flag;
        if let Some(n) = seq {
            if !is_seq_reset && !is_reset_logon {
                let expected: u64 = self.store.current_in();
                if n > expected {
                    let request: FixMessage = self.build_resend_request_at(expected, 0, now);
                    outcome.outbound.push(request);
                    outcome.gap_detected = Some((expected, n));
                    assert(outcome@.outbound =~= seq![request@]);
                    return outcome;
                } else if n < expected {
                    outcome.ignored_duplicate = true;
                    assert(outcome@ =~= OutcomeView::ignored());
                    return outcome;
                }
            }
        }
        match msg_type {
            Some(MsgType::Logon) => {
                if is_reset_logon {
                    self.store.reset();
                }
                if self.state != SessionState::LogonSent {
                    let reply: FixMessage = self.build_logon_at(now);
                    outcome.outbound.push(reply);
                    assert(outcome@.outbound =~= seq![reply@]);
                }
                self.observe(seq);
                self.state = SessionState::Active;
            },
            Some(MsgType::TestRequest) => {
                self.observe(seq);
                let reply: FixMessage = self.build_heartbeat_at(msg.get(tags::TEST_REQ_ID), now);
                outcome.outbound.push(reply);
                assert(outcome@.outbound =~= seq![reply@]);
            },
            Some(MsgType::Heartbeat) => {
                self.observe(seq);
            },
            Some(MsgType::ResendRequest) => {
                self.observe(seq);
                let begin: u64 = match msg.get_u64(tags::BEGIN_SEQ_NO) {
                    Some(n) => n,
                    None => 1,
                };
                let end: u64 = match msg.get_u64(tags::END_SEQ_NO) {
                    Some(n) => n,
                    None => 0,
                };
                let next_out: u64 = self.store.peek_out();
                let new_seq_no: u64 = if end == 0 || end + 1 <= next_out {
                    next_out
                } else {
                    end + 1
                };
                let fill: FixMessage = self.build_gap_fill_at(begin, new_seq_no, now);
                outcome.outbound.push(fill);
                assert(outcome@.outbound =~= seq![fill@]);
            },
            Some(MsgType::SequenceReset) => {
                if let Some(new_seq) = msg.get_u64(tags::NEW_SEQ_NO) {
                    if new_seq >= 1 {
                        self.store.observed_in(new_seq - 1);
                    }
                }
            },
            Some(MsgType::Logout) => {
                self.observe(seq);
                if self.state == SessionState::LogoutSent {
                    self.state = SessionState::Disconnected;
                } else {
                    let reply: FixMessage = self.build_logout_at(None, now);
                    outcome.outbound.push(reply);
                    self.state = SessionState::Disconnected;
                    assert(outcome@.outbound =~= seq![reply@]);
                }
            },
            Some(_) => {
                self.observe(seq);
                outcome.application = Some(msg);
            },
            None => {
                outcome.ignored_duplicate = true;
            },
        }
        outcome
    }

    /// Processes one inbound message and returns the reaction: the
    /// administrative replies to send and, if it is an application message, the
    /// message to surface.
    pub fn handle_inbound(&mut self, msg: FixMessage) -> (r: InboundOutcome)
        requires
            !old(self)@.is_unanswerable(msg@),
        ensures
            exists|now: u64| (final(self)@, r@) == #[trigger] old(self)@.react(msg@, now as nat),
    {
        let now: u64 = since_epoch().as_secs();
        self.handle_inbound_at(msg, now)
    }

    /// One turn of a driving loop for an inbound frame, at the instant `now`.
    pub fn on_frame(&mut self, frame: &[u8], now: u64) -> (r: FrameReaction)
        ensures
            match wire::parse_frame(frame@) {
                Err(_) => r is Skip && final(self)@ == old(self)@,
                Ok(msg) => if old(self)@.is_unanswerable(msg) {
                    r is Unanswerable && final(self)@ == old(self)@
                } else {
                    let (after, outcome) = old(self)@.react(msg, now as nat);
                    &&& final(self)@ == after
                    &&& r matches FrameReaction::Handled { wire, application, stop }
                    &&& frames(wire@) == encoded(outcome.outbound)
                    &&& application is Some <==> outcome.application is Some
                    &&& application matches Some(m) ==> outcome.application == Some(m@)
                    &&& stop == (after.state == SessionState::Disconnected)
                },
            },
    {
        let msg: FixMessage = match FixMessage::parse(frame) {
            Ok(m) => m,
            Err(_) => {
                return FrameReaction::Skip;
            },
        };
        if self.is_unanswerable(&msg) {
            return FrameReaction::Unanswerable;
        }
        let outcome: InboundOutcome = self.handle_inbound_at(msg, now);
        let mut wire: Vec<Bytes> = Vec::new();
        let mut i: usize = 0;
        while i < outcome.outbound.len()
            invariant
                i <= outcome.outbound.len(),
                frames(wire@) == encoded(outcome@.outbound).take(i as int),
            decreases outcome.outbound.len() - i,
        {
            let ghost before = frames(wire@);
            let bytes: Bytes = outcome.outbound[i].to_wire();
            wire.push(bytes);
            i = i + 1;
            assert(frames(wire@) =~= before.push(buffer::contents(bytes)));
            assert(frames(wire@) =~= encoded(outcome@.outbound).take(i as int));
        }
        assert(frames(wire@) =~= encoded(outcome@.outbound));
        FrameReaction::Handled {
            wire,
            application: outcome.application,
            stop: self.state == SessionState::Disconnected,
        }
    }

    /// One turn of a driving loop for an application message to send, at the
    /// instant `now`: while the session is active it goes out, else it is
    /// dropped.
    pub fn on_application(&mut self, msg: FixMessage, now: u64) -> (r: Option<Bytes>)
        ensures
            old(self)@.state == SessionState::Active ==> {
                &&& final(self)@ == old(self)@.sent()
                &&& r matches Some(b)
                &&& buffer::contents(b) == wire::frame(old(self)@.stamped(msg@, now as nat))
            },
            old(self)@.state != SessionState::Active ==> r is None && final(self)@ == old(self)@,
    {
        if self.state == SessionState::Active {
            let out: FixMessage = self.build_app_message_at(msg, now);
            Some(out.to_wire())
        } else {
            None
        }
    }

    /// One turn of a driving loop for a tick of the heartbeat timer, at the
    /// instant `now`: an active session sends a heartbeat.
    pub fn on_tick(&mut self, now: u64) -> (r: Option<Bytes>)
        ensures
            old(self)@.state == SessionState::Active ==> {
                &&& final(self)@ == old(self)@.sent()
                &&& r matches Some(b)
                &&& buffer::contents(b) == wire::frame(old(self)@.heartbeat(None, now as nat))
            },
            old(self)@.state != SessionState::Active ==> r is None && final(self)@ == old(self)@,
    {
        if self.state == SessionState::Active {
            let out: FixMessage = self.build_heartbeat_at(None, now);
            Some(out.to_wire())
        } else {
            None
        }
    }
}

// ---------------------------------------------------------------------------
// Laws
// ---------------------------------------------------------------------------
/// A gap is answered with a ResendRequest from the first missing number
/// onward, and the expected number stays where it was.
pub proof fn gap_does_not_advance(s: SessionView, msg: Seq<FieldView>, now: nat)
    requires
        s.is_gap(msg),
    ensures
        ({
            let (after, outcome) = s.react(msg, now);
            &&& after.expected == s.expected
            &&& after.state == s.state
            &&& outcome.outbound == seq![s.resend_request(s.expected, 0, now)]
            &&& outcome.application is None
            &&& outcome.gap_detected matches Some((expected, _))
            &&& expected == s.expected
        }),
{
}

/// A stale message changes nothing and is not surfaced.
pub proof fn stale_is_ignored(s: SessionView, msg: Seq<FieldView>, now: nat)
    requires
        s.is_stale(msg),
    ensures
        s.react(msg, now) == (s, OutcomeView::ignored()),
{
}

/// An accepted message in sequence moves the expected number one past its own,
/// also where the answer to it restarts the numbering.
pub proof fn in_sequence_advances(s: SessionView, msg: Seq<FieldView>, now: nat)
    requires
        message::number_of(msg, tags::MSG_SEQ_NUM) == Some(s.expected as nat),
        message::kind_of(msg) is Some,
        !is_unsequenced(msg),
        s.expected < u64::MAX,
    ensures
        s.react(msg, now).0.expected == s.expected + 1,
        s.react(msg, now).1.gap_detected is None,
        !s.react(msg, now).1.ignored_duplicate,
{
}

/// A Logon that carries ResetSeqNumFlag=Y counts as the first message of the
/// restarted numbering: the expected number is one past its own.
pub proof fn reset_logon_advances(s: SessionView, msg: Seq<FieldView>, now: nat, n: u64)
    requires
        is_reset_logon(msg),
        message::number_of(msg, tags::MSG_SEQ_NUM) == Some(n as nat),
        1 <= n < u64::MAX,
    ensures
        s.react(msg, now).0.expected == n + 1,
{
}

/// How an accepted message moves the session: a Logon makes it active and is
/// answered with one Logon unless it answers ours; a Logout disconnects it and
/// is answered with one Logout unless it answers ours; a message of any other
/// type leaves the state as it is.
pub proof fn accepted_messages_move_the_session(s: SessionView, msg: Seq<FieldView>, now: nat)
    requires
        !s.is_gap(msg),
        !s.react(msg, now).1.ignored_duplicate,
    ensures
        ({
            let (after, outcome) = s.react(msg, now);
            match message::kind_of(msg) {
                Some(MsgKind::Logon) => {
                    &&& after.state == SessionState::Active
                    &&& s.state == SessionState::LogonSent ==> outcome.outbound.len() == 0
                    &&& s.state != SessionState::LogonSent ==> outcome.outbound.len() == 1
                        && message::kind_of(outcome.outbound[0]) == Some(MsgKind::Logon)
                },
                Some(MsgKind::Logout) => {
                    &&& after.state == SessionState::Disconnected
                    &&& s.state == SessionState::LogoutSent ==> outcome.outbound.len() == 0
                    &&& s.state != SessionState::LogoutSent ==> outcome.outbound.len() == 1
                        && message::kind_of(outcome.outbound[0]) == Some(MsgKind::Logout)
                },
                _ => after.state == s.state,
            }
        }),
{
    let seq = message::number_of(msg, tags::MSG_SEQ_NUM);
    message::codes_round_trip(MsgKind::Logon, Seq::empty());
    message::codes_round_trip(MsgKind::Logout, Seq::empty());
    reveal_with_fuel(wire::first_value, 2);
    if message::kind_of(msg) == Some(MsgKind::Logon) {
        let t = if is_reset_logon(msg) {
            s.restarted()
        } else {
            s
        };
        lemma_logon_type(t);
        lemma_header(t.before_logon(), t.logon_fields(), t.before_logon().out, now);
        assert(wire::first_value(t.logon(now), tags::MSG_TYPE) == wire::first_value(
            t.logon_fields(),
            tags::MSG_TYPE,
        ));
    } else if message::kind_of(msg) == Some(MsgKind::Logout) {
        let t = s.observed(seq);
        let base = only_type(MsgKind::Logout);
        lemma_header(t, base, t.out, now);
        assert(wire::first_value(t.logout(None, now), tags::MSG_TYPE) == wire::first_value(
            base,
            tags::MSG_TYPE,
        ));
    }
}

/// The fields of a Logon are of that type.
proof fn lemma_logon_type(s: SessionView)
    ensures
        wire::first_value(s.logon_fields(), tags::MSG_TYPE) == Some(MsgKind::Logon.code()),
{
    let base = only_type(MsgKind::Logon);
    let interval = text::decimal(s.config.heartbeat.secs as nat);
    let a = also(base, tags::ENCRYPT_METHOD, "0"@);
    let b = also(a, tags::HEART_BT_INT, interval);
    let c = if s.config.reset_on_logon {
        also(b, tags::RESET_SEQ_NUM_FLAG, "Y"@)
    } else {
        b
    };
    reveal_with_fuel(wire::first_value, 2);
    assert(wire::first_value(base, tags::MSG_TYPE) == Some(MsgKind::Logon.code()));
    wire::set_then_get(base, tags::ENCRYPT_METHOD, "0"@);
    assert(wire::first_value(a, tags::MSG_TYPE) == wire::first_value(base, tags::MSG_TYPE));
    wire::set_then_get(a, tags::HEART_BT_INT, interval);
    assert(wire::first_value(b, tags::MSG_TYPE) == wire::first_value(a, tags::MSG_TYPE));
    wire::set_then_get(b, tags::RESET_SEQ_NUM_FLAG, "Y"@);
    assert(wire::first_value(c, tags::MSG_TYPE) == wire::first_value(b, tags::MSG_TYPE));
    wire::set_then_get(c, tags::DEFAULT_APPL_VER_ID, "9"@);
    assert(wire::first_value(s.logon_fields(), tags::MSG_TYPE) == wire::first_value(
        c,
        tags::MSG_TYPE,
    ));
}

/// The application sees exactly the application messages, unchanged; a session
/// message never reaches it.
pub proof fn application_sees_application(s: SessionView, msg: Seq<FieldView>, now: nat)
    ensures
        s.react(msg, now).1.application is Some <==> {
            &&& message::kind_of(msg) matches Some(kind)
            &&& !kind.is_admin()
            &&& !s.is_gap(msg)
            &&& !s.is_stale(msg)
        },
        s.react(msg, now).1.application matches Some(m) ==> m == msg,
{
}

/// A session sends at most one reply to an inbound message, and every reply but
/// a gap fill consumes exactly one outbound number.
pub proof fn replies_consume_numbers(s: SessionView, msg: Seq<FieldView>, now: nat)
    ensures
        s.react(msg, now).1.outbound.len() <= 1,
        s.react(msg, now).1.outbound.len() == 0 && !is_reset_logon(msg) ==> s.react(msg, now).0.out
            == s.out,
        s.react(msg, now).1.outbound.len() == 1 && message::kind_of(msg) != Some(
            MsgKind::ResendRequest,
        ) && message::kind_of(msg) != Some(MsgKind::Logon) ==> s.react(msg, now).0.out
            == seq_store::successor(s.out),
{
}

/// A logout, whichever side began it, ends in a disconnected session.
pub proof fn logout_disconnects(s: SessionView, msg: Seq<FieldView>, now: nat)
    requires
        message::kind_of(msg) == Some(MsgKind::Logout),
        !s.is_gap(msg),
        !s.is_stale(msg),
    ensures
        s.react(msg, now).0.state == SessionState::Disconnected,
        s.react(msg, now).1.outbound.len() == (if s.state == SessionState::LogoutSent {
            0int
        } else {
            1int
        }),
{
}

/// A session that starts on the store of an earlier one goes on where the
/// earlier one left off: its Logon carries the next number.
pub proof fn logon_continues_the_sequence(s: SessionView, now: nat)
    requires
        !s.config.reset_on_logon,
    ensures
        wire::first_value(s.logon(now), tags::MSG_SEQ_NUM) == Some(text::decimal(s.out as nat)),
        s.after_logon().out == seq_store::successor(s.out),
        s.after_logon().expected == s.expected,
{
    lemma_header(s.before_logon(), s.logon_fields(), s.out, now);
}

/// With reset on logon, the numbering restarts: the Logon carries number 1.
pub proof fn logon_restarts_the_sequence(s: SessionView, now: nat)
    requires
        s.config.reset_on_logon,
    ensures
        wire::first_value(s.logon(now), tags::MSG_SEQ_NUM) == Some(text::decimal(1)),
        wire::first_value(s.logon(now), tags::RESET_SEQ_NUM_FLAG) == Some("Y"@),
        s.after_logon().out == 2,
        s.after_logon().expected == 1,
{
    lemma_header(s.before_logon(), s.logon_fields(), 1, now);
    let a = also(only_type(MsgKind::Logon), tags::ENCRYPT_METHOD, "0"@);
    let b = also(a, tags::HEART_BT_INT, text::decimal(s.config.heartbeat.secs as nat));
    wire::set_then_get(b, tags::RESET_SEQ_NUM_FLAG, "Y"@);
    let c = also(b, tags::RESET_SEQ_NUM_FLAG, "Y"@);
    wire::set_then_get(c, tags::DEFAULT_APPL_VER_ID, "9"@);
    assert(wire::first_value(s.logon_fields(), tags::RESET_SEQ_NUM_FLAG) == Some("Y"@));
}

/// The header is what the session stamps, and leaves the other tags alone.
pub proof fn lemma_header(s: SessionView, fields: Seq<FieldView>, seq: u64, now: nat)
    ensures
        wire::first_value(s.headed(fields, seq, now), tags::BEGIN_STRING) == Some(
            s.config.version.begin(),
        ),
        wire::first_value(s.headed(fields, seq, now), tags::SENDER_COMP_ID) == Some(
            s.config.sender,
        ),
        wire::first_value(s.headed(fields, seq, now), tags::TARGET_COMP_ID) == Some(
            s.config.target,
        ),
        wire::first_value(s.headed(fields, seq, now), tags::MSG_SEQ_NUM) == Some(
            text::decimal(seq as nat),
        ),
        wire::first_value(s.headed(fields, seq, now), tags::SENDING_TIME) == Some(
            calendar::timestamp(now),
        ),
        forall|tag: u32|
            tag != tags::BEGIN_STRING && tag != tags::SENDER_COMP_ID && tag != tags::TARGET_COMP_ID
                && tag != tags::MSG_SEQ_NUM && tag != tags::SENDING_TIME
                ==> #[trigger] wire::first_value(s.headed(fields, seq, now), tag)
                == wire::first_value(fields, tag),
{
    let a = also(fields, tags::BEGIN_STRING, s.config.version.begin());
    let b = also(a, tags::SENDER_COMP_ID, s.config.sender);
    let c = also(b, tags::TARGET_COMP_ID, s.config.target);
    let d = also(c, tags::MSG_SEQ_NUM, text::decimal(seq as nat));
    wire::set_then_get(fields, tags::BEGIN_STRING, s.config.version.begin());
    wire::set_then_get(a, tags::SENDER_COMP_ID, s.config.sender);
    wire::set_then_get(b, tags::TARGET_COMP_ID, s.config.target);
    wire::set_then_get(c, tags::MSG_SEQ_NUM, text::decimal(seq as nat));
    wire::set_then_get(d, tags::SENDING_TIME, calendar::timestamp(now));
    let out = s.headed(fields, seq, now);
    assert forall|tag: u32|
        tag != tags::BEGIN_STRING && tag != tags::SENDER_COMP_ID && tag != tags::TARGET_COMP_ID
            && tag != tags::MSG_SEQ_NUM && tag
            != tags::SENDING_TIME implies #[trigger] wire::first_value(out, tag)
        == wire::first_value(fields, tag) by {
        assert(wire::first_value(a, tag) == wire::first_value(fields, tag));
        assert(wire::first_value(b, tag) == wire::first_value(a, tag));
        assert(wire::first_value(c, tag) == wire::first_value(b, tag));
        assert(wire::first_value(d, tag) == wire::first_value(c, tag));
    }
    assert(wire::first_value(b, tags::BEGIN_STRING) == wire::first_value(a, tags::BEGIN_STRING));
    assert(wire::first_value(c, tags::BEGIN_STRING) == wire::first_value(b, tags::BEGIN_STRING));
    assert(wire::first_value(d, tags::BEGIN_STRING) == wire::first_value(c, tags::BEGIN_STRING));
    assert(wire::first_value(c, tags::SENDER_COMP_ID) == wire::first_value(
        b,
        tags::SENDER_COMP_ID,
    ));
    assert(wire::first_value(d, tags::SENDER_COMP_ID) == wire::first_value(
        c,
        tags::SENDER_COMP_ID,
    ));
    assert(wire::first_value(d, tags::TARGET_COMP_ID) == wire::first_value(
        c,
        tags::TARGET_COMP_ID,
    ));
}

/// A test request is answered with a heartbeat that echoes its identifier.
pub proof fn test_request_is_echoed(s: SessionView, msg: Seq<FieldView>, now: nat)
    requires
        message::kind_of(msg) == Some(MsgKind::TestRequest),
        !s.is_gap(msg),
        !s.is_stale(msg),
    ensures
        ({
            let outbound = s.react(msg, now).1.outbound;
            &&& outbound.len() == 1
            &&& message::kind_of(outbound[0]) == Some(MsgKind::Heartbeat)
            &&& wire::first_value(outbound[0], tags::TEST_REQ_ID) == wire::first_value(
                msg,
                tags::TEST_REQ_ID,
            )
        }),
{
    let after = s.observed(message::number_of(msg, tags::MSG_SEQ_NUM));
    let id = wire::first_value(msg, tags::TEST_REQ_ID);
    let base = only_type(MsgKind::Heartbeat);
    let fields = match id {
        Some(i) => also(base, tags::TEST_REQ_ID, i),
        None => base,
    };
    message::codes_round_trip(MsgKind::Heartbeat, Seq::empty());
    reveal_with_fuel(wire::first_value, 2);
    if let Some(i) = id {
        wire::set_then_get(base, tags::TEST_REQ_ID, i);
    }
    lemma_header(after, fields, after.out, now);
    let reply = after.heartbeat(id, now);
    assert(wire::first_value(reply, tags::MSG_TYPE) == wire::first_value(fields, tags::MSG_TYPE));
    assert(wire::first_value(fields, tags::MSG_TYPE) == wire::first_value(base, tags::MSG_TYPE));
}

/// A resend request is answered with a gap fill in the slot of the first
/// requested message, whose target is past the requested range and never
/// behind the session.
pub proof fn resend_is_gap_filled(s: SessionView, msg: Seq<FieldView>, now: nat)
    requires
        message::kind_of(msg) == Some(MsgKind::ResendRequest),
        !s.is_gap(msg),
        !s.is_stale(msg),
        !s.is_unanswerable(msg),
    ensures
        ({
            let (after, outcome) = s.react(msg, now);
            let begin = message::number_of(msg, tags::BEGIN_SEQ_NO).unwrap_or(1);
            let end = message::number_of(msg, tags::END_SEQ_NO).unwrap_or(0);
            let target = message::number_of(outcome.outbound[0], tags::NEW_SEQ_NO);
            &&& outcome.outbound.len() == 1
            &&& message::kind_of(outcome.outbound[0]) == Some(MsgKind::SequenceReset)
            &&& message::number_of(outcome.outbound[0], tags::MSG_SEQ_NUM) == Some(begin)
            &&& target matches Some(t)
            &&& end != 0 ==> t > end
            &&& t >= s.out
            &&& after.out == s.out
        }),
{
    let after = s.observed(message::number_of(msg, tags::MSG_SEQ_NUM));
    let begin = message::number_of(msg, tags::BEGIN_SEQ_NO).unwrap_or(1) as u64;
    let end = message::number_of(msg, tags::END_SEQ_NO).unwrap_or(0);
    let target = after.fill_target(end);
    let base = only_type(MsgKind::SequenceReset);
    let a = also(base, tags::GAP_FILL_FLAG, "Y"@);
    let b = also(a, tags::POSS_DUP_FLAG, "Y"@);
    let c = also(b, tags::NEW_SEQ_NO, text::decimal(target as nat));
    message::codes_round_trip(MsgKind::SequenceReset, Seq::empty());
    reveal_with_fuel(wire::first_value, 2);
    wire::set_then_get(base, tags::GAP_FILL_FLAG, "Y"@);
    wire::set_then_get(a, tags::POSS_DUP_FLAG, "Y"@);
    wire::set_then_get(b, tags::NEW_SEQ_NO, text::decimal(target as nat));
    lemma_header(after, c, begin, now);
    text::decimal_round_trips(target as nat, u64::MAX as nat);
    text::decimal_round_trips(begin as nat, u64::MAX as nat);
    let fill = after.gap_fill(begin, target, now);
    assert(wire::first_value(fill, tags::MSG_TYPE) == wire::first_value(c, tags::MSG_TYPE));
    assert(wire::first_value(c, tags::MSG_TYPE) == wire::first_value(b, tags::MSG_TYPE));
    assert(wire::first_value(b, tags::MSG_TYPE) == wire::first_value(a, tags::MSG_TYPE));
    assert(wire::first_value(a, tags::MSG_TYPE) == wire::first_value(base, tags::MSG_TYPE));
    assert(wire::first_value(fill, tags::NEW_SEQ_NO) == wire::first_value(c, tags::NEW_SEQ_NO));
}

/// The sequence number of an inbound message is held against the expected one,
/// whatever the message's type but for a SequenceReset and a Logon that restarts
/// the numbering. Above it, the gap is reported and one ResendRequest asks for
/// everything from the expected number on; nothing is surfaced and the session
/// goes on waiting for the same number. Below it, the message is dropped and
/// nothing changes.
pub proof fn numbers_are_held_against_the_expected(
    s: SessionView,
    msg: Seq<FieldView>,
    now: nat,
    n: u64,
)
    requires
        wire::first_value(msg, tags::MSG_TYPE) != Some("4"@),
        wire::first_value(msg, tags::MSG_TYPE) == Some("A"@) ==> {
            &&& wire::first_value(msg, tags::RESET_SEQ_NUM_FLAG) != Some("Y"@)
            &&& wire::first_value(msg, tags::RESET_SEQ_NUM_FLAG) != Some("y"@)
        },
        message::number_of(msg, tags::MSG_SEQ_NUM) == Some(n as nat),
    ensures
        n > s.expected ==> {
            let (after, outcome) = s.react(msg, now);
            &&& outcome.gap_detected == Some((s.expected, n))
            &&& outcome.application is None
            &&& !outcome.ignored_duplicate
            &&& outcome.outbound.len() == 1
            &&& wire::first_value(outcome.outbound[0], tags::MSG_TYPE) == Some("2"@)
            &&& message::number_of(outcome.outbound[0], tags::BEGIN_SEQ_NO) == Some(
                s.expected as nat,
            )
            &&& message::number_of(outcome.outbound[0], tags::END_SEQ_NO) == Some(0nat)
            &&& message::number_of(outcome.outbound[0], tags::MSG_SEQ_NUM) == Some(s.out as nat)
            &&& after.expected == s.expected
            &&& after.state == s.state
            &&& after.config == s.config
        },
        n < s.expected ==> {
            let (after, outcome) = s.react(msg, now);
            &&& after == s
            &&& outcome.outbound.len() == 0
            &&& outcome.application is None
            &&& outcome.gap_detected is None
            &&& outcome.ignored_duplicate
        },
{
    if let Some(code) = wire::first_value(msg, tags::MSG_TYPE) {
        message::codes_are_standard(code);
    }
    if n > s.expected {
        requests_name_their_range(s, s.expected, 0, now);
    }
}

/// A ResendRequest of the session names the first and the last number asked for
/// and carries the next outbound number.
pub proof fn requests_name_their_range(s: SessionView, begin: u64, end: u64, now: nat)
    ensures
        ({
            let request = s.resend_request(begin, end, now);
            &&& wire::first_value(request, tags::MSG_TYPE) == Some("2"@)
            &&& message::number_of(request, tags::BEGIN_SEQ_NO) == Some(begin as nat)
            &&& message::number_of(request, tags::END_SEQ_NO) == Some(end as nat)
            &&& message::number_of(request, tags::MSG_SEQ_NUM) == Some(s.out as nat)
        }),
{
    let base = only_type(MsgKind::ResendRequest);
    let a = also(base, tags::BEGIN_SEQ_NO, text::decimal(begin as nat));
    let b = also(a, tags::END_SEQ_NO, text::decimal(end as nat));
    reveal_with_fuel(wire::first_value, 2);
    message::codes_are_standard("2"@);
    wire::set_then_get(base, tags::BEGIN_SEQ_NO, text::decimal(begin as nat));
    wire::set_then_get(a, tags::END_SEQ_NO, text::decimal(end as nat));
    lemma_header(s, b, s.out, now);
    text::decimal_round_trips(begin as nat, u64::MAX as nat);
    text::decimal_round_trips(end as nat, u64::MAX as nat);
    text::decimal_round_trips(s.out as nat, u64::MAX as nat);
    let request = s.resend_request(begin, end, now);
    assert(wire::first_value(base, tags::MSG_TYPE) == Some("2"@));
    assert(wire::first_value(a, tags::MSG_TYPE) == wire::first_value(base, tags::MSG_TYPE));
    assert(wire::first_value(b, tags::MSG_TYPE) == wire::first_value(a, tags::MSG_TYPE));
    assert(wire::first_value(request, tags::MSG_TYPE) == wire::first_value(b, tags::MSG_TYPE));
    assert(wire::first_value(b, tags::BEGIN_SEQ_NO) == wire::first_value(a, tags::BEGIN_SEQ_NO));
    assert(wire::first_value(request, tags::BEGIN_SEQ_NO) == wire::first_value(
        b,
        tags::BEGIN_SEQ_NO,
    ));
    assert(wire::first_value(request, tags::END_SEQ_NO) == wire::first_value(
        b,
        tags::END_SEQ_NO,
    ));
}

/// A message in order (its number is the expected one, or it carries none) is
/// processed: it makes no gap, it is dropped only where it has no type, and the
/// expected number is one past its own.
pub proof fn messages_in_order_are_processed(s: SessionView, msg: Seq<FieldView>, now: nat)
    requires
        message::number_of(msg, tags::MSG_SEQ_NUM) is None || message::number_of(
            msg,
            tags::MSG_SEQ_NUM,
        ) == Some(s.expected as nat),
    ensures
        ({
            let (after, outcome) = s.react(msg, now);
            &&& outcome.gap_detected is None
            &&& outcome.ignored_duplicate <==> wire::first_value(msg, tags::MSG_TYPE) is None
            &&& after.config == s.config
            &&& wire::first_value(msg, tags::MSG_TYPE) is None ==> after == s
                && outcome.outbound.len() == 0 && outcome.application is None
            &&& wire::first_value(msg, tags::MSG_TYPE) is Some && message::number_of(
                msg,
                tags::MSG_SEQ_NUM,
            ) is Some && s.expected < u64::MAX && wire::first_value(msg, tags::MSG_TYPE) != Some(
                "4"@,
            ) ==> after.expected == s.expected + 1
            &&& message::number_of(msg, tags::MSG_SEQ_NUM) is None && wire::first_value(
                msg,
                tags::MSG_TYPE,
            ) != Some("4"@) && wire::first_value(msg, tags::MSG_TYPE) != Some("A"@)
                ==> after.expected == s.expected
        }),
{
    if let Some(code) = wire::first_value(msg, tags::MSG_TYPE) {
        message::codes_are_standard(code);
    }
}

/// A message of the application in order is handed up unchanged: every type but
/// the six of the session. Nothing is sent, and only the expected number moves.
pub proof fn application_messages_are_handed_up(s: SessionView, msg: Seq<FieldView>, now: nat)
    requires
        message::number_of(msg, tags::MSG_SEQ_NUM) is None || message::number_of(
            msg,
            tags::MSG_SEQ_NUM,
        ) == Some(s.expected as nat),
        wire::first_value(msg, tags::MSG_TYPE) is Some,
    ensures
        ({
            let (after, outcome) = s.react(msg, now);
            let code = wire::first_value(msg, tags::MSG_TYPE)->0;
            let is_session = code == "A"@ || code == "0"@ || code == "1"@ || code == "2"@ || code
                == "4"@ || code == "5"@;
            &&& is_session ==> outcome.application is None
            &&& !is_session ==> {
                &&& outcome.application == Some(msg)
                &&& outcome.outbound.len() == 0
                &&& after.out == s.out
                &&& after.state == s.state
            }
            &&& code == "0"@ ==> {
                &&& outcome.outbound.len() == 0
                &&& after.out == s.out
                &&& after.state == s.state
            }
        }),
{
    message::codes_are_standard(wire::first_value(msg, tags::MSG_TYPE)->0);
}

/// A SequenceReset moves the expected number up to the one it announces, and
/// never down; its own number is of no account and nothing else changes.
pub proof fn sequence_reset_only_moves_up(s: SessionView, msg: Seq<FieldView>, now: nat)
    requires
        wire::first_value(msg, tags::MSG_TYPE) == Some("4"@),
    ensures
        ({
            let (after, outcome) = s.react(msg, now);
            &&& outcome.outbound.len() == 0
            &&& outcome.application is None
            &&& outcome.gap_detected is None
            &&& !outcome.ignored_duplicate
            &&& after.out == s.out
            &&& after.state == s.state
            &&& after.config == s.config
            &&& after.expected >= s.expected
            &&& message::number_of(msg, tags::NEW_SEQ_NO) is None ==> after.expected == s.expected
            &&& message::number_of(msg, tags::NEW_SEQ_NO) matches Some(n) ==> {
                &&& n <= s.expected ==> after.expected == s.expected
                &&& n > s.expected ==> after.expected == n
            }
        }),
{
    message::codes_are_standard("4"@);
}

/// A Logon with ResetSeqNumFlag set to Y or y restarts the numbering whatever
/// number it carries: it is never a gap or a duplicate, it makes the session
/// active, and the next outbound number is 1 where it answers a Logon of ours and
/// 2 where it is answered.
pub proof fn reset_logon_restarts(s: SessionView, msg: Seq<FieldView>, now: nat)
    requires
        wire::first_value(msg, tags::MSG_TYPE) == Some("A"@),
        wire::first_value(msg, tags::RESET_SEQ_NUM_FLAG) == Some("Y"@) || wire::first_value(
            msg,
            tags::RESET_SEQ_NUM_FLAG,
        ) == Some("y"@),
    ensures
        ({
            let (after, outcome) = s.react(msg, now);
            &&& outcome.gap_detected is None
            &&& !outcome.ignored_duplicate
            &&& outcome.application is None
            &&& after.state == SessionState::Active
            &&& s.state == SessionState::LogonSent ==> after.out == 1 && outcome.outbound.len()
                == 0
            &&& s.state != SessionState::LogonSent ==> after.out == 2 && outcome.outbound.len()
                == 1
            &&& message::number_of(msg, tags::MSG_SEQ_NUM) is None ==> after.expected == 1
            &&& message::number_of(msg, tags::MSG_SEQ_NUM) matches Some(n) ==> {
                &&& n == 0 ==> after.expected == 1
                &&& 1 <= n < u64::MAX ==> after.expected == n + 1
            }
        }),
{
    message::codes_are_standard("A"@);
}

/// A Logon in order makes the session active. Where the session waits for it,
/// nothing is sent; otherwise it is answered with one Logon.
pub proof fn logon_activates(s: SessionView, msg: Seq<FieldView>, now: nat)
    requires
        wire::first_value(msg, tags::MSG_TYPE) == Some("A"@),
        message::number_of(msg, tags::MSG_SEQ_NUM) is None || message::number_of(
            msg,
            tags::MSG_SEQ_NUM,
        ) == Some(s.expected as nat),
    ensures
        ({
            let (after, outcome) = s.react(msg, now);
            &&& after.state == SessionState::Active
            &&& s.state == SessionState::LogonSent ==> outcome.outbound.len() == 0
            &&& s.state != SessionState::LogonSent ==> outcome.outbound.len() == 1
                && wire::first_value(outcome.outbound[0], tags::MSG_TYPE) == Some("A"@)
        }),
{
    message::codes_are_standard("A"@);
    accepted_messages_move_the_session(s, msg, now);
    let outcome = s.react(msg, now).1;
    if s.state != SessionState::LogonSent {
        message::codes_are_standard(wire::first_value(outcome.outbound[0], tags::MSG_TYPE)->0);
    }
}

/// A Logout in order disconnects the session. Where the session waits for it,
/// nothing is sent; otherwise it is answered with one Logout under the next
/// outbound number.
pub proof fn logout_is_confirmed(s: SessionView, msg: Seq<FieldView>, now: nat)
    requires
        wire::first_value(msg, tags::MSG_TYPE) == Some("5"@),
        message::number_of(msg, tags::MSG_SEQ_NUM) is None || message::number_of(
            msg,
            tags::MSG_SEQ_NUM,
        ) == Some(s.expected as nat),
    ensures
        ({
            let (after, outcome) = s.react(msg, now);
            &&& after.state == SessionState::Disconnected
            &&& s.state == SessionState::LogoutSent ==> outcome.outbound.len() == 0 && after.out
                == s.out
            &&& s.state != SessionState::LogoutSent ==> {
                &&& outcome.outbound.len() == 1
                &&& wire::first_value(outcome.outbound[0], tags::MSG_TYPE) == Some("5"@)
                &&& message::number_of(outcome.outbound[0], tags::MSG_SEQ_NUM) == Some(
                    s.out as nat,
                )
                &&& s.out < u64::MAX ==> after.out == s.out + 1
            }
        }),
{
    message::codes_are_standard("5"@);
    let t = s.observed(message::number_of(msg, tags::MSG_SEQ_NUM));
    logout_states_the_reason(t, None, now);
}

/// A Logout of the session carries the reason given, if one is given, and the
/// next outbound number.
pub proof fn logout_states_the_reason(s: SessionView, reason: Option<Seq<char>>, now: nat)
    ensures
        ({
            let msg = s.logout(reason, now);
            &&& wire::first_value(msg, tags::MSG_TYPE) == Some("5"@)
            &&& wire::first_value(msg, tags::TEXT) == reason
            &&& message::number_of(msg, tags::MSG_SEQ_NUM) == Some(s.out as nat)
        }),
{
    let base = only_type(MsgKind::Logout);
    let fields = match reason {
        Some(r) => also(base, tags::TEXT, r),
        None => base,
    };
    reveal_with_fuel(wire::first_value, 2);
    if let Some(r) = reason {
        wire::set_then_get(base, tags::TEXT, r);
    }
    lemma_header(s, fields, s.out, now);
    text::decimal_round_trips(s.out as nat, u64::MAX as nat);
    let msg = s.logout(reason, now);
    assert(wire::first_value(base, tags::MSG_TYPE) == Some("5"@));
    assert(wire::first_value(fields, tags::MSG_TYPE) == wire::first_value(base, tags::MSG_TYPE));
    assert(wire::first_value(msg, tags::MSG_TYPE) == wire::first_value(fields, tags::MSG_TYPE));
    assert(wire::first_value(msg, tags::TEXT) == wire::first_value(fields, tags::TEXT));
}

/// A Heartbeat of the session carries the identifier asked for, if one was, and
/// the next outbound number.
pub proof fn heartbeat_names_the_request(s: SessionView, id: Option<Seq<char>>, now: nat)
    ensures
        ({
            let msg = s.heartbeat(id, now);
            &&& wire::first_value(msg, tags::MSG_TYPE) == Some("0"@)
            &&& wire::first_value(msg, tags::TEST_REQ_ID) == id
            &&& message::number_of(msg, tags::MSG_SEQ_NUM) == Some(s.out as nat)
        }),
{
    let base = only_type(MsgKind::Heartbeat);
    let fields = match id {
        Some(i) => also(base, tags::TEST_REQ_ID, i),
        None => base,
    };
    reveal_with_fuel(wire::first_value, 2);
    if let Some(i) = id {
        wire::set_then_get(base, tags::TEST_REQ_ID, i);
    }
    lemma_header(s, fields, s.out, now);
    text::decimal_round_trips(s.out as nat, u64::MAX as nat);
    let msg = s.heartbeat(id, now);
    assert(wire::first_value(base, tags::MSG_TYPE) == Some("0"@));
    assert(wire::first_value(fields, tags::MSG_TYPE) == wire::first_value(base, tags::MSG_TYPE));
    assert(wire::first_value(msg, tags::MSG_TYPE) == wire::first_value(fields, tags::MSG_TYPE));
    assert(wire::first_value(msg, tags::TEST_REQ_ID) == wire::first_value(
        fields,
        tags::TEST_REQ_ID,
    ));
}

/// A TestRequest in order is answered with one Heartbeat under the next outbound
/// number that repeats the identifier of the request.
pub proof fn test_request_is_answered(s: SessionView, msg: Seq<FieldView>, now: nat)
    requires
        wire::first_value(msg, tags::MSG_TYPE) == Some("1"@),
        message::number_of(msg, tags::MSG_SEQ_NUM) is None || message::number_of(
            msg,
            tags::MSG_SEQ_NUM,
        ) == Some(s.expected as nat),
    ensures
        ({
            let (after, outcome) = s.react(msg, now);
            &&& outcome.outbound.len() == 1
            &&& wire::first_value(outcome.outbound[0], tags::MSG_TYPE) == Some("0"@)
            &&& wire::first_value(outcome.outbound[0], tags::TEST_REQ_ID) == wire::first_value(
                msg,
                tags::TEST_REQ_ID,
            )
            &&& message::number_of(outcome.outbound[0], tags::MSG_SEQ_NUM) == Some(s.out as nat)
            &&& s.out < u64::MAX ==> after.out == s.out + 1
            &&& after.state == s.state
        }),
{
    message::codes_are_standard("1"@);
    let t = s.observed(message::number_of(msg, tags::MSG_SEQ_NUM));
    heartbeat_names_the_request(t, wire::first_value(msg, tags::TEST_REQ_ID), now);
}

/// A gap fill is a SequenceReset marked as a gap fill and as a possible
/// duplicate. It stands in the slot of the first number it skips, and announces
/// the number that follows.
pub proof fn gap_fill_stands_in_its_slot(s: SessionView, begin: u64, new_seq: u64, now: nat)
    ensures
        ({
            let fill = s.gap_fill(begin, new_seq, now);
            &&& wire::first_value(fill, tags::MSG_TYPE) == Some("4"@)
            &&& wire::first_value(fill, tags::GAP_FILL_FLAG) == Some("Y"@)
            &&& wire::first_value(fill, tags::POSS_DUP_FLAG) == Some("Y"@)
            &&& message::number_of(fill, tags::NEW_SEQ_NO) == Some(new_seq as nat)
            &&& message::number_of(fill, tags::MSG_SEQ_NUM) == Some(begin as nat)
        }),
{
    let base = only_type(MsgKind::SequenceReset);
    let a = also(base, tags::GAP_FILL_FLAG, "Y"@);
    let b = also(a, tags::POSS_DUP_FLAG, "Y"@);
    let c = also(b, tags::NEW_SEQ_NO, text::decimal(new_seq as nat));
    reveal_with_fuel(wire::first_value, 2);
    wire::set_then_get(base, tags::GAP_FILL_FLAG, "Y"@);
    wire::set_then_get(a, tags::POSS_DUP_FLAG, "Y"@);
    wire::set_then_get(b, tags::NEW_SEQ_NO, text::decimal(new_seq as nat));
    lemma_header(s, c, begin, now);
    text::decimal_round_trips(new_seq as nat, u64::MAX as nat);
    text::decimal_round_trips(begin as nat, u64::MAX as nat);
    let fill = s.gap_fill(begin, new_seq, now);
    assert(wire::first_value(base, tags::MSG_TYPE) == Some("4"@));
    assert(wire::first_value(a, tags::MSG_TYPE) == wire::first_value(base, tags::MSG_TYPE));
    assert(wire::first_value(b, tags::MSG_TYPE) == wire::first_value(a, tags::MSG_TYPE));
    assert(wire::first_value(c, tags::MSG_TYPE) == wire::first_value(b, tags::MSG_TYPE));
    assert(wire::first_value(fill, tags::MSG_TYPE) == wire::first_value(c, tags::MSG_TYPE));
    assert(wire::first_value(b, tags::GAP_FILL_FLAG) == wire::first_value(a, tags::GAP_FILL_FLAG));
    assert(wire::first_value(c, tags::GAP_FILL_FLAG) == wire::first_value(b, tags::GAP_FILL_FLAG));
    assert(wire::first_value(fill, tags::GAP_FILL_FLAG) == wire::first_value(
        c,
        tags::GAP_FILL_FLAG,
    ));
    assert(wire::first_value(c, tags::POSS_DUP_FLAG) == wire::first_value(b, tags::POSS_DUP_FLAG));
    assert(wire::first_value(fill, tags::POSS_DUP_FLAG) == wire::first_value(
        c,
        tags::POSS_DUP_FLAG,
    ));
    assert(wire::first_value(fill, tags::NEW_SEQ_NO) == wire::first_value(c, tags::NEW_SEQ_NO));
}

/// A ResendRequest in order is answered with one gap fill: in the slot of the
/// first number asked for (1 where none is named), and announcing the greater of
/// the next outbound number and the number past the last one asked for (no last
/// one: the next outbound number). It takes no outbound number. The one request
/// left out ends at the largest number, past which there is none.
pub proof fn resend_request_is_filled(s: SessionView, msg: Seq<FieldView>, now: nat)
    requires
        wire::first_value(msg, tags::MSG_TYPE) == Some("2"@),
        message::number_of(msg, tags::MSG_SEQ_NUM) is None || message::number_of(
            msg,
            tags::MSG_SEQ_NUM,
        ) == Some(s.expected as nat),
        message::number_of(msg, tags::END_SEQ_NO) != Some(u64::MAX as nat),
    ensures
        !s.is_unanswerable(msg),
        ({
            let (after, outcome) = s.react(msg, now);
            let fill = outcome.outbound[0];
            let end = message::number_of(msg, tags::END_SEQ_NO);
            &&& outcome.outbound.len() == 1
            &&& after.out == s.out
            &&& after.state == s.state
            &&& wire::first_value(fill, tags::MSG_TYPE) == Some("4"@)
            &&& wire::first_value(fill, tags::GAP_FILL_FLAG) == Some("Y"@)
            &&& wire::first_value(fill, tags::POSS_DUP_FLAG) == Some("Y"@)
            &&& message::number_of(msg, tags::BEGIN_SEQ_NO) is None ==> message::number_of(
                fill,
                tags::MSG_SEQ_NUM,
            ) == Some(1nat)
            &&& message::number_of(msg, tags::BEGIN_SEQ_NO) is Some ==> message::number_of(
                fill,
                tags::MSG_SEQ_NUM,
            ) == message::number_of(msg, tags::BEGIN_SEQ_NO)
            &&& end is None || end == Some(0nat) ==> message::number_of(fill, tags::NEW_SEQ_NO)
                == Some(s.out as nat)
            &&& end matches Some(last) ==> last > 0 ==> {
                &&& last < s.out ==> message::number_of(fill, tags::NEW_SEQ_NO) == Some(
                    s.out as nat,
                )
                &&& last >= s.out ==> message::number_of(fill, tags::NEW_SEQ_NO) == Some(last + 1)
            }
        }),
{
    message::codes_are_standard("2"@);
    let after = s.observed(message::number_of(msg, tags::MSG_SEQ_NUM));
    let begin = message::number_of(msg, tags::BEGIN_SEQ_NO).unwrap_or(1);
    let end = message::number_of(msg, tags::END_SEQ_NO).unwrap_or(0);
    gap_fill_stands_in_its_slot(after, begin as u64, after.fill_target(end), now);
}

/// The one message that the session does not handle is a ResendRequest in order
/// whose range ends at the largest number.
pub proof fn only_endless_requests_are_unanswerable(s: SessionView, msg: Seq<FieldView>)
    ensures
        s.is_unanswerable(msg) <==> {
            &&& wire::first_value(msg, tags::MSG_TYPE) == Some("2"@)
            &&& message::number_of(msg, tags::END_SEQ_NO) == Some(u64::MAX as nat)
            &&& message::number_of(msg, tags::MSG_SEQ_NUM) is None || message::number_of(
                msg,
                tags::MSG_SEQ_NUM,
            ) == Some(s.expected as nat)
        },
{
    if let Some(code) = wire::first_value(msg, tags::MSG_TYPE) {
        message::codes_are_standard(code);
    }
}

/// A Logon of the session states its settings: no encryption, the heartbeat
/// interval in whole seconds, the reset flag exactly where a reset on logon is
/// configured, and the application version exactly under the FIXT transport. It
/// carries the next outbound number, which is 1 after a reset.
pub proof fn logon_states_the_settings(s: SessionView, now: nat)
    ensures
        ({
            let msg = s.logon(now);
            &&& wire::first_value(msg, tags::MSG_TYPE) == Some("A"@)
            &&& wire::first_value(msg, tags::ENCRYPT_METHOD) == Some("0"@)
            &&& message::number_of(msg, tags::HEART_BT_INT) == Some(
                s.config.heartbeat.secs as nat,
            )
            &&& s.config.reset_on_logon ==> wire::first_value(msg, tags::RESET_SEQ_NUM_FLAG)
                == Some("Y"@) && message::number_of(msg, tags::MSG_SEQ_NUM) == Some(1nat)
            &&& !s.config.reset_on_logon ==> wire::first_value(msg, tags::RESET_SEQ_NUM_FLAG)
                is None && message::number_of(msg, tags::MSG_SEQ_NUM) == Some(s.out as nat)
            &&& s.config.version is Fix50Sp2 ==> wire::first_value(msg, tags::DEFAULT_APPL_VER_ID)
                == Some("9"@)
            &&& !(s.config.version is Fix50Sp2) ==> wire::first_value(
                msg,
                tags::DEFAULT_APPL_VER_ID,
            ) is None
        }),
        ({
            let after = s.after_logon();
            &&& after.state == SessionState::LogonSent
            &&& after.config == s.config
            &&& s.config.reset_on_logon ==> after.out == 2 && after.expected == 1
            &&& !s.config.reset_on_logon ==> after.expected == s.expected
            &&& !s.config.reset_on_logon && s.out < u64::MAX ==> after.out == s.out + 1
        }),
{
    let base = only_type(MsgKind::Logon);
    let interval = text::decimal(s.config.heartbeat.secs as nat);
    let a = also(base, tags::ENCRYPT_METHOD, "0"@);
    let b = also(a, tags::HEART_BT_INT, interval);
    let c = if s.config.reset_on_logon {
        also(b, tags::RESET_SEQ_NUM_FLAG, "Y"@)
    } else {
        b
    };
    let fields = s.logon_fields();
    let t = s.before_logon();
    let msg = s.logon(now);
    lemma_logon_type(s);
    reveal_with_fuel(wire::first_value, 2);
    wire::set_then_get(base, tags::ENCRYPT_METHOD, "0"@);
    wire::set_then_get(a, tags::HEART_BT_INT, interval);
    wire::set_then_get(b, tags::RESET_SEQ_NUM_FLAG, "Y"@);
    wire::set_then_get(c, tags::DEFAULT_APPL_VER_ID, "9"@);
    lemma_header(t, fields, t.out, now);
    text::decimal_round_trips(s.config.heartbeat.secs as nat, u64::MAX as nat);
    text::decimal_round_trips(t.out as nat, u64::MAX as nat);
    assert forall|tag: u32|
        tag == tags::MSG_TYPE || tag == tags::ENCRYPT_METHOD || tag == tags::HEART_BT_INT || tag
            == tags::RESET_SEQ_NUM_FLAG || tag
            == tags::DEFAULT_APPL_VER_ID implies #[trigger] wire::first_value(msg, tag)
        == wire::first_value(fields, tag) by {}
    assert(wire::first_value(b, tags::ENCRYPT_METHOD) == Some("0"@));
    assert(wire::first_value(c, tags::ENCRYPT_METHOD) == Some("0"@));
    assert(wire::first_value(fields, tags::ENCRYPT_METHOD) == Some("0"@));
    assert(wire::first_value(c, tags::HEART_BT_INT) == Some(interval));
    assert(wire::first_value(fields, tags::HEART_BT_INT) == Some(interval));
    assert(wire::first_value(base, tags::RESET_SEQ_NUM_FLAG) is None);
    assert(wire::first_value(a, tags::RESET_SEQ_NUM_FLAG) is None);
    assert(wire::first_value(b, tags::RESET_SEQ_NUM_FLAG) is None);
    assert(wire::first_value(fields, tags::RESET_SEQ_NUM_FLAG) == wire::first_value(
        c,
        tags::RESET_SEQ_NUM_FLAG,
    ));
    assert(wire::first_value(base, tags::DEFAULT_APPL_VER_ID) is None);
    assert(wire::first_value(a, tags::DEFAULT_APPL_VER_ID) is None);
    assert(wire::first_value(b, tags::DEFAULT_APPL_VER_ID) is None);
    assert(wire::first_value(c, tags::DEFAULT_APPL_VER_ID) is None);
}

/// Every message that the session stamps names the version's BeginString, the
/// two parties in their roles and the sending time, takes the next outbound
/// number, and keeps every other field of the message it was given; the number
/// is then used up and nothing else of the session changes.
pub proof fn stamping_uses_one_number(s: SessionView, fields: Seq<FieldView>, now: nat)
    ensures
        ({
            let msg = s.stamped(fields, now);
            &&& wire::first_value(msg, tags::BEGIN_STRING) == Some(
                match s.config.version {
                    FixVersion::Fix42 => "FIX.4.2"@,
                    FixVersion::Fix44 => "FIX.4.4"@,
                    FixVersion::Fix50Sp2 => "FIXT.1.1"@,
                },
            )
            &&& wire::first_value(msg, tags::SENDER_COMP_ID) == Some(s.config.sender)
            &&& wire::first_value(msg, tags::TARGET_COMP_ID) == Some(s.config.target)
            &&& wire::first_value(msg, tags::SENDING_TIME) == Some(calendar::timestamp(now))
            &&& message::number_of(msg, tags::MSG_SEQ_NUM) == Some(s.out as nat)
            &&& forall|tag: u32|
                tag != tags::BEGIN_STRING && tag != tags::SENDER_COMP_ID && tag
                    != tags::TARGET_COMP_ID && tag != tags::MSG_SEQ_NUM && tag
                    != tags::SENDING_TIME ==> #[trigger] wire::first_value(msg, tag)
                    == wire::first_value(fields, tag)
        }),
        s.out < u64::MAX ==> s.sent().out == s.out + 1,
        s.sent().expected == s.expected,
        s.sent().state == s.state,
        s.sent().config == s.config,
{
    lemma_header(s, fields, s.out, now);
    text::decimal_round_trips(s.out as nat, u64::MAX as nat);
}

/// The text of an optional string.
pub open spec fn text_of(s: Option<&str>) -> Option<Seq<char>> {
    match s {
        Some(t) => Some(t@),
        None => None,
    }
}

} // verus!
