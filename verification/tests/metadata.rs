use atomr::actor::{
    MessageEnvelope, MessageInterceptor, Metadata, Sender, SpanGuard, SuspendMode, UntypedActorRef,
};

#[test]
fn empty_by_default() {
    let m = Metadata::new();
    assert!(m.is_empty());
    assert_eq!(m.trace_id(), None);
}

#[test]
fn carries_trace_and_baggage() {
    let mut m = Metadata::with_trace("trace-1", "span-1");
    m.set_baggage("tenant", "acme");
    assert_eq!(m.trace_id(), Some("trace-1"));
    assert_eq!(m.span_id(), Some("span-1"));
    assert_eq!(m.baggage("tenant"), Some("acme"));
    assert!(!m.is_empty());
}

struct Noop;

impl MessageInterceptor for Noop {
    type Guard = ();
}

#[test]
fn default_interceptor_propagates() {
    let i = Noop;
    let mut m = Metadata::with_trace("t", "s");
    m.set_baggage("k", "v");
    let child = i.outgoing(&m);
    assert_eq!(child, m);
    let _guard = i.before_handle(&m);
}

#[test]
fn baggage_comes_in_key_order() {
    let mut m = Metadata::new();
    m.set_baggage("b", "2");
    m.set_baggage("a", "1");
    m.set_baggage("b", "3");
    assert_eq!(m.baggage_iter(), vec![("a", "1"), ("b", "3")]);
    assert_eq!(m.baggage("c"), None);
    assert!(!m.is_empty());
    assert_eq!(m.duplicate(), m);
}

#[test]
fn envelopes_carry_what_they_are_given() {
    let e = MessageEnvelope::new(1u8);
    assert_eq!(e.sender, Sender::Nobody);
    assert!(e.metadata.is_empty());
    let from = Sender::Actor(UntypedActorRef::new("/user/a"));
    let e = MessageEnvelope::with_typed_sender(2u8, from);
    assert!(matches!(e.sender, Sender::Actor(_)));
    let e = MessageEnvelope::with_meta(3u8, Sender::Nobody, Metadata::with_trace("t", "s"));
    assert_eq!(e.message, 3);
    assert_eq!(e.metadata.trace_id(), Some("t"));
    let _none: SpanGuard<u8> = SpanGuard::none();
    let _held: SpanGuard<u8> = SpanGuard::holding(4);
}

#[test]
fn suspend_modes_have_names() {
    for mode in [SuspendMode::FlatOnly, SuspendMode::RiskReducingOnly, SuspendMode::FullHalt] {
        assert_eq!(SuspendMode::parse(mode.name()), Ok(mode));
    }
    assert_eq!(SuspendMode::parse("risk_reducing"), Ok(SuspendMode::RiskReducingOnly));
    assert_eq!(
        SuspendMode::parse("x"),
        Err("unknown suspend mode `x`; expected one of flat_only | risk_reducing_only | full_halt"
            .to_string())
    );
}
