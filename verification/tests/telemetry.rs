use atomr::actor::Metadata;
use atomr::telemetry::event::bus_capacity;
use atomr::telemetry::trace::{mix, outgoing, outgoing_with, span_id_from, trace_id_from};
use atomr::telemetry::{
    metadata_to_span_context, ActorStatus, DeadLetterRecord, Details, OtlpConfig, SpanIds,
    TelemetryEvent, Transport,
};

const TRACE: &str = "4bf92f3577b34da6a3ce929d0e0e4736";
const SPAN: &str = "00f067aa0ba902b7";

#[test]
fn topic_labels_correct() {
    let e = TelemetryEvent::ActorSpawned(ActorStatus {
        path: "/user/x".into(),
        parent: Some("/user".into()),
        actor_type: "Test".into(),
        mailbox_depth: 0,
        spawned_at: "now".into(),
        host: None,
    });
    assert_eq!(e.topic(), "actors");
}

#[test]
fn subscribe_topic_filters_by_topic() {
    let events = vec![
        TelemetryEvent::ActorStopped { path: "/x".into() },
        TelemetryEvent::DDataUpdated { key: "k".into() },
        TelemetryEvent::DDataUpdated { key: "j".into() },
    ];
    let got: Vec<TelemetryEvent> = events.into_iter().filter(|e| e.is_wanted("ddata")).collect();
    assert_eq!(
        got,
        vec![
            TelemetryEvent::DDataUpdated { key: "k".into() },
            TelemetryEvent::DDataUpdated { key: "j".into() }
        ]
    );
}

#[test]
fn all_topics_covers_every_variant() {
    let samples = [
        TelemetryEvent::ActorStopped { path: "/x".into() }.topic(),
        TelemetryEvent::DeadLetter(DeadLetterRecord {
            seq: 0,
            recipient: "/x".into(),
            sender: None,
            message_type: "test".into(),
            message_preview: "p".into(),
            timestamp: "now".into(),
        })
        .topic(),
        TelemetryEvent::DDataUpdated { key: "k".into() }.topic(),
    ];
    for t in samples {
        assert!(TelemetryEvent::all_topics().contains(&t), "topic {t} missing from all_topics");
    }
    let mut sorted = TelemetryEvent::all_topics();
    sorted.sort();
    sorted.dedup();
    assert_eq!(sorted.len(), TelemetryEvent::all_topics().len());
}

#[test]
fn remaining_topics() {
    let none = || Details { entries: vec![] };
    assert_eq!(TelemetryEvent::MailboxSampled { path: "/x".into(), depth: 1 }.topic(), "actors");
    assert_eq!(TelemetryEvent::ClusterChanged(none()).topic(), "cluster");
    assert_eq!(TelemetryEvent::ShardingChanged(none()).topic(), "sharding");
    assert_eq!(TelemetryEvent::JournalWrite(none()).topic(), "persistence");
    assert_eq!(TelemetryEvent::RemoteAssociation(none()).topic(), "remote");
    assert_eq!(TelemetryEvent::StreamsGraphStarted { id: 1, name: "g".into() }.topic(), "streams");
    assert_eq!(TelemetryEvent::StreamsGraphFinished { id: 1 }.topic(), "streams");
    assert_eq!((bus_capacity(8), bus_capacity(16), bus_capacity(100)), (16, 16, 100));
}

#[test]
fn metadata_to_span_context_rejects_bad_ids() {
    assert!(metadata_to_span_context(&Metadata::new()).is_none());
    let bad = Metadata::with_trace("not-hex", "also-not-hex");
    assert!(metadata_to_span_context(&bad).is_none());
    let good = Metadata::with_trace(TRACE, SPAN);
    assert!(metadata_to_span_context(&good).is_some());
    assert_eq!(
        metadata_to_span_context(&good),
        Some(SpanIds {
            trace_id: 0x4bf92f3577b34da6a3ce929d0e0e4736,
            span_id: 0x00f067aa0ba902b7
        })
    );
    assert!(metadata_to_span_context(&Metadata::with_trace("0", SPAN)).is_none());
    assert!(metadata_to_span_context(&Metadata::with_trace(TRACE, "+")).is_none());
    assert!(metadata_to_span_context(&Metadata::with_trace(TRACE, "10000000000000000")).is_none());
    assert_eq!(
        metadata_to_span_context(&Metadata::with_trace("+A", "ff")),
        Some(SpanIds { trace_id: 10, span_id: 255 })
    );
}

#[test]
fn outgoing_propagates_trace_id_and_mints_fresh_span_id() {
    let mut parent = Metadata::with_trace(TRACE, SPAN);
    parent.set_baggage("tenant", "acme");
    let child = outgoing(&parent, 17);
    assert_eq!(child.trace_id(), parent.trace_id(), "trace_id must propagate");
    assert!(child.span_id().is_some(), "child must have a span id");
    assert_ne!(child.span_id(), parent.span_id(), "span_id must be fresh");
    assert_eq!(child.baggage("tenant"), Some("acme"));
}

#[test]
fn outgoing_mints_trace_when_parent_empty() {
    let child = outgoing(&Metadata::new(), 17);
    assert!(child.trace_id().is_some(), "a trace id should be minted");
    assert!(child.span_id().is_some(), "a span id should be minted");
    assert!(metadata_to_span_context(&child).is_some());
}

#[test]
fn ids_are_written_in_full() {
    let child = outgoing_with(&Metadata::with_trace("2A", "x"), 1, 0xab);
    assert_eq!(child.trace_id(), Some("0000000000000000000000000000002a"));
    assert_eq!(child.span_id(), Some("00000000000000ab"));
    let minted = outgoing_with(&Metadata::with_trace("zz", "x"), 0xfedc, 1);
    assert_eq!(minted.trace_id(), Some("0000000000000000000000000000fedc"));
}

#[test]
fn minted_ids_are_odd() {
    assert_eq!(span_id_from(4), 5);
    assert_eq!(mix(3, 5), 3u64.wrapping_mul(0x2545_F491_4F6C_DD1D) ^ 5);
    let lo = 0x0123_4567_89ab_cdefu64;
    let half = (lo.rotate_left(31) ^ 0x9E37_79B9_7F4A_7C15) | 1;
    assert_eq!(trace_id_from(9, lo), ((9u128) << 64) | half as u128);
}

fn config() -> OtlpConfig {
    OtlpConfig {
        enabled: true,
        endpoint: "http://localhost:4317".into(),
        protocol: "grpc".into(),
        service_name: Some("atomr-test".into()),
        interval_secs: 1,
        headers: vec![],
        resource_attributes: vec![("region".into(), "eu".into())],
        traces: true,
        stdout: true,
    }
}

#[test]
fn transport_follows_the_configuration() {
    let mut c = config();
    assert_eq!(c.transport(), Ok(Transport::Stdout));
    c.stdout = false;
    assert_eq!(c.transport(), Ok(Transport::Grpc));
    c.protocol = "http".into();
    assert_eq!(c.transport(), Ok(Transport::Http));
    c.protocol = "udp".into();
    assert_eq!(
        c.transport(),
        Err("unsupported or un-enabled OTLP protocol `udp`; enable the matching cargo feature"
            .to_string())
    );
}

#[test]
fn resource_names_service_and_node() {
    let mut c = config();
    let pair = |a: &str, b: &str| (a.to_string(), b.to_string());
    assert_eq!(
        c.resource("node-a"),
        vec![
            pair("service.name", "atomr-test"),
            pair("service.instance.id", "node-a"),
            pair("region", "eu")
        ]
    );
    c.service_name = None;
    assert_eq!(c.resource("n")[0], pair("service.name", "atomr"));
}
