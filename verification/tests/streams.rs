use atomr::streams::http_poll::{failure, response, NOT_MODIFIED, POLL_CHANNEL_CAPACITY};
use atomr::streams::ws::{map_message, on_event, WsEvent};
use atomr::streams::{
    Backoff, ClockGate, Conflate, Expand, ExpandStep, GateStep, HttpError, InstantToken, Merge,
    PollState, RequestSpec, RetryAfter, StepLock, Upstream, WsError, WsFrame, WsMessage,
};
use atomr::time::{LogicalTime, ManualClock};

fn et_ms(t: &(u64, u64)) -> LogicalTime {
    LogicalTime::from_millis(t.1)
}

fn drain(
    gate: &mut ClockGate<(u64, u64)>,
    source: &mut std::vec::IntoIter<(u64, u64)>,
    clock: &ManualClock,
) -> (Vec<(u64, u64)>, bool) {
    let mut out = Vec::new();
    loop {
        if gate.start() {
            gate.offer(source.next());
        }
        match gate.poll(&et_ms, clock.watermark()) {
            GateStep::Finished => return (out, true),
            GateStep::Wait => return (out, false),
            GateStep::Released(item) => {
                assert!(LogicalTime::from_millis(item.1) <= clock.watermark());
                out.push(item);
                gate.offer(source.next());
            }
        }
    }
}

#[test]
fn clock_gated_never_emits_ahead_of_watermark_even_with_slow_consumer() {
    let elems = vec![(0u64, 0u64), (1, 10), (2, 20), (3, 30), (4, 40)];
    let mut clock = ManualClock::new();
    let mut source = elems.into_iter();
    let mut gate = ClockGate::new();
    assert_eq!(drain(&mut gate, &mut source, &clock), (vec![(0, 0)], false));
    clock.advance_to(LogicalTime::from_millis(20));
    assert_eq!(drain(&mut gate, &mut source, &clock), (vec![(1, 10), (2, 20)], false));
    clock.advance_to(LogicalTime::from_millis(100));
    assert_eq!(drain(&mut gate, &mut source, &clock), (vec![(3, 30), (4, 40)], true));
}

#[test]
fn clock_gated_empty_source_completes() {
    let clock = ManualClock::new();
    let mut gate = ClockGate::new();
    assert_eq!(drain(&mut gate, &mut vec![].into_iter(), &clock), (vec![], true));
}

#[test]
fn step_locked_blocks_until_acked() {
    let mut lock = StepLock::new();
    assert!(lock.is_open());
    let (v0, t0) = lock.hand_out(10u32);
    assert_eq!(v0, 10);
    assert_eq!(t0, InstantToken(0));
    assert!(!lock.is_open(), "source advanced before ack");
    assert!(lock.ack(t0));
    let (v1, t1) = lock.hand_out(20u32);
    assert_eq!((v1, t1), (20, InstantToken(1)));
    assert!(!lock.ack(t0), "a token is taken back once");
    assert!(!lock.is_open());
    assert!(lock.ack(t1));
    let (v2, t2) = lock.hand_out(30u32);
    assert_eq!((v2, t2), (30, InstantToken(2)));
    assert!(lock.ack(t2));
    assert!(lock.is_open());
}

fn run_conflate(
    items: Vec<u32>,
    seed: impl Fn(u32) -> u32,
    fold: impl Fn(u32, u32) -> u32,
    burst: usize,
) -> Vec<u32> {
    let mut state = Conflate::new();
    let mut out = Vec::new();
    for (i, item) in items.into_iter().enumerate() {
        let merged = match state.merge(item) {
            Merge::Seed(t) => seed(t),
            Merge::Fold(prev, t) => fold(prev, t),
        };
        state.put(merged);
        if (i + 1) % burst == 0 {
            out.extend(state.take());
        }
    }
    out.extend(state.take());
    out
}

#[test]
fn conflate_passes_through_when_downstream_keeps_up() {
    assert_eq!(run_conflate(vec![1, 2, 3], |t| t, |a, b| a + b, 1), vec![1, 2, 3]);
}

#[test]
fn conflate_seed_initializes_accumulator() {
    assert_eq!(run_conflate(vec![10], |t| t * 2, |a, b| a + b, 1), vec![20]);
}

#[test]
fn conflate_folds_a_burst() {
    assert_eq!(run_conflate(vec![1, 2, 3, 4, 5], |t| t * 10, |a, b| a + b, 2), vec![12, 34, 50]);
}

/// Drives an expansion over the offers of a source, until all is emitted.
fn run_offers(
    offers: Vec<Upstream<i32>>,
    extrapolate: impl Fn(i32) -> Vec<i32>,
) -> Vec<i32> {
    let mut state = Expand::new();
    let mut offers = offers.into_iter();
    let mut synthetic: Vec<i32> = Vec::new();
    let mut out = Vec::new();
    loop {
        let upstream = offers.next().unwrap_or(Upstream::Ended);
        match state.step(upstream, !synthetic.is_empty()) {
            ExpandStep::Emit => {
                synthetic.clear();
                out.push(*state.latest().unwrap());
            }
            ExpandStep::EmitSynthetic => out.push(synthetic.remove(0)),
            ExpandStep::Extrapolate => synthetic = extrapolate(*state.latest().unwrap()),
            ExpandStep::Wait => {}
            ExpandStep::Finish => return out,
        }
    }
}

fn run_expand(items: Vec<i32>, extrapolate: impl Fn(i32) -> Vec<i32>) -> Vec<i32> {
    run_offers(items.into_iter().map(Upstream::Ready).collect(), extrapolate)
}

#[test]
fn expand_emits_extrapolated_values_after_upstream_close() {
    let out = run_expand(vec![5], |l| (0..3).map(|i| l + i + 1).collect());
    assert_eq!(out, vec![5, 6, 7, 8]);
}

#[test]
fn expand_extrapolates_from_the_latest_element_while_waiting() {
    let offers = vec![
        Upstream::Pending,
        Upstream::Ready(5),
        Upstream::Pending,
        Upstream::Pending,
        Upstream::Ready(9),
        Upstream::Pending,
        Upstream::Pending,
        Upstream::Pending,
        Upstream::Pending,
    ];
    let out = run_offers(offers, |l| vec![l * 10, l * 10 + 1]);
    assert_eq!(out, vec![5, 50, 9, 90, 91]);
}

#[test]
fn expand_goes_on_with_its_extrapolation_behind_the_end() {
    let offers = vec![Upstream::Ready(1), Upstream::Pending, Upstream::Pending, Upstream::Ended];
    assert_eq!(run_offers(offers, |l| vec![l + 1, l + 2, l + 3]), vec![1, 2, 3, 4]);
}

#[test]
fn expand_no_synthetics_when_iterator_empty() {
    assert_eq!(run_expand(vec![1, 2, 3], |_| vec![]), vec![1, 2, 3]);
    assert_eq!(run_expand(vec![], |_| vec![1]), Vec::<i32>::new());
}

#[test]
fn respect_retry_after_pauses_then_continues() {
    let items: Vec<Result<u32, RetryAfter>> =
        vec![Ok(1), Err(RetryAfter { seconds: 1 }), Ok(2), Err(RetryAfter { seconds: 0 }), Ok(3)];
    let mut state = Backoff::new();
    let mut pauses = Vec::new();
    for item in &items {
        pauses.push(state.take_pause());
        state.saw(item);
    }
    assert_eq!(pauses, vec![None, None, Some(1), None, None]);
}

#[test]
fn websocket_messages_become_frames() {
    assert!(matches!(map_message(WsMessage::Text("hello".into())), Some(WsFrame::Text(s)) if s == "hello"));
    match map_message(WsMessage::Binary(vec![1, 2])) {
        Some(WsFrame::Binary(b)) => assert_eq!(b.to_vec(), vec![1, 2]),
        _ => panic!("expected a binary frame"),
    }
    assert!(matches!(map_message(WsMessage::Ping(vec![7])), Some(WsFrame::Ping(b)) if b.as_ref() == [7]));
    assert!(matches!(map_message(WsMessage::Pong(vec![])), Some(WsFrame::Pong(b)) if b.is_empty()));
    assert!(matches!(map_message(WsMessage::Close), Some(WsFrame::Close)));
    assert!(map_message(WsMessage::Raw).is_none());
}

#[test]
fn websocket_failures_end_the_connection() {
    let step = on_event(WsEvent::Refused("no".into()));
    assert!(step.stop);
    assert!(matches!(step.emit, Some(Err(WsError::Connect(e))) if e == "no"));
    let step = on_event(WsEvent::Broke("reset".into()));
    assert!(step.stop);
    assert!(matches!(step.emit, Some(Err(WsError::Protocol(e))) if e == "reset"));
    let step = on_event(WsEvent::Received(WsMessage::Close));
    assert!(!step.stop);
    assert!(matches!(step.emit, Some(Ok(WsFrame::Close))));
    let step = on_event(WsEvent::Received(WsMessage::Raw));
    assert!(!step.stop && step.emit.is_none());
    let step = on_event(WsEvent::Ended);
    assert!(step.stop && step.emit.is_none());
}

#[test]
fn conditional_polls_send_the_last_tag() {
    let mut poll = PollState::new(true);
    assert_eq!(poll.condition(), None);
    assert!(poll.saw(200, Some("\"abc\"")));
    assert_eq!(poll.condition(), Some("\"abc\""));
    assert!(!poll.saw(NOT_MODIFIED, Some("\"other\"")));
    assert_eq!(poll.condition(), Some("\"abc\""));
    assert!(poll.saw(200, None));
    assert_eq!(poll.condition(), Some("\"abc\""));
    assert!(poll.saw(503, Some("\"next\"")));
    assert_eq!(poll.condition(), Some("\"next\""));
    let mut failing = PollState::new(true);
    assert!(failing.saw(404, Some("\"page\"")));
    assert_eq!(failing.condition(), None);
    assert!(failing.saw(200, Some("\"doc\"")));
    assert_eq!(failing.condition(), Some("\"doc\""));
    let mut plain = PollState::new(false);
    plain.saw(200, Some("\"abc\""));
    assert_eq!(plain.condition(), None);
}

#[test]
fn answers_without_news_are_empty() {
    let fresh = response(200, vec![("etag".into(), "\"abc\"".into())], b"hi".to_vec());
    assert_eq!(fresh.status, 200);
    assert!(!fresh.not_modified);
    assert_eq!(fresh.body.as_ref(), b"hi");
    assert_eq!(fresh.headers, vec![("etag".to_string(), "\"abc\"".to_string())]);
    let stale = response(304, vec![], b"ignored".to_vec());
    assert!(stale.not_modified);
    assert!(stale.body.is_empty());
    assert_eq!(failure(true, "url".into()), HttpError::Build("url".into()));
    assert_eq!(failure(false, "refused".into()), HttpError::Transport("refused".into()));
    assert_eq!(POLL_CHANNEL_CAPACITY, 8);
}

#[test]
fn request_headers_keep_their_order() {
    let req = RequestSpec::new("http://x/").header("User-Agent", "t").header("Accept", "*");
    assert_eq!(req.url, "http://x/");
    assert_eq!(
        req.headers,
        vec![
            ("User-Agent".to_string(), "t".to_string()),
            ("Accept".to_string(), "*".to_string())
        ]
    );
}
