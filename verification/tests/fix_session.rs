use atomr::fix::session::FrameReaction;
use atomr::fix::tags;
use atomr::fix::{
    FixMessage, FixSeqStore, FixSession, FixSessionConfig, FixVersion, InMemorySeqStore, MsgType,
    SessionState,
};
use atomr::time::Span;

fn config() -> FixSessionConfig {
    let mut c = FixSessionConfig::new(FixVersion::Fix44, "CLIENT", "SERVER");
    c.heartbeat = Span::from_secs(30);
    c
}

fn inbound(msg_type: MsgType, seq: u64) -> FixMessage {
    let mut m = FixMessage::of_type(msg_type);
    m.set(tags::BEGIN_STRING, "FIX.4.4");
    m.set(tags::SENDER_COMP_ID, "SERVER");
    m.set(tags::TARGET_COMP_ID, "CLIENT");
    m.set(tags::MSG_SEQ_NUM, &seq.to_string());
    m
}

fn peer_logon(seq: u64) -> FixMessage {
    let mut l = inbound(MsgType::Logon, seq);
    l.set(tags::HEART_BT_INT, "30");
    l
}

fn active() -> FixSession<InMemorySeqStore> {
    let mut session = FixSession::new(config(), InMemorySeqStore::new());
    session.handle_inbound(peer_logon(1));
    session
}

#[test]
fn logon_handshake_peer_initiated() {
    let mut session = FixSession::new(config(), InMemorySeqStore::new());
    assert_eq!(session.state(), SessionState::Disconnected);
    let outcome = session.handle_inbound(peer_logon(1));
    assert_eq!(session.state(), SessionState::Active);
    assert_eq!(outcome.outbound.len(), 1);
    assert_eq!(outcome.outbound[0].msg_type(), Some(MsgType::Logon));
    assert_eq!(session.store().current_in(), 2);
    assert_eq!(session.store().peek_out(), 2);
}

#[test]
fn logon_handshake_self_initiated() {
    let mut session = FixSession::new(config(), InMemorySeqStore::new());
    let logon = session.build_logon();
    assert_eq!(logon.msg_type(), Some(MsgType::Logon));
    assert_eq!(logon.get(tags::HEART_BT_INT), Some("30"));
    assert_eq!(session.state(), SessionState::LogonSent);
    let outcome = session.handle_inbound(inbound(MsgType::Logon, 1));
    assert!(outcome.outbound.is_empty());
    assert_eq!(session.state(), SessionState::Active);
}

#[test]
fn test_request_produces_heartbeat_with_id() {
    let mut session = active();
    let mut tr = inbound(MsgType::TestRequest, 2);
    tr.set(tags::TEST_REQ_ID, "PING-42");
    let outcome = session.handle_inbound(tr);
    assert_eq!(outcome.outbound.len(), 1);
    let hb = &outcome.outbound[0];
    assert_eq!(hb.msg_type(), Some(MsgType::Heartbeat));
    assert_eq!(hb.get(tags::TEST_REQ_ID), Some("PING-42"));
}

#[test]
fn gap_detection_triggers_resend_request() {
    let mut session = active();
    let outcome = session.handle_inbound(inbound(MsgType::Heartbeat, 5));
    assert_eq!(outcome.gap_detected, Some((2, 5)));
    assert_eq!(outcome.outbound.len(), 1);
    let rr = &outcome.outbound[0];
    assert_eq!(rr.msg_type(), Some(MsgType::ResendRequest));
    assert_eq!(rr.get(tags::BEGIN_SEQ_NO), Some("2"));
    assert_eq!(rr.get(tags::END_SEQ_NO), Some("0"));
    assert_eq!(session.store().current_in(), 2);
}

#[test]
fn resend_request_produces_gap_fill() {
    let mut session = active();
    for _ in 0..3 {
        let mut nos = FixMessage::of_type(MsgType::NewOrderSingle);
        nos.set(tags::CL_ORD_ID, "x");
        let _ = session.build_app_message(nos);
    }
    assert_eq!(session.store().peek_out(), 5);

    let mut rr = inbound(MsgType::ResendRequest, 2);
    rr.set(tags::BEGIN_SEQ_NO, "2");
    rr.set(tags::END_SEQ_NO, "4");
    let outcome = session.handle_inbound(rr);

    assert_eq!(outcome.outbound.len(), 1);
    let gf = &outcome.outbound[0];
    assert_eq!(gf.msg_type(), Some(MsgType::SequenceReset));
    assert_eq!(gf.get(tags::GAP_FILL_FLAG), Some("Y"));
    assert_eq!(gf.get(tags::MSG_SEQ_NUM), Some("2"));
    assert_eq!(gf.get_u64(tags::NEW_SEQ_NO), Some(5));
}

#[test]
fn sequence_reset_advances_inbound_counter() {
    let mut session = active();
    assert_eq!(session.store().current_in(), 2);
    let mut sr = inbound(MsgType::SequenceReset, 2);
    sr.set(tags::GAP_FILL_FLAG, "Y");
    sr.set(tags::NEW_SEQ_NO, "10");
    let outcome = session.handle_inbound(sr);
    assert!(outcome.outbound.is_empty());
    assert_eq!(session.store().current_in(), 10);
}

#[test]
fn orderly_logout_peer_initiated() {
    let mut session = active();
    let outcome = session.handle_inbound(inbound(MsgType::Logout, 2));
    assert_eq!(outcome.outbound.len(), 1);
    assert_eq!(outcome.outbound[0].msg_type(), Some(MsgType::Logout));
    assert_eq!(session.state(), SessionState::Disconnected);
}

#[test]
fn orderly_logout_self_initiated() {
    let mut session = active();
    let lo = session.build_logout(Some("done"));
    assert_eq!(lo.msg_type(), Some(MsgType::Logout));
    assert_eq!(lo.get(tags::TEXT), Some("done"));
    assert_eq!(session.state(), SessionState::LogoutSent);
    let outcome = session.handle_inbound(inbound(MsgType::Logout, 2));
    assert!(outcome.outbound.is_empty());
    assert_eq!(session.state(), SessionState::Disconnected);
}

#[test]
fn new_order_single_to_execution_report_round_trip() {
    let mut session = active();
    let mut nos = FixMessage::of_type(MsgType::NewOrderSingle);
    nos.set(tags::CL_ORD_ID, "ORD-1");
    nos.set(tags::SYMBOL, "AAPL");
    nos.set(tags::SIDE, "1");
    nos.set(tags::ORDER_QTY, "100");
    let out = session.build_app_message(nos);
    let wire = out.to_wire();
    let parsed = FixMessage::parse(&wire).unwrap();
    assert_eq!(parsed.msg_type(), Some(MsgType::NewOrderSingle));
    assert_eq!(parsed.get(tags::CL_ORD_ID), Some("ORD-1"));
    assert_eq!(parsed.get(tags::SYMBOL), Some("AAPL"));

    let mut er = inbound(MsgType::ExecutionReport, 2);
    er.set(tags::CL_ORD_ID, "ORD-1");
    er.set(tags::EXEC_TYPE, "0");
    er.set(tags::ORD_STATUS, "0");
    let outcome = session.handle_inbound(er);
    assert!(outcome.outbound.is_empty());
    let app = outcome.application.expect("execution report surfaced");
    assert_eq!(app.msg_type(), Some(MsgType::ExecutionReport));
    assert_eq!(app.get(tags::CL_ORD_ID), Some("ORD-1"));
}

#[test]
fn sequence_recovery_after_reconnect_uses_persisted_numbers() {
    let mut session = active();
    for _ in 0..2 {
        let mut nos = FixMessage::of_type(MsgType::NewOrderSingle);
        nos.set(tags::CL_ORD_ID, "x");
        let _ = session.build_app_message(nos);
    }
    session.handle_inbound(inbound(MsgType::Heartbeat, 2));
    session.handle_inbound(inbound(MsgType::Heartbeat, 3));
    let store = session.into_store();
    assert_eq!(store.peek_out(), 4);
    assert_eq!(store.current_in(), 4);

    let mut session = FixSession::new(config(), store);
    let logon = session.build_logon();
    assert_eq!(logon.get(tags::MSG_SEQ_NUM), Some("4"));
    assert_eq!(logon.get(tags::RESET_SEQ_NUM_FLAG), None);
    let outcome = session.handle_inbound(inbound(MsgType::Logon, 4));
    assert!(outcome.gap_detected.is_none());
    assert_eq!(session.store().current_in(), 5);
}

#[test]
fn reset_on_logon_restarts_sequence_and_sets_flag() {
    let mut c = config();
    c.reset_on_logon = true;
    let mut session = FixSession::new(c, InMemorySeqStore::with_counters(99, 99));
    let logon = session.build_logon();
    assert_eq!(logon.get(tags::RESET_SEQ_NUM_FLAG), Some("Y"));
    assert_eq!(logon.get(tags::MSG_SEQ_NUM), Some("1"));
    assert_eq!(session.store().peek_out(), 2);
    assert_eq!(session.store().current_in(), 1);
}

#[test]
fn fixt_logon_carries_default_appl_ver_id() {
    let mut c = FixSessionConfig::new(FixVersion::Fix50Sp2, "C", "S");
    c.heartbeat = Span::from_secs(10);
    let mut session = FixSession::new(c, InMemorySeqStore::new());
    let logon = session.build_logon();
    assert_eq!(logon.get(tags::BEGIN_STRING), Some("FIXT.1.1"));
    let wire = logon.to_wire();
    let parsed = FixMessage::parse(&wire).unwrap();
    assert_eq!(parsed.get(tags::BEGIN_STRING), Some("FIXT.1.1"));
    assert_eq!(parsed.get(tags::DEFAULT_APPL_VER_ID), Some("9"));
}

#[test]
fn stale_message_is_ignored() {
    let mut session = active();
    let outcome = session.handle_inbound(inbound(MsgType::Heartbeat, 1));
    assert!(outcome.ignored_duplicate);
    assert!(outcome.outbound.is_empty());
    assert_eq!(session.store().current_in(), 2);
}

#[test]
fn sending_time_is_utc() {
    let mut session = FixSession::new(config(), InMemorySeqStore::new());
    let hb = session.build_heartbeat_at(None, 1_231_352_116);
    assert_eq!(hb.get(tags::SENDING_TIME), Some("20090107-18:15:16"));
    let leap = session.build_heartbeat_at(None, 951_782_399);
    assert_eq!(leap.get(tags::SENDING_TIME), Some("20000228-23:59:59"));
    let now = session.heartbeat();
    assert_eq!(now.get(tags::SENDING_TIME).map(|s| s.len()), Some(17));
}

#[test]
fn frames_drive_the_session() {
    let mut session = FixSession::new(config(), InMemorySeqStore::new());
    match session.on_frame(b"garbage", 0) {
        FrameReaction::Skip => {}
        other => panic!("expected a skipped frame, got {other:?}"),
    }
    match session.on_frame(&peer_logon(1).encode(), 0) {
        FrameReaction::Handled { wire, application, stop } => {
            assert_eq!(wire.len(), 1);
            let reply = FixMessage::parse(&wire[0]).unwrap();
            assert_eq!(reply.msg_type(), Some(MsgType::Logon));
            assert!(application.is_none());
            assert!(!stop);
        }
        other => panic!("expected a handled frame, got {other:?}"),
    }
    let tick = session.on_tick(0).expect("heartbeat");
    assert_eq!(FixMessage::parse(&tick).unwrap().msg_type(), Some(MsgType::Heartbeat));
    match session.on_frame(&inbound(MsgType::Logout, 2).encode(), 0) {
        FrameReaction::Handled { stop, .. } => assert!(stop),
        other => panic!("expected a handled frame, got {other:?}"),
    }
    assert!(session.on_tick(0).is_none());
    assert!(session.on_application(FixMessage::new(), 0).is_none());
}

#[test]
fn endless_resend_request_is_unanswerable() {
    let session = active();
    let mut rr = inbound(MsgType::ResendRequest, 2);
    rr.set(tags::BEGIN_SEQ_NO, "2");
    rr.set(tags::END_SEQ_NO, "18446744073709551615");
    assert!(session.is_unanswerable(&rr));
    rr.set(tags::END_SEQ_NO, "4");
    assert!(!session.is_unanswerable(&rr));
}

#[test]
fn reset_on_logon_counts_the_logon_it_answers() {
    let mut c = config();
    c.reset_on_logon = true;
    let mut session = FixSession::new(c, InMemorySeqStore::new());
    let outcome = session.handle_inbound(peer_logon(1));
    assert_eq!(session.state(), SessionState::Active);
    assert_eq!(outcome.outbound.len(), 1);
    assert_eq!(outcome.outbound[0].get(tags::RESET_SEQ_NUM_FLAG), Some("Y"));
    assert_eq!(outcome.outbound[0].seq_num(), Some(1));
    assert_eq!(session.store().current_in(), 2);
    assert_eq!(session.store().peek_out(), 2);
    let next = session.handle_inbound(inbound(MsgType::Heartbeat, 2));
    assert!(next.gap_detected.is_none() && !next.ignored_duplicate);
    assert_eq!(session.store().current_in(), 3);
}

#[test]
fn accepted_messages_move_the_session_as_their_type_asks() {
    let mut session = active();
    session.handle_inbound(inbound(MsgType::Heartbeat, 2));
    assert_eq!(session.state(), SessionState::Active);
    session.build_logout(None);
    let answered = session.handle_inbound(inbound(MsgType::Logout, 3));
    assert!(answered.outbound.is_empty());
    assert_eq!(session.state(), SessionState::Disconnected);
    let again = session.handle_inbound(inbound(MsgType::Logout, 4));
    assert_eq!(again.outbound.len(), 1);
    assert_eq!(again.outbound[0].msg_type(), Some(MsgType::Logout));
    assert_eq!(session.state(), SessionState::Disconnected);
}
