use atomr::fix::tags;
use atomr::fix::{FixMessage, FixParseError, FixSeqStore, InMemorySeqStore, MsgType, SOH};

#[test]
fn msg_type_codes_round_trip() {
    for mt in [
        MsgType::Logon,
        MsgType::Heartbeat,
        MsgType::TestRequest,
        MsgType::ResendRequest,
        MsgType::SequenceReset,
        MsgType::Logout,
        MsgType::NewOrderSingle,
        MsgType::ExecutionReport,
    ] {
        assert_eq!(MsgType::from_code(mt.code()), mt);
    }
    assert_eq!(MsgType::from_code("XY"), MsgType::Other("XY".to_string()));
}

#[test]
fn to_wire_then_parse_round_trips() {
    let mut m = FixMessage::of_type(MsgType::Heartbeat);
    m.set(tags::BEGIN_STRING, "FIX.4.4");
    m.set(tags::SENDER_COMP_ID, "CLIENT");
    m.set(tags::TARGET_COMP_ID, "SERVER");
    m.set(tags::MSG_SEQ_NUM, "1");
    m.set(tags::TEST_REQ_ID, "ABC");

    let wire = m.to_wire();
    let parsed = FixMessage::parse(&wire).expect("parse");

    assert_eq!(parsed.msg_type(), Some(MsgType::Heartbeat));
    assert_eq!(parsed.get(tags::SENDER_COMP_ID), Some("CLIENT"));
    assert_eq!(parsed.get(tags::TARGET_COMP_ID), Some("SERVER"));
    assert_eq!(parsed.get(tags::TEST_REQ_ID), Some("ABC"));
    assert_eq!(parsed.seq_num(), Some(1));
    assert_eq!(parsed.get(tags::BEGIN_STRING), Some("FIX.4.4"));
    assert!(parsed.get(tags::BODY_LENGTH).is_some());
    assert!(parsed.get(tags::CHECK_SUM).is_some());
}

#[test]
fn checksum_matches_known_vector() {
    let mut m = FixMessage::of_type(MsgType::Logon);
    m.set(tags::BEGIN_STRING, "FIX.4.2");
    m.set(tags::SENDER_COMP_ID, "SERVER");
    m.set(tags::TARGET_COMP_ID, "CLIENT");
    m.set(tags::MSG_SEQ_NUM, "177");
    m.set(tags::SENDING_TIME, "20090107-18:15:16");
    m.set(tags::ENCRYPT_METHOD, "0");
    m.set(tags::HEART_BT_INT, "30");

    let wire = m.to_wire();
    let s = String::from_utf8(wire.to_vec()).unwrap().replace(SOH as char, "|");
    assert_eq!(
        s,
        "8=FIX.4.2|9=65|35=A|49=SERVER|56=CLIENT|34=177|52=20090107-18:15:16|98=0|108=30|10=062|"
    );

    let parsed = FixMessage::parse(&wire).expect("parse");
    assert_eq!(parsed.get(tags::CHECK_SUM), Some("062"));
}

#[test]
fn parse_rejects_bad_checksum() {
    let mut m = FixMessage::of_type(MsgType::Heartbeat);
    m.set(tags::BEGIN_STRING, "FIX.4.4");
    m.set(tags::MSG_SEQ_NUM, "1");
    let wire = m.to_wire();
    let mut tampered = wire.to_vec();
    let pos = tampered.len() - 2;
    tampered[pos] = if tampered[pos] == b'0' { b'1' } else { b'0' };
    let err = FixMessage::parse(&tampered).unwrap_err();
    assert!(matches!(err, FixParseError::ChecksumMismatch { .. }));
}

#[test]
fn parse_rejects_malformed_field() {
    let bad = b"8=FIX.4.4\x01nonsense\x0135=0\x01";
    let err = FixMessage::parse(bad).unwrap_err();
    assert!(matches!(err, FixParseError::MalformedField(_)));
}

#[test]
fn parse_errors_are_told_apart() {
    assert_eq!(FixMessage::parse(b"").unwrap_err(), FixParseError::Empty);
    assert_eq!(
        FixMessage::parse(b"8=FIX.4.4\x01x=1\x0110=000\x01").unwrap_err(),
        FixParseError::InvalidTag("x".to_string())
    );
    assert_eq!(FixMessage::parse(b"58=\xff\x01").unwrap_err(), FixParseError::NotUtf8);
    assert!(FixMessage::parse(b"8=FIX.4.4\x0135=0\x01").is_ok());
    assert!(matches!(
        FixMessage::parse(b"8=FIX.4.4\x0135=0\x0110=abc\x01").unwrap_err(),
        FixParseError::InvalidCheckSum(_)
    ));
}

#[test]
fn a_field_that_is_set_twice_is_replaced() {
    let mut m = FixMessage::new();
    m.set(tags::TEXT, "one").set(tags::SYMBOL, "AAPL").set(tags::TEXT, "two");
    assert_eq!(m.get(tags::TEXT), Some("two"));
    assert_eq!(m.fields().len(), 2);
    assert_eq!(m.get_u64(tags::SYMBOL), None);
}

#[test]
fn text_outside_ascii_survives_the_wire() {
    let mut m = FixMessage::of_type(MsgType::Logout);
    m.set(tags::BEGIN_STRING, "FIX.4.4");
    m.set(tags::TEXT, "größe € ok");
    let parsed = FixMessage::parse(&m.encode()).expect("parse");
    assert_eq!(parsed.get(tags::TEXT), Some("größe € ok"));
    assert_eq!(m.to_wire().to_vec(), m.encode());
}

#[test]
fn admin_messages_are_told_from_application_messages() {
    assert!(MsgType::Logon.is_admin());
    assert!(MsgType::SequenceReset.is_admin());
    assert!(!MsgType::NewOrderSingle.is_admin());
    assert!(!MsgType::Other("XY".to_string()).is_admin());
}

#[test]
fn next_out_increments_and_persists() {
    let mut store = InMemorySeqStore::new();
    assert_eq!(store.next_out(), 1);
    assert_eq!(store.next_out(), 2);
    assert_eq!(store.next_out(), 3);
    assert_eq!(store.peek_out(), 4);
    assert_eq!(store.peek_out(), 4);
}

#[test]
fn observed_in_tracks_high_water_mark() {
    let mut store = InMemorySeqStore::new();
    assert_eq!(store.current_in(), 1);
    store.observed_in(1);
    assert_eq!(store.current_in(), 2);
    store.observed_in(2);
    assert_eq!(store.current_in(), 3);
    store.observed_in(1);
    assert_eq!(store.current_in(), 3);
    store.observed_in(9);
    assert_eq!(store.current_in(), 10);
}

#[test]
fn reset_returns_to_initial() {
    let mut store = InMemorySeqStore::with_counters(50, 60);
    assert_eq!(store.peek_out(), 50);
    assert_eq!(store.current_in(), 60);
    store.reset();
    assert_eq!(store.peek_out(), 1);
    assert_eq!(store.current_in(), 1);
}

#[test]
fn the_delimiter_at_the_end_is_optional() {
    let mut m = FixMessage::of_type(MsgType::Heartbeat);
    m.set(34, "7");
    let wire = m.to_wire();
    let shorter = &wire[..wire.len() - 1];
    assert_eq!(FixMessage::parse(&wire).unwrap(), FixMessage::parse(shorter).unwrap());
    assert_eq!(FixMessage::parse(b"").unwrap_err(), FixMessage::parse(b"\x01").unwrap_err());
}

#[test]
fn checksum_is_the_number_itself() {
    assert!(FixMessage::parse(b"8=X\x0110=206\x01").is_ok());
    assert_eq!(
        FixMessage::parse(b"8=X\x0110=462\x01").unwrap_err(),
        FixParseError::ChecksumMismatch { computed: 206, found: 206 }
    );
    assert_eq!(
        FixMessage::parse(b"8=X\x0110=300\x01").unwrap_err(),
        FixParseError::ChecksumMismatch { computed: 206, found: 44 }
    );
    assert_eq!(
        FixMessage::parse(b"8=X\x0110=207\x01").unwrap_err(),
        FixParseError::ChecksumMismatch { computed: 206, found: 207 }
    );
    assert_eq!(
        FixMessage::parse(b"8=X\x0110=1206\x01").unwrap_err(),
        FixParseError::InvalidCheckSum("1206".to_string())
    );
}

#[test]
fn only_the_last_checksum_counts() {
    let mut frame = b"8=X\x0110=300\x01".to_vec();
    let sum: u32 = frame.iter().map(|b| *b as u32).sum();
    frame.extend_from_slice(format!("10={:03}\x01", sum % 256).as_bytes());
    let parsed = FixMessage::parse(&frame).expect("parse");
    assert_eq!(parsed.fields().len(), 3);
    assert_eq!(parsed.get(tags::CHECK_SUM), Some("300"));
}

#[test]
fn a_parsed_message_encodes_to_the_bytes_it_was_read_from() {
    let mut m = FixMessage::new();
    m.set(tags::TEXT, "before the type");
    m.set(tags::MSG_TYPE, "D");
    m.set(tags::SYMBOL, "AAPL");
    m.set(tags::CHECK_SUM, "007");
    let wire = m.to_wire();
    let parsed = FixMessage::parse(&wire).expect("parse");
    assert_eq!(parsed.to_wire(), wire);
    assert_eq!(parsed.fields().len(), 6);
    assert_eq!(FixMessage::parse(&parsed.to_wire()).expect("parse").fields(), parsed.fields());
}
