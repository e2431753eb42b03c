use atomr::patterns::tx_outbox::{INSERT_OUTBOX, INSERT_OUTBOX_EVENT};
use atomr::patterns::{EventRow, OutboxError, OutboxRow, TxOutbox};
use atomr::persistence::PersistentRepr;
use atomr::sql::dialect::{migration_for, worm_deny_trigger_for, worm_migration_for};
use atomr::sql::journal::{
    clamp_i64, clamp_nanos, group_by_id, highest_number, parse_valid_time, plan_batch, to_repr,
    to_tagged_repr, EventRecord, JournalError, JournalRow,
};
use atomr::sql::schema::{
    already_applied, migration, split_statements, split_triggers, truncation,
};
use atomr::sql::statement::{
    insert_event, insert_head, mark_deleted, select_range, select_valid_as_of, SqlValue,
};
use atomr::sql::worm::{compute_row_hash, signed, unsigned, verify_rows, IntegrityError};
use atomr::sql::writer::{store, JournalWriter};
use atomr::sql::{detect_dialect, ChainHead, ChainProof, ChainRow, SqlDialect, WormConfig};
use sha2::{Digest, Sha256};

fn repr(pid: &str, seq: u64, payload: &[u8], tags: &[&str]) -> PersistentRepr {
    PersistentRepr {
        persistence_id: pid.into(),
        sequence_nr: seq,
        payload: payload.to_vec(),
        manifest: "m".into(),
        writer_uuid: "w".into(),
        deleted: false,
        tags: tags.iter().map(|s| s.to_string()).collect(),
    }
}

fn chained() -> WormConfig {
    WormConfig { hash_chain: true, deny_update_delete: false }
}

fn link(row: &JournalRow) -> ChainRow {
    ChainRow {
        sequence_nr: row.sequence_nr,
        payload: row.payload.clone(),
        created_at: row.created_at,
        prev_hash: row.prev_hash.clone(),
        row_hash: row.row_hash.clone(),
    }
}

#[test]
fn detects_all_schemes() {
    assert_eq!(detect_dialect("sqlite::memory:"), Some(SqlDialect::Sqlite));
    assert_eq!(detect_dialect("postgres://a"), Some(SqlDialect::Postgres));
    assert_eq!(detect_dialect("postgresql://a"), Some(SqlDialect::Postgres));
    assert_eq!(detect_dialect("mysql://a"), Some(SqlDialect::MySql));
    assert_eq!(detect_dialect("mssql://a"), Some(SqlDialect::MsSql));
    assert_eq!(detect_dialect("https://x"), None);
}

#[test]
fn migrations_embedded() {
    assert!(migration_for(SqlDialect::Sqlite).contains("event_journal"));
    assert!(migration_for(SqlDialect::Postgres).contains("event_journal"));
    assert!(migration_for(SqlDialect::MySql).contains("event_journal"));
}

#[test]
fn splitter_skips_blank_and_comments() {
    let sql = "-- hello\nCREATE TABLE a (id INT);\n\nCREATE TABLE b (id INT);";
    let out = split_statements(sql);
    assert_eq!(out.len(), 2);
    assert!(out[0].starts_with("CREATE TABLE a"));
}

#[test]
fn row_hash_is_stable_and_chains() {
    let h1 = compute_row_hash(&[], "p", 1, b"a", 100);
    let h1b = compute_row_hash(&[], "p", 1, b"a", 100);
    assert_eq!(h1, h1b, "deterministic");
    let h2 = compute_row_hash(&h1, "p", 2, b"b", 200);
    assert_ne!(h1, h2);
    let h2_tampered = compute_row_hash(&h1, "p", 2, b"B", 200);
    assert_ne!(h2, h2_tampered);
}

#[test]
fn row_hash_is_sha256_of_the_row() {
    let mut h = Sha256::new();
    h.update(b"prev");
    h.update("größe".as_bytes());
    h.update(7u64.to_le_bytes());
    h.update(b"payload");
    h.update((-5i64).to_le_bytes());
    assert_eq!(
        compute_row_hash(b"prev", "größe", 7, b"payload", -5),
        h.finalize().to_vec()
    );
}

#[test]
fn batches_extend_the_stored_chain() {
    let first = plan_batch(
        chained(),
        None,
        None,
        vec![repr("c", 1, b"a", &[]), repr("c", 2, b"b", &["x"])],
        &vec![10, 11],
    )
    .unwrap();
    let second = plan_batch(
        chained(),
        Some(2),
        first[1].row_hash.clone(),
        vec![repr("c", 3, b"cc", &[])],
        &vec![12],
    )
    .unwrap();
    let mut rows: Vec<ChainRow> = first.iter().map(link).collect();
    rows.extend(second.iter().map(link));
    let head = head_of(&second[0]);
    assert_eq!(verify_rows("c", &rows, Some(&head)), ChainProof::Intact { rows: 3 });

    rows[1].payload = b"B".to_vec();
    assert_eq!(verify_rows("c", &rows, Some(&head)), tampered(2));
    let stored = rows[1].row_hash.clone();
    let prev = rows[1].prev_hash.clone().unwrap();
    rows[1].row_hash = Some(compute_row_hash(&prev, "c", 2, b"B", rows[1].created_at));
    assert_eq!(verify_rows("c", &rows, Some(&head)), tampered(3));
    rows[1].row_hash = stored;
    rows[1].payload = b"b".to_vec();
    rows.remove(1);
    assert_eq!(verify_rows("c", &rows, Some(&head)), tampered(3));
    assert_eq!(verify_rows("c", &vec![], None), ChainProof::Intact { rows: 0 });
}

fn tampered(first_bad_sequence_nr: u64) -> ChainProof {
    ChainProof::Tampered { first_bad_sequence_nr }
}

fn head_of(row: &JournalRow) -> ChainHead {
    ChainHead { sequence_nr: row.sequence_nr, row_hash: row.row_hash.clone().unwrap() }
}

#[test]
fn deleted_newest_rows_are_detected() {
    let batch = vec![repr("c", 1, b"a", &[]), repr("c", 2, b"b", &[]), repr("c", 3, b"c", &[])];
    let written = plan_batch(chained(), None, None, batch, &vec![10, 11, 12]).unwrap();
    let head = head_of(&written[2]);
    let mut rows: Vec<ChainRow> = written.iter().map(link).collect();
    assert_eq!(verify_rows("c", &rows, Some(&head)), ChainProof::Intact { rows: 3 });
    rows.pop();
    assert_eq!(verify_rows("c", &rows, Some(&head)), tampered(3));
    rows.pop();
    assert_eq!(verify_rows("c", &rows, Some(&head)), tampered(2));
    rows.pop();
    assert_eq!(verify_rows("c", &rows, Some(&head)), tampered(1));
}

#[test]
fn rows_past_the_head_are_detected() {
    let batch = vec![repr("c", 1, b"a", &[]), repr("c", 2, b"b", &[])];
    let written = plan_batch(chained(), None, None, batch, &vec![10, 11]).unwrap();
    let rows: Vec<ChainRow> = written.iter().map(link).collect();
    assert_eq!(verify_rows("c", &rows, Some(&head_of(&written[0]))), tampered(2));
}

#[test]
fn a_chain_older_than_its_heads_is_verified_by_its_rows() {
    let batch = vec![repr("c", 1, b"a", &[]), repr("c", 2, b"b", &[])];
    let written = plan_batch(chained(), None, None, batch, &vec![10, 11]).unwrap();
    let mut rows: Vec<ChainRow> = written.iter().map(link).collect();
    assert_eq!(verify_rows("c", &rows, None), ChainProof::Intact { rows: 2 });
    rows[0].payload = b"A".to_vec();
    assert_eq!(verify_rows("c", &rows, None), tampered(1));
}

#[test]
fn several_edits_are_reported_at_the_first() {
    let batch: Vec<PersistentRepr> = (1..=4).map(|n| repr("c", n, &[n as u8], &[])).collect();
    let written = plan_batch(chained(), None, None, batch, &vec![1, 2, 3, 4]).unwrap();
    let mut rows: Vec<ChainRow> = written.iter().map(link).collect();
    rows[1].payload = b"x".to_vec();
    rows[3].payload = b"y".to_vec();
    rows[2].created_at = 9;
    assert_eq!(verify_rows("c", &rows, Some(&head_of(&written[3]))), tampered(2));
    rows.remove(0);
    assert_eq!(verify_rows("c", &rows, Some(&head_of(&written[3]))), tampered(2));
}

#[test]
fn a_wholly_rehashed_tail_does_not_reach_the_head() {
    let batch: Vec<PersistentRepr> = (1..=3).map(|n| repr("c", n, &[n as u8], &[])).collect();
    let written = plan_batch(chained(), None, None, batch, &vec![1, 2, 3]).unwrap();
    let head = head_of(&written[2]);
    let mut rows: Vec<ChainRow> = written.iter().map(link).collect();
    rows[1].payload = b"forged".to_vec();
    for i in 1..3 {
        let prev = rows[i - 1].row_hash.clone().unwrap();
        let hash =
            compute_row_hash(&prev, "c", i as u64 + 1, &rows[i].payload, rows[i].created_at);
        rows[i].prev_hash = Some(prev);
        rows[i].row_hash = Some(hash);
    }
    assert_eq!(verify_rows("c", &rows, None), ChainProof::Intact { rows: 3 });
    assert_eq!(verify_rows("c", &rows, Some(&head)), tampered(3));
}

#[test]
fn rehashed_edit_of_the_newest_row_is_detected() {
    let batch = vec![repr("c", 1, b"a", &[]), repr("c", 2, b"b", &[])];
    let written = plan_batch(chained(), None, None, batch, &vec![10, 11]).unwrap();
    let head = head_of(&written[1]);
    let mut rows: Vec<ChainRow> = written.iter().map(link).collect();
    rows[1].payload = b"B".to_vec();
    let prev = rows[1].prev_hash.clone().unwrap();
    rows[1].row_hash = Some(compute_row_hash(&prev, "c", 2, b"B", rows[1].created_at));
    assert_eq!(verify_rows("c", &rows, Some(&head)), tampered(2));
}

#[test]
fn messages_out_of_order_are_refused() {
    assert_eq!(
        plan_batch(WormConfig::default(), Some(4), None, vec![repr("p", 7, b"", &[])], &vec![0])
            .unwrap_err(),
        JournalError::SequenceOutOfOrder { expected: 5, got: 7 }
    );
}

#[test]
fn times_are_recorded_in_nanoseconds() {
    let rows = plan_batch(
        WormConfig::default(),
        None,
        None,
        vec![repr("b", 1, b"x", &["a", "valid_time:x", "valid_time:-100"])],
        &vec![1_700_000_000_000],
    )
    .unwrap();
    assert_eq!(rows[0].created_at, 1_700_000_000_000);
    assert_eq!(rows[0].system_time, 1_700_000_000_000_000_000);
    assert_eq!(rows[0].valid_time, Some(-100));
    assert_eq!(rows[0].row_hash, None);
    assert_eq!(parse_valid_time(&vec!["valid_time:9".to_string()]), Some(9));
    assert_eq!(parse_valid_time(&vec![]), None);
}

#[test]
fn rows_are_read_back_as_written() {
    let rows =
        plan_batch(chained(), None, None, vec![repr("p", 1, b"hello", &["t"])], &vec![5]).unwrap();
    let row = &rows[0];
    let record = || EventRecord {
        persistence_id: row.persistence_id.clone(),
        sequence_nr: row.sequence_nr,
        payload: row.payload.clone(),
        manifest: row.manifest.clone(),
        writer_uuid: row.writer_uuid.clone(),
        deleted: 0,
    };
    assert_eq!(to_repr(record(), row.tags.clone()), repr("p", 1, b"hello", &["t"]));
    assert_eq!(to_tagged_repr(record(), "t"), repr("p", 1, b"hello", &["t"]));
    assert_eq!((highest_number(None), highest_number(Some(3))), (0, 3));
}

#[test]
fn messages_are_grouped_by_id() {
    let groups = group_by_id(vec![
        repr("b", 1, b"1", &[]),
        repr("a", 1, b"2", &[]),
        repr("b", 2, b"3", &[]),
    ]);
    assert_eq!(groups.len(), 2);
    let b = groups.iter().find(|g| g.persistence_id == "b").unwrap();
    assert_eq!(b.messages.iter().map(|m| m.sequence_nr).collect::<Vec<_>>(), vec![1, 2]);
}

#[test]
fn numbers_are_kept_in_range() {
    assert_eq!((clamp_i64(5), clamp_i64(u64::MAX)), (5, i64::MAX));
    assert_eq!((clamp_nanos(5), clamp_nanos(u128::MAX)), (5, i64::MAX));
    assert_eq!((signed(u64::MAX), unsigned(-1)), (-1, u64::MAX));
}

#[test]
fn statements_carry_their_arguments() {
    let s = select_range("p", 1, u64::MAX, 10);
    assert_eq!(
        s.args,
        vec![
            SqlValue::Text("p".into()),
            SqlValue::Int(1),
            SqlValue::Int(i64::MAX),
            SqlValue::Int(10)
        ]
    );
    let v = select_valid_as_of("p", 200, 300);
    assert_eq!(
        v.args,
        vec![SqlValue::Text("p".into()), SqlValue::Int(300), SqlValue::Int(200)]
    );
    assert_eq!(mark_deleted("p", 4).args, vec![SqlValue::Text("p".into()), SqlValue::Int(4)]);
    let rows =
        plan_batch(chained(), None, None, vec![repr("p", 1, b"x", &[])], &vec![5]).unwrap();
    let insert = insert_event(&rows[0]);
    assert_eq!(insert.text.matches('?').count(), insert.args.len());
}

#[test]
fn triggers_are_split_one_by_one() {
    let ddl = worm_deny_trigger_for(SqlDialect::Sqlite);
    let out = split_triggers(ddl);
    assert_eq!(out.len(), 4);
    assert!(out.iter().all(|t| t.contains("TRIGGER")));
    assert!(worm_migration_for(SqlDialect::Sqlite).contains("row_hash"));
    assert!(already_applied("duplicate column name: row_hash"));
    assert!(!already_applied("no such table"));
}

#[test]
fn outbox_writes_the_event_and_its_message() {
    let event = EventRow {
        persistence_id: "agg-1".into(),
        sequence_nr: 1,
        payload: b"evt".to_vec(),
        manifest: "m".into(),
        writer_uuid: "w".into(),
    };
    let outbox = OutboxRow { topic: "orders".into(), payload: b"msg".to_vec() };
    let (first, second) = TxOutbox.statements(event, outbox, 77);
    assert_eq!(first.text, INSERT_OUTBOX_EVENT);
    assert_eq!(first.args.len(), 6);
    assert_eq!(first.args[5], SqlValue::Int(77));
    assert_eq!(second.text, INSERT_OUTBOX);
    assert_eq!(
        second.args,
        vec![
            SqlValue::Text("orders".into()),
            SqlValue::Blob(b"msg".to_vec()),
            SqlValue::Int(77)
        ]
    );
    assert_eq!(OutboxError::backend("gone"), OutboxError::Backend("gone".into()));
    assert_eq!(IntegrityError::backend("gone"), IntegrityError::Backend("gone".into()));
}

#[test]
fn migration_runs_only_where_it_is_asked_for() {
    let off = migration(SqlDialect::Sqlite, false);
    assert!(off.tables.is_empty() && off.additions.is_empty());
    let on = migration(SqlDialect::Sqlite, true);
    assert_eq!(on.tables, split_statements(migration_for(SqlDialect::Sqlite)));
    assert_eq!(on.additions, split_statements(worm_migration_for(SqlDialect::Sqlite)));
    assert!(on.tables.iter().any(|s| s.contains("event_journal")));
    assert!(on.additions.iter().any(|s| s.starts_with("ALTER TABLE event_journal")));
    assert!(on.additions.iter().any(|s| s.contains("event_chain_heads")));
}

#[test]
fn truncation_empties_every_table() {
    assert_eq!(
        truncation(),
        vec![
            "DELETE FROM event_tags",
            "DELETE FROM event_journal",
            "DELETE FROM event_chain_heads",
            "DELETE FROM snapshot_store",
        ]
    );
}

#[test]
fn a_write_goes_batch_by_batch() {
    let messages = vec![
        repr("b", 1, b"x", &["t", "u"]),
        repr("a", 4, b"y", &[]),
        repr("b", 2, b"z", &[]),
    ];
    let mut w = JournalWriter::new(WormConfig::default(), messages);
    assert!(!w.is_chained());
    assert_eq!((w.next_id(), w.next_len()), (Some("a"), 1));
    assert!(w.has_room(Some(3)));
    assert!(!w.has_room(Some(-1)));
    let a = w.next_batch(Some(3), None, &vec![7]).unwrap();
    assert_eq!(a.len(), 1);
    assert_eq!(a[0].args[0], SqlValue::Text("a".into()));
    assert_eq!((w.next_id(), w.next_len()), (Some("b"), 2));
    let b = w.next_batch(None, None, &vec![8, 9]).unwrap();
    let texts: Vec<&str> = b.iter().map(|s| &s.text[12..23]).collect();
    assert_eq!(texts, vec!["event_journ", "event_tags ", "event_tags ", "event_journ"]);
    assert_eq!(b[1].args[2], SqlValue::Text("t".into()));
    assert_eq!(b[2].args[2], SqlValue::Text("u".into()));
    assert_eq!((w.next_id(), w.next_len()), (None, 0));
}

#[test]
fn a_chained_write_stores_the_head() {
    let messages = vec![repr("a", 1, b"x", &["t"]), repr("a", 2, b"y", &[])];
    let rows = plan_batch(
        chained(),
        None,
        None,
        vec![repr("a", 1, b"x", &["t"]), repr("a", 2, b"y", &[])],
        &vec![1, 2],
    )
    .unwrap();
    let out = JournalWriter::new(chained(), messages).next_batch(None, None, &vec![1, 2]).unwrap();
    assert_eq!(out.len(), 4);
    assert_eq!(out[3], insert_head(&rows[1]));
    assert_eq!(
        out[3].args,
        vec![
            SqlValue::Text("a".into()),
            SqlValue::Int(2),
            SqlValue::OptionalBlob(rows[1].row_hash.clone())
        ]
    );
}

#[test]
fn a_write_is_given_up_at_a_message_out_of_order() {
    let messages = vec![repr("a", 1, b"x", &[]), repr("a", 3, b"y", &[]), repr("b", 1, b"z", &[])];
    let mut w = JournalWriter::new(chained(), messages);
    assert!(w.is_chained());
    let e = w.next_batch(None, None, &vec![1, 2]).unwrap_err();
    assert_eq!(e, JournalError::SequenceOutOfOrder { expected: 2, got: 3 });
    assert_eq!(w.next_id(), None);
}

#[test]
fn a_write_without_messages_has_no_batch() {
    assert_eq!(JournalWriter::new(chained(), Vec::new()).next_id(), None);
    assert!(store(&Vec::new()).is_empty());
}
