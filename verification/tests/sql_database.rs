//! The statements of the journal, run against an in-memory database.

use std::future::Future;

use atomr::patterns::{EventRow, OutboxRow, TxOutbox};
use atomr::persistence::PersistentRepr;
use atomr::sql::dialect::{migration_for, worm_deny_trigger_for, worm_migration_for};
use atomr::sql::journal::clamp_nanos;
use atomr::sql::schema::{already_applied, split_statements, split_triggers, truncation};
use atomr::sql::statement::{
    mark_deleted, select_as_of, select_by_tag, select_chain, select_head, select_highest,
    select_last_hash, select_range, select_tags, select_valid_as_of, SqlValue, Statement,
};
use atomr::sql::worm::verify_rows;
use atomr::sql::writer::JournalWriter;
use atomr::sql::{ChainHead, ChainProof, ChainRow, SqlDialect, WormConfig};
use sqlx::any::{AnyArguments, AnyPoolOptions};
use sqlx::query::Query;
use sqlx::{Any, AnyPool, Row};

fn block_on<F: Future>(f: F) -> F::Output {
    tokio::runtime::Builder::new_current_thread().enable_all().build().unwrap().block_on(f)
}

fn bound(s: Statement) -> Query<'static, Any, AnyArguments<'static>> {
    let mut q = sqlx::query(s.text);
    for arg in s.args {
        q = match arg {
            SqlValue::Text(v) => q.bind(v),
            SqlValue::Int(v) => q.bind(v),
            SqlValue::SmallInt(v) => q.bind(v),
            SqlValue::Blob(v) => q.bind(v),
            SqlValue::OptionalBlob(v) => q.bind(v),
            SqlValue::OptionalInt(v) => q.bind(v),
        };
    }
    q
}

async fn open(worm: WormConfig) -> AnyPool {
    sqlx::any::install_default_drivers();
    let pool = AnyPoolOptions::new().max_connections(1).connect("sqlite::memory:").await.unwrap();
    for ddl in [migration_for(SqlDialect::Sqlite), worm_migration_for(SqlDialect::Sqlite)] {
        for s in split_statements(ddl) {
            if let Err(e) = sqlx::query(&s).execute(&pool).await {
                assert!(already_applied(&e.to_string()), "{s}: {e}");
            }
        }
    }
    if worm.deny_update_delete {
        for t in split_triggers(worm_deny_trigger_for(SqlDialect::Sqlite)) {
            sqlx::query(&t).execute(&pool).await.unwrap();
        }
    }
    pool
}

fn repr(pid: &str, seq: u64, payload: &[u8], tags: &[&str]) -> PersistentRepr {
    PersistentRepr {
        persistence_id: pid.into(),
        sequence_nr: seq,
        payload: payload.to_vec(),
        manifest: "m".into(),
        writer_uuid: "w".into(),
        deleted: false,
        tags: tags.iter().map(|s| s.to_string()).collect(),
    }
}

async fn write(pool: &AnyPool, worm: WormConfig, batch: Vec<PersistentRepr>, at: i64) {
    let id = batch[0].persistence_id.clone();
    let highest: Option<i64> = bound(select_highest(&id)).fetch_one(pool).await.unwrap().get(0);
    let last: Option<Vec<u8>> = bound(select_last_hash(&id))
        .fetch_optional(pool)
        .await
        .unwrap()
        .and_then(|r| r.get(0));
    let times: Vec<i64> = (0..batch.len()).map(|i| at + i as i64).collect();
    let mut writer = JournalWriter::new(worm, batch);
    for statement in writer.next_batch(highest, last, &times).unwrap() {
        bound(statement).execute(pool).await.unwrap();
    }
    assert_eq!(writer.next_id(), None);
}

async fn verified(pool: &AnyPool, id: &str) -> ChainProof {
    let rows: Vec<ChainRow> = bound(select_chain(id))
        .fetch_all(pool)
        .await
        .unwrap()
        .into_iter()
        .map(|r| ChainRow {
            sequence_nr: r.get(0),
            payload: r.get(1),
            created_at: r.get(2),
            prev_hash: r.get(3),
            row_hash: r.get(4),
        })
        .collect();
    let head: Option<ChainHead> = bound(select_head(id))
        .fetch_optional(pool)
        .await
        .unwrap()
        .map(|r| ChainHead { sequence_nr: r.get(0), row_hash: r.get(1) });
    verify_rows(id, &rows, head.as_ref())
}

async fn numbers(pool: &AnyPool, s: Statement) -> Vec<i64> {
    bound(s).fetch_all(pool).await.unwrap().into_iter().map(|r| r.get(1)).collect()
}

#[test]
fn worm_denies_update_and_delete() {
    block_on(async {
        let pool = open(WormConfig::enforced()).await;
        write(&pool, WormConfig::enforced(), vec![repr("p", 1, b"hello", &[])], 1).await;
        let upd = sqlx::query("UPDATE event_journal SET payload = ? WHERE persistence_id = 'p'")
            .bind(b"tampered".to_vec())
            .execute(&pool)
            .await;
        assert!(upd.is_err(), "UPDATE should be denied under WORM");
        let del = sqlx::query("DELETE FROM event_journal WHERE persistence_id = 'p'")
            .execute(&pool)
            .await;
        assert!(del.is_err(), "DELETE should be denied under WORM");
    });
}

#[test]
fn verify_chain_intact_for_clean_data() {
    block_on(async {
        let worm = WormConfig { hash_chain: true, deny_update_delete: false };
        let pool = open(worm).await;
        write(&pool, worm, vec![repr("c", 1, b"a", &[]), repr("c", 2, b"b", &[])], 1).await;
        write(&pool, worm, vec![repr("c", 3, b"cc", &[])], 9).await;
        assert_eq!(verified(&pool, "c").await, ChainProof::Intact { rows: 3 });
    });
}

#[test]
fn verify_chain_detects_tampering() {
    block_on(async {
        let worm = WormConfig { hash_chain: true, deny_update_delete: false };
        let pool = open(worm).await;
        let batch =
            vec![repr("t", 1, b"one", &[]), repr("t", 2, b"two", &[]), repr("t", 3, b"three", &[])];
        write(&pool, worm, batch, 1).await;
        sqlx::query(
            "UPDATE event_journal SET payload = ? WHERE persistence_id = 't' AND sequence_nr = 2",
        )
        .bind(b"TWO!".to_vec())
        .execute(&pool)
        .await
        .unwrap();
        assert_eq!(
            verified(&pool, "t").await,
            ChainProof::Tampered { first_bad_sequence_nr: 2 }
        );
    });
}

#[test]
fn verify_chain_detects_deleted_newest_rows() {
    block_on(async {
        let worm = WormConfig { hash_chain: true, deny_update_delete: false };
        let pool = open(worm).await;
        write(&pool, worm, vec![repr("t", 1, b"one", &[])], 1).await;
        write(&pool, worm, vec![repr("t", 2, b"two", &[]), repr("t", 3, b"three", &[])], 2).await;
        assert_eq!(verified(&pool, "t").await, ChainProof::Intact { rows: 3 });
        sqlx::query("DELETE FROM event_journal WHERE persistence_id = 't' AND sequence_nr = 3")
            .execute(&pool)
            .await
            .unwrap();
        let tampered = |n: u64| ChainProof::Tampered { first_bad_sequence_nr: n };
        assert_eq!(verified(&pool, "t").await, tampered(3));
        sqlx::query("DELETE FROM event_journal WHERE persistence_id = 't'")
            .execute(&pool)
            .await
            .unwrap();
        assert_eq!(verified(&pool, "t").await, tampered(1));
        for s in truncation() {
            sqlx::query(s).execute(&pool).await.unwrap();
        }
        assert_eq!(verified(&pool, "t").await, ChainProof::Intact { rows: 0 });
    });
}

#[test]
fn worm_protects_the_chain_heads() {
    block_on(async {
        let pool = open(WormConfig::enforced()).await;
        write(&pool, WormConfig::enforced(), vec![repr("p", 1, b"hello", &[])], 1).await;
        write(&pool, WormConfig::enforced(), vec![repr("p", 2, b"again", &[])], 2).await;
        assert_eq!(verified(&pool, "p").await, ChainProof::Intact { rows: 2 });
        assert!(sqlx::query("DELETE FROM event_chain_heads").execute(&pool).await.is_err());
        assert!(sqlx::query("UPDATE event_chain_heads SET sequence_nr = 1")
            .execute(&pool)
            .await
            .is_err());
    });
}

#[test]
fn events_as_of_excludes_later_restatements() {
    block_on(async {
        let worm = WormConfig::default();
        let pool = open(worm).await;
        write(&pool, worm, vec![repr("a", 1, b"v1", &[]), repr("a", 2, b"v2", &[])], 1000).await;
        let times: Vec<i64> = sqlx::query(
            "SELECT system_time FROM event_journal WHERE persistence_id='a' ORDER BY sequence_nr",
        )
        .fetch_all(&pool)
        .await
        .unwrap()
        .into_iter()
        .map(|r| r.get(0))
        .collect();
        assert_eq!(times, vec![1_000_000_000, 1_001_000_000]);
        let cutoff = times[0];
        sqlx::query(
            "UPDATE event_journal SET system_time = ? WHERE persistence_id='a' AND sequence_nr=2",
        )
        .bind(cutoff + 1_000_000)
        .execute(&pool)
        .await
        .unwrap();
        let as_of = numbers(&pool, select_as_of("a", clamp_nanos(cutoff as u128))).await;
        assert_eq!(as_of, vec![1], "later-recorded restatement must not appear");
        let later = numbers(&pool, select_as_of("a", clamp_nanos((cutoff + 2_000_000) as u128)));
        assert_eq!(later.await.len(), 2);
    });
}

#[test]
fn bitemporal_slice_distinguishes_corrected_value() {
    block_on(async {
        let worm = WormConfig::default();
        let pool = open(worm).await;
        let batch = vec![
            repr("b", 1, b"orig@100", &["valid_time:100"]),
            repr("b", 2, b"corrected@100", &["valid_time:100"]),
            repr("b", 3, b"new@300", &["valid_time:300"]),
        ];
        write(&pool, worm, batch, 1).await;
        let now = clamp_nanos(u128::MAX);
        let slice = numbers(&pool, select_valid_as_of("b", clamp_nanos(200), now)).await;
        assert_eq!(slice.len(), 2, "only valid_time<=200 rows");
        assert!(slice.iter().all(|n| *n <= 2));
        let slice2 = numbers(&pool, select_valid_as_of("b", clamp_nanos(300), now)).await;
        assert_eq!(slice2.len(), 3);
    });
}

#[test]
fn events_are_read_by_range_and_by_tag() {
    block_on(async {
        let worm = WormConfig::default();
        let pool = open(worm).await;
        let batch = vec![
            repr("r", 1, b"1", &["red"]),
            repr("r", 2, b"2", &["red", "blue"]),
            repr("r", 3, b"3", &["blue"]),
        ];
        write(&pool, worm, batch, 1).await;
        assert_eq!(numbers(&pool, select_range("r", 1, u64::MAX, u64::MAX)).await, vec![1, 2, 3]);
        assert_eq!(numbers(&pool, select_range("r", 2, 3, 1)).await, vec![2]);
        assert_eq!(numbers(&pool, select_by_tag("blue", 0, 10)).await, vec![2, 3]);
        assert_eq!(bound(select_tags("r", 2)).fetch_all(&pool).await.unwrap().len(), 2);
        bound(mark_deleted("r", 1)).execute(&pool).await.unwrap();
        assert_eq!(numbers(&pool, select_range("r", 1, u64::MAX, u64::MAX)).await, vec![2, 3]);
    });
}

async fn outbox_pool() -> AnyPool {
    sqlx::any::install_default_drivers();
    let pool = AnyPoolOptions::new().max_connections(1).connect("sqlite::memory:").await.unwrap();
    sqlx::query(
        "CREATE TABLE event_journal (persistence_id TEXT NOT NULL, sequence_nr INTEGER NOT NULL, \
         payload BLOB NOT NULL, manifest TEXT NOT NULL DEFAULT '', writer_uuid TEXT NOT NULL DEFAULT '', \
         deleted INTEGER NOT NULL DEFAULT 0, created_at INTEGER NOT NULL, \
         PRIMARY KEY (persistence_id, sequence_nr))",
    )
    .execute(&pool)
    .await
    .unwrap();
    sqlx::query(
        "CREATE TABLE outbox (id INTEGER PRIMARY KEY AUTOINCREMENT, topic TEXT NOT NULL, \
         payload BLOB NOT NULL, created_at INTEGER NOT NULL)",
    )
    .execute(&pool)
    .await
    .unwrap();
    pool
}

async fn persist(tx: &mut sqlx::Transaction<'static, Any>) {
    let event = EventRow {
        persistence_id: "agg-1".into(),
        sequence_nr: 1,
        payload: b"evt".to_vec(),
        manifest: "m".into(),
        writer_uuid: "w".into(),
    };
    let outbox = OutboxRow { topic: "orders".into(), payload: b"msg".to_vec() };
    let (first, second) = TxOutbox.statements(event, outbox, 5);
    bound(first).execute(&mut **tx).await.unwrap();
    bound(second).execute(&mut **tx).await.unwrap();
}

async fn counts(pool: &AnyPool) -> (i64, i64) {
    let ev = sqlx::query("SELECT COUNT(*) FROM event_journal").fetch_one(pool).await.unwrap();
    let ob = sqlx::query("SELECT COUNT(*) FROM outbox").fetch_one(pool).await.unwrap();
    (ev.get(0), ob.get(0))
}

#[test]
fn both_rows_commit_together() {
    block_on(async {
        let pool = outbox_pool().await;
        let mut tx = pool.begin().await.unwrap();
        persist(&mut tx).await;
        tx.commit().await.unwrap();
        assert_eq!(counts(&pool).await, (1, 1));
    });
}

#[test]
fn rollback_persists_neither_row() {
    block_on(async {
        let pool = outbox_pool().await;
        let mut tx = pool.begin().await.unwrap();
        persist(&mut tx).await;
        drop(tx);
        assert_eq!(counts(&pool).await, (0, 0));
    });
}

#[test]
fn explicit_rollback_persists_neither_row() {
    block_on(async {
        let pool = outbox_pool().await;
        let mut tx = pool.begin().await.unwrap();
        persist(&mut tx).await;
        tx.rollback().await.unwrap();
        assert_eq!(counts(&pool).await, (0, 0));
    });
}
