//! SQL dialects and the DDL of each.

use crate::scan;
use vstd::prelude::*;

verus! {

/// A supported SQL dialect.
#[derive(Debug, Clone, Copy, PartialEq, Eq, Structural)]
pub enum SqlDialect {
    Sqlite,
    Postgres,
    MySql,
    MsSql,
}

/// Whether a URL has the scheme `scheme` (which ends in a colon), in upper or
/// lower case.
pub open spec fn has_scheme(url: Seq<char>, scheme: Seq<char>) -> bool {
    scan::begins_with(scan::lower_text(url), scheme)
}

/// The dialect that the scheme of a URL names.
pub open spec fn dialect_of(url: Seq<char>) -> Option<SqlDialect> {
    if has_scheme(url, "sqlite:"@) {
        Some(SqlDialect::Sqlite)
    } else if has_scheme(url, "postgres:"@) || has_scheme(url, "postgresql:"@) {
        Some(SqlDialect::Postgres)
    } else if has_scheme(url, "mysql:"@) || has_scheme(url, "mariadb:"@) {
        Some(SqlDialect::MySql)
    } else if has_scheme(url, "mssql:"@) || has_scheme(url, "sqlserver:"@) {
        Some(SqlDialect::MsSql)
    } else {
        None
    }
}

/// The dialect that the scheme of `url` names.
pub fn detect_dialect(url: &str) -> (r: Option<SqlDialect>)
    ensures
        r == dialect_of(url@),
{
    let lowered: String = scan::to_lower(url);
    let s: &str = lowered.as_str();
    if scan::starts_with(s, "sqlite:") {
        Some(SqlDialect::Sqlite)
    } else if scan::starts_with(s, "postgres:") || scan::starts_with(s, "postgresql:") {
        Some(SqlDialect::Postgres)
    } else if scan::starts_with(s, "mysql:") || scan::starts_with(s, "mariadb:") {
        Some(SqlDialect::MySql)
    } else if scan::starts_with(s, "mssql:") || scan::starts_with(s, "sqlserver:") {
        Some(SqlDialect::MsSql)
    } else {
        None
    }
}

pub const SQLITE_TABLES: &'static str = "\
-- Journal, tags and snapshots.
CREATE TABLE IF NOT EXISTS event_journal (
    persistence_id TEXT NOT NULL,
    sequence_nr INTEGER NOT NULL,
    payload BLOB NOT NULL,
    manifest TEXT NOT NULL DEFAULT '',
    writer_uuid TEXT NOT NULL DEFAULT '',
    deleted INTEGER NOT NULL DEFAULT 0,
    created_at INTEGER NOT NULL,
    PRIMARY KEY (persistence_id, sequence_nr)
);
CREATE TABLE IF NOT EXISTS event_tags (
    persistence_id TEXT NOT NULL,
    sequence_nr INTEGER NOT NULL,
    tag TEXT NOT NULL
);
CREATE INDEX IF NOT EXISTS event_tags_by_tag ON event_tags (tag);
CREATE TABLE IF NOT EXISTS snapshot_store (
    persistence_id TEXT NOT NULL,
    sequence_nr INTEGER NOT NULL,
    payload BLOB NOT NULL,
    created_at INTEGER NOT NULL,
    PRIMARY KEY (persistence_id, sequence_nr)
);
";

pub const POSTGRES_TABLES: &'static str = "\
-- Journal, tags and snapshots.
CREATE TABLE IF NOT EXISTS event_journal (
    persistence_id TEXT NOT NULL,
    sequence_nr BIGINT NOT NULL,
    payload BYTEA NOT NULL,
    manifest TEXT NOT NULL DEFAULT '',
    writer_uuid TEXT NOT NULL DEFAULT '',
    deleted INTEGER NOT NULL DEFAULT 0,
    created_at BIGINT NOT NULL,
    PRIMARY KEY (persistence_id, sequence_nr)
);
CREATE TABLE IF NOT EXISTS event_tags (
    persistence_id TEXT NOT NULL,
    sequence_nr BIGINT NOT NULL,
    tag TEXT NOT NULL
);
CREATE INDEX IF NOT EXISTS event_tags_by_tag ON event_tags (tag);
CREATE TABLE IF NOT EXISTS snapshot_store (
    persistence_id TEXT NOT NULL,
    sequence_nr BIGINT NOT NULL,
    payload BYTEA NOT NULL,
    created_at BIGINT NOT NULL,
    PRIMARY KEY (persistence_id, sequence_nr)
);
";

pub const MYSQL_TABLES: &'static str = "\
-- Journal, tags and snapshots.
CREATE TABLE IF NOT EXISTS event_journal (
    persistence_id VARCHAR(255) NOT NULL,
    sequence_nr BIGINT NOT NULL,
    payload LONGBLOB NOT NULL,
    manifest VARCHAR(255) NOT NULL DEFAULT '',
    writer_uuid VARCHAR(255) NOT NULL DEFAULT '',
    deleted INTEGER NOT NULL DEFAULT 0,
    created_at BIGINT NOT NULL,
    PRIMARY KEY (persistence_id, sequence_nr)
);
CREATE TABLE IF NOT EXISTS event_tags (
    persistence_id VARCHAR(255) NOT NULL,
    sequence_nr BIGINT NOT NULL,
    tag VARCHAR(255) NOT NULL,
    INDEX event_tags_by_tag (tag)
);
CREATE TABLE IF NOT EXISTS snapshot_store (
    persistence_id VARCHAR(255) NOT NULL,
    sequence_nr BIGINT NOT NULL,
    payload LONGBLOB NOT NULL,
    created_at BIGINT NOT NULL,
    PRIMARY KEY (persistence_id, sequence_nr)
);
";

pub const MSSQL_TABLES: &'static str = "\
-- Journal, tags and snapshots.
IF OBJECT_ID('event_journal') IS NULL CREATE TABLE event_journal (
    persistence_id NVARCHAR(255) NOT NULL,
    sequence_nr BIGINT NOT NULL,
    payload VARBINARY(MAX) NOT NULL,
    manifest NVARCHAR(255) NOT NULL DEFAULT '',
    writer_uuid NVARCHAR(255) NOT NULL DEFAULT '',
    deleted INT NOT NULL DEFAULT 0,
    created_at BIGINT NOT NULL,
    PRIMARY KEY (persistence_id, sequence_nr)
);
IF OBJECT_ID('event_tags') IS NULL CREATE TABLE event_tags (
    persistence_id NVARCHAR(255) NOT NULL,
    sequence_nr BIGINT NOT NULL,
    tag NVARCHAR(255) NOT NULL
);
IF OBJECT_ID('snapshot_store') IS NULL CREATE TABLE snapshot_store (
    persistence_id NVARCHAR(255) NOT NULL,
    sequence_nr BIGINT NOT NULL,
    payload VARBINARY(MAX) NOT NULL,
    created_at BIGINT NOT NULL,
    PRIMARY KEY (persistence_id, sequence_nr)
);
";

pub const SQLITE_WORM: &'static str = "\
-- Hash chain and temporal columns, and the heads of the chains.
ALTER TABLE event_journal ADD COLUMN prev_hash BLOB;
ALTER TABLE event_journal ADD COLUMN row_hash BLOB;
ALTER TABLE event_journal ADD COLUMN system_time INTEGER;
ALTER TABLE event_journal ADD COLUMN valid_time INTEGER;
CREATE TABLE IF NOT EXISTS event_chain_heads (
    persistence_id TEXT NOT NULL,
    sequence_nr INTEGER NOT NULL,
    row_hash BLOB NOT NULL,
    PRIMARY KEY (persistence_id, sequence_nr)
);
";

pub const POSTGRES_WORM: &'static str = "\
-- Hash chain and temporal columns, and the heads of the chains. To deny updates and deletes, revoke both
-- privileges on event_journal and event_chain_heads from the writing role.
ALTER TABLE event_journal ADD COLUMN IF NOT EXISTS prev_hash BYTEA;
ALTER TABLE event_journal ADD COLUMN IF NOT EXISTS row_hash BYTEA;
ALTER TABLE event_journal ADD COLUMN IF NOT EXISTS system_time BIGINT;
ALTER TABLE event_journal ADD COLUMN IF NOT EXISTS valid_time BIGINT;
CREATE TABLE IF NOT EXISTS event_chain_heads (
    persistence_id TEXT NOT NULL,
    sequence_nr BIGINT NOT NULL,
    row_hash BYTEA NOT NULL,
    PRIMARY KEY (persistence_id, sequence_nr)
);
";

pub const MYSQL_WORM: &'static str = "\
-- Hash chain and temporal columns, and the heads of the chains. To deny updates and deletes, revoke both
-- privileges on event_journal and event_chain_heads from the writing user.
ALTER TABLE event_journal ADD COLUMN prev_hash LONGBLOB;
ALTER TABLE event_journal ADD COLUMN row_hash LONGBLOB;
ALTER TABLE event_journal ADD COLUMN system_time BIGINT;
ALTER TABLE event_journal ADD COLUMN valid_time BIGINT;
CREATE TABLE IF NOT EXISTS event_chain_heads (
    persistence_id VARCHAR(255) NOT NULL,
    sequence_nr BIGINT NOT NULL,
    row_hash LONGBLOB NOT NULL,
    PRIMARY KEY (persistence_id, sequence_nr)
);
";

pub const MSSQL_WORM: &'static str = "\
-- Hash chain and temporal columns, and the heads of the chains. To deny updates and deletes, deny both
-- permissions on event_journal and event_chain_heads to the writing role.
IF COL_LENGTH('event_journal', 'prev_hash') IS NULL ALTER TABLE event_journal ADD prev_hash VARBINARY(MAX) NULL;
IF COL_LENGTH('event_journal', 'row_hash') IS NULL ALTER TABLE event_journal ADD row_hash VARBINARY(MAX) NULL;
IF COL_LENGTH('event_journal', 'system_time') IS NULL ALTER TABLE event_journal ADD system_time BIGINT NULL;
IF COL_LENGTH('event_journal', 'valid_time') IS NULL ALTER TABLE event_journal ADD valid_time BIGINT NULL;
IF OBJECT_ID('event_chain_heads') IS NULL CREATE TABLE event_chain_heads (
    persistence_id NVARCHAR(255) NOT NULL,
    sequence_nr BIGINT NOT NULL,
    row_hash VARBINARY(MAX) NOT NULL,
    PRIMARY KEY (persistence_id, sequence_nr)
);
";

/// Trigger bodies hold semicolons, so the statements are set apart by `@@`.
pub const SQLITE_DENY: &'static str = "\
CREATE TRIGGER IF NOT EXISTS event_journal_worm_no_update \
BEFORE UPDATE ON event_journal BEGIN SELECT RAISE(ABORT, 'WORM: event_journal is append-only'); END\
@@\
CREATE TRIGGER IF NOT EXISTS event_journal_worm_no_delete \
BEFORE DELETE ON event_journal BEGIN SELECT RAISE(ABORT, 'WORM: event_journal is append-only'); END\
@@\
CREATE TRIGGER IF NOT EXISTS event_chain_heads_worm_no_update \
BEFORE UPDATE ON event_chain_heads BEGIN SELECT RAISE(ABORT, 'WORM: event_chain_heads is append-only'); END\
@@\
CREATE TRIGGER IF NOT EXISTS event_chain_heads_worm_no_delete \
BEFORE DELETE ON event_chain_heads BEGIN SELECT RAISE(ABORT, 'WORM: event_chain_heads is append-only'); END";

pub fn sqlite_migration() -> (r: &'static str)
    ensures
        r@ == SQLITE_TABLES@,
{
    SQLITE_TABLES
}

pub fn postgres_migration() -> (r: &'static str)
    ensures
        r@ == POSTGRES_TABLES@,
{
    POSTGRES_TABLES
}

pub fn mysql_migration() -> (r: &'static str)
    ensures
        r@ == MYSQL_TABLES@,
{
    MYSQL_TABLES
}

pub fn mssql_migration() -> (r: &'static str)
    ensures
        r@ == MSSQL_TABLES@,
{
    MSSQL_TABLES
}

/// The DDL of the tables.
pub open spec fn tables_ddl(dialect: SqlDialect) -> Seq<char> {
    match dialect {
        SqlDialect::Sqlite => SQLITE_TABLES@,
        SqlDialect::Postgres => POSTGRES_TABLES@,
        SqlDialect::MySql => MYSQL_TABLES@,
        SqlDialect::MsSql => MSSQL_TABLES@,
    }
}

/// The DDL of the hash-chain and temporal columns, and of the chain heads.
pub open spec fn additions_ddl(dialect: SqlDialect) -> Seq<char> {
    match dialect {
        SqlDialect::Sqlite => SQLITE_WORM@,
        SqlDialect::Postgres => POSTGRES_WORM@,
        SqlDialect::MySql => MYSQL_WORM@,
        SqlDialect::MsSql => MSSQL_WORM@,
    }
}

/// The DDL of the tables.
pub fn migration_for(dialect: SqlDialect) -> (r: &'static str)
    ensures
        r@ == tables_ddl(dialect),
{
    match dialect {
        SqlDialect::Sqlite => sqlite_migration(),
        SqlDialect::Postgres => postgres_migration(),
        SqlDialect::MySql => mysql_migration(),
        SqlDialect::MsSql => mssql_migration(),
    }
}

/// The DDL of the hash-chain and temporal columns, and of the chain heads, applied
/// behind that of the tables.
pub fn worm_migration_for(dialect: SqlDialect) -> (r: &'static str)
    ensures
        r@ == additions_ddl(dialect),
{
    match dialect {
        SqlDialect::Sqlite => SQLITE_WORM,
        SqlDialect::Postgres => POSTGRES_WORM,
        SqlDialect::MySql => MYSQL_WORM,
        SqlDialect::MsSql => MSSQL_WORM,
    }
}

/// The DDL that rejects updates and deletes of journal rows and chain heads; empty for the
/// dialects whose enforcement an operator applies.
pub fn worm_deny_trigger_for(dialect: SqlDialect) -> (r: &'static str)
    ensures
        r@ == (match dialect {
            SqlDialect::Sqlite => SQLITE_DENY@,
            _ => ""@,
        }),
{
    match dialect {
        SqlDialect::Sqlite => SQLITE_DENY,
        SqlDialect::Postgres => "",
        SqlDialect::MySql => "",
        SqlDialect::MsSql => "",
    }
}

// ---------------------------------------------------------------------------
// Laws
// ---------------------------------------------------------------------------
/// The scheme of a URL names the dialect, in upper or lower case; a URL with no
/// known scheme names none.
pub proof fn schemes_name_the_dialect(url: Seq<char>)
    ensures
        dialect_of(scan::lower_text(url)) == dialect_of(url),
        has_scheme(url, "sqlite:"@) ==> dialect_of(url) == Some(SqlDialect::Sqlite),
        has_scheme(url, "postgres:"@) || has_scheme(url, "postgresql:"@) ==> dialect_of(url)
            == Some(SqlDialect::Postgres),
        has_scheme(url, "mysql:"@) || has_scheme(url, "mariadb:"@) ==> dialect_of(url) == Some(
            SqlDialect::MySql,
        ),
        has_scheme(url, "mssql:"@) || has_scheme(url, "sqlserver:"@) ==> dialect_of(url) == Some(
            SqlDialect::MsSql,
        ),
        dialect_of(url) is None <==> !has_scheme(url, "sqlite:"@) && !has_scheme(url, "postgres:"@)
            && !has_scheme(url, "postgresql:"@) && !has_scheme(url, "mysql:"@) && !has_scheme(
            url,
            "mariadb:"@,
        ) && !has_scheme(url, "mssql:"@) && !has_scheme(url, "sqlserver:"@),
{
    let low = scan::lower_text(url);
    assert(scan::lower_text(low) =~= low);
    reveal_strlit("sqlite:");
    reveal_strlit("postgres:");
    reveal_strlit("postgresql:");
    reveal_strlit("mysql:");
    reveal_strlit("mariadb:");
    reveal_strlit("mssql:");
    reveal_strlit("sqlserver:");
    lemma_scheme(url, "sqlite:"@);
    lemma_scheme(url, "postgres:"@);
    lemma_scheme(url, "postgresql:"@);
    lemma_scheme(url, "mysql:"@);
    lemma_scheme(url, "mariadb:"@);
    lemma_scheme(url, "mssql:"@);
    lemma_scheme(url, "sqlserver:"@);
    assert("sqlite:"@[0] == 's' && "sqlite:"@[3] == 'i');
    assert("postgres:"@[0] == 'p');
    assert("postgresql:"@[0] == 'p');
    assert("mysql:"@[0] == 'm' && "mysql:"@[1] == 'y');
    assert("mariadb:"@[0] == 'm' && "mariadb:"@[1] == 'a');
    assert("mssql:"@[0] == 'm' && "mssql:"@[1] == 's');
    assert("sqlserver:"@[0] == 's' && "sqlserver:"@[3] == 's');
}

/// A URL with a scheme has the characters of the scheme in front.
proof fn lemma_scheme(url: Seq<char>, scheme: Seq<char>)
    ensures
        has_scheme(url, scheme) ==> forall|i: int|
            0 <= i < scheme.len() ==> scan::lower_text(url)[i] == #[trigger] scheme[i],
        has_scheme(url, scheme) ==> url.len() >= scheme.len(),
{
    let low = scan::lower_text(url);
    if has_scheme(url, scheme) {
        assert forall|i: int| 0 <= i < scheme.len() implies low[i] == #[trigger] scheme[i] by {
            assert(low.subrange(0, scheme.len() as int)[i] == low[i]);
        }
    }
}

/// Every dialect has DDL of its own.
pub proof fn dialects_have_their_own_ddl(dialect: SqlDialect)
    ensures
        dialect is Sqlite ==> tables_ddl(dialect) == SQLITE_TABLES@ && additions_ddl(dialect)
            == SQLITE_WORM@,
        dialect is Postgres ==> tables_ddl(dialect) == POSTGRES_TABLES@ && additions_ddl(dialect)
            == POSTGRES_WORM@,
        dialect is MySql ==> tables_ddl(dialect) == MYSQL_TABLES@ && additions_ddl(dialect)
            == MYSQL_WORM@,
        dialect is MsSql ==> tables_ddl(dialect) == MSSQL_TABLES@ && additions_ddl(dialect)
            == MSSQL_WORM@,
{
}

} // verus!
