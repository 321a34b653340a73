//! Versioned schema migrations driven by `PRAGMA user_version`.
use vstd::prelude::*;
use rusqlite::Connection;
use crate::db::sql::{get_i64, query_rows, run_batch};
use crate::db::sql::cell_integer;
use crate::db::writes::{batch, Issued, ParamView, Query};
use crate::{column_error, db_error, CoreError};

verus! {

/// Schema version this build writes.
pub const CURRENT_VERSION: i64 = 1;

/// What `run` does with a database at schema `version`: the versions it
/// migrates from, in order, or the version it has no migration from.
pub open spec fn migration_steps(version: int) -> Result<Seq<int>, int>
    decreases CURRENT_VERSION - version,
{
    if version >= CURRENT_VERSION {
        Ok(Seq::empty())
    } else if version != 0 {
        Err(version)
    } else {
        match migration_steps(version + 1) {
            Ok(rest) => Ok(seq![version] + rest),
            Err(v) => Err(v),
        }
    }
}

/// Applies any migrations newer than the database's `user_version`.
/// Idempotent: reopening an up-to-date database is a no-op.
pub fn run(conn: &Connection) -> (r: Result<(), CoreError>)
    ensures
        r matches Err(CoreError::Schema { version }) ==> migration_steps(version as int) is Err,
{
    let rows = db_error(query_rows(conn, "PRAGMA user_version", &[]))?;
    if rows.len() == 0 {
        return Err(CoreError::Column { column: 0 });
    }
    let version = column_error(get_i64(rows[0].as_slice(), 0))?;
    migrate_from(conn, version)?;
    Ok(())
}

/// The versions in `v` as integers.
pub open spec fn versions(v: Seq<i64>) -> Seq<int> {
    v.map_values(|x: i64| x as int)
}

/// Migrates a database at schema `version`: runs the migration from each
/// version that [`migration_steps`] lists, in order (the initial schema
/// from version 0, then `user_version` set to the next version), and
/// returns those versions. An up-to-date database runs nothing; a version
/// with no migration path is refused before anything runs.
pub fn migrate_from(conn: &Connection, version: i64) -> (r: Result<Vec<i64>, CoreError>)
    ensures
        version >= CURRENT_VERSION ==> (r matches Ok(applied) && applied@.len() == 0),
        migration_steps(version as int) matches Err(v) ==> (r matches Err(CoreError::Schema { version: w }) && w == v),
        r matches Ok(applied) ==> migration_steps(version as int) == Ok::<Seq<int>, int>(versions(applied@)),
        r matches Err(e) ==> e is Db || e is Schema,
        r matches Err(CoreError::Schema { version: w }) ==> migration_steps(w as int) is Err,
{
    let mut applied: Vec<i64> = Vec::new();
    let mut current = version;
    while current < CURRENT_VERSION
        invariant
            current >= version,
            version >= CURRENT_VERSION ==> current == version,
            migration_steps(version as int) matches Ok(all) ==> (migration_steps(current as int) matches Ok(rest)
                && all == versions(applied@) + rest),
            migration_steps(version as int) matches Err(v) ==> migration_steps(current as int) == Err::<Seq<int>, int>(v),
            migration_steps(version as int) is Err ==> applied@.len() == 0,
        decreases CURRENT_VERSION - current,
    {
        if current != 0 {
            return Err(CoreError::Schema { version: current });
        }
        db_error(run_batch(conn, V1))?;
        let ghost before = applied@;
        applied.push(current);
        proof {
            assert(versions(applied@) =~= versions(before).push(current as int));
            assert(migration_steps(0) == Ok::<Seq<int>, int>(seq![0int] + migration_steps(1)->Ok_0)) by {
                assert(migration_steps(1) == Ok::<Seq<int>, int>(Seq::empty()));
            }
        }
        current += 1;
        let next = crate::decimal::decimal_signed(current);
        let pragma = crate::text::concat("PRAGMA user_version = ", next.as_str());
        db_error(run_batch(conn, pragma.as_str()))?;
    }
    Ok(applied)
}

/// The statement that records schema version `v`.
pub open spec fn version_pragma(v: int) -> Seq<char> {
    "PRAGMA user_version = "@ + crate::decimal::decimal_signed_chars(v)
}

/// The statement that records schema version `v`.
pub fn version_pragma_text(v: i64) -> (s: String)
    ensures
        s@ == version_pragma(v as int),
{
    let next = crate::decimal::decimal_signed(v);
    crate::text::concat("PRAGMA user_version = ", next.as_str())
}

/// What migrating from version `v` hands to the database: the schema that
/// follows `v` (only version 0 has one), then the next version number.
pub open spec fn step_statements(v: int) -> Seq<Issued> {
    seq![batch(V1@), batch(version_pragma(v + 1))]
}

/// What migrating from each of `steps`, in order, hands to the database.
pub open spec fn plan_statements(steps: Seq<int>) -> Seq<Issued>
    decreases steps.len(),
{
    if steps.len() == 0 {
        Seq::empty()
    } else {
        plan_statements(steps.drop_last()) + step_statements(steps.last())
    }
}

/// The versions a database at schema `version` migrates from, in order
/// (see [`migration_steps`]), or the version it has no migration from.
pub fn migration_plan(version: i64) -> (r: Result<Vec<i64>, CoreError>)
    ensures
        match migration_steps(version as int) {
            Ok(steps) => r matches Ok(v) && versions(v@) == steps,
            Err(w) => r matches Err(CoreError::Schema { version: x }) && x == w,
        },
        r matches Ok(v) ==> forall|k: int| 0 <= k < v@.len() ==> #[trigger] v@[k] < CURRENT_VERSION,
        r matches Err(e) ==> (e matches CoreError::Schema { version: x } && migration_steps(x as int) is Err),
{
    let mut plan: Vec<i64> = Vec::new();
    let mut current = version;
    while current < CURRENT_VERSION
        invariant
            current >= version,
            version >= CURRENT_VERSION ==> current == version,
            migration_steps(version as int) matches Ok(all) ==> (migration_steps(current as int) matches Ok(rest)
                && all == versions(plan@) + rest),
            migration_steps(version as int) matches Err(v) ==> migration_steps(current as int) == Err::<Seq<int>, int>(v),
            forall|k: int| 0 <= k < plan@.len() ==> #[trigger] plan@[k] < CURRENT_VERSION,
        decreases CURRENT_VERSION - current,
    {
        if current != 0 {
            return Err(CoreError::Schema { version: current });
        }
        let ghost before = plan@;
        plan.push(current);
        proof {
            assert(versions(plan@) =~= versions(before).push(current as int));
            assert(migration_steps(0) == Ok::<Seq<int>, int>(seq![0int] + migration_steps(1)->Ok_0)) by {
                assert(migration_steps(1) == Ok::<Seq<int>, int>(Seq::empty()));
            }
        }
        current += 1;
    }
    proof {
        assert(versions(plan@) + Seq::<int>::empty() =~= versions(plan@));
    }
    Ok(plan)
}

pub const JOURNAL_WAL: &'static str = "PRAGMA journal_mode = 'WAL'";
pub const SYNC_NORMAL: &'static str = "PRAGMA synchronous = 'NORMAL'";
pub const FOREIGN_KEYS: &'static str = "PRAGMA foreign_keys = 'ON'";
pub const USER_VERSION: &'static str = "PRAGMA user_version";

/// What opening hands to the database before migrating: write-ahead
/// logging, normal syncing, foreign keys on.
pub open spec fn open_statements() -> Seq<Issued> {
    seq![batch(JOURNAL_WAL@), batch(SYNC_NORMAL@), batch(FOREIGN_KEYS@)]
}

/// The only query so far read the stored schema version, `version`, from
/// the first cell of its first row.
pub open spec fn version_read(reads: Seq<Query>, version: i64) -> bool {
    &&& reads.len() == 1
    &&& reads[0].sql == USER_VERSION@
    &&& reads[0].params == Seq::<ParamView>::empty()
    &&& reads[0].rows.len() > 0 && reads[0].rows[0].len() > 0
    &&& cell_integer(reads[0].rows[0][0]) == Some(version)
}

/// A database was opened: the pragmas of [`open_statements`], the stored
/// version read, then the migrations from it (see [`migration_steps`] and
/// [`plan_statements`]).
pub open spec fn opened(writes: Seq<Issued>, reads: Seq<Query>) -> bool {
    exists|version: i64| #[trigger] version_read(reads, version) && (migration_steps(version as int) matches Ok(steps)
        && writes == open_statements() + plan_statements(steps))
}

/// Reopening an up-to-date database runs no migration, and a fresh one
/// (version 0) runs exactly the initial one.
pub proof fn lemma_migrations_are_idempotent(version: int)
    ensures
        version >= CURRENT_VERSION ==> migration_steps(version) == Ok::<Seq<int>, int>(Seq::empty()),
        migration_steps(0) == Ok::<Seq<int>, int>(seq![0int]),
{
    assert(migration_steps(1) == Ok::<Seq<int>, int>(Seq::empty()));
    assert(seq![0int] + Seq::<int>::empty() =~= seq![0int]);
}

/// Opening a database hands it the pragmas, then the initial schema and
/// version 1 when the stored version was 0, and nothing more when it was
/// already current: reopening does not migrate again.
pub proof fn lemma_opening_migrates_once(writes: Seq<Issued>, reads: Seq<Query>, version: i64)
    requires
        opened(writes, reads),
        version_read(reads, version),
    ensures
        version >= CURRENT_VERSION ==> writes == open_statements(),
        version == 0 ==> writes == open_statements() + seq![batch(V1@), batch(version_pragma(1))],
{
    let v = choose|v: i64| #[trigger] version_read(reads, v) && (migration_steps(v as int) matches Ok(steps)
        && writes == open_statements() + plan_statements(steps));
    assert(v == version);
    lemma_migrations_are_idempotent(version as int);
    if version >= CURRENT_VERSION {
        assert(open_statements() + plan_statements(Seq::empty()) =~= open_statements());
    }
    if version == 0 {
        let one = seq![0int];
        assert(one.drop_last() =~= Seq::<int>::empty());
        assert(one.last() == 0);
        assert(plan_statements(one.drop_last()) == Seq::<Issued>::empty());
        assert(plan_statements(one) == plan_statements(one.drop_last()) + step_statements(0));
        assert(plan_statements(one) =~= step_statements(0));
    }
}

/// Initial schema. `clusters.kind` is unconstrained because a "possible"
/// kind exists beyond the near and burst ones.
pub const V1: &'static str = "
BEGIN;

CREATE TABLE files (
    id            INTEGER PRIMARY KEY,
    path          TEXT NOT NULL UNIQUE,
    size          INTEGER NOT NULL,
    mtime         INTEGER NOT NULL,
    content_hash  BLOB,
    status        TEXT NOT NULL DEFAULT 'pending'
                  CHECK (status IN ('pending', 'hashed', 'analyzed', 'missing'))
);
CREATE INDEX idx_files_size ON files (size);
CREATE INDEX idx_files_content_hash ON files (content_hash)
    WHERE content_hash IS NOT NULL;

CREATE TABLE images (
    file_id         INTEGER PRIMARY KEY REFERENCES files (id),
    width           INTEGER,
    height          INTEGER,
    captured_at     INTEGER,
    camera          TEXT,
    orientation     INTEGER,
    dhash           INTEGER,
    phash           INTEGER,
    sharpness       REAL,
    exposure_score  REAL,
    face_count      INTEGER,
    eyes_open_ratio REAL,
    aesthetic_score REAL,
    quality_score   REAL,
    thumb_path      TEXT
);

CREATE TABLE embeddings (
    file_id INTEGER PRIMARY KEY REFERENCES images (file_id),
    vector  BLOB NOT NULL
);

CREATE TABLE clusters (
    id             INTEGER PRIMARY KEY,
    kind           TEXT NOT NULL,
    keeper_file_id INTEGER REFERENCES files (id),
    created_at     INTEGER NOT NULL
);

CREATE TABLE cluster_members (
    cluster_id INTEGER NOT NULL REFERENCES clusters (id),
    file_id    INTEGER NOT NULL REFERENCES files (id),
    rank       INTEGER,
    PRIMARY KEY (cluster_id, file_id)
);

CREATE TABLE frontier_verdicts (
    cluster_id     INTEGER PRIMARY KEY REFERENCES clusters (id),
    model          TEXT NOT NULL,
    keeper_file_id INTEGER REFERENCES files (id),
    reason         TEXT,
    created_at     INTEGER NOT NULL
);

COMMIT;
";

} // verus!
