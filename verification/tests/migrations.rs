use culler_core::db::migrations::migrate_from;
use culler_core::CoreError;
use culler_core::Engine;

/// A database path in the system's temporary directory, unique to this
/// test run.
fn temp_db_path(tag: &str) -> String {
    let nanos = std::time::SystemTime::now()
        .duration_since(std::time::UNIX_EPOCH)
        .unwrap()
        .as_nanos();
    format!("/tmp/culler-test-{tag}-{nanos}.db")
}

fn user_version(conn: &rusqlite::Connection) -> i32 {
    conn.query_row("PRAGMA user_version", [], |row| row.get(0)).unwrap()
}

fn table_names(conn: &rusqlite::Connection) -> Vec<String> {
    let mut stmt = conn
        .prepare("SELECT name FROM sqlite_master WHERE type = 'table' ORDER BY name")
        .unwrap();
    stmt.query_map([], |row| row.get(0))
        .unwrap()
        .map(|r| r.unwrap())
        .collect()
}

#[test]
fn fresh_db_gets_current_schema_in_wal_mode() {
    let db_path = temp_db_path("fresh");

    Engine::open(&db_path).unwrap();

    let conn = rusqlite::Connection::open(&db_path).unwrap();
    assert_eq!(user_version(&conn), 1);
    let tables = table_names(&conn);
    for expected in ["cluster_members", "clusters", "embeddings", "files", "frontier_verdicts", "images"] {
        assert!(tables.iter().any(|t| t == expected), "missing table {expected}, have {tables:?}");
    }
    let mode: String = conn.query_row("PRAGMA journal_mode", [], |row| row.get(0)).unwrap();
    assert_eq!(mode.to_lowercase(), "wal");
}

#[test]
fn reopening_preserves_data_and_version() {
    let db_path = temp_db_path("reopen");

    Engine::open(&db_path).unwrap();
    {
        let conn = rusqlite::Connection::open(&db_path).unwrap();
        conn.execute(
            "INSERT INTO files (path, size, mtime, status) VALUES ('/x.jpg', 1, 1, 'pending')",
            [],
        )
        .unwrap();
    }

    // Second open must not re-run migration 1 (which would fail or wipe data).
    Engine::open(&db_path).unwrap();

    let conn = rusqlite::Connection::open(&db_path).unwrap();
    assert_eq!(user_version(&conn), 1);
    let rows: i64 = conn.query_row("SELECT COUNT(*) FROM files", [], |row| row.get(0)).unwrap();
    assert_eq!(rows, 1);
}

#[test]
fn migrating_runs_the_initial_schema_once_and_refuses_unknown_versions() {
    let conn = rusqlite::Connection::open_in_memory().unwrap();
    assert_eq!(migrate_from(&conn, 0).unwrap(), vec![0]);
    assert_eq!(user_version(&conn), 1);
    assert!(table_names(&conn).contains(&"files".to_owned()));
    assert_eq!(migrate_from(&conn, 1).unwrap(), Vec::<i64>::new());
    assert_eq!(migrate_from(&conn, 7).unwrap(), Vec::<i64>::new());
    assert!(matches!(migrate_from(&conn, -2), Err(CoreError::Schema { version: -2 })));
}
