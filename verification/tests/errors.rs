use culler_core::db::dupes::{decode_dupe_row, dupes_from_rows, hash_from_blob};
use culler_core::db::migrations::run;
use culler_core::db::rows::{decode_grid_row, targets_from_rows};
use culler_core::db::sql::SqlCell;
use culler_core::CoreError;

#[test]
fn wrong_column_types_are_reported_by_column() {
    let row = vec![SqlCell::Integer(1), SqlCell::Integer(2)];
    match decode_grid_row(&row) {
        Err(CoreError::Column { column }) => assert_eq!(column, 1),
        other => panic!("expected a column error, got {other:?}"),
    }
    let short = vec![SqlCell::Blob(vec![0; 32]), SqlCell::Integer(5), SqlCell::Text("/a".into())];
    match decode_dupe_row(&short) {
        Err(CoreError::Column { column }) => assert_eq!(column, 3),
        other => panic!("expected a column error, got {other:?}"),
    }
    assert_eq!(
        CoreError::Column { column: 3 }.message(),
        "unexpected value type in result column 3"
    );
}

#[test]
fn stored_hash_of_wrong_length_is_an_error_not_a_panic() {
    match hash_from_blob(&[1, 2, 3]) {
        Err(CoreError::HashLength { length }) => assert_eq!(length, 3),
        other => panic!("expected a hash length error, got {other:?}"),
    }
    assert_eq!(hash_from_blob(&[7; 32]).unwrap(), [7; 32]);
    let rows = vec![vec![SqlCell::Integer(1), SqlCell::Text("/x.jpg".into()), SqlCell::Blob(vec![0; 31])]];
    assert!(matches!(targets_from_rows(&rows), Err(CoreError::HashLength { length: 31 })));
    assert_eq!(
        CoreError::HashLength { length: 31 }.message(),
        "stored content hash has the wrong length: 31"
    );
}

#[test]
fn unknown_schema_versions_are_refused_and_newer_ones_left_alone() {
    let conn = rusqlite::Connection::open_in_memory().unwrap();
    conn.execute_batch("PRAGMA user_version = -1").unwrap();
    match run(&conn) {
        Err(CoreError::Schema { version }) => assert_eq!(version, -1),
        other => panic!("expected a schema error, got {other:?}"),
    }
    let newer = rusqlite::Connection::open_in_memory().unwrap();
    newer.execute_batch("PRAGMA user_version = 7").unwrap();
    assert!(run(&newer).is_ok());
    let tables: i64 = newer
        .query_row("SELECT COUNT(*) FROM sqlite_master WHERE type = 'table'", [], |r| r.get(0))
        .unwrap();
    assert_eq!(tables, 0);
    assert_eq!(
        CoreError::Schema { version: -1 }.message(),
        "no migration defined from schema version -1"
    );
}

#[test]
fn migrations_run_once_and_reopening_is_a_no_op() {
    let conn = rusqlite::Connection::open_in_memory().unwrap();
    run(&conn).unwrap();
    run(&conn).unwrap();
    let version: i64 = conn.query_row("PRAGMA user_version", [], |r| r.get(0)).unwrap();
    assert_eq!(version, 1);
    let tables: i64 = conn
        .query_row("SELECT COUNT(*) FROM sqlite_master WHERE type = 'table'", [], |r| r.get(0))
        .unwrap();
    assert_eq!(tables, 6);
}

#[test]
fn rows_of_the_right_shape_become_groups() {
    let row = |fill: u8, size: i64, path: &str, mtime: i64| {
        vec![SqlCell::Blob(vec![fill; 32]), SqlCell::Integer(size), SqlCell::Text(path.into()), SqlCell::Integer(mtime)]
    };
    let rows = vec![
        row(1, 10, "/b.jpg", 5),
        row(1, 10, "/a.jpg", 5),
        row(2, 99, "/c.jpg", 1),
        row(3, 40, "/d.jpg", 9),
        row(3, 40, "/e.jpg", 2),
        row(3, 40, "/f.jpg", 2),
    ];
    let groups = dupes_from_rows(&rows).unwrap();
    assert_eq!(groups.len(), 2);
    assert_eq!(groups[0].reclaimable, 80);
    let order: Vec<&str> = groups[0].files.iter().map(|f| f.path.as_str()).collect();
    assert_eq!(order, vec!["/e.jpg", "/f.jpg", "/d.jpg"]);
    assert_eq!(groups[1].files[0].path, "/a.jpg");
    assert_eq!(groups[1].reclaimable, 10);
}

#[test]
fn io_errors_name_the_path() {
    let e = CoreError::Io {
        path: "/photos".to_owned(),
        message: "permission denied".to_owned(),
    };
    assert_eq!(e.message(), "/photos: permission denied");
}
