//! The thin layer between the library and SQLite: the connection type, the
//! statements the library runs, and typed reads of result cells.
use vstd::prelude::*;
use rusqlite::types::Value;
use rusqlite::{Connection, Row, Rows, Statement};

verus! {

#[verifier::external_type_specification]
#[verifier::external_body]
pub struct ExConnection(rusqlite::Connection);

#[verifier::external_type_specification]
#[verifier::external_body]
pub struct ExSqlError(rusqlite::Error);

#[verifier::external_type_specification]
#[verifier::external_body]
pub struct ExSqlValue(rusqlite::types::Value);

#[verifier::external_type_specification]
#[verifier::external_body]
pub struct ExStatement<'conn>(rusqlite::Statement<'conn>);

#[verifier::external_type_specification]
#[verifier::external_body]
pub struct ExRows<'stmt>(rusqlite::Rows<'stmt>);

#[verifier::external_type_specification]
#[verifier::external_body]
pub struct ExRow<'stmt>(rusqlite::Row<'stmt>);

/// One cell of a result row. Floating-point cells are only recorded as being
/// real numbers: the library reads no real-valued column itself.
#[derive(Debug, Clone, PartialEq)]
pub enum SqlCell {
    Null,
    Integer(i64),
    Real,
    Text(String),
    Blob(Vec<u8>),
}

/// Why a result cell could not be read as the requested type.
#[derive(Debug, Clone, Copy, PartialEq, Eq)]
pub struct CellError {
    /// Zero-based column of the offending cell.
    pub column: usize,
}

/// `rusqlite::Connection::open`: opens (creating if needed) the database
/// file at `path`. Nothing is claimed of the outcome, which depends on the
/// file system.
#[verifier::external_body]
pub(crate) fn open_connection(path: &str) -> (r: Result<Connection, rusqlite::Error>) {
    Connection::open(path)
}

/// `rusqlite::Connection::execute_batch`: runs every statement of `sql`.
/// Nothing is claimed of the outcome, which depends on the database.
#[verifier::external_body]
pub(crate) fn run_batch(conn: &Connection, sql: &str) -> (r: Result<(), rusqlite::Error>) {
    conn.execute_batch(sql)
}

/// `rusqlite::Connection::execute`: runs one statement with positional
/// parameters and returns the number of changed rows. Nothing is claimed of
/// the outcome, which depends on the database.
#[verifier::external_body]
pub(crate) fn run_statement(conn: &Connection, sql: &str, params: &[Value]) -> (r: Result<
    usize,
    rusqlite::Error,
>) {
    conn.execute(sql, rusqlite::params_from_iter(params.iter()))
}

/// `rusqlite::Connection::prepare`: compiles one statement. Nothing is
/// claimed of the outcome, which depends on the database.
#[verifier::external_body]
fn prepare<'c>(conn: &'c Connection, sql: &str) -> (r: Result<Statement<'c>, rusqlite::Error>) {
    conn.prepare(sql)
}

/// `rusqlite::Statement::column_count`: the number of result columns.
/// Nothing is claimed of it.
#[verifier::external_body]
fn column_count(stmt: &Statement) -> (n: usize) {
    stmt.column_count()
}

/// `rusqlite::Statement::query`: starts the statement with positional
/// parameters. Nothing is claimed of the outcome, which depends on the
/// database.
#[verifier::external_body]
fn start_query<'s>(stmt: &'s mut Statement<'_>, params: &[Value]) -> (r: Result<Rows<'s>, rusqlite::Error>) {
    stmt.query(rusqlite::params_from_iter(params.iter()))
}

/// `rusqlite::Rows::next`: the next result row, if any. Nothing is claimed
/// of it, as it depends on the database.
#[verifier::external_body]
fn next_row<'r, 's>(rows: &'r mut Rows<'s>) -> (r: Result<Option<&'r Row<'s>>, rusqlite::Error>) {
    rows.next()
}

/// `rusqlite::Row::get` of column `i` as a `rusqlite::types::Value`.
/// Nothing is claimed of it, as it depends on the database.
#[verifier::external_body]
fn value_at(row: &Row, i: usize) -> (r: Result<Value, rusqlite::Error>) {
    row.get::<usize, Value>(i)
}

/// A `rusqlite::types::Value` as a cell: the variant kept, a real number
/// only marked as such. Nothing is claimed, as the value is opaque here.
#[verifier::external_body]
fn cell_of(v: Value) -> (c: SqlCell) {
    match v {
        Value::Null => SqlCell::Null,
        Value::Integer(x) => SqlCell::Integer(x),
        Value::Real(_) => SqlCell::Real,
        Value::Text(t) => SqlCell::Text(t),
        Value::Blob(b) => SqlCell::Blob(b),
    }
}

/// Runs a query and returns its rows as cells.
pub(crate) fn query_rows(conn: &Connection, sql: &str, params: &[Value]) -> (r: Result<Vec<Vec<SqlCell>>, rusqlite::Error>) {
    let mut stmt = prepare(conn, sql)?;
    let n = column_count(&stmt);
    let mut rows = start_query(&mut stmt, params)?;
    let mut out: Vec<Vec<SqlCell>> = Vec::new();
    while out.len() < usize::MAX
        decreases usize::MAX - out@.len(),
    {
        let row = match next_row(&mut rows)? {
            Some(row) => row,
            None => break,
        };
        let mut cells: Vec<SqlCell> = Vec::new();
        let mut i: usize = 0;
        while i < n
            decreases n - i,
        {
            cells.push(cell_of(value_at(row, i)?));
            i += 1;
        }
        out.push(cells);
    }
    Ok(out)
}

/// `rusqlite::Connection::last_insert_rowid`: the rowid of the most recent
/// successful insert on this connection. Nothing is claimed of it.
#[verifier::external_body]
pub(crate) fn last_rowid(conn: &Connection) -> (r: i64) {
    conn.last_insert_rowid()
}

/// `rusqlite::types::Value::Integer`: an integer statement parameter.
#[verifier::external_body]
pub(crate) fn integer_param(v: i64) -> (r: Value) {
    Value::Integer(v)
}

/// `rusqlite::types::Value::Text`: a text statement parameter.
#[verifier::external_body]
pub(crate) fn text_param(v: String) -> (r: Value) {
    Value::Text(v)
}

/// `rusqlite::types::Value::Blob`: a blob statement parameter.
#[verifier::external_body]
pub(crate) fn blob_param(v: Vec<u8>) -> (r: Value) {
    Value::Blob(v)
}

/// `ToString::to_string` through rusqlite's `Display` for its error: the
/// error as rusqlite words it. Nothing is claimed of the text.
#[verifier::external_body]
pub(crate) fn error_text(e: &rusqlite::Error) -> String {
    e.to_string()
}

/// The integer in `c`, if it holds one.
pub open spec fn cell_integer(c: SqlCell) -> Option<i64> {
    match c {
        SqlCell::Integer(v) => Some(v),
        _ => None,
    }
}

/// Reads column `i` of `row` as an integer (SQLite `INTEGER`).
pub fn get_i64(row: &[SqlCell], i: usize) -> (r: Result<i64, CellError>)
    ensures
        match r {
            Ok(v) => i < row@.len() && cell_integer(row@[i as int]) == Some(v),
            Err(e) => e.column == i && (i >= row@.len() || cell_integer(row@[i as int]) is None),
        },
{
    if i >= row.len() {
        return Err(CellError { column: i });
    }
    match &row[i] {
        SqlCell::Integer(v) => Ok(*v),
        _ => Err(CellError { column: i }),
    }
}

/// Reads column `i` of `row` as an optional integer: `NULL` gives `None`.
pub fn get_opt_i64(row: &[SqlCell], i: usize) -> (r: Result<Option<i64>, CellError>)
    ensures
        match r {
            Ok(None) => i < row@.len() && row@[i as int] is Null,
            Ok(Some(v)) => i < row@.len() && cell_integer(row@[i as int]) == Some(v),
            Err(e) => e.column == i && (i >= row@.len() || (!(row@[i as int] is Null)
                && cell_integer(row@[i as int]) is None)),
        },
{
    if i >= row.len() {
        return Err(CellError { column: i });
    }
    match &row[i] {
        SqlCell::Null => Ok(None),
        SqlCell::Integer(v) => Ok(Some(*v)),
        _ => Err(CellError { column: i }),
    }
}

/// Reads column `i` of `row` as a boolean: an integer, true when nonzero.
pub fn get_bool(row: &[SqlCell], i: usize) -> (r: Result<bool, CellError>)
    ensures
        match r {
            Ok(b) => i < row@.len() && cell_integer(row@[i as int]) is Some && b == (
            cell_integer(row@[i as int])->0 != 0),
            Err(e) => e.column == i && (i >= row@.len() || cell_integer(row@[i as int]) is None),
        },
{
    let v = get_i64(row, i)?;
    Ok(v != 0)
}

/// Reads column `i` of `row` as text.
pub fn get_text(row: &[SqlCell], i: usize) -> (r: Result<String, CellError>)
    ensures
        match r {
            Ok(s) => i < row@.len() && row@[i as int] == SqlCell::Text(s),
            Err(e) => e.column == i && (i >= row@.len() || !(row@[i as int] is Text)),
        },
{
    if i >= row.len() {
        return Err(CellError { column: i });
    }
    match &row[i] {
        SqlCell::Text(s) => Ok(s.clone()),
        _ => Err(CellError { column: i }),
    }
}

/// Reads column `i` of `row` as optional text: `NULL` gives `None`.
pub fn get_opt_text(row: &[SqlCell], i: usize) -> (r: Result<Option<String>, CellError>)
    ensures
        match r {
            Ok(None) => i < row@.len() && row@[i as int] is Null,
            Ok(Some(s)) => i < row@.len() && row@[i as int] == SqlCell::Text(s),
            Err(e) => e.column == i && (i >= row@.len() || (!(row@[i as int] is Null)
                && !(row@[i as int] is Text))),
        },
{
    if i >= row.len() {
        return Err(CellError { column: i });
    }
    match &row[i] {
        SqlCell::Null => Ok(None),
        SqlCell::Text(s) => Ok(Some(s.clone())),
        _ => Err(CellError { column: i }),
    }
}

/// Reads column `i` of `row` as an optional blob: `NULL` gives `None`.
pub fn get_opt_blob(row: &[SqlCell], i: usize) -> (r: Result<Option<Vec<u8>>, CellError>)
    ensures
        match r {
            Ok(None) => i < row@.len() && row@[i as int] is Null,
            Ok(Some(b)) => i < row@.len() && row@[i as int] is Blob && row@[i as int]->Blob_0@
                == b@,
            Err(e) => e.column == i && (i >= row@.len() || (!(row@[i as int] is Null)
                && !(row@[i as int] is Blob))),
        },
{
    if i >= row.len() {
        return Err(CellError { column: i });
    }
    match &row[i] {
        SqlCell::Null => Ok(None),
        SqlCell::Blob(b) => Ok(Some(b.clone())),
        _ => Err(CellError { column: i }),
    }
}

/// Reads column `i` of `row` as a blob.
pub fn get_blob(row: &[SqlCell], i: usize) -> (r: Result<Vec<u8>, CellError>)
    ensures
        match r {
            Ok(b) => i < row@.len() && row@[i as int] is Blob && row@[i as int]->Blob_0@ == b@,
            Err(e) => e.column == i && (i >= row@.len() || !(row@[i as int] is Blob)),
        },
{
    if i >= row.len() {
        return Err(CellError { column: i });
    }
    match &row[i] {
        SqlCell::Blob(b) => Ok(b.clone()),
        _ => Err(CellError { column: i }),
    }
}

} // verus!
