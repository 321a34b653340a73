//! What the library hands to the database, as plain values: the
//! data-changing statements each step issues, and the queries it runs with
//! the rows they returned.
use vstd::prelude::*;
use crate::db::record::{found_paths, has_prefix, missing_status, newly_missing_spec, record_action_spec, tally_spec, RecordAction, RecordStats, StoredFile};
use crate::db::sql::{blob_param, cell_integer, integer_param, text_param, SqlCell};
use crate::db::{stored_cells, stored_view};
use crate::{FoundFile, NearCluster};
use rusqlite::types::Value;

verus! {

/// A statement parameter.
#[derive(Debug, Clone)]
pub enum Param {
    Integer(i64),
    Text(String),
    Blob(Vec<u8>),
}

/// A statement parameter as a plain value.
pub enum ParamView {
    Integer(i64),
    Text(Seq<char>),
    Blob(Seq<u8>),
}

pub open spec fn param_view(p: Param) -> ParamView {
    match p {
        Param::Integer(v) => ParamView::Integer(v),
        Param::Text(t) => ParamView::Text(t@),
        Param::Blob(b) => ParamView::Blob(b@),
    }
}

pub open spec fn params_view(ps: Seq<Param>) -> Seq<ParamView> {
    ps.map_values(|p: Param| param_view(p))
}

/// One statement handed to the database: its text and parameters.
pub struct Issued {
    pub sql: Seq<char>,
    pub params: Seq<ParamView>,
}

/// The parameters as the database layer takes them.
pub fn to_values(params: &[Param]) -> (vs: Vec<Value>)
    ensures
        vs@.len() == params@.len(),
{
    let mut vs: Vec<Value> = Vec::new();
    let mut i: usize = 0;
    while i < params.len()
        invariant
            i <= params@.len(),
            vs@.len() == i,
        decreases params@.len() - i,
    {
        let v = match &params[i] {
            Param::Integer(n) => integer_param(*n),
            Param::Text(t) => text_param(t.clone()),
            Param::Blob(b) => blob_param(b.clone()),
        };
        vs.push(v);
        i += 1;
    }
    vs
}

/// One query handed to the database: its text, its parameters, and the
/// rows it returned.
pub struct Query {
    pub sql: Seq<char>,
    pub params: Seq<ParamView>,
    pub rows: Seq<Seq<SqlCell>>,
}

/// Result rows as plain values.
pub open spec fn rows_view(rows: Seq<Vec<SqlCell>>) -> Seq<Seq<SqlCell>> {
    rows.map_values(|r: Vec<SqlCell>| r@)
}

/// The plain rows line up with the result rows.
pub proof fn lemma_rows_view(rows: Seq<Vec<SqlCell>>)
    ensures
        rows_view(rows).len() == rows.len(),
        forall|k: int|
            #![trigger rows_view(rows)[k]]
            #![trigger rows[k]]
            0 <= k < rows.len() ==> rows_view(rows)[k] == rows[k]@,
{
}

pub open spec fn queried(sql: &str, params: Seq<ParamView>, rows: Seq<Seq<SqlCell>>) -> Query {
    Query { sql: sql@, params, rows }
}

pub const LOOKUP_FILE: &'static str = "SELECT id, size, mtime, status FROM files WHERE path = ?1";
pub const LIVE_FILES: &'static str = "SELECT id, path FROM files WHERE status != 'missing'";

/// Query `q` looked up the row stored under `path`, and `e` is what it
/// returned: no row, or the first row read as `(id, size, mtime, status)`.
pub open spec fn lookup_gives(q: Query, path: Seq<char>, e: Option<StoredFile>) -> bool {
    &&& q.sql == LOOKUP_FILE@
    &&& q.params == seq![ParamView::Text(path)]
    &&& if q.rows.len() == 0 {
        e is None
    } else {
        e matches Some(f) && stored_cells(q.rows[0]) == Some(stored_view(f))
    }
}

/// Query `q` listed the live rows, and `live` is what it returned as
/// `(id, path)`.
pub open spec fn live_gives(q: Query, live: Seq<(i64, Seq<char>)>) -> bool {
    &&& q.sql == LIVE_FILES@
    &&& q.params == Seq::<ParamView>::empty()
    &&& q.rows.len() == live.len()
    &&& forall|k: int| 0 <= k < live.len() ==> {
        &&& cell_integer((#[trigger] q.rows[k])[0]) == Some(live[k].0)
        &&& q.rows[k][1] is Text
        &&& q.rows[k][1]->Text_0@ == live[k].1
    }
}

/// The queries one walk ran, from `before` to `after`: the lookup of each
/// found path, in order, giving `existing`, then the live rows, giving
/// `live`.
pub open spec fn walk_reads(
    before: Seq<Query>,
    after: Seq<Query>,
    found: Seq<FoundFile>,
    existing: Seq<Option<StoredFile>>,
    live: Seq<(i64, Seq<char>)>,
) -> bool {
    let lookups = after.subrange(before.len() as int, after.len() - 1);
    &&& after.len() == before.len() + found.len() + 1
    &&& after.subrange(0, before.len() as int) == before
    &&& forall|i: int| 0 <= i < found.len() ==> lookup_gives(#[trigger] lookups[i], found[i].path@, existing[i])
    &&& live_gives(after.last(), live)
}

pub const INSERT_FILE: &'static str = "INSERT INTO files (path, size, mtime, status) VALUES (?1, ?2, ?3, 'pending')";
pub const REVIVE_FILE: &'static str = "UPDATE files SET status = CASE WHEN content_hash IS NULL THEN 'pending' ELSE 'hashed' END WHERE path = ?1";
pub const RESET_FILE: &'static str = "UPDATE files SET size = ?2, mtime = ?3, content_hash = NULL, status = 'pending' WHERE path = ?1";
pub const DROP_EMBEDDING: &'static str = "DELETE FROM embeddings WHERE file_id = ?1";
pub const DROP_IMAGE: &'static str = "DELETE FROM images WHERE file_id = ?1";
pub const MARK_MISSING: &'static str = "UPDATE files SET status = 'missing' WHERE id = ?1";
pub const SET_HASH: &'static str = "UPDATE files SET content_hash = ?2, status = 'hashed' WHERE id = ?1";
pub const DELETE_MEMBERS: &'static str = "DELETE FROM cluster_members WHERE cluster_id IN (SELECT id FROM clusters WHERE kind = ?1)";
pub const DELETE_CLUSTERS: &'static str = "DELETE FROM clusters WHERE kind = ?1";
pub const INSERT_CLUSTER: &'static str = "INSERT INTO clusters (kind, created_at) VALUES (?1, ?2)";
pub const INSERT_MEMBER: &'static str = "INSERT INTO cluster_members (cluster_id, file_id) VALUES (?1, ?2)";

pub open spec fn issued(sql: &str, params: Seq<ParamView>) -> Issued {
    Issued { sql: sql@, params }
}

/// A batch of statements handed over as text, without parameters.
pub open spec fn batch(sql: Seq<char>) -> Issued {
    Issued { sql, params: Seq::empty() }
}

pub const BEGIN: &'static str = "BEGIN";
pub const COMMIT: &'static str = "COMMIT";
pub const ROLLBACK: &'static str = "ROLLBACK";

/// `after` begins with everything in `before`.
pub open spec fn extends(before: Seq<Issued>, after: Seq<Issued>) -> bool {
    &&& before.len() <= after.len()
    &&& forall|i: int| 0 <= i < before.len() ==> #[trigger] after[i] == before[i]
}

/// A log that extends one that extends `a` extends `a` too.
pub proof fn lemma_extends_trans(a: Seq<Issued>, b: Seq<Issued>, c: Seq<Issued>)
    requires
        extends(a, b),
        extends(b, c),
    ensures
        extends(a, c),
{
    assert forall|i: int| 0 <= i < a.len() implies #[trigger] c[i] == a[i] by {
        assert(c[i] == b[i]);
    }
}

/// A log extends itself, and itself with one more statement.
pub proof fn lemma_extends_push(a: Seq<Issued>, x: Issued)
    ensures
        extends(a, a),
        extends(a, a.push(x)),
        a.push(x).drop_last() == a,
{
    assert(a.push(x).drop_last() =~= a);
}

/// `before` followed by the start of a transaction.
pub open spec fn began(before: Seq<Issued>) -> Seq<Issued> {
    before.push(batch(BEGIN@))
}

/// The last statement of `after` committed a transaction.
pub open spec fn committed(after: Seq<Issued>) -> bool {
    after.len() > 0 && after.last() == batch(COMMIT@)
}

/// A transaction started after `before` and failed: either starting it
/// failed, or the last statement handed over rolled it back.
pub open spec fn rolled_back(before: Seq<Issued>, after: Seq<Issued>) -> bool {
    &&& extends(began(before), after)
    &&& after.len() == before.len() + 1 || after.last() == batch(ROLLBACK@)
}

/// What recording found file `f` with action `a` hands to the database:
/// an insert as `pending`; a revive; nothing; or a reset of size, mtime,
/// hash and status followed by deleting the file's embedding and image rows.
pub open spec fn action_statements(f: FoundFile, a: RecordAction) -> Seq<Issued> {
    match a {
        RecordAction::Insert => seq![issued(
            INSERT_FILE,
            seq![ParamView::Text(f.path@), ParamView::Integer(f.size as i64), ParamView::Integer(f.mtime)],
        )],
        RecordAction::Revive => seq![issued(REVIVE_FILE, seq![ParamView::Text(f.path@)])],
        RecordAction::Unchanged => Seq::empty(),
        RecordAction::Update { id } => seq![
            issued(RESET_FILE, seq![ParamView::Text(f.path@), ParamView::Integer(f.size as i64), ParamView::Integer(f.mtime)]),
            issued(DROP_EMBEDDING, seq![ParamView::Integer(id)]),
            issued(DROP_IMAGE, seq![ParamView::Integer(id)]),
        ],
    }
}

/// The action for the `i`th found file given the row read for it.
pub open spec fn walk_action(existing: Seq<Option<StoredFile>>, found: Seq<FoundFile>, i: int) -> RecordAction {
    record_action_spec(existing[i], found[i].size, found[i].mtime)
}

/// The statements recording the first `n` found files issues, given the
/// row read under each path.
pub open spec fn walk_statements(existing: Seq<Option<StoredFile>>, found: Seq<FoundFile>, n: int) -> Seq<Issued>
    decreases n,
{
    if n <= 0 {
        Seq::empty()
    } else {
        walk_statements(existing, found, n - 1) + action_statements(found[n - 1], walk_action(existing, found, n - 1))
    }
}

/// The counts after recording the first `n` found files: each insert is
/// added, each reset or revive updated, each untouched file unchanged.
pub open spec fn walk_tally(existing: Seq<Option<StoredFile>>, found: Seq<FoundFile>, n: int) -> RecordStats
    decreases n,
{
    if n <= 0 {
        RecordStats { added: 0, updated: 0, unchanged: 0, missing: 0 }
    } else {
        tally_spec(walk_tally(existing, found, n - 1), walk_action(existing, found, n - 1))
    }
}

/// Marking the first `n` of `ids` missing.
pub open spec fn missing_statements(ids: Seq<i64>, n: int) -> Seq<Issued>
    decreases n,
{
    if n <= 0 {
        Seq::empty()
    } else {
        missing_statements(ids, n - 1).push(issued(MARK_MISSING, seq![ParamView::Integer(ids[n - 1])]))
    }
}

/// Storing the first `n` content hashes.
pub open spec fn hash_statements(hashes: Seq<(i64, [u8; 32])>, n: int) -> Seq<Issued>
    decreases n,
{
    if n <= 0 {
        Seq::empty()
    } else {
        hash_statements(hashes, n - 1).push(
            issued(SET_HASH, seq![ParamView::Integer(hashes[n - 1].0), ParamView::Blob(hashes[n - 1].1@)]),
        )
    }
}

/// Adding file `members[0..n]` to cluster `cluster`.
pub open spec fn member_statements(cluster: i64, members: Seq<i64>, n: int) -> Seq<Issued>
    decreases n,
{
    if n <= 0 {
        Seq::empty()
    } else {
        member_statements(cluster, members, n - 1).push(
            issued(INSERT_MEMBER, seq![ParamView::Integer(cluster), ParamView::Integer(members[n - 1])]),
        )
    }
}

/// Storing the first `n` components as clusters of `kind` created at
/// `now`, component `k` under id `ids[k]`: one cluster row, then one member
/// row per file id.
pub open spec fn cluster_statements(kind: Seq<char>, now: i64, ids: Seq<i64>, comps: Seq<Seq<i64>>, n: int) -> Seq<Issued>
    decreases n,
{
    if n <= 0 {
        Seq::empty()
    } else {
        cluster_statements(kind, now, ids, comps, n - 1) + seq![
            issued(INSERT_CLUSTER, seq![ParamView::Text(kind), ParamView::Integer(now)]),
        ] + member_statements(ids[n - 1], comps[n - 1], comps[n - 1].len() as int)
    }
}

/// Deleting every cluster of `kind` and its members.
pub open spec fn clear_statements(kind: Seq<char>) -> Seq<Issued> {
    seq![
        issued(DELETE_MEMBERS, seq![ParamView::Text(kind)]),
        issued(DELETE_CLUSTERS, seq![ParamView::Text(kind)]),
    ]
}

/// The clusters `out` were stored for `comps` as [`cluster_statements`]
/// says, after clearing the clusters of `kind`.
pub open spec fn clusters_stored(
    kind: Seq<char>,
    now: i64,
    out: Seq<NearCluster>,
    comps: Seq<Vec<i64>>,
    before: Seq<Issued>,
    after: Seq<Issued>,
) -> bool {
    after == before + clear_statements(kind) + cluster_statements(
        kind,
        now,
        out.map_values(|o: NearCluster| o.id),
        comps.map_values(|v: Vec<i64>| v@),
        comps.len() as int,
    )
}

/// The clusters `out` replaced those of `kind` (see [`clusters_stored`]),
/// created at some time.
pub open spec fn clusters_replaced(
    kind: Seq<char>,
    out: Seq<NearCluster>,
    comps: Seq<Vec<i64>>,
    before: Seq<Issued>,
    after: Seq<Issued>,
) -> bool {
    exists|now: i64| #[trigger] clusters_stored(kind, now, out, comps, before, after)
}

/// Ids of later clusters do not change what the earlier ones issued.
pub proof fn lemma_cluster_statements_prefix(kind: Seq<char>, now: i64, a: Seq<i64>, b: Seq<i64>, comps: Seq<Seq<i64>>, n: int)
    requires
        0 <= n <= a.len(),
        a.len() <= b.len(),
        forall|t: int| 0 <= t < a.len() ==> a[t] == b[t],
    ensures
        cluster_statements(kind, now, b, comps, n) == cluster_statements(kind, now, a, comps, n),
    decreases n,
{
    if n > 0 {
        lemma_cluster_statements_prefix(kind, now, a, b, comps, n - 1);
    }
}

/// One walk of a root as recorded, given the row read under each found path
/// (`existing`) and the live rows read afterwards (`live`): the counts, and
/// the statements issued, from `before` to `after`.
pub open spec fn walk_recorded(
    existing: Seq<Option<StoredFile>>,
    live: Seq<(i64, Seq<char>)>,
    found: Seq<FoundFile>,
    prefix: Seq<char>,
    stats: RecordStats,
    before: Seq<Issued>,
    after: Seq<Issued>,
) -> bool {
    let missing = newly_missing_spec(live, prefix, found_paths(found));
    &&& existing.len() == found.len()
    &&& stats.added == walk_tally(existing, found, found.len() as int).added
    &&& stats.updated == walk_tally(existing, found, found.len() as int).updated
    &&& stats.unchanged == walk_tally(existing, found, found.len() as int).unchanged
    &&& stats.missing == missing.len()
    &&& after == before + walk_statements(existing, found, found.len() as int) + missing_statements(missing, missing.len() as int)
}

/// One walk was recorded: the rows it looked up under each found path and
/// the live rows it listed (see [`walk_reads`]) decide the counts and the
/// statements issued (see [`walk_recorded`]).
pub open spec fn walk_was_recorded(
    found: Seq<FoundFile>,
    prefix: Seq<char>,
    stats: RecordStats,
    before: Seq<Issued>,
    after: Seq<Issued>,
    reads_before: Seq<Query>,
    reads_after: Seq<Query>,
) -> bool {
    exists|existing: Seq<Option<StoredFile>>, live: Seq<(i64, Seq<char>)>|
        #![trigger walk_reads(reads_before, reads_after, found, existing, live)]
        walk_reads(reads_before, reads_after, found, existing, live)
            && walk_recorded(existing, live, found, prefix, stats, before, after)
}

/// Rows read for later files do not change what the earlier ones issued or
/// counted.
pub proof fn lemma_walk_prefix(a: Seq<Option<StoredFile>>, b: Seq<Option<StoredFile>>, found: Seq<FoundFile>, k: int)
    requires
        0 <= k <= a.len(),
        a.len() <= b.len(),
        forall|t: int| 0 <= t < a.len() ==> a[t] == b[t],
    ensures
        walk_statements(b, found, k) == walk_statements(a, found, k),
        walk_tally(b, found, k) == walk_tally(a, found, k),
    decreases k,
{
    if k > 0 {
        lemma_walk_prefix(a, b, found, k - 1);
        assert(walk_action(a, found, k - 1) == walk_action(b, found, k - 1));
    }
}

/// A rescan that finds every file with the size and mtime its (live) row
/// holds hands the database nothing for those files: no file is re-read or
/// reset, and every one counts as unchanged.
pub proof fn lemma_rescan_leaves_unchanged_files_alone(existing: Seq<Option<StoredFile>>, found: Seq<FoundFile>, n: int)
    requires
        0 <= n <= existing.len(),
        n <= found.len(),
        n <= u64::MAX,
        forall|i: int| 0 <= i < n ==> ((#[trigger] existing[i]) matches Some(row) && row.size == found[i].size as i64
            && row.mtime == found[i].mtime && row.status@ != missing_status()),
    ensures
        walk_statements(existing, found, n) == Seq::<Issued>::empty(),
        walk_tally(existing, found, n) == (RecordStats { added: 0, updated: 0, unchanged: n as u64, missing: 0 }),
    decreases n,
{
    if n > 0 {
        lemma_rescan_leaves_unchanged_files_alone(existing, found, n - 1);
        assert(existing[n - 1] is Some);
        assert(walk_action(existing, found, n - 1) == RecordAction::Unchanged);
        assert(walk_statements(existing, found, n) =~= Seq::<Issued>::empty());
    }
}

/// Every live row under the walked root whose path the walk did not find is
/// among the rows marked missing.
pub proof fn lemma_vanished_files_are_marked_missing(live: Seq<(i64, Seq<char>)>, prefix: Seq<char>, found: Seq<Seq<char>>, k: int)
    requires
        0 <= k < live.len(),
        has_prefix(live[k].1, prefix),
        !found.contains(live[k].1),
    ensures
        newly_missing_spec(live, prefix, found).contains(live[k].0),
    decreases live.len(),
{
    let prev = newly_missing_spec(live.drop_last(), prefix, found);
    if k == live.len() - 1 {
        assert(newly_missing_spec(live, prefix, found) == prev.push(live[k].0));
        assert(newly_missing_spec(live, prefix, found)[prev.len() as int] == live[k].0);
    } else {
        assert(live.drop_last()[k] == live[k]);
        lemma_vanished_files_are_marked_missing(live.drop_last(), prefix, found, k);
        let t = choose|t: int| 0 <= t < prev.len() && prev[t] == live[k].0;
        assert(newly_missing_spec(live, prefix, found)[t] == live[k].0);
    }
}

/// Query `q` read back a live row with `f`'s size and mtime.
pub open spec fn reads_back_unchanged(q: Query, f: FoundFile) -> bool {
    q.rows.len() > 0 && match stored_cells(q.rows[0]) {
        Some((_id, size, mtime, status)) => size == f.size as i64 && mtime == f.mtime && status != missing_status(),
        None => false,
    }
}

/// A rescan in which the lookup of every found path read back a live row
/// with that file's size and mtime hands the database nothing for the found
/// files: it only marks rows missing, and every found file counts as
/// unchanged.
pub proof fn lemma_unchanged_rescan_only_marks_missing(
    found: Seq<FoundFile>,
    prefix: Seq<char>,
    stats: RecordStats,
    before: Seq<Issued>,
    after: Seq<Issued>,
    reads_before: Seq<Query>,
    reads_after: Seq<Query>,
)
    requires
        walk_was_recorded(found, prefix, stats, before, after, reads_before, reads_after),
        found.len() <= u64::MAX,
        forall|i: int| 0 <= i < found.len() ==> reads_back_unchanged(#[trigger] reads_after[reads_before.len() + i], found[i]),
    ensures
        stats.added == 0,
        stats.updated == 0,
        stats.unchanged == found.len(),
        exists|ids: Seq<i64>| after == before + #[trigger] missing_statements(ids, ids.len() as int),
{
    let (existing, live) = choose|existing: Seq<Option<StoredFile>>, live: Seq<(i64, Seq<char>)>|
        #[trigger] walk_reads(reads_before, reads_after, found, existing, live)
            && walk_recorded(existing, live, found, prefix, stats, before, after);
    let lookups = reads_after.subrange(reads_before.len() as int, reads_after.len() - 1);
    assert forall|i: int| 0 <= i < found.len() implies ((#[trigger] existing[i]) matches Some(row) && row.size
        == found[i].size as i64 && row.mtime == found[i].mtime && row.status@ != missing_status()) by {
        assert(lookups[i] == reads_after[reads_before.len() + i]);
        assert(lookup_gives(lookups[i], found[i].path@, existing[i]));
        assert(reads_back_unchanged(reads_after[reads_before.len() + i], found[i]));
    }
    lemma_rescan_leaves_unchanged_files_alone(existing, found, found.len() as int);
    let missing = newly_missing_spec(live, prefix, found_paths(found));
    assert(after == before + walk_statements(existing, found, found.len() as int) + missing_statements(
        missing,
        missing.len() as int,
    ));
    assert(before + Seq::<Issued>::empty() =~= before);
    assert(after == before + missing_statements(missing, missing.len() as int));
}

/// Marking ids missing issues one statement per id, in order.
pub proof fn lemma_missing_statements_index(ids: Seq<i64>, n: int, t: int)
    requires
        0 <= t < n <= ids.len(),
    ensures
        missing_statements(ids, n).len() == n,
        missing_statements(ids, n)[t] == issued(MARK_MISSING, seq![ParamView::Integer(ids[t])]),
    decreases n,
{
    if n > 1 {
        lemma_missing_statements_index(ids, n - 1, if t < n - 1 { t } else { 0 });
    } else {
        assert(missing_statements(ids, 0) == Seq::<Issued>::empty());
    }
}

/// Every row the walk's live-row query listed under the walked root, whose
/// path the walk did not find, is marked missing by id.
pub proof fn lemma_walk_marks_vanished_rows(
    found: Seq<FoundFile>,
    prefix: Seq<char>,
    stats: RecordStats,
    before: Seq<Issued>,
    after: Seq<Issued>,
    reads_before: Seq<Query>,
    reads_after: Seq<Query>,
    k: int,
    id: i64,
    path: Seq<char>,
)
    requires
        walk_was_recorded(found, prefix, stats, before, after, reads_before, reads_after),
        0 <= k < reads_after.last().rows.len(),
        cell_integer(reads_after.last().rows[k][0]) == Some(id),
        reads_after.last().rows[k][1] == SqlCell::Text(reads_after.last().rows[k][1]->Text_0),
        reads_after.last().rows[k][1]->Text_0@ == path,
        has_prefix(path, prefix),
        !found_paths(found).contains(path),
    ensures
        exists|j: int| before.len() <= j < after.len() && #[trigger] after[j] == issued(MARK_MISSING, seq![ParamView::Integer(id)]),
{
    let (existing, live) = choose|existing: Seq<Option<StoredFile>>, live: Seq<(i64, Seq<char>)>|
        #[trigger] walk_reads(reads_before, reads_after, found, existing, live)
            && walk_recorded(existing, live, found, prefix, stats, before, after);
    assert(live[k].0 == id && live[k].1 == path);
    lemma_vanished_files_are_marked_missing(live, prefix, found_paths(found), k);
    let missing = newly_missing_spec(live, prefix, found_paths(found));
    let t = choose|t: int| 0 <= t < missing.len() && missing[t] == id;
    lemma_missing_statements_index(missing, missing.len() as int, t);
    let ws = walk_statements(existing, found, found.len() as int);
    let j = before.len() + ws.len() + t;
    assert(after == before + ws + missing_statements(missing, missing.len() as int));
    assert(after[j] == missing_statements(missing, missing.len() as int)[t]);
}

/// The statements for found file `i` stand, in one piece, among those
/// recording the first `n` files.
pub proof fn lemma_walk_statements_hold_action(existing: Seq<Option<StoredFile>>, found: Seq<FoundFile>, n: int, i: int)
    requires
        0 <= i < n,
    ensures
        exists|j: int|
            0 <= j && j + action_statements(found[i], walk_action(existing, found, i)).len() <= walk_statements(
                existing,
                found,
                n,
            ).len() && #[trigger] walk_statements(existing, found, n).subrange(
                j,
                j + action_statements(found[i], walk_action(existing, found, i)).len(),
            ) == action_statements(found[i], walk_action(existing, found, i)),
    decreases n,
{
    let acts = action_statements(found[i], walk_action(existing, found, i));
    let prev = walk_statements(existing, found, n - 1);
    let w = walk_statements(existing, found, n);
    if i == n - 1 {
        let j = prev.len() as int;
        assert(w.subrange(j, j + acts.len()) =~= acts);
    } else {
        lemma_walk_statements_hold_action(existing, found, n - 1, i);
        let j = choose|j: int|
            0 <= j && j + acts.len() <= prev.len() && #[trigger] prev.subrange(j, j + acts.len()) == acts;
        assert(w.subrange(j, j + acts.len()) =~= prev.subrange(j, j + acts.len()));
    }
}

/// Recording a walk hands the database, for each found file and in one
/// piece, the statements that the row read back by that file's lookup
/// decides (see [`action_statements`] and [`record_action_spec`]): an
/// insert for a new path; a reset of size, mtime, hash and status and the
/// deletion of the file's embedding and image rows for a changed one; a
/// revive for a missing row found unchanged; nothing for a live unchanged
/// one.
pub proof fn lemma_walk_issues_what_each_lookup_decides(
    found: Seq<FoundFile>,
    prefix: Seq<char>,
    stats: RecordStats,
    before: Seq<Issued>,
    after: Seq<Issued>,
    reads_before: Seq<Query>,
    reads_after: Seq<Query>,
    i: int,
)
    requires
        walk_was_recorded(found, prefix, stats, before, after, reads_before, reads_after),
        0 <= i < found.len(),
    ensures
        exists|e: Option<StoredFile>, j: int|
            #![trigger lookup_gives(reads_after[reads_before.len() + i], found[i].path@, e), after.subrange(j, j + action_statements(found[i], record_action_spec(e, found[i].size, found[i].mtime)).len())]
            lookup_gives(reads_after[reads_before.len() + i], found[i].path@, e) && before.len() <= j && j
                + action_statements(found[i], record_action_spec(e, found[i].size, found[i].mtime)).len() <= after.len()
                && after.subrange(j, j + action_statements(found[i], record_action_spec(e, found[i].size, found[i].mtime)).len())
                == action_statements(found[i], record_action_spec(e, found[i].size, found[i].mtime)),
{
    let (existing, live) = choose|existing: Seq<Option<StoredFile>>, live: Seq<(i64, Seq<char>)>|
        #[trigger] walk_reads(reads_before, reads_after, found, existing, live)
            && walk_recorded(existing, live, found, prefix, stats, before, after);
    let lookups = reads_after.subrange(reads_before.len() as int, reads_after.len() - 1);
    assert(lookups[i] == reads_after[reads_before.len() + i]);
    let e = existing[i];
    assert(lookup_gives(reads_after[reads_before.len() + i], found[i].path@, e));
    let acts = action_statements(found[i], walk_action(existing, found, i));
    let n = found.len() as int;
    lemma_walk_statements_hold_action(existing, found, n, i);
    let w = walk_statements(existing, found, n);
    let j0 = choose|j: int| 0 <= j && j + acts.len() <= w.len() && #[trigger] w.subrange(j, j + acts.len()) == acts;
    let missing = newly_missing_spec(live, prefix, found_paths(found));
    let ms = missing_statements(missing, missing.len() as int);
    assert(after == before + w + ms);
    let j = before.len() + j0;
    assert(after.subrange(j, j + acts.len()) =~= w.subrange(j0, j0 + acts.len()));
}

} // verus!
