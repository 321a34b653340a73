//! The queries the library runs, and what each reader returns for the rows
//! its query gave back.
use vstd::prelude::*;
use crate::cluster::near::HashedImage;
use crate::db::candidates::{candidate_cells, size_group_view, size_runs, CandidateFile};
use crate::db::dupes::{dupe_groups_spec, dupe_row_cells, group_view};
use crate::db::rows::{
    frame_cells, frame_view, grid_cells, grid_view, hashed_cells, meta_cells, target_cells, target_view, AnalysisTarget,
    StoredFrame,
};
use crate::db::sql::{cell_integer, SqlCell};
use crate::db::writes::{queried, rows_view, ParamView, Query};
use crate::text::{lex_order, texts};
use crate::{CoreError, DupeGroup, GridItem, NearCluster};

verus! {

pub const DUPE_ROWS: &'static str = "SELECT content_hash, size, path, mtime FROM files WHERE status != 'missing' AND content_hash IS NOT NULL ORDER BY content_hash";
pub const SIZE_CANDIDATES: &'static str = "SELECT size, id, path, content_hash IS NOT NULL FROM files WHERE status != 'missing' AND size IN (SELECT size FROM files WHERE status != 'missing' GROUP BY size HAVING COUNT(*) >= 2) ORDER BY size";
pub const NEEDING_ANALYSIS: &'static str = "SELECT f.id, f.path, f.content_hash FROM files f LEFT JOIN images i ON i.file_id = f.id WHERE f.status != 'missing' AND i.file_id IS NULL ORDER BY f.id";
pub const PERCEPTUAL_HASHES: &'static str = "SELECT i.file_id, i.dhash, i.phash FROM images i JOIN files f ON f.id = i.file_id WHERE f.status != 'missing' AND f.id = (SELECT MIN(f2.id) FROM files f2 WHERE f2.content_hash = f.content_hash AND f2.status != 'missing') ORDER BY i.file_id";
pub const NEEDING_FACES: &'static str = "SELECT f.id, i.thumb_path FROM images i JOIN files f ON f.id = i.file_id WHERE f.status != 'missing' AND i.thumb_path IS NOT NULL AND i.face_count IS NULL ORDER BY f.id";
pub const NEEDING_EMBEDDING: &'static str = "SELECT f.id, i.thumb_path FROM images i JOIN files f ON f.id = i.file_id LEFT JOIN embeddings e ON e.file_id = f.id WHERE f.status != 'missing' AND i.thumb_path IS NOT NULL AND e.file_id IS NULL ORDER BY f.id";
pub const CLUSTER_IDS: &'static str = "SELECT id FROM clusters ORDER BY id";
pub const EMBEDDINGS_COUNT: &'static str = "SELECT COUNT(*) FROM embeddings";
pub const FILE_META: &'static str = "SELECT f.path, i.thumb_path, f.status != 'missing' FROM files f LEFT JOIN images i ON i.file_id = f.id WHERE f.id = ?1";
pub const GRID_PAGE: &'static str = "SELECT f.id, f.path, i.thumb_path, i.captured_at, i.width, i.height FROM images i JOIN files f ON f.id = i.file_id WHERE f.status != 'missing' ORDER BY i.captured_at IS NULL, i.captured_at DESC, f.path LIMIT ?1 OFFSET ?2";
pub const BURST_FRAMES: &'static str = "SELECT f.id, i.camera, i.captured_at, e.vector FROM images i JOIN files f ON f.id = i.file_id LEFT JOIN embeddings e ON e.file_id = f.id WHERE f.status != 'missing' AND f.id = (SELECT MIN(f2.id) FROM files f2 WHERE f2.content_hash = f.content_hash AND f2.status != 'missing') ORDER BY f.id";
pub const MEMBER_PATH: &'static str = "SELECT path FROM files WHERE id = ?1";

/// `after` is `before` with one more query, of `sql` with `params`.
pub open spec fn one_query(before: Seq<Query>, after: Seq<Query>, sql: &str, params: Seq<ParamView>) -> bool {
    &&& after.len() == before.len() + 1
    &&& after.subrange(0, before.len() as int) == before
    &&& after.last().sql == sql@
    &&& after.last().params == params
}

/// Logging one more query is [`one_query`], and its plain rows line up
/// with the result rows.
pub proof fn lemma_one_query(before: Seq<Query>, sql: &str, params: Seq<ParamView>, rows: Seq<Vec<SqlCell>>)
    ensures
        one_query(before, before.push(queried(sql, params, rows_view(rows))), sql, params),
        rows_view(rows).len() == rows.len(),
        forall|k: int|
            #![trigger rows_view(rows)[k]]
            #![trigger rows[k]]
            0 <= k < rows.len() ==> rows_view(rows)[k] == rows[k]@,
{
    assert(before.push(queried(sql, params, rows_view(rows))).subrange(0, before.len() as int) =~= before);
}

/// A reader's outcome: it failed in the database and logged nothing, or its
/// query (`sql` with `params`) was logged and `gives` holds of the rows it
/// returned.
pub open spec fn read_outcome<T>(
    before: Seq<Query>,
    after: Seq<Query>,
    sql: &str,
    params: Seq<ParamView>,
    r: Result<T, CoreError>,
    gives: spec_fn(Seq<Seq<SqlCell>>, Result<T, CoreError>) -> bool,
) -> bool {
    if r matches Err(CoreError::Db(_)) {
        after == before
    } else {
        one_query(before, after, sql, params) && gives(after.last().rows, r)
    }
}

/// The duplicate groups of the rows of [`DUPE_ROWS`].
pub open spec fn dupes_given(rows: Seq<Seq<SqlCell>>, r: Result<Vec<DupeGroup>, CoreError>) -> bool {
    &&& r is Ok <==> forall|k: int| 0 <= k < rows.len() ==> (#[trigger] dupe_row_cells(rows[k])) is Some
    &&& r matches Ok(groups) ==> groups@.map_values(|g: DupeGroup| group_view(g)).to_multiset()
        == dupe_groups_spec(rows.map_values(|c: Seq<SqlCell>| dupe_row_cells(c)->0)).to_multiset()
}

/// The size groups of the rows of [`SIZE_CANDIDATES`].
pub open spec fn candidates_given(rows: Seq<Seq<SqlCell>>, r: Result<Vec<(u64, Vec<CandidateFile>)>, CoreError>) -> bool {
    &&& r is Ok <==> forall|k: int| 0 <= k < rows.len() ==> (#[trigger] candidate_cells(rows[k])) is Some
    &&& r matches Ok(groups) ==> groups@.map_values(|g: (u64, Vec<CandidateFile>)| size_group_view(g)) == size_runs(
        rows.map_values(|c: Seq<SqlCell>| candidate_cells(c)->0),
    )
}

/// One analysis target per row of [`NEEDING_ANALYSIS`].
pub open spec fn targets_given(rows: Seq<Seq<SqlCell>>, r: Result<Vec<AnalysisTarget>, CoreError>) -> bool {
    &&& r is Ok <==> forall|k: int| 0 <= k < rows.len() ==> (#[trigger] target_cells(rows[k])) is Some
    &&& r matches Ok(v) ==> v@.len() == rows.len() && forall|k: int| 0 <= k < v@.len() ==> target_cells(rows[k])
        == Some(#[trigger] target_view(v@[k]))
}

/// One hashed image per row of [`PERCEPTUAL_HASHES`].
pub open spec fn hashed_given(rows: Seq<Seq<SqlCell>>, r: Result<Vec<HashedImage>, CoreError>) -> bool {
    &&& r is Ok <==> forall|k: int| 0 <= k < rows.len() ==> (#[trigger] hashed_cells(rows[k])) is Some
    &&& r matches Ok(v) ==> v@.len() == rows.len() && forall|k: int| 0 <= k < v@.len() ==> hashed_cells(rows[k])
        == Some(#[trigger] v@[k])
}

/// One `(id, path)` per row of a two-column query.
pub open spec fn id_paths_given(rows: Seq<Seq<SqlCell>>, r: Result<Vec<(i64, String)>, CoreError>) -> bool {
    &&& r matches Ok(v) ==> v@.len() == rows.len() && forall|k: int| 0 <= k < v@.len() ==> {
        &&& cell_integer(#[trigger] rows[k][0]) == Some(v@[k].0)
        &&& rows[k][1] == SqlCell::Text(v@[k].1)
    }
    &&& r is Err ==> exists|k: int| 0 <= k < rows.len() && !(#[trigger] rows[k].len() >= 2 && cell_integer(rows[k][0]) is Some
        && rows[k][1] is Text)
}

/// One id per row of [`CLUSTER_IDS`].
pub open spec fn ids_given(rows: Seq<Seq<SqlCell>>, r: Result<Vec<i64>, CoreError>) -> bool {
    &&& r is Ok <==> forall|k: int| 0 <= k < rows.len() ==> rows[k].len() >= 1 && (#[trigger] cell_integer(rows[k][0])) is Some
    &&& r matches Ok(v) ==> v@.len() == rows.len() && forall|k: int| 0 <= k < v@.len() ==> cell_integer(rows[k][0])
        == Some(#[trigger] v@[k])
}

/// The count in the first cell of the row of [`EMBEDDINGS_COUNT`].
pub open spec fn count_given(rows: Seq<Seq<SqlCell>>, r: Result<u64, CoreError>) -> bool {
    if rows.len() == 0 || rows[0].len() == 0 || cell_integer(rows[0][0]) is None {
        r matches Err(CoreError::Column { column }) && column == 0
    } else {
        r == Ok::<u64, CoreError>(cell_integer(rows[0][0])->0 as u64)
    }
}

/// The file metadata in the first row of [`FILE_META`], if any.
pub open spec fn meta_given(rows: Seq<Seq<SqlCell>>, r: Result<Option<(String, Option<String>, bool)>, CoreError>) -> bool {
    &&& rows.len() == 0 ==> (r matches Ok(None))
    &&& rows.len() > 0 ==> (r is Ok <==> meta_cells(rows[0]) is Some)
    &&& r matches Ok(Some(m)) ==> rows.len() > 0 && meta_cells(rows[0]) == Some(
        (m.0@, match m.1 { Some(t) => Some(t@), None => None }, m.2),
    )
}

/// One grid cell per row of [`GRID_PAGE`].
pub open spec fn grid_given(rows: Seq<Seq<SqlCell>>, r: Result<Vec<GridItem>, CoreError>) -> bool {
    &&& r is Ok <==> forall|k: int| 0 <= k < rows.len() ==> (#[trigger] grid_cells(rows[k])) is Some
    &&& r matches Ok(v) ==> v@.len() == rows.len() && forall|k: int| 0 <= k < v@.len() ==> grid_cells(rows[k])
        == Some(#[trigger] grid_view(v@[k]))
}

/// One stored frame per row of [`BURST_FRAMES`].
pub open spec fn frames_given(rows: Seq<Seq<SqlCell>>, r: Result<Vec<StoredFrame>, CoreError>) -> bool {
    &&& r is Ok <==> forall|k: int| 0 <= k < rows.len() ==> (#[trigger] frame_cells(rows[k])) is Some
    &&& r matches Ok(v) ==> v@.len() == rows.len() && forall|k: int| 0 <= k < v@.len() ==> {
        &&& frame_cells(rows[k]) == Some(#[trigger] frame_view(v@[k]))
        &&& v@[k].key.has_embedding == v@[k].embedding is Some
    }
}

/// [`DUPE_ROWS`] was run and the duplicate groups read from its rows.
pub open spec fn dupes_read(before: Seq<Query>, after: Seq<Query>, r: Result<Vec<DupeGroup>, CoreError>) -> bool {
    read_outcome(
        before,
        after,
        DUPE_ROWS,
        Seq::<ParamView>::empty(),
        r,
        |rows: Seq<Seq<SqlCell>>, out: Result<Vec<DupeGroup>, CoreError>| dupes_given(rows, out),
    )
}

/// [`PERCEPTUAL_HASHES`] was run and the hashed images read from its rows.
pub open spec fn hashes_read(before: Seq<Query>, after: Seq<Query>, r: Result<Vec<HashedImage>, CoreError>) -> bool {
    read_outcome(
        before,
        after,
        PERCEPTUAL_HASHES,
        Seq::<ParamView>::empty(),
        r,
        |rows: Seq<Seq<SqlCell>>, out: Result<Vec<HashedImage>, CoreError>| hashed_given(rows, out),
    )
}

/// [`NEEDING_FACES`] was run and the `(id, thumbnail)` pairs read from its
/// rows.
pub open spec fn faces_read(before: Seq<Query>, after: Seq<Query>, r: Result<Vec<(i64, String)>, CoreError>) -> bool {
    read_outcome(
        before,
        after,
        NEEDING_FACES,
        Seq::<ParamView>::empty(),
        r,
        |rows: Seq<Seq<SqlCell>>, out: Result<Vec<(i64, String)>, CoreError>| id_paths_given(rows, out),
    )
}

/// A grid page: empty with nothing run for a zero `limit` or an `offset`
/// past the largest signed 64-bit value; else [`GRID_PAGE`] was run with
/// the capped limit and the offset, and the cells read from its rows.
pub open spec fn grid_read(
    before: Seq<Query>,
    after: Seq<Query>,
    offset: u64,
    limit: u64,
    r: Result<Vec<GridItem>, CoreError>,
) -> bool {
    if limit == 0 || offset > i64::MAX {
        r matches Ok(v) && v@.len() == 0 && after == before
    } else {
        read_outcome(
            before,
            after,
            GRID_PAGE,
            seq![ParamView::Integer(page_limit(limit)), ParamView::Integer(offset as i64)],
            r,
            |rows: Seq<Seq<SqlCell>>, out: Result<Vec<GridItem>, CoreError>| grid_given(rows, out),
        )
    }
}

/// Query `q` looked up the path of file `id`, and its first row starts
/// with that path, `path`.
pub open spec fn path_lookup_gives(q: Query, id: i64, path: Seq<char>) -> bool {
    &&& q.sql == MEMBER_PATH@
    &&& q.params == seq![ParamView::Integer(id)]
    &&& q.rows.len() > 0 && q.rows[0].len() > 0
    &&& q.rows[0][0] is Text
    &&& q.rows[0][0]->Text_0@ == path
}

/// How many members the first `c` components hold together.
pub open spec fn member_offset(comps: Seq<Seq<i64>>, c: int) -> int
    decreases c,
{
    if c <= 0 {
        0
    } else {
        member_offset(comps, c - 1) + comps[c - 1].len()
    }
}

/// Earlier components end before later ones start.
pub proof fn lemma_member_offset_mono(comps: Seq<Seq<i64>>, a: int, b: int)
    requires
        0 <= a <= b <= comps.len(),
    ensures
        member_offset(comps, a) <= member_offset(comps, b),
        a < b ==> member_offset(comps, a) + comps[a].len() <= member_offset(comps, b),
    decreases b - a,
{
    if a < b {
        lemma_member_offset_mono(comps, a, b - 1);
    }
}

/// From `before` to `after`, the path of each member of `comps` was looked
/// up, component by component and member by member, giving `paths`; and
/// cluster `c` of `out` holds the paths read for component `c`, sorted.
pub open spec fn members_read_as(
    before: Seq<Query>,
    after: Seq<Query>,
    comps: Seq<Seq<i64>>,
    out: Seq<NearCluster>,
    paths: Seq<Seq<Seq<char>>>,
) -> bool {
    &&& paths.len() == comps.len()
    &&& out.len() == comps.len()
    &&& after.len() == before.len() + member_offset(comps, comps.len() as int)
    &&& after.subrange(0, before.len() as int) == before
    &&& forall|c: int| 0 <= c < comps.len() ==> (#[trigger] paths[c]).len() == comps[c].len()
    &&& forall|c: int, m: int|
        0 <= c < comps.len() && 0 <= m < comps[c].len() ==> path_lookup_gives(
            after[before.len() + member_offset(comps, c) + m],
            comps[c][m],
            #[trigger] paths[c][m],
        )
    &&& forall|c: int| 0 <= c < comps.len() ==> texts((#[trigger] out[c]).files@) == paths[c].sort_by(lex_order())
}

/// The member paths of `out` are those read for `comps` (see
/// [`members_read_as`]).
pub open spec fn members_read(before: Seq<Query>, after: Seq<Query>, comps: Seq<Seq<i64>>, out: Seq<NearCluster>) -> bool {
    exists|paths: Seq<Seq<Seq<char>>>| #[trigger] members_read_as(before, after, comps, out, paths)
}

/// The grid page size handed to the query: `limit`, capped at the largest
/// signed 64-bit value.
pub open spec fn page_limit(limit: u64) -> i64 {
    if limit > i64::MAX { i64::MAX } else { limit as i64 }
}

/// A grid page asks the database for exactly `limit` rows from position
/// `offset` of the ordered grid (a limit beyond the largest signed 64-bit
/// value asks for that many), and returns one cell per row it got.
pub proof fn lemma_grid_asks_for_the_page(
    before: Seq<Query>,
    after: Seq<Query>,
    offset: u64,
    limit: u64,
    r: Result<Vec<GridItem>, CoreError>,
)
    requires
        grid_read(before, after, offset, limit, r),
        limit > 0,
        offset <= i64::MAX,
        !(r matches Err(CoreError::Db(_))),
    ensures
        after.len() == before.len() + 1,
        after.last().sql == GRID_PAGE@,
        limit <= i64::MAX ==> after.last().params == seq![
            ParamView::Integer(limit as i64),
            ParamView::Integer(offset as i64),
        ],
        limit > i64::MAX ==> after.last().params == seq![ParamView::Integer(i64::MAX), ParamView::Integer(offset as i64)],
        r matches Ok(v) ==> v@.len() == after.last().rows.len(),
{
}

} // verus!
