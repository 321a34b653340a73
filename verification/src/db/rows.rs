//! Typed reads of the result rows of the library's queries.
use vstd::prelude::*;
use crate::cluster::burst::BurstKey;
use crate::cluster::near::HashedImage;
use crate::db::dupes::hash_from_blob;
use crate::db::sql::{
    cell_integer, get_bool, get_i64, get_opt_blob, get_opt_i64, get_opt_text, get_text, SqlCell,
};
use crate::{column_error, CoreError, GridItem};

verus! {

/// A live file with no `images` row yet.
#[derive(Debug, Clone)]
pub struct AnalysisTarget {
    pub id: i64,
    pub path: String,
    pub content_hash: Option<[u8; 32]>,
}

/// An optional integer cell: `Some(None)` for `NULL`, `Some(Some(v))` for
/// an integer, `None` for anything else.
pub open spec fn opt_integer_cell(c: SqlCell) -> Option<Option<i64>> {
    match c {
        SqlCell::Null => Some(None),
        SqlCell::Integer(v) => Some(Some(v)),
        _ => None,
    }
}

/// An optional text cell, as [`opt_integer_cell`] for text.
pub open spec fn opt_text_cell(c: SqlCell) -> Option<Option<Seq<char>>> {
    match c {
        SqlCell::Null => Some(None),
        SqlCell::Text(s) => Some(Some(s@)),
        _ => None,
    }
}

/// An optional integer read as an unsigned 64-bit hash (two's complement).
pub open spec fn as_hash(v: Option<i64>) -> Option<u64> {
    match v {
        Some(h) => Some(h as u64),
        None => None,
    }
}

/// An optional integer read as a pixel dimension (low 32 bits).
pub open spec fn as_dimension(v: Option<i64>) -> Option<u32> {
    match v {
        Some(d) => Some(d as u32),
        None => None,
    }
}

/// What a row of the analysis-targets query holds: id, path, and a
/// content hash that is `NULL` or a 32-byte blob.
pub open spec fn target_cells(c: Seq<SqlCell>) -> Option<(i64, Seq<char>, Option<Seq<u8>>)> {
    if c.len() >= 3 && c[0] is Integer && c[1] is Text && (c[2] is Null || (c[2] is Blob
        && c[2]->Blob_0@.len() == 32)) {
        Some((c[0]->Integer_0, c[1]->Text_0@, if c[2] is Blob { Some(c[2]->Blob_0@) } else { None }))
    } else {
        None
    }
}

pub open spec fn target_view(t: AnalysisTarget) -> (i64, Seq<char>, Option<Seq<u8>>) {
    (t.id, t.path@, match t.content_hash { Some(h) => Some(h@), None => None })
}

/// Reads one row of the analysis-targets query.
pub fn decode_target_row(row: &[SqlCell]) -> (r: Result<AnalysisTarget, CoreError>)
    ensures
        r matches Err(e) ==> !(e is Db),
        r is Ok <==> target_cells(row@) is Some,
        r matches Ok(t) ==> target_cells(row@) == Some(target_view(t)),
{
    let id = column_error(get_i64(row, 0))?;
    let path = column_error(get_text(row, 1))?;
    let blob = column_error(get_opt_blob(row, 2))?;
    let content_hash = match blob {
        Some(b) => Some(hash_from_blob(b.as_slice())?),
        None => None,
    };
    Ok(AnalysisTarget { id, path, content_hash })
}

/// Analysis targets from the rows of their query.
pub fn targets_from_rows(rows: &[Vec<SqlCell>]) -> (r: Result<Vec<AnalysisTarget>, CoreError>)
    ensures
        r matches Err(e) ==> !(e is Db),
        r is Ok <==> forall|k: int| 0 <= k < rows@.len() ==> (#[trigger] target_cells(rows@[k]@)) is Some,
        r matches Ok(v) ==> v@.len() == rows@.len() && forall|k: int| 0 <= k < v@.len() ==> target_cells(
            rows@[k]@,
        ) == Some(#[trigger] target_view(v@[k])),
{
    let mut out: Vec<AnalysisTarget> = Vec::new();
    let mut i: usize = 0;
    while i < rows.len()
        invariant
            i <= rows@.len(),
            out@.len() == i,
            forall|k: int| 0 <= k < i ==> (#[trigger] target_cells(rows@[k]@)) is Some,
            forall|k: int| 0 <= k < i ==> target_cells(rows@[k]@) == Some(#[trigger] target_view(out@[k])),
        decreases rows@.len() - i,
    {
        match decode_target_row(rows[i].as_slice()) {
            Ok(t) => out.push(t),
            Err(e) => return Err(e),
        }
        i += 1;
    }
    Ok(out)
}

/// What a row of the perceptual-hash query holds: id, dHash, pHash.
pub open spec fn hashed_cells(c: Seq<SqlCell>) -> Option<HashedImage> {
    if c.len() >= 3 && c[0] is Integer && opt_integer_cell(c[1]) is Some && opt_integer_cell(c[2]) is Some {
        Some(HashedImage {
            id: c[0]->Integer_0,
            dhash: as_hash(opt_integer_cell(c[1])->0),
            phash: as_hash(opt_integer_cell(c[2])->0),
        })
    } else {
        None
    }
}

/// A stored optional integer as a result cell: `NULL` when absent.
pub open spec fn integer_or_null(v: Option<i64>) -> SqlCell {
    match v {
        Some(x) => SqlCell::Integer(x),
        None => SqlCell::Null,
    }
}

/// A row of the perceptual-hash query, whose columns are `i.file_id`,
/// `i.dhash`, `i.phash` in that order, reads back as the image with that id,
/// its dHash taken from the second column and its pHash from the third,
/// each as the stored bits (a missing hash stays missing). A row too short,
/// or with a non-integer id, is refused.
pub proof fn lemma_hash_row_columns(id: i64, d: Option<i64>, p: Option<i64>, c: Seq<SqlCell>)
    ensures
        hashed_cells(seq![SqlCell::Integer(id), integer_or_null(d), integer_or_null(p)]) == Some(
            HashedImage {
                id,
                dhash: match d {
                    Some(x) => Some(x as u64),
                    None => None,
                },
                phash: match p {
                    Some(x) => Some(x as u64),
                    None => None,
                },
            },
        ),
        c.len() < 3 ==> hashed_cells(c) is None,
        c.len() >= 1 && !(c[0] is Integer) ==> hashed_cells(c) is None,
        crate::db::reads::PERCEPTUAL_HASHES@.subrange(0, 34) == "SELECT i.file_id, i.dhash, i.phash"@,
{
    reveal_strlit("SELECT i.file_id, i.dhash, i.phash");
    reveal_strlit("SELECT i.file_id, i.dhash, i.phash FROM images i JOIN files f ON f.id = i.file_id WHERE f.status != 'missing' AND f.id = (SELECT MIN(f2.id) FROM files f2 WHERE f2.content_hash = f.content_hash AND f2.status != 'missing') ORDER BY i.file_id");
    assert(crate::db::reads::PERCEPTUAL_HASHES@.subrange(0, 34) =~= "SELECT i.file_id, i.dhash, i.phash"@);
}

/// Reads one row of the perceptual-hash query.
pub fn decode_hashed_row(row: &[SqlCell]) -> (r: Result<HashedImage, CoreError>)
    ensures
        r matches Err(e) ==> !(e is Db),
        r is Ok <==> hashed_cells(row@) is Some,
        r matches Ok(h) ==> hashed_cells(row@) == Some(h),
        r matches Ok(h) ==> h.id == row@[0]->Integer_0 && h.dhash == as_hash(opt_integer_cell(row@[1])->0)
            && h.phash == as_hash(opt_integer_cell(row@[2])->0),
{
    let id = column_error(get_i64(row, 0))?;
    let d = column_error(get_opt_i64(row, 1))?;
    let p = column_error(get_opt_i64(row, 2))?;
    let dhash = match d {
        Some(v) => Some(v as u64),
        None => None,
    };
    let phash = match p {
        Some(v) => Some(v as u64),
        None => None,
    };
    Ok(HashedImage { id, dhash, phash })
}

/// Perceptual hashes from the rows of their query.
pub fn hashed_from_rows(rows: &[Vec<SqlCell>]) -> (r: Result<Vec<HashedImage>, CoreError>)
    ensures
        r matches Err(e) ==> !(e is Db),
        r is Ok <==> forall|k: int| 0 <= k < rows@.len() ==> (#[trigger] hashed_cells(rows@[k]@)) is Some,
        r matches Ok(v) ==> v@.len() == rows@.len() && forall|k: int| 0 <= k < v@.len() ==> hashed_cells(
            rows@[k]@,
        ) == Some(#[trigger] v@[k]),
{
    let mut out: Vec<HashedImage> = Vec::new();
    let mut i: usize = 0;
    while i < rows.len()
        invariant
            i <= rows@.len(),
            out@.len() == i,
            forall|k: int| 0 <= k < i ==> (#[trigger] hashed_cells(rows@[k]@)) is Some,
            forall|k: int| 0 <= k < i ==> hashed_cells(rows@[k]@) == Some(#[trigger] out@[k]),
        decreases rows@.len() - i,
    {
        match decode_hashed_row(rows[i].as_slice()) {
            Ok(h) => out.push(h),
            Err(e) => return Err(e),
        }
        i += 1;
    }
    Ok(out)
}

/// A grid cell as plain values.
pub type GridView = (i64, Seq<char>, Option<Seq<char>>, Option<i64>, Option<u32>, Option<u32>);

pub open spec fn grid_view(g: GridItem) -> GridView {
    (g.file_id, g.path@, match g.thumb_path { Some(t) => Some(t@), None => None }, g.captured_at, g.width, g.height)
}

/// What a row of the grid query holds: id, path, thumbnail path, capture
/// time, width, height.
pub open spec fn grid_cells(c: Seq<SqlCell>) -> Option<GridView> {
    if c.len() >= 6 && c[0] is Integer && c[1] is Text && opt_text_cell(c[2]) is Some && opt_integer_cell(c[3]) is Some
        && opt_integer_cell(c[4]) is Some && opt_integer_cell(c[5]) is Some {
        Some((
            c[0]->Integer_0,
            c[1]->Text_0@,
            opt_text_cell(c[2])->0,
            opt_integer_cell(c[3])->0,
            as_dimension(opt_integer_cell(c[4])->0),
            as_dimension(opt_integer_cell(c[5])->0),
        ))
    } else {
        None
    }
}

/// Reads one row of the grid query.
pub fn decode_grid_row(row: &[SqlCell]) -> (r: Result<GridItem, CoreError>)
    ensures
        r matches Err(e) ==> !(e is Db),
        r is Ok <==> grid_cells(row@) is Some,
        r matches Ok(g) ==> grid_cells(row@) == Some(grid_view(g)),
{
    let file_id = column_error(get_i64(row, 0))?;
    let path = column_error(get_text(row, 1))?;
    let thumb_path = column_error(get_opt_text(row, 2))?;
    let captured_at = column_error(get_opt_i64(row, 3))?;
    let w = column_error(get_opt_i64(row, 4))?;
    let h = column_error(get_opt_i64(row, 5))?;
    let width = match w {
        Some(v) => Some(v as u32),
        None => None,
    };
    let height = match h {
        Some(v) => Some(v as u32),
        None => None,
    };
    Ok(GridItem { file_id, path, thumb_path, captured_at, width, height })
}

/// Grid cells from the rows of their query.
pub fn grid_from_rows(rows: &[Vec<SqlCell>]) -> (r: Result<Vec<GridItem>, CoreError>)
    ensures
        r matches Err(e) ==> !(e is Db),
        r is Ok <==> forall|k: int| 0 <= k < rows@.len() ==> (#[trigger] grid_cells(rows@[k]@)) is Some,
        r matches Ok(v) ==> v@.len() == rows@.len() && forall|k: int| 0 <= k < v@.len() ==> grid_cells(
            rows@[k]@,
        ) == Some(#[trigger] grid_view(v@[k])),
{
    let mut out: Vec<GridItem> = Vec::new();
    let mut i: usize = 0;
    while i < rows.len()
        invariant
            i <= rows@.len(),
            out@.len() == i,
            forall|k: int| 0 <= k < i ==> (#[trigger] grid_cells(rows@[k]@)) is Some,
            forall|k: int| 0 <= k < i ==> grid_cells(rows@[k]@) == Some(#[trigger] grid_view(out@[k])),
        decreases rows@.len() - i,
    {
        match decode_grid_row(rows[i].as_slice()) {
            Ok(g) => out.push(g),
            Err(e) => return Err(e),
        }
        i += 1;
    }
    Ok(out)
}

/// The integers in the first column of every row.
pub fn ids_from_rows(rows: &[Vec<SqlCell>]) -> (r: Result<Vec<i64>, CoreError>)
    ensures
        r matches Err(e) ==> !(e is Db),
        r is Ok <==> forall|k: int| 0 <= k < rows@.len() ==> rows@[k]@.len() >= 1 && (#[trigger] cell_integer(
            rows@[k]@[0],
        )) is Some,
        r matches Ok(v) ==> v@.len() == rows@.len() && forall|k: int| 0 <= k < v@.len() ==> cell_integer(
            rows@[k]@[0],
        ) == Some(#[trigger] v@[k]),
{
    let mut out: Vec<i64> = Vec::new();
    let mut i: usize = 0;
    while i < rows.len()
        invariant
            i <= rows@.len(),
            out@.len() == i,
            forall|k: int| 0 <= k < i ==> rows@[k]@.len() >= 1 && (#[trigger] cell_integer(rows@[k]@[0])) is Some,
            forall|k: int| 0 <= k < i ==> cell_integer(rows@[k]@[0]) == Some(#[trigger] out@[k]),
        decreases rows@.len() - i,
    {
        match get_i64(rows[i].as_slice(), 0) {
            Ok(v) => out.push(v),
            Err(e) => return Err(CoreError::Column { column: e.column }),
        }
        i += 1;
    }
    Ok(out)
}

/// What the file-metadata lookup holds: path, thumbnail path, and whether
/// the file is live.
pub open spec fn meta_cells(c: Seq<SqlCell>) -> Option<(Seq<char>, Option<Seq<char>>, bool)> {
    if c.len() >= 3 && c[0] is Text && opt_text_cell(c[1]) is Some && c[2] is Integer {
        Some((c[0]->Text_0@, opt_text_cell(c[1])->0, c[2]->Integer_0 != 0))
    } else {
        None
    }
}

/// The file metadata a lookup returned: `None` for no row, else the first
/// row.
pub fn meta_from_rows(rows: &[Vec<SqlCell>]) -> (r: Result<Option<(String, Option<String>, bool)>, CoreError>)
    ensures
        r matches Err(e) ==> !(e is Db),
        rows@.len() == 0 ==> r matches Ok(None),
        rows@.len() > 0 ==> (r is Ok <==> meta_cells(rows@[0]@) is Some),
        r matches Ok(Some(m)) ==> rows@.len() > 0 && meta_cells(rows@[0]@) == Some(
            (m.0@, match m.1 { Some(t) => Some(t@), None => None }, m.2),
        ),
{
    if rows.len() == 0 {
        return Ok(None);
    }
    let row = rows[0].as_slice();
    let path = column_error(get_text(row, 0))?;
    let thumb = column_error(get_opt_text(row, 1))?;
    let live = column_error(get_bool(row, 2))?;
    Ok(Some((path, thumb, live)))
}

/// A burst candidate as stored: what burst detection reads of it, and its
/// embedding's raw bytes (little-endian reals, compared by the caller).
#[derive(Debug, Clone)]
pub struct StoredFrame {
    pub key: BurstKey,
    pub embedding: Option<Vec<u8>>,
}

/// A stored frame as plain values: id, camera, capture time, embedding bytes.
pub type FrameView = (i64, Option<Seq<char>>, Option<i64>, Option<Seq<u8>>);

pub open spec fn frame_view(f: StoredFrame) -> FrameView {
    (
        f.key.id,
        match f.key.camera { Some(c) => Some(c@), None => None },
        f.key.captured_at,
        match f.embedding { Some(e) => Some(e@), None => None },
    )
}

/// An optional blob cell, as [`opt_integer_cell`] for blobs.
pub open spec fn opt_blob_cell(c: SqlCell) -> Option<Option<Seq<u8>>> {
    match c {
        SqlCell::Null => Some(None),
        SqlCell::Blob(b) => Some(Some(b@)),
        _ => None,
    }
}

/// What a row of the burst-frames query holds: id, camera, capture time,
/// embedding.
pub open spec fn frame_cells(c: Seq<SqlCell>) -> Option<FrameView> {
    if c.len() >= 4 && c[0] is Integer && opt_text_cell(c[1]) is Some && opt_integer_cell(c[2]) is Some
        && opt_blob_cell(c[3]) is Some {
        Some((c[0]->Integer_0, opt_text_cell(c[1])->0, opt_integer_cell(c[2])->0, opt_blob_cell(c[3])->0))
    } else {
        None
    }
}

/// Reads one row of the burst-frames query; a frame has an embedding
/// exactly when its embedding cell holds one.
pub fn decode_frame_row(row: &[SqlCell]) -> (r: Result<StoredFrame, CoreError>)
    ensures
        r matches Err(e) ==> !(e is Db),
        r is Ok <==> frame_cells(row@) is Some,
        r matches Ok(f) ==> frame_cells(row@) == Some(frame_view(f)) && f.key.has_embedding == f.embedding is Some,
{
    let id = column_error(get_i64(row, 0))?;
    let camera = column_error(get_opt_text(row, 1))?;
    let captured_at = column_error(get_opt_i64(row, 2))?;
    let embedding = column_error(get_opt_blob(row, 3))?;
    let has_embedding = embedding.is_some();
    Ok(StoredFrame { key: BurstKey { id, camera, captured_at, has_embedding }, embedding })
}

/// Burst candidates from the rows of their query.
pub fn frames_from_rows(rows: &[Vec<SqlCell>]) -> (r: Result<Vec<StoredFrame>, CoreError>)
    ensures
        r matches Err(e) ==> !(e is Db),
        r is Ok <==> forall|k: int| 0 <= k < rows@.len() ==> (#[trigger] frame_cells(rows@[k]@)) is Some,
        r matches Ok(v) ==> v@.len() == rows@.len() && forall|k: int| 0 <= k < v@.len() ==> frame_cells(
            rows@[k]@,
        ) == Some(#[trigger] frame_view(v@[k])),
        r matches Ok(v) ==> forall|k: int| 0 <= k < v@.len() ==> (#[trigger] v@[k]).key.has_embedding
            == v@[k].embedding is Some,
{
    let mut out: Vec<StoredFrame> = Vec::new();
    let mut i: usize = 0;
    while i < rows.len()
        invariant
            i <= rows@.len(),
            out@.len() == i,
            forall|k: int| 0 <= k < i ==> (#[trigger] frame_cells(rows@[k]@)) is Some,
            forall|k: int| 0 <= k < i ==> frame_cells(rows@[k]@) == Some(#[trigger] frame_view(out@[k])),
            forall|k: int| 0 <= k < i ==> (#[trigger] out@[k]).key.has_embedding == out@[k].embedding is Some,
        decreases rows@.len() - i,
    {
        match decode_frame_row(rows[i].as_slice()) {
            Ok(f) => out.push(f),
            Err(e) => return Err(e),
        }
        i += 1;
    }
    Ok(out)
}

} // verus!
