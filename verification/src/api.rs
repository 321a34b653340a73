//! The interface surface a UI shell sees. Types are mirrored as plain
//! records so core types stay free of binding concerns; content hashes
//! cross the boundary as lowercase hex.
use vstd::prelude::*;
use crate::{CoreError, Engine};
use crate::db::writes::{Issued, Query};
use crate::db::reads::{dupes_read, faces_read, grid_read};

verus! {

/// Why an interface call failed.
#[derive(Debug, Clone, PartialEq, Eq)]
pub enum ApiError {
    Engine { message: String },
}

impl ApiError {
    /// The error from an engine failure: its message.
    pub fn from_core(e: CoreError) -> (r: ApiError)
        ensures
            r matches ApiError::Engine { message } && crate::is_message_of(e, message@),
    {
        ApiError::Engine { message: e.message() }
    }

    /// The error as a sentence for people.
    pub fn message(&self) -> (s: String)
        ensures
            match self {
                ApiError::Engine { message } => s@ == message@,
            },
    {
        match self {
            ApiError::Engine { message } => message.clone(),
        }
    }
}

/// What one scan did.
#[derive(Debug, Clone, PartialEq, Eq)]
pub struct ScanSummary {
    pub found: u64,
    pub added: u64,
    pub updated: u64,
    pub unchanged: u64,
    pub missing: u64,
    pub hashed: u64,
    pub analyzed: u64,
    pub embedded: u64,
    pub errors: u64,
}

impl ScanSummary {
    /// The interface record of an engine scan summary.
    pub fn from_core(s: &crate::ScanSummary) -> (r: ScanSummary)
        ensures
            r.found == s.found && r.added == s.added && r.updated == s.updated && r.unchanged == s.unchanged
                && r.missing == s.missing && r.hashed == s.hashed && r.analyzed == s.analyzed && r.embedded
                == s.embedded && r.errors == s.errors,
    {
        ScanSummary {
            found: s.found,
            added: s.added,
            updated: s.updated,
            unchanged: s.unchanged,
            missing: s.missing,
            hashed: s.hashed,
            analyzed: s.analyzed,
            embedded: s.embedded,
            errors: s.errors,
        }
    }
}

/// Live scan status.
#[derive(Debug, Clone, Copy, PartialEq, Eq)]
pub enum ScanProgress {
    Walking { found: u64 },
    Hashing { done: u64, total: u64 },
    Analyzing { done: u64, total: u64 },
    Embedding { done: u64, total: u64 },
}

impl ScanProgress {
    /// The interface event of an engine progress event.
    pub fn from_core(p: crate::ScanProgress) -> (r: ScanProgress)
        ensures
            match p {
                crate::ScanProgress::Walking { found } => r == ScanProgress::Walking { found },
                crate::ScanProgress::Hashing { done, total } => r == ScanProgress::Hashing { done, total },
                crate::ScanProgress::Analyzing { done, total } => r == ScanProgress::Analyzing { done, total },
                crate::ScanProgress::Embedding { done, total } => r == ScanProgress::Embedding { done, total },
            },
    {
        match p {
            crate::ScanProgress::Walking { found } => ScanProgress::Walking { found },
            crate::ScanProgress::Hashing { done, total } => ScanProgress::Hashing { done, total },
            crate::ScanProgress::Analyzing { done, total } => ScanProgress::Analyzing { done, total },
            crate::ScanProgress::Embedding { done, total } => ScanProgress::Embedding { done, total },
        }
    }
}

/// A shell implements this to receive live scan status.
pub trait ScanProgressListener {
    fn on_progress(&self, progress: ScanProgress);
}

/// One copy in a duplicate group.
#[derive(Debug, Clone, PartialEq, Eq)]
pub struct DupeFile {
    pub path: String,
    pub mtime: i64,
}

/// A set of files with identical content.
#[derive(Debug, Clone, PartialEq, Eq)]
pub struct DupeGroup {
    /// BLAKE3 content hash, lowercase hex. Stable key for user decisions.
    pub hash_hex: String,
    pub size: u64,
    /// Keeper-first (oldest mtime, then shortest path, then path).
    pub files: Vec<DupeFile>,
    pub reclaimable: u64,
}

/// A stored cluster of near-duplicate images.
#[derive(Debug, Clone, PartialEq, Eq)]
pub struct NearCluster {
    pub id: i64,
    pub files: Vec<String>,
}

/// One cell of the library grid.
#[derive(Debug, Clone, PartialEq, Eq)]
pub struct LibraryItem {
    pub file_id: i64,
    pub path: String,
    pub thumb_path: Option<String>,
    pub captured_at: Option<i64>,
    pub width: Option<u32>,
    pub height: Option<u32>,
}

/// An image the face pass should visit, by its thumbnail.
#[derive(Debug, Clone, PartialEq, Eq)]
pub struct FaceTarget {
    pub file_id: i64,
    pub thumb_path: String,
}

/// The lowercase hex digit of `n` (below 16).
pub open spec fn hex_digit(n: int) -> char {
    if n < 10 {
        ((n + 48) as u8) as char
    } else {
        ((n + 87) as u8) as char
    }
}

/// `bytes` in lowercase hex, two digits per byte.
pub open spec fn hex_chars(bytes: Seq<u8>) -> Seq<char>
    decreases bytes.len(),
{
    if bytes.len() == 0 {
        Seq::empty()
    } else {
        hex_chars(bytes.drop_last()) + seq![hex_digit((bytes.last() / 16) as int), hex_digit((bytes.last() % 16) as int)]
    }
}

fn hex_digit_of(n: u8) -> (c: char)
    requires
        n < 16,
    ensures
        c == hex_digit(n as int),
{
    if n < 10 {
        (n + 48) as char
    } else {
        (n + 87) as char
    }
}

/// `bytes` in lowercase hex.
pub fn hex_lower(bytes: &[u8]) -> (s: String)
    ensures
        s@ == hex_chars(bytes@),
{
    let mut v: Vec<char> = Vec::new();
    let mut i: usize = 0;
    while i < bytes.len()
        invariant
            i <= bytes@.len(),
            v@ == hex_chars(bytes@.take(i as int)),
        decreases bytes@.len() - i,
    {
        let b = bytes[i];
        v.push(hex_digit_of(b / 16));
        v.push(hex_digit_of(b % 16));
        proof {
            assert(bytes@.take(i + 1).drop_last() =~= bytes@.take(i as int));
            assert(v@ =~= hex_chars(bytes@.take(i + 1)));
        }
        i += 1;
    }
    proof {
        assert(bytes@.take(bytes@.len() as int) =~= bytes@);
    }
    crate::text::string_from_chars(&v)
}

/// The interface record of an engine duplicate group: the same copies, the
/// hash in lowercase hex.
pub fn dupe_group_record(g: &crate::DupeGroup) -> (r: DupeGroup)
    ensures
        is_group_record(r, *g),
{
    let mut files: Vec<DupeFile> = Vec::new();
    let mut i: usize = 0;
    while i < g.files.len()
        invariant
            i <= g.files@.len(),
            files@.len() == i,
            forall|k: int| 0 <= k < i ==> (#[trigger] files@[k]).path@ == g.files@[k].path@ && files@[k].mtime
                == g.files@[k].mtime,
        decreases g.files@.len() - i,
    {
        files.push(DupeFile { path: g.files[i].path.clone(), mtime: g.files[i].mtime });
        i += 1;
    }
    DupeGroup { hash_hex: hex_lower(&g.hash), size: g.size, files, reclaimable: g.reclaimable }
}

/// The interface record of a grid cell.
pub fn library_item(g: &crate::GridItem) -> (r: LibraryItem)
    ensures
        is_item_record(r, *g),
{
    let thumb_path = match &g.thumb_path {
        Some(t) => Some(t.clone()),
        None => None,
    };
    LibraryItem {
        file_id: g.file_id,
        path: g.path.clone(),
        thumb_path,
        captured_at: g.captured_at,
        width: g.width,
        height: g.height,
    }
}

/// `r` is the interface record of `g` (see [`dupe_group_record`]).
pub open spec fn is_group_record(r: DupeGroup, g: crate::DupeGroup) -> bool {
    &&& r.hash_hex@ == hex_chars(g.hash@)
    &&& r.size == g.size
    &&& r.reclaimable == g.reclaimable
    &&& r.files@.len() == g.files@.len()
    &&& forall|k: int| 0 <= k < r.files@.len() ==> (#[trigger] r.files@[k]).path@ == g.files@[k].path@
        && r.files@[k].mtime == g.files@[k].mtime
}

/// `out` holds the interface records of `core`, in order.
pub open spec fn group_records(out: Seq<DupeGroup>, core: Seq<crate::DupeGroup>) -> bool {
    &&& out.len() == core.len()
    &&& forall|k: int| 0 <= k < out.len() ==> is_group_record(#[trigger] out[k], core[k])
}

/// `r` is the interface record of grid cell `g` (see [`library_item`]).
pub open spec fn is_item_record(r: LibraryItem, g: crate::GridItem) -> bool {
    &&& r.file_id == g.file_id && r.path@ == g.path@ && r.captured_at == g.captured_at
    &&& r.width == g.width && r.height == g.height
    &&& match (r.thumb_path, g.thumb_path) {
        (Some(a), Some(b)) => a@ == b@,
        (None, None) => true,
        _ => false,
    }
}

/// `out` holds the interface records of the grid cells `core`, in order.
pub open spec fn item_records(out: Seq<LibraryItem>, core: Seq<crate::GridItem>) -> bool {
    &&& out.len() == core.len()
    &&& forall|k: int| 0 <= k < out.len() ==> is_item_record(#[trigger] out[k], core[k])
}

/// `out` holds the `(id, thumbnail)` pairs of `core` as face targets, in
/// order.
pub open spec fn face_records(out: Seq<FaceTarget>, core: Seq<(i64, String)>) -> bool {
    &&& out.len() == core.len()
    &&& forall|k: int| 0 <= k < out.len() ==> (#[trigger] out[k]).file_id == core[k].0 && out[k].thumb_path@
        == core[k].1@
}

/// The shell's clusters carry the engine's ids and paths, in order.
pub open spec fn shell_matches(out: Seq<NearCluster>, core: Seq<crate::NearCluster>) -> bool {
    &&& out.len() == core.len()
    &&& forall|k: int| 0 <= k < out.len() ==> (#[trigger] out[k]).id == core[k].id && out[k].files@ == core[k].files@
}

/// The shell's clusters are those the engine rebuilt (see
/// [`crate::near_rebuilt`]).
pub open spec fn shell_rebuilt(
    dhash_max: u32,
    phash_max: u32,
    out: Seq<NearCluster>,
    before: Seq<Issued>,
    after: Seq<Issued>,
    reads_before: Seq<Query>,
    reads_after: Seq<Query>,
) -> bool {
    exists|core: Seq<crate::NearCluster>| #[trigger] crate::near_rebuilt(
        dhash_max,
        phash_max,
        core,
        before,
        after,
        reads_before,
        reads_after,
    ) && shell_matches(out, core)
}

/// The engine handle a shell holds.
pub struct CullerEngine {
    inner: Engine,
}

impl CullerEngine {
    /// Opens (creating if needed) the database, enables WAL and runs
    /// migrations (see [`Engine::open`]).
    pub fn open(db_path: String) -> (r: Result<CullerEngine, ApiError>)
        ensures
            r matches Ok(e) ==> !e.engine().has_embedder_spec(),
            r matches Ok(e) ==> crate::db::migrations::opened(e.engine().database().writes(), e.engine().database().reads()),
    {
        match Engine::open(db_path.as_str()) {
            Ok(inner) => Ok(CullerEngine { inner }),
            Err(e) => Err(ApiError::from_core(e)),
        }
    }

    /// The engine behind the handle.
    pub closed spec fn engine(&self) -> Engine {
        self.inner
    }

    /// The engine behind the handle, for the scan driver.
    pub fn inner_mut(&mut self) -> (r: &mut Engine)
        ensures
            *r == old(self).engine(),
            final(self).engine() == *final(r),
    {
        &mut self.inner
    }

    /// Exact-duplicate groups, largest reclaimable first: the interface
    /// records of the engine's groups (see [`Engine::dupes`]).
    #[verifier::spinoff_prover]
    pub fn dupes(&mut self) -> (r: Result<Vec<DupeGroup>, ApiError>)
        ensures
            final(self).engine().database().writes() == old(self).engine().database().writes(),
            final(self).engine().has_embedder_spec() == old(self).engine().has_embedder_spec(),
            r matches Ok(out) ==> exists|core: Vec<crate::DupeGroup>| #[trigger] dupes_read(
                old(self).engine().database().reads(),
                final(self).engine().database().reads(),
                Ok(core),
            ) && group_records(out@, core@),
            r is Err ==> exists|e: CoreError| #[trigger] dupes_read(
                old(self).engine().database().reads(),
                final(self).engine().database().reads(),
                Err(e),
            ),
            r matches Ok(groups) ==> forall|k: int| 0 <= k < groups@.len() ==> (#[trigger] groups@[k]).hash_hex@.len()
                == 64 && groups@[k].files@.len() >= 2 && groups@[k].reclaimable
                == crate::db::dupes::reclaimable_bytes(groups@[k].size, groups@[k].files@.len()),
            r matches Ok(groups) ==> forall|i: int, j: int| 0 <= i < j < groups@.len() ==> (#[trigger] groups@[i]).reclaimable
                >= (#[trigger] groups@[j]).reclaimable,
    {
        let ghost reads_before = self.inner.database().reads();
        let outcome = self.inner.dupes();
        let ghost reads_after = self.inner.database().reads();
        match outcome {
            Ok(groups) => {
                let out = group_records_of(&groups);
                proof {
                    assert(dupes_read(reads_before, reads_after, Ok(groups)) && group_records(out@, groups@));
                    assert(dupes_read(old(self).engine().database().reads(), self.engine().database().reads(), Ok(groups)));
                }
                Ok(out)
            },
            Err(e) => {
                let ghost failed = e;
                let r = Err(ApiError::from_core(e));
                proof {
                    assert(dupes_read(reads_before, reads_after, Err(failed)));
                    assert(dupes_read(old(self).engine().database().reads(), self.engine().database().reads(), Err(failed)));
                }
                r
            },
        }
    }

    /// Rebuilds and returns near-duplicate clusters (no re-analysis): the
    /// engine's clusters (see [`Engine::cluster_near`]) as interface
    /// records.
    pub fn cluster_near(&mut self, dhash_max: u32, phash_max: u32) -> (r: Result<Vec<NearCluster>, ApiError>)
        ensures
            final(self).engine().has_embedder_spec() == old(self).engine().has_embedder_spec(),
            r matches Ok(out) ==> forall|k: int| 0 <= k < out@.len() ==> vstd::relations::sorted_by(
                crate::text::texts((#[trigger] out@[k]).files@),
                crate::text::lex_order(),
            ),
            r matches Ok(out) ==> shell_rebuilt(
                dhash_max,
                phash_max,
                out@,
                old(self).engine().database().writes(),
                final(self).engine().database().writes(),
                old(self).engine().database().reads(),
                final(self).engine().database().reads(),
            ),
    {
        let clusters = match self.inner.cluster_near(dhash_max, phash_max) {
            Ok(c) => c,
            Err(e) => return Err(ApiError::from_core(e)),
        };
        let mut out: Vec<NearCluster> = Vec::new();
        let ghost before = clusters@;
        for c in it: clusters.into_iter()
            invariant
                it.seq() == before,
                out@.len() == it.index(),
                forall|k: int| 0 <= k < before.len() ==> vstd::relations::sorted_by(
                    crate::text::texts((#[trigger] before[k]).files@),
                    crate::text::lex_order(),
                ),
                forall|k: int| 0 <= k < out@.len() ==> (#[trigger] out@[k]).files@ == before[k].files@,
                forall|k: int| 0 <= k < out@.len() ==> (#[trigger] out@[k]).id == before[k].id,
        {
            out.push(NearCluster { id: c.id, files: c.files });
        }
        proof {
            assert(shell_matches(out@, before));
        }
        Ok(out)
    }

    /// Analyzed live images with a thumbnail and no face facts yet, by id:
    /// the targets of the rows the engine read (see
    /// [`Engine::images_needing_faces`]).
    #[verifier::spinoff_prover]
    pub fn images_needing_faces(&mut self) -> (r: Result<Vec<FaceTarget>, ApiError>)
        ensures
            final(self).engine().database().writes() == old(self).engine().database().writes(),
            final(self).engine().has_embedder_spec() == old(self).engine().has_embedder_spec(),
            r matches Ok(out) ==> exists|core: Vec<(i64, String)>| #[trigger] faces_read(
                old(self).engine().database().reads(),
                final(self).engine().database().reads(),
                Ok(core),
            ) && face_records(out@, core@),
            r is Err ==> exists|e: CoreError| #[trigger] faces_read(
                old(self).engine().database().reads(),
                final(self).engine().database().reads(),
                Err(e),
            ),
    {
        let ghost reads_before = self.inner.database().reads();
        let outcome = self.inner.images_needing_faces();
        let rows = match outcome {
            Ok(v) => v,
            Err(e) => {
                let ghost failed = e;
                let r = Err(ApiError::from_core(e));
                proof {
                    assert(faces_read(old(self).engine().database().reads(), self.engine().database().reads(), Err(failed)));
                }
                return r;
            },
        };
        proof {
            assert(faces_read(old(self).engine().database().reads(), self.engine().database().reads(), Ok(rows)));
        }
        let mut out: Vec<FaceTarget> = Vec::new();
        let mut i: usize = 0;
        while i < rows.len()
            invariant
                i <= rows@.len(),
                out@.len() == i,
                forall|k: int| 0 <= k < i ==> (#[trigger] out@[k]).file_id == rows@[k].0 && out@[k].thumb_path@
                    == rows@[k].1@,
            decreases rows@.len() - i,
        {
            out.push(FaceTarget { file_id: rows[i].0, thumb_path: rows[i].1.clone() });
            i += 1;
        }
        Ok(out)
    }

    /// Records the outcome of loading the embedding models from
    /// `models_dir`: search becomes available when loading succeeded.
    pub fn attach_models(&mut self, models_dir: String, loaded: Result<(), String>) -> (r: Result<(), ApiError>)
        ensures
            r is Ok <==> loaded is Ok,
            loaded is Ok ==> final(self).engine().has_embedder_spec(),
            loaded is Err ==> final(self).engine().has_embedder_spec() == old(self).engine().has_embedder_spec(),
    {
        let outcome = match loaded {
            Ok(()) => Ok(()),
            Err(message) => Err(CoreError::Io { path: models_dir, message }),
        };
        match self.inner.attach_models(outcome) {
            Ok(()) => Ok(()),
            Err(e) => Err(ApiError::from_core(e)),
        }
    }

    /// Whether models are attached (search available).
    pub fn has_models(&self) -> (r: bool)
        ensures
            r == self.engine().has_embedder_spec(),
    {
        self.inner.has_embedder()
    }

    /// Library grid page: analyzed images, newest capture first; the
    /// interface records of the engine's page (see [`Engine::grid_items`]).
    #[verifier::spinoff_prover]
    pub fn grid_items(&mut self, offset: u64, limit: u64) -> (r: Result<Vec<LibraryItem>, ApiError>)
        ensures
            final(self).engine().database().writes() == old(self).engine().database().writes(),
            final(self).engine().has_embedder_spec() == old(self).engine().has_embedder_spec(),
            r matches Ok(out) ==> exists|core: Vec<crate::GridItem>| #[trigger] grid_read(
                old(self).engine().database().reads(),
                final(self).engine().database().reads(),
                offset,
                limit,
                Ok(core),
            ) && item_records(out@, core@),
            r is Err ==> exists|e: CoreError| #[trigger] grid_read(
                old(self).engine().database().reads(),
                final(self).engine().database().reads(),
                offset,
                limit,
                Err(e),
            ),
            (limit == 0 || offset > i64::MAX) ==> (r matches Ok(v) && v@.len() == 0),
    {
        let outcome = self.inner.grid_items(offset, limit);
        let items = match outcome {
            Ok(v) => v,
            Err(e) => {
                let ghost failed = e;
                let r = Err(ApiError::from_core(e));
                proof {
                    assert(grid_read(old(self).engine().database().reads(), self.engine().database().reads(), offset, limit, Err(failed)));
                }
                return r;
            },
        };
        proof {
            assert(grid_read(old(self).engine().database().reads(), self.engine().database().reads(), offset, limit, Ok(items)));
        }
        let mut out: Vec<LibraryItem> = Vec::new();
        let mut i: usize = 0;
        while i < items.len()
            invariant
                i <= items@.len(),
                out@.len() == i,
                forall|k: int| 0 <= k < i ==> is_item_record(#[trigger] out@[k], items@[k]),
            decreases items@.len() - i,
        {
            out.push(library_item(&items[i]));
            i += 1;
        }
        proof {
            assert(item_records(out@, items@));
        }
        Ok(out)
    }
}

/// The interface records of well-formed duplicate groups in report order:
/// 64 hex digits each, at least two copies, reclaimable bytes as the engine
/// counts them, largest reclaimable first.
fn group_records_of(groups: &Vec<crate::DupeGroup>) -> (out: Vec<DupeGroup>)
    requires
        forall|k: int| 0 <= k < groups@.len() ==> crate::db::dupes::well_formed_group(
            #[trigger] crate::db::dupes::group_view(groups@[k]),
        ),
        vstd::relations::sorted_by(
            groups@.map_values(|g: crate::DupeGroup| crate::db::dupes::group_view(g)),
            |x: crate::db::dupes::GroupView, y: crate::db::dupes::GroupView| crate::db::dupes::report_le(x, y),
        ),
    ensures
        group_records(out@, groups@),
        forall|k: int| 0 <= k < out@.len() ==> (#[trigger] out@[k]).hash_hex@.len() == 64 && out@[k].files@.len()
            >= 2 && out@[k].reclaimable == crate::db::dupes::reclaimable_bytes(out@[k].size, out@[k].files@.len()),
        forall|i: int, j: int| 0 <= i < j < out@.len() ==> (#[trigger] out@[i]).reclaimable >= (#[trigger] out@[j]).reclaimable,
{
    let ghost gv = groups@.map_values(|g: crate::DupeGroup| crate::db::dupes::group_view(g));
    let mut out: Vec<DupeGroup> = Vec::new();
    let mut i: usize = 0;
    while i < groups.len()
        invariant
            i <= groups@.len(),
            out@.len() == i,
            gv == groups@.map_values(|g: crate::DupeGroup| crate::db::dupes::group_view(g)),
            vstd::relations::sorted_by(gv, |x: crate::db::dupes::GroupView, y: crate::db::dupes::GroupView| crate::db::dupes::report_le(x, y)),
            forall|k: int| 0 <= k < groups@.len() ==> crate::db::dupes::well_formed_group(
                #[trigger] crate::db::dupes::group_view(groups@[k]),
            ),
            forall|k: int| 0 <= k < i ==> (#[trigger] out@[k]).hash_hex@.len() == 64 && out@[k].files@.len() >= 2
                && out@[k].reclaimable == crate::db::dupes::reclaimable_bytes(out@[k].size, out@[k].files@.len()),
            forall|k: int| 0 <= k < i ==> is_group_record(#[trigger] out@[k], groups@[k]),
        decreases groups@.len() - i,
    {
        let rec = dupe_group_record(&groups[i]);
        proof {
            lemma_hex_len(groups@[i as int].hash@);
            assert(crate::db::dupes::well_formed_group(crate::db::dupes::group_view(groups@[i as int])));
        }
        out.push(rec);
        i += 1;
    }
    proof {
        assert forall|a: int, b: int| 0 <= a < b < out@.len() implies (#[trigger] out@[a]).reclaimable
            >= (#[trigger] out@[b]).reclaimable by {
            let leq = |x: crate::db::dupes::GroupView, y: crate::db::dupes::GroupView| crate::db::dupes::report_le(x, y);
            assert(leq(gv[a], gv[b]));
            assert(gv[a] == crate::db::dupes::group_view(groups@[a]));
            assert(gv[b] == crate::db::dupes::group_view(groups@[b]));
        }
    }
    out
}

/// Hex of `n` bytes has `2n` digits.
pub proof fn lemma_hex_len(bytes: Seq<u8>)
    ensures
        hex_chars(bytes).len() == 2 * bytes.len(),
    decreases bytes.len(),
{
    if bytes.len() > 0 {
        lemma_hex_len(bytes.drop_last());
    }
}

} // verus!
