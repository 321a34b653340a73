//! Culler engine: file scanning, hashing, analysis, clustering, persistence.
//!
//! The library holds the decisions of the pipeline: which rows a walk adds,
//! changes, revives or marks missing; which same-size files need a content
//! hash; how duplicates group and which copy is kept; how near duplicates
//! and events cluster. Reading files and decoding pixels happen around it.
pub mod analyze;
pub mod api;
pub mod cli;
pub mod cluster;
pub mod db;
pub mod decimal;
pub mod scan;
pub mod sort;
pub mod text;

use vstd::prelude::*;
use crate::cluster::near::{is_near_clustering, near_components, HashedImage};
use crate::db::candidates::CandidateFile;
use crate::db::dupes::{group_view, report_le, well_formed_group, GroupView};
use crate::db::rows::AnalysisTarget;
use crate::db::sql::CellError;
use crate::db::Db;
use crate::db::reads::{
    candidates_given, dupes_read, faces_read, grid_read, hashes_read, members_read, read_outcome, targets_given,
    NEEDING_ANALYSIS, SIZE_CANDIDATES,
};
use crate::db::writes::Query;
use crate::db::sql::SqlCell;
use crate::db::writes::ParamView;
use crate::db::record::RecordStats;
use crate::db::writes::{
    batch, began, clusters_replaced, clusters_stored, committed, hash_statements, rolled_back, walk_was_recorded, Issued,
    COMMIT,
};
use crate::text::dir_prefix;
use crate::scan::walker::WalkOutcome;
use crate::text::{lex_order, texts};

verus! {

/// Why an engine operation failed.
#[derive(Debug)]
pub enum CoreError {
    /// SQLite refused a statement or could not be opened.
    Db(rusqlite::Error),
    /// A file or directory could not be read.
    Io { path: String, message: String },
    /// A stored value did not have the type its column should hold.
    Column { column: usize },
    /// A stored content hash is not 32 bytes long.
    HashLength { length: usize },
    /// The database schema is at a version this build cannot migrate from.
    Schema { version: i64 },
}

/// `s` is the sentence that describes `e`: a fixed lead and the error's
/// details (for a database error, rusqlite's own wording).
pub open spec fn is_message_of(e: CoreError, s: Seq<char>) -> bool {
    match e {
        CoreError::Db(_) => exists|detail: Seq<char>| s == "database error: "@ + detail,
        CoreError::Io { path, message } => s == path@ + ": "@ + message@,
        CoreError::Column { column } => s == "unexpected value type in result column "@
            + decimal::decimal_chars(column as nat),
        CoreError::HashLength { length } => s == "stored content hash has the wrong length: "@
            + decimal::decimal_chars(length as nat),
        CoreError::Schema { version } => s == "no migration defined from schema version "@
            + decimal::decimal_signed_chars(version as int),
    }
}

impl CoreError {
    /// The error as a sentence for people.
    pub fn message(&self) -> (s: String)
        ensures
            is_message_of(*self, s@),
    {
        match self {
            CoreError::Db(e) => {
                let detail = crate::db::sql::error_text(e);
                text::concat("database error: ", detail.as_str())
            },
            CoreError::Io { path, message } => {
                let head = text::concat(path.as_str(), ": ");
                text::concat(head.as_str(), message.as_str())
            },
            CoreError::Column { column } => {
                let n = decimal::decimal_string(*column as u64);
                text::concat("unexpected value type in result column ", n.as_str())
            },
            CoreError::HashLength { length } => {
                let n = decimal::decimal_string(*length as u64);
                text::concat("stored content hash has the wrong length: ", n.as_str())
            },
            CoreError::Schema { version } => {
                let n = decimal::decimal_signed(*version);
                text::concat("no migration defined from schema version ", n.as_str())
            },
        }
    }
}

/// A result cell that could not be read becomes a [`CoreError::Column`].
pub fn column_error<T>(r: Result<T, CellError>) -> (out: Result<T, CoreError>)
    ensures
        match r {
            Ok(v) => out == Ok::<T, CoreError>(v),
            Err(e) => out matches Err(CoreError::Column { column }) && column == e.column,
        },
{
    match r {
        Ok(v) => Ok(v),
        Err(e) => Err(CoreError::Column { column: e.column }),
    }
}

/// A refused statement becomes a [`CoreError::Db`].
pub fn db_error<T>(r: Result<T, rusqlite::Error>) -> (out: Result<T, CoreError>)
    ensures
        r is Ok <==> out is Ok,
        r matches Ok(v) ==> out == Ok::<T, CoreError>(v),
        r is Err ==> out matches Err(CoreError::Db(_)),
{
    match r {
        Ok(v) => Ok(v),
        Err(e) => Err(CoreError::Db(e)),
    }
}

/// A file discovered by the walker.
#[derive(Debug, Clone, PartialEq, Eq)]
pub struct FoundFile {
    /// Absolute path.
    pub path: String,
    pub size: u64,
    /// Modification time, unix seconds.
    pub mtime: i64,
}

/// Progress events emitted during a scan.
#[derive(Debug, Clone, Copy)]
pub enum ScanProgress {
    Walking { found: u64 },
    Hashing { done: u64, total: u64 },
    Analyzing { done: u64, total: u64 },
    Embedding { done: u64, total: u64 },
}

/// What one scan did.
#[derive(Debug, Default, Clone, PartialEq, Eq)]
pub struct ScanSummary {
    /// Image files seen on disk under the root.
    pub found: u64,
    /// New rows inserted.
    pub added: u64,
    /// Rows whose size/mtime changed (or that reappeared after going missing).
    pub updated: u64,
    /// Rows skipped because path, size, and mtime were unchanged.
    pub unchanged: u64,
    /// Rows under the root no longer present on disk.
    pub missing: u64,
    /// Files content-hashed during this scan's candidate stage (size-first
    /// grouping). Files first hashed during analysis are not counted here.
    pub hashed: u64,
    /// Files analyzed during this scan (EXIF, thumbnail, perceptual hashes).
    pub analyzed: u64,
    /// Files embedded during this scan.
    pub embedded: u64,
    /// Files or directories skipped due to I/O errors.
    pub errors: u64,
}

/// One copy in a duplicate group.
#[derive(Debug, Clone, PartialEq, Eq)]
pub struct DupeFile {
    pub path: String,
    pub mtime: i64,
}

/// A set of files with identical BLAKE3 content hashes.
#[derive(Debug, Clone)]
pub struct DupeGroup {
    pub hash: [u8; 32],
    pub size: u64,
    /// Members sorted keeper-first: oldest mtime, then shortest path, then path.
    pub files: Vec<DupeFile>,
    /// Bytes freed if everything but the keeper were removed.
    pub reclaimable: u64,
}

/// A stored cluster of near-duplicate images.
#[derive(Debug, Clone)]
pub struct NearCluster {
    pub id: i64,
    /// Member paths, sorted.
    pub files: Vec<String>,
}

/// One cell of the library grid: an analyzed image and its cached thumbnail.
#[derive(Debug, Clone, PartialEq, Eq)]
pub struct GridItem {
    pub file_id: i64,
    pub path: String,
    pub thumb_path: Option<String>,
    pub captured_at: Option<i64>,
    pub width: Option<u32>,
    pub height: Option<u32>,
}

/// The walk was recorded in one transaction that committed (see
/// [`walk_was_recorded`]), with the counts of `s`.
pub open spec fn summary_recorded(files: Seq<FoundFile>, root: Seq<char>, s: ScanSummary, db_before: Db, db_after: Db) -> bool {
    committed(db_after.writes()) && exists|st: RecordStats| #[trigger] walk_was_recorded(
        files,
        dir_prefix(root),
        st,
        began(db_before.writes()),
        db_after.writes().drop_last(),
        db_before.reads(),
        db_after.reads(),
    ) && st.added == s.added
        && st.updated == s.updated && st.unchanged == s.unchanged && st.missing == s.missing
}

/// The near clusters `out` replaced the stored ones: the stored perceptual
/// hashes were read (see [`hashes_read`]), `out` is their near clustering,
/// stored as clusters of kind `near` in one transaction that committed (see
/// [`clusters_stored`]), and each
/// cluster's members are the paths the database gave for its ids (see
/// [`members_read`]).
pub open spec fn near_rebuilt(
    dhash_max: u32,
    phash_max: u32,
    out: Seq<NearCluster>,
    before: Seq<Issued>,
    after: Seq<Issued>,
    reads_before: Seq<Query>,
    reads_after: Seq<Query>,
) -> bool {
    exists|hashes: Vec<HashedImage>, mid: Seq<Query>, comps: Seq<Vec<i64>>, now: i64|
        #![trigger hashes_read(reads_before, mid, Ok(hashes)), clusters_stored("near"@, now, out, comps, began(before), after.drop_last())]
        hashes_read(reads_before, mid, Ok(hashes)) && near_clusters_of(hashes@, dhash_max, phash_max, comps)
            && committed(after) && clusters_stored("near"@, now, out, comps, began(before), after.drop_last()) && members_read(
            mid,
            reads_after,
            comps.map_values(|v: Vec<i64>| v@),
            out,
        )
}

/// `comps` (as id lists) is the near clustering of `items`.
pub open spec fn near_clusters_of(items: Seq<HashedImage>, dhash_max: u32, phash_max: u32, comps: Seq<Vec<i64>>) -> bool {
    is_near_clustering(items, dhash_max, phash_max, comps.map_values(|v: Vec<i64>| v@))
}

/// Handle to the engine and its database. One per library.
pub struct Engine {
    db: Db,
    /// Whether image-embedding models are attached.
    models: bool,
}

impl Engine {
    /// Opens (creating if needed) the database at `db_path`, enables WAL
    /// and runs migrations (see [`Db::open`]). The directory that holds it
    /// must exist.
    pub fn open(db_path: &str) -> (r: Result<Engine, CoreError>)
        ensures
            r matches Ok(e) ==> !e.has_embedder_spec(),
            r matches Ok(e) ==> crate::db::migrations::opened(e.database().writes(), e.database().reads()),
            r matches Err(CoreError::Schema { version }) ==> crate::db::migrations::migration_steps(version as int) is Err,
    {
        let db = Db::open(db_path)?;
        Ok(Engine { db, models: false })
    }

    /// The database behind the engine.
    pub closed spec fn database(&self) -> Db {
        self.db
    }

    /// The database, for a step that reads or writes it directly.
    pub fn db_mut(&mut self) -> (r: &mut Db)
        ensures
            *r == old(self).database(),
            final(self).database() == *final(r),
            final(self).has_embedder_spec() == old(self).has_embedder_spec(),
    {
        &mut self.db
    }

    /// The database.
    pub fn db(&self) -> (r: &Db)
        ensures
            *r == self.database(),
    {
        &self.db
    }

    /// First stage of a scan: records one walk of `root` (see
    /// [`Db::record_found`]) and starts the scan's summary from it.
    pub fn record_walk(&mut self, root: &str, walk: &WalkOutcome) -> (r: Result<ScanSummary, CoreError>)
        ensures
            r matches Ok(s) ==> {
                &&& s.found == walk.files@.len()
                &&& s.errors == walk.errors
                &&& s.added + s.updated + s.unchanged == s.found
                &&& s.hashed == 0 && s.analyzed == 0 && s.embedded == 0
            },
            r matches Ok(s) ==> summary_recorded(walk.files@, root@, s, old(self).database(), final(self).database()),
            r is Err ==> rolled_back(old(self).database().writes(), final(self).database().writes()),
    {
        let stats = self.db.record_found(root, walk.files.as_slice())?;
        Ok(ScanSummary {
            found: walk.files.len() as u64,
            added: stats.added,
            updated: stats.updated,
            unchanged: stats.unchanged,
            missing: stats.missing,
            hashed: 0,
            analyzed: 0,
            embedded: 0,
            errors: walk.errors,
        })
    }

    /// Same-size groups of live files: the exact-duplicate candidates.
    pub fn hash_candidates(&mut self) -> (r: Result<Vec<(u64, Vec<CandidateFile>)>, CoreError>)
        ensures
            final(self).database().writes() == old(self).database().writes(),
            final(self).has_embedder_spec() == old(self).has_embedder_spec(),
            read_outcome(
                old(self).database().reads(),
                final(self).database().reads(),
                SIZE_CANDIDATES,
                Seq::<ParamView>::empty(),
                r,
                |rows: Seq<Seq<SqlCell>>, out: Result<Vec<(u64, Vec<CandidateFile>)>, CoreError>| candidates_given(rows, out),
            ),
            r matches Ok(groups) ==> forall|k: int| 0 <= k < groups@.len() ==> (#[trigger] groups@[k]).1@.len() > 0
                && (k + 1 < groups@.len() ==> groups@[k].0 != groups@[k + 1].0),
    {
        self.db.size_candidates()
    }

    /// Stores full content hashes and marks the files `hashed`.
    pub fn store_hashes(&mut self, hashes: &[(i64, [u8; 32])]) -> (r: Result<(), CoreError>)
        ensures
            r matches Err(e) ==> e is Db,
            r is Ok ==> final(self).database().writes() == began(old(self).database().writes()) + hash_statements(
                hashes@,
                hashes@.len() as int,
            ) + seq![batch(COMMIT@)],
            r is Err ==> rolled_back(old(self).database().writes(), final(self).database().writes()),
    {
        self.db.store_hashes(hashes)
    }

    /// Live files that still need analysis.
    pub fn files_needing_analysis(&mut self) -> (r: Result<Vec<AnalysisTarget>, CoreError>)
        ensures
            final(self).database().writes() == old(self).database().writes(),
            final(self).has_embedder_spec() == old(self).has_embedder_spec(),
            read_outcome(
                old(self).database().reads(),
                final(self).database().reads(),
                NEEDING_ANALYSIS,
                Seq::<ParamView>::empty(),
                r,
                |rows: Seq<Seq<SqlCell>>, out: Result<Vec<AnalysisTarget>, CoreError>| targets_given(rows, out),
            ),
    {
        self.db.files_needing_analysis()
    }

    /// Exact-duplicate groups, sorted by reclaimable bytes descending.
    pub fn dupes(&mut self) -> (r: Result<Vec<DupeGroup>, CoreError>)
        ensures
            final(self).database().writes() == old(self).database().writes(),
            final(self).has_embedder_spec() == old(self).has_embedder_spec(),
            dupes_read(old(self).database().reads(), final(self).database().reads(), r),
            r matches Ok(groups) ==> forall|k: int| 0 <= k < groups@.len() ==> well_formed_group(
                #[trigger] group_view(groups@[k]),
            ),
            r matches Ok(groups) ==> vstd::relations::sorted_by(groups@.map_values(|g: DupeGroup| group_view(g)), |a: GroupView, b: GroupView| report_le(a, b)),
    {
        self.db.dupe_groups()
    }

    /// Rebuilds near-duplicate clusters from the stored perceptual hashes
    /// (no re-analysis) and returns them, largest first. Two images are
    /// near dupes when their dHash Hamming distance is <= `dhash_max` OR
    /// their pHash distance is <= `phash_max`; clusters are the connected
    /// components of that relation, member paths sorted.
    pub fn cluster_near(&mut self, dhash_max: u32, phash_max: u32) -> (r: Result<Vec<NearCluster>, CoreError>)
        ensures
            final(self).has_embedder_spec() == old(self).has_embedder_spec(),
            r matches Ok(out) ==> forall|k: int| 0 <= k < out@.len() ==> vstd::relations::sorted_by(
                texts((#[trigger] out@[k]).files@),
                lex_order(),
            ),
            r matches Ok(out) ==> near_rebuilt(
                dhash_max,
                phash_max,
                out@,
                old(self).database().writes(),
                final(self).database().writes(),
                old(self).database().reads(),
                final(self).database().reads(),
            ),
            r is Err ==> final(self).database().writes() == old(self).database().writes() || rolled_back(
                old(self).database().writes(),
                final(self).database().writes(),
            ),
    {
        let hashes = self.db.perceptual_hashes()?;
        let ghost mid = self.db.reads();
        let ghost writes_mid = self.db.writes();
        let components = near_components(hashes.as_slice(), dhash_max, phash_max);
        let r = self.db.replace_clusters("near", components.as_slice());
        proof {
            let comps = components@.map_values(|v: Vec<i64>| v@);
            assert(is_near_clustering(hashes@, dhash_max, phash_max, comps));
            if r is Ok {
                let out = r->Ok_0;
                let now = choose|now: i64| #[trigger] clusters_stored(
                    "near"@,
                    now,
                    out@,
                    components@,
                    began(writes_mid),
                    self.database().writes().drop_last(),
                );
                assert(near_clusters_of(hashes@, dhash_max, phash_max, components@));
                assert(hashes_read(old(self).database().reads(), mid, Ok(hashes)));
                assert(clusters_stored(
                    "near"@,
                    now,
                    out@,
                    components@,
                    began(old(self).database().writes()),
                    self.database().writes().drop_last(),
                ));
                assert(near_rebuilt(
                    dhash_max,
                    phash_max,
                    out@,
                    old(self).database().writes(),
                    self.database().writes(),
                    old(self).database().reads(),
                    self.database().reads(),
                ));
            }
        }
        r
    }

    /// Replaces all clusters of `kind` with `components` (lists of file ids)
    /// and returns them with member paths sorted, in component order.
    pub fn replace_clusters(&mut self, kind: &str, components: &[Vec<i64>]) -> (r: Result<Vec<NearCluster>, CoreError>)
        ensures
            r matches Ok(out) ==> out@.len() == components@.len() && forall|k: int| 0 <= k < out@.len() ==> {
                &&& (#[trigger] out@[k]).files@.len() == components@[k]@.len()
                &&& vstd::relations::sorted_by(texts(out@[k].files@), lex_order())
            },
            r matches Ok(out) ==> committed(final(self).database().writes()) && clusters_replaced(
                kind@,
                out@,
                components@,
                began(old(self).database().writes()),
                final(self).database().writes().drop_last(),
            ),
            r is Err ==> rolled_back(old(self).database().writes(), final(self).database().writes()),
            r matches Ok(out) ==> members_read(
                old(self).database().reads(),
                final(self).database().reads(),
                components@.map_values(|v: Vec<i64>| v@),
                out@,
            ),
    {
        self.db.replace_clusters(kind, components)
    }

    /// Analyzed live images for the library grid, newest capture first
    /// (undated images last, path as tiebreak), paginated.
    pub fn grid_items(&mut self, offset: u64, limit: u64) -> (r: Result<Vec<GridItem>, CoreError>)
        ensures
            final(self).database().writes() == old(self).database().writes(),
            final(self).has_embedder_spec() == old(self).has_embedder_spec(),
            grid_read(old(self).database().reads(), final(self).database().reads(), offset, limit, r),
    {
        self.db.grid_items(offset, limit)
    }

    /// Analyzed images the face pass has not visited yet, with their
    /// thumbnails.
    pub fn images_needing_faces(&mut self) -> (r: Result<Vec<(i64, String)>, CoreError>)
        ensures
            final(self).database().writes() == old(self).database().writes(),
            final(self).has_embedder_spec() == old(self).has_embedder_spec(),
            faces_read(old(self).database().reads(), final(self).database().reads(), r),
    {
        self.db.images_needing_faces()
    }

    /// Whether embedding models are attached.
    pub closed spec fn has_embedder_spec(&self) -> bool {
        self.models
    }

    /// Whether embedding models are attached (search available).
    pub fn has_embedder(&self) -> (r: bool)
        ensures
            r == self.has_embedder_spec(),
    {
        self.models
    }

    /// Records the outcome of loading the embedding models from a model
    /// directory: attached when loading succeeded, unchanged (and the
    /// failure reported) when it did not.
    pub fn attach_models(&mut self, loaded: Result<(), CoreError>) -> (r: Result<(), CoreError>)
        ensures
            r is Ok <==> loaded is Ok,
            loaded is Ok ==> final(self).has_embedder_spec(),
            loaded is Err ==> final(self).has_embedder_spec() == old(self).has_embedder_spec(),
    {
        match loaded {
            Ok(()) => {
                self.models = true;
                Ok(())
            },
            Err(e) => Err(e),
        }
    }
}

} // verus!
