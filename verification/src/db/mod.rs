//! SQLite persistence, WAL mode: the source of truth for file facts.
pub mod candidates;
pub mod dupes;
pub mod migrations;
pub mod reads;
pub mod record;
pub mod rows;
pub mod sql;
pub mod writes;

use vstd::prelude::*;
use vstd::relations::sorted_by;
use rusqlite::Connection;
use crate::db::dupes::{
    dupe_groups_spec, dupes_from_rows, group_view, lemma_dupe_runs_well_formed, report_le,
    well_formed_group, GroupView, hash_runs,
};
use crate::cluster::near::HashedImage;
use crate::db::candidates::{candidates_from_rows, CandidateFile};
use crate::db::rows::{
    frames_from_rows, grid_from_rows, hashed_from_rows, ids_from_rows, meta_from_rows, targets_from_rows,
    AnalysisTarget, StoredFrame,
};
use crate::text::{lex_order, sort_strings, texts};
use crate::db::record::{newly_missing, record_action, tally, RecordAction, RecordStats, StoredFile};
use crate::db::sql::{
    cell_integer, get_i64, get_text, open_connection, query_rows, run_batch,
    run_statement, last_rowid, SqlCell,
};
use crate::db::reads::{
    dupes_read, faces_read, grid_read, hashes_read, lemma_member_offset_mono, member_offset, members_read, members_read_as,
    path_lookup_gives,
    candidates_given, count_given, frames_given, id_paths_given, ids_given,
    meta_given, page_limit, read_outcome, targets_given, BURST_FRAMES, CLUSTER_IDS, DUPE_ROWS, EMBEDDINGS_COUNT,
    FILE_META, GRID_PAGE, MEMBER_PATH, NEEDING_ANALYSIS, NEEDING_EMBEDDING, NEEDING_FACES, PERCEPTUAL_HASHES, SIZE_CANDIDATES,
};
use crate::db::writes::{
    batch, began, committed, extends, lemma_extends_push, lemma_extends_trans, rolled_back, BEGIN, COMMIT, ROLLBACK,
    lemma_rows_view,
    lookup_gives, live_gives, queried, rows_view, walk_reads, Query, LIVE_FILES, LOOKUP_FILE,
    action_statements, hash_statements, issued, lemma_walk_prefix, missing_statements, params_view, to_values,
    walk_action, walk_recorded, walk_was_recorded, ParamView, clear_statements, cluster_statements, clusters_replaced, clusters_stored,
    lemma_cluster_statements_prefix, member_statements,
    walk_statements, walk_tally, Issued, Param, DELETE_CLUSTERS, DELETE_MEMBERS, DROP_EMBEDDING, DROP_IMAGE,
    INSERT_CLUSTER, INSERT_FILE, INSERT_MEMBER, MARK_MISSING, RESET_FILE, REVIVE_FILE, SET_HASH,
};
use crate::db::record::live_view;
use crate::db::migrations::{
    migration_plan, migration_steps, open_statements, opened, plan_statements, version_pragma_text, version_read,
    versions, FOREIGN_KEYS, JOURNAL_WAL, SYNC_NORMAL, USER_VERSION, V1,
};
use crate::text::dir_prefix;
use crate::{column_error, db_error, CoreError, DupeGroup, FoundFile, GridItem, NearCluster};

verus! {

/// The library database.
pub struct Db {
    conn: Connection,
    /// Every data-changing statement the library's methods handed to the
    /// database so far (statements run on [`Db::connection`] are not among
    /// them).
    writes: Ghost<Seq<Issued>>,
    /// Every query the library's methods ran that returned rows so far,
    /// with those rows.
    reads: Ghost<Seq<Query>>,
}

impl Db {
    /// Opens (creating if needed) the database file, enables WAL, runs
    /// migrations (see [`opened`]). The directory that holds the file must
    /// exist.
    pub fn open(path: &str) -> (r: Result<Db, CoreError>)
        ensures
            r matches Ok(d) ==> opened(d.writes(), d.reads()),
            r matches Err(CoreError::Schema { version }) ==> migration_steps(version as int) is Err,
    {
        let conn = db_error(open_connection(path))?;
        let mut db = Db { conn, writes: Ghost(Seq::empty()), reads: Ghost(Seq::empty()) };
        db.run_logged_batch(JOURNAL_WAL)?;
        db.run_logged_batch(SYNC_NORMAL)?;
        db.run_logged_batch(FOREIGN_KEYS)?;
        proof {
            assert(db.writes() =~= open_statements());
        }
        let params: Vec<Param> = Vec::new();
        proof {
            assert(params_view(params@) =~= Seq::<ParamView>::empty());
        }
        let rows = db.run_query(USER_VERSION, params)?;
        if rows.len() == 0 {
            return Err(CoreError::Column { column: 0 });
        }
        let version = column_error(get_i64(rows[0].as_slice(), 0))?;
        proof {
            lemma_rows_view(rows@);
            assert(db.reads()[0].rows[0] == rows@[0]@);
            assert(version_read(db.reads(), version));
        }
        let plan = migration_plan(version)?;
        let ghost steps = versions(plan@);
        let ghost reads_now = db.reads();
        let mut i: usize = 0;
        while i < plan.len()
            invariant
                i <= plan@.len(),
                steps == versions(plan@),
                forall|k: int| 0 <= k < plan@.len() ==> #[trigger] plan@[k] < migrations::CURRENT_VERSION,
                db.writes() == open_statements() + plan_statements(steps.take(i as int)),
                db.reads() == reads_now,
            decreases plan@.len() - i,
        {
            db.run_logged_batch(V1)?;
            let pragma = version_pragma_text(plan[i] + 1);
            db.run_logged_batch(pragma.as_str())?;
            proof {
                assert(steps.take(i + 1).drop_last() =~= steps.take(i as int));
                assert(steps.take(i + 1).last() == plan@[i as int] as int);
                assert(db.writes() =~= open_statements() + plan_statements(steps.take(i + 1)));
            }
            i += 1;
        }
        proof {
            assert(steps.take(plan@.len() as int) =~= steps);
            assert(version_read(db.reads(), version));
        }
        Ok(db)
    }

    /// Starts a transaction.
    fn begin(&mut self) -> (r: Result<(), CoreError>)
        ensures
            final(self).reads() == old(self).reads(),
            final(self).writes() == began(old(self).writes()),
            r matches Err(e) ==> e is Db,
    {
        self.run_logged_batch(BEGIN)
    }

    /// Ends a transaction that began with the log at `start`: commits
    /// after `outcome` succeeded; rolls back after it failed, or when the
    /// commit itself failed, and reports the failure.
    fn finish<T>(&mut self, outcome: Result<T, CoreError>, Ghost(start): Ghost<Seq<Issued>>) -> (r: Result<
        T,
        CoreError,
    >)
        requires
            extends(start, old(self).writes()),
        ensures
            final(self).reads() == old(self).reads(),
            r matches Ok(v) ==> (outcome == Ok::<T, CoreError>(v) && final(self).writes() == old(self).writes().push(
                batch(COMMIT@),
            ) && final(self).writes().drop_last() == old(self).writes()),
            outcome is Err ==> r == outcome,
            outcome is Ok && r is Err ==> r matches Err(CoreError::Db(_)),
            r is Err ==> extends(start, final(self).writes()) && final(self).writes().last() == batch(ROLLBACK@),
    {
        let ghost mid = self.writes();
        let r = match outcome {
            Ok(v) => match self.run_logged_batch(COMMIT) {
                Ok(()) => Ok(v),
                Err(e) => {
                    let _ = self.run_logged_batch(ROLLBACK);
                    Err(e)
                },
            },
            Err(e) => {
                let _ = self.run_logged_batch(ROLLBACK);
                Err(e)
            },
        };
        proof {
            lemma_extends_push(mid, batch(COMMIT@));
            lemma_extends_push(mid, batch(ROLLBACK@));
            lemma_extends_push(mid.push(batch(COMMIT@)), batch(ROLLBACK@));
            if r is Err {
                if self.writes() == mid.push(batch(ROLLBACK@)) {
                    lemma_extends_trans(start, mid, self.writes());
                } else {
                    lemma_extends_trans(mid, mid.push(batch(COMMIT@)), self.writes());
                    lemma_extends_trans(start, mid, self.writes());
                }
            }
        }
        r
    }

    /// Hands a batch of statements to the database and records it.
    fn run_logged_batch(&mut self, sql: &str) -> (r: Result<(), CoreError>)
        ensures
            final(self).reads() == old(self).reads(),
            final(self).writes() == old(self).writes().push(batch(sql@)),
            r matches Err(e) ==> e is Db,
    {
        let outcome = run_batch(&self.conn, sql);
        self.writes = Ghost(self.writes@.push(batch(sql@)));
        db_error(outcome)
    }

    /// The data-changing statements the library's methods handed to the
    /// database through this handle, in order.
    pub closed spec fn writes(&self) -> Seq<Issued> {
        self.writes@
    }

    /// The queries the library's methods ran through this handle that
    /// returned rows, with those rows, in order.
    pub closed spec fn reads(&self) -> Seq<Query> {
        self.reads@
    }

    /// Runs one query and records it with the rows it returned.
    fn run_query(&mut self, sql: &str, params: Vec<Param>) -> (r: Result<Vec<Vec<SqlCell>>, CoreError>)
        ensures
            final(self).writes() == old(self).writes(),
            r matches Ok(rows) ==> final(self).reads() == old(self).reads().push(
                queried(sql, params_view(params@), rows_view(rows@)),
            ),
            r is Err ==> final(self).reads() == old(self).reads() && r matches Err(CoreError::Db(_)),
    {
        let values = to_values(params.as_slice());
        match query_rows(&self.conn, sql, values.as_slice()) {
            Ok(rows) => {
                self.reads = Ghost(self.reads@.push(queried(sql, params_view(params@), rows_view(rows@))));
                Ok(rows)
            },
            Err(e) => Err(CoreError::Db(e)),
        }
    }

    /// Hands one data-changing statement to the database and records it.
    fn run_write(&mut self, sql: &str, params: Vec<Param>) -> (r: Result<(), CoreError>)
        ensures
            final(self).reads() == old(self).reads(),
            final(self).writes() == old(self).writes().push(issued(sql, params_view(params@))),
            r matches Err(e) ==> e is Db,
            extends(old(self).writes(), final(self).writes()),
    {
        let values = to_values(params.as_slice());
        let outcome = run_statement(&self.conn, sql, values.as_slice());
        self.writes = Ghost(self.writes@.push(issued(sql, params_view(params@))));
        match outcome {
            Ok(_) => Ok(()),
            Err(e) => Err(CoreError::Db(e)),
        }
    }

    /// [`Db::run_write`], inside a step that began with the log at `base`.
    fn write_extending(&mut self, sql: &str, params: Vec<Param>, Ghost(base): Ghost<Seq<Issued>>) -> (r: Result<
        (),
        CoreError,
    >)
        requires
            extends(base, old(self).writes()),
        ensures
            final(self).reads() == old(self).reads(),
            final(self).writes() == old(self).writes().push(issued(sql, params_view(params@))),
            r matches Err(e) ==> e is Db,
            extends(base, final(self).writes()),
    {
        let r = self.run_write(sql, params);
        proof {
            lemma_extends_trans(base, old(self).writes(), self.writes());
        }
        r
    }

    /// Incrementally records one walk of `root`:
    /// - new paths are inserted as `pending`;
    /// - rows whose size and mtime are unchanged are left alone;
    /// - changed rows get the new size/mtime, a cleared hash, and `pending`,
    ///   and lose their analysis and embedding rows;
    /// - rows under `root` not in `found` are marked `missing`;
    /// - previously-missing rows that reappeared unchanged get their old
    ///   status back (`hashed` if a hash is stored, else `pending`).
    /// Every found file counts once as added, updated or unchanged. All of
    /// it runs in one transaction, rolled back on any failure.
    pub fn record_found(&mut self, root: &str, found: &[FoundFile]) -> (r: Result<RecordStats, CoreError>)
        ensures
            r matches Ok(s) ==> s.added + s.updated + s.unchanged == found@.len(),
            r matches Ok(s) ==> committed(final(self).writes()) && walk_was_recorded(
                found@,
                dir_prefix(root@),
                s,
                began(old(self).writes()),
                final(self).writes().drop_last(),
                old(self).reads(),
                final(self).reads(),
            ),
            r is Err ==> rolled_back(old(self).writes(), final(self).writes()),
    {
        self.begin()?;
        let ghost start = self.writes();
        let outcome = self.record_walk(root, found);
        self.finish(outcome, Ghost(start))
    }

    fn record_walk(&mut self, root: &str, found: &[FoundFile]) -> (r: Result<RecordStats, CoreError>)
        ensures
            r matches Ok(s) ==> s.added + s.updated + s.unchanged == found@.len(),
            r matches Ok(s) ==> walk_was_recorded(
                found@,
                dir_prefix(root@),
                s,
                old(self).writes(),
                final(self).writes(),
                old(self).reads(),
                final(self).reads(),
            ),
            extends(old(self).writes(), final(self).writes()),
    {
        let count: usize = found.len();
        proof {
            assert(count as int <= u64::MAX);
        }
        let ghost before = self.writes();
        let ghost reads_before = self.reads();
        let ghost mut lookups: Seq<Query> = Seq::empty();
        let ghost mut existing: Seq<Option<StoredFile>> = Seq::empty();
        let mut stats = RecordStats { added: 0, updated: 0, unchanged: 0, missing: 0 };
        let mut i: usize = 0;
        while i < found.len()
            invariant
                i <= found@.len(),
                found@.len() <= u64::MAX,
                existing.len() == i,
                stats.added + stats.updated + stats.unchanged == i,
                stats.added == walk_tally(existing, found@, i as int).added,
                stats.updated == walk_tally(existing, found@, i as int).updated,
                stats.unchanged == walk_tally(existing, found@, i as int).unchanged,
                self.writes() == before + walk_statements(existing, found@, i as int),
                extends(before, self.writes()),
                before == old(self).writes(),
                self.reads() == reads_before + lookups,
                lookups.len() == i,
                forall|j: int| 0 <= j < i ==> lookup_gives(#[trigger] lookups[j], found@[j].path@, existing[j]),
            decreases found@.len() - i,
        {
            let f = &found[i];
            let ghost reads_now = self.reads();
            let row = self.stored_file(f.path.as_str())?;
            let action = record_action(&row, f);
            let ghost prev_writes = self.writes();
            let ghost prev_existing = existing;
            proof {
                assert(self.reads() =~= self.reads().drop_last().push(self.reads().last()));
                lookups = lookups.push(self.reads().last());
                assert(self.reads() =~= reads_before + lookups);
                existing = existing.push(row);
                lemma_walk_prefix(prev_existing, existing, found@, i as int);
            }
            self.apply_action(f, action, Ghost(before))?;
            tally(&mut stats, action);
            proof {
                assert(walk_action(existing, found@, i as int) == action);
                assert(self.writes() =~= before + walk_statements(existing, found@, i + 1));
            }
            i += 1;
        }
        let prefix = crate::text::dir_prefix_of(root);
        let ghost walked_reads = self.reads();
        let rows = self.run_query(LIVE_FILES, Vec::new())?;
        let live = id_path_rows(rows.as_slice())?;
        proof {
            assert(params_view(Seq::<Param>::empty()) =~= Seq::<ParamView>::empty());
        }
        let ids = newly_missing(live.as_slice(), prefix.as_str(), found);
        let ghost walked = self.writes();
        let ghost after_live = self.reads();
        let mut k: usize = 0;
        while k < ids.len()
            invariant
                k <= ids@.len(),
                self.writes() == walked + missing_statements(ids@, k as int),
                extends(before, self.writes()),
                before == old(self).writes(),
                self.reads() == after_live,
            decreases ids@.len() - k,
        {
            let params = vec![Param::Integer(ids[k])];
            proof {
                assert(params_view(params@) =~= seq![ParamView::Integer(ids@[k as int])]);
            }
            self.write_extending(MARK_MISSING, params, Ghost(before))?;
            k += 1;
        }
        stats.missing = ids.len() as u64;
        proof {
            assert(ids@ =~= ids@.take(ids@.len() as int));
            assert(walk_recorded(existing, live_view(live@), found@, dir_prefix(root@), stats, before, self.writes()));
            assert(before == old(self).writes());
            assert(walk_recorded(existing, live_view(live@), found@, dir_prefix(root@), stats, old(self).writes(), self.writes()));
            let ra = self.reads();
            assert(ra.subrange(reads_before.len() as int, ra.len() - 1) =~= lookups);
            assert(ra.subrange(0, reads_before.len() as int) =~= reads_before);
            assert forall|k: int| 0 <= k < live@.len() implies {
                &&& cell_integer((#[trigger] ra.last().rows[k])[0]) == Some(live_view(live@)[k].0)
                &&& ra.last().rows[k][1] is Text
                &&& ra.last().rows[k][1]->Text_0@ == live_view(live@)[k].1
            } by {
                assert(ra.last().rows[k] == rows@[k]@);
            }
            assert(live_gives(ra.last(), live_view(live@)));
            assert(walk_reads(old(self).reads(), ra, found@, existing, live_view(live@)));
            assert(walk_was_recorded(found@, dir_prefix(root@), stats, old(self).writes(), self.writes(), old(self).reads(), ra));
        }
        Ok(stats)
    }

    /// The row stored under `path`, if any.
    fn stored_file(&mut self, path: &str) -> (r: Result<Option<StoredFile>, CoreError>)
        ensures
            final(self).writes() == old(self).writes(),
            r matches Ok(e) ==> final(self).reads().len() == old(self).reads().len() + 1 && final(self).reads().drop_last()
                == old(self).reads() && lookup_gives(final(self).reads().last(), path@, e),
    {
        let params = vec![Param::Text(path.to_owned())];
        proof {
            assert(params_view(params@) =~= seq![ParamView::Text(path@)]);
        }
        let rows = self.run_query(LOOKUP_FILE, params)?;
        let r = stored_from_rows(rows.as_slice());
        proof {
            if rows@.len() > 0 {
                assert(self.reads().last().rows[0] == rows@[0]@);
            }
            assert(self.reads().drop_last() =~= old(self).reads());
        }
        r
    }

    /// Carries out one record action for `f`.
    fn apply_action(&mut self, f: &FoundFile, action: RecordAction, Ghost(base): Ghost<Seq<Issued>>) -> (r: Result<
        (),
        CoreError,
    >)
        requires
            extends(base, old(self).writes()),
        ensures
            action is Unchanged ==> r is Ok,
            r matches Err(e) ==> e is Db,
            r is Ok ==> final(self).writes() == old(self).writes() + action_statements(*f, action),
            extends(base, final(self).writes()),
            final(self).reads() == old(self).reads(),
    {
        let ghost before = self.writes();
        match action {
            RecordAction::Insert => {
                let params = vec![Param::Text(f.path.clone()), Param::Integer(f.size as i64), Param::Integer(f.mtime)];
                proof {
                    assert(params_view(params@) =~= seq![ParamView::Text(f.path@), ParamView::Integer(f.size as i64), ParamView::Integer(f.mtime)]);
                }
                self.write_extending(INSERT_FILE, params, Ghost(base))?;
            },
            RecordAction::Revive => {
                let params = vec![Param::Text(f.path.clone())];
                proof {
                    assert(params_view(params@) =~= seq![ParamView::Text(f.path@)]);
                }
                self.write_extending(REVIVE_FILE, params, Ghost(base))?;
            },
            RecordAction::Unchanged => {},
            RecordAction::Update { id } => {
                let params = vec![Param::Text(f.path.clone()), Param::Integer(f.size as i64), Param::Integer(f.mtime)];
                let by_id = vec![Param::Integer(id)];
                let again = vec![Param::Integer(id)];
                proof {
                    assert(params_view(params@) =~= seq![ParamView::Text(f.path@), ParamView::Integer(f.size as i64), ParamView::Integer(f.mtime)]);
                    assert(params_view(by_id@) =~= seq![ParamView::Integer(id)]);
                    assert(params_view(again@) =~= seq![ParamView::Integer(id)]);
                }
                self.write_extending(RESET_FILE, params, Ghost(base))?;
                self.write_extending(DROP_EMBEDDING, by_id, Ghost(base))?;
                self.write_extending(DROP_IMAGE, again, Ghost(base))?;
            },
        }
        proof {
            assert(self.writes() =~= before + action_statements(*f, action));
        }
        Ok(())
    }

    /// Exact-duplicate groups among live hashed files, sorted by reclaimable
    /// bytes descending (then keeper path). Members are sorted keeper-first
    /// (oldest mtime, then shortest path, then path); every group has at
    /// least two members.
    pub fn dupe_groups(&mut self) -> (r: Result<Vec<DupeGroup>, CoreError>)
        ensures
            final(self).writes() == old(self).writes(),
            dupes_read(old(self).reads(), final(self).reads(), r),
            r matches Ok(groups) ==> forall|k: int| 0 <= k < groups@.len() ==> well_formed_group(
                #[trigger] group_view(groups@[k]),
            ),
            r matches Ok(groups) ==> sorted_by(groups@.map_values(|g: DupeGroup| group_view(g)), |a: GroupView, b: GroupView| report_le(a, b)),
    {
        let params: Vec<Param> = Vec::new();
        proof {
            assert(params_view(params@) =~= Seq::<ParamView>::empty());
        }
        let rows = self.run_query(DUPE_ROWS, params)?;
        let decoded = dupes_from_rows(rows.as_slice());
        proof {
            assert(self.reads().last().rows =~= rows_view(rows@));
            crate::db::reads::lemma_one_query(old(self).reads(), DUPE_ROWS, Seq::<ParamView>::empty(), rows@);
            assert(rows_view(rows@).map_values(|c: Seq<SqlCell>| crate::db::dupes::dupe_row_cells(c)->0)
                =~= rows@.map_values(|c: Vec<SqlCell>| crate::db::dupes::dupe_row_cells(c@)->0));
        }
        let groups = match decoded {
            Ok(g) => g,
            Err(e) => return Err(e),
        };
        proof {
            let gv = groups@.map_values(|g: DupeGroup| group_view(g));
            let runs = hash_runs(rows@.map_values(|c: Vec<SqlCell>| crate::db::dupes::dupe_row_cells(c@)->0));
            lemma_dupe_runs_well_formed(runs);
            assert forall|k: int| 0 <= k < groups@.len() implies well_formed_group(#[trigger] group_view(groups@[k])) by {
                assert(gv[k] == group_view(groups@[k]));
                vstd::seq_lib::to_multiset_contains(gv, gv[k]);
                vstd::seq_lib::to_multiset_contains(dupe_groups_spec(rows@.map_values(|c: Vec<SqlCell>| crate::db::dupes::dupe_row_cells(c@)->0)), gv[k]);
            }
        }
        Ok(groups)
    }

    /// Groups of live (non-missing) files sharing a size, for sizes with at
    /// least two files, in size order: the size-first candidates for
    /// hashing.
    pub fn size_candidates(&mut self) -> (r: Result<Vec<(u64, Vec<CandidateFile>)>, CoreError>)
        ensures
            final(self).writes() == old(self).writes(),
            read_outcome(
                old(self).reads(),
                final(self).reads(),
                SIZE_CANDIDATES,
                Seq::<ParamView>::empty(),
                r,
                |rows: Seq<Seq<SqlCell>>, out: Result<Vec<(u64, Vec<CandidateFile>)>, CoreError>| candidates_given(rows, out),
            ),
            r matches Ok(groups) ==> forall|k: int| 0 <= k < groups@.len() ==> (#[trigger] groups@[k]).1@.len() > 0
                && (k + 1 < groups@.len() ==> groups@[k].0 != groups@[k + 1].0),
    {
        let params: Vec<Param> = Vec::new();
        proof {
            assert(params_view(params@) =~= Seq::<ParamView>::empty());
        }
        let rows = self.run_query(SIZE_CANDIDATES, params)?;
        let decoded = candidates_from_rows(rows.as_slice());
        proof {
            assert(self.reads().last().rows =~= rows_view(rows@));
            crate::db::reads::lemma_one_query(old(self).reads(), SIZE_CANDIDATES, Seq::<ParamView>::empty(), rows@);
            assert(rows_view(rows@).map_values(|c: Seq<SqlCell>| crate::db::candidates::candidate_cells(c)->0)
                =~= rows@.map_values(|c: Vec<SqlCell>| crate::db::candidates::candidate_cells(c@)->0));
        }
        let groups = match decoded {
            Ok(g) => g,
            Err(e) => return Err(e),
        };
        proof {
            let gv = groups@.map_values(|g: (u64, Vec<CandidateFile>)| crate::db::candidates::size_group_view(g));
            crate::db::candidates::lemma_size_runs_shape(rows@.map_values(
                |c: Vec<SqlCell>| crate::db::candidates::candidate_cells(c@)->0,
            ));
            assert forall|k: int| 0 <= k < groups@.len() implies (#[trigger] groups@[k]).1@.len() > 0 && (k + 1
                < groups@.len() ==> groups@[k].0 != groups@[k + 1].0) by {
                assert(gv[k] == crate::db::candidates::size_group_view(groups@[k]));
                if k + 1 < groups@.len() {
                    assert(gv[k + 1] == crate::db::candidates::size_group_view(groups@[k + 1]));
                }
            }
        }
        Ok(groups)
    }

    /// Stores content hashes and marks the rows `hashed`, in one
    /// transaction, rolled back on any failure.
    pub fn store_hashes(&mut self, hashes: &[(i64, [u8; 32])]) -> (r: Result<(), CoreError>)
        ensures
            r matches Err(e) ==> e is Db,
            r is Ok ==> final(self).writes() == began(old(self).writes()) + hash_statements(hashes@, hashes@.len() as int)
                + seq![batch(COMMIT@)],
            r is Err ==> rolled_back(old(self).writes(), final(self).writes()),
    {
        self.begin()?;
        let ghost start = self.writes();
        let outcome = self.write_hashes(hashes);
        self.finish(outcome, Ghost(start))
    }

    fn write_hashes(&mut self, hashes: &[(i64, [u8; 32])]) -> (r: Result<(), CoreError>)
        ensures
            hashes@.len() == 0 ==> r is Ok,
            r matches Err(e) ==> e is Db,
            r is Ok ==> final(self).writes() == old(self).writes() + hash_statements(hashes@, hashes@.len() as int),
            extends(old(self).writes(), final(self).writes()),
    {
        let ghost before = self.writes();
        let mut i: usize = 0;
        while i < hashes.len()
            invariant
                i <= hashes@.len(),
                self.writes() == before + hash_statements(hashes@, i as int),
                extends(before, self.writes()),
                before == old(self).writes(),
            decreases hashes@.len() - i,
        {
            let params = vec![Param::Integer(hashes[i].0), Param::Blob(bytes_of(&hashes[i].1))];
            proof {
                assert(params_view(params@) =~= seq![ParamView::Integer(hashes@[i as int].0), ParamView::Blob(hashes@[i as int].1@)]);
            }
            self.write_extending(SET_HASH, params, Ghost(before))?;
            i += 1;
        }
        Ok(())
    }

    /// Live files that have no `images` row yet (never analyzed, or their
    /// content changed and the stale row was dropped), by id.
    pub fn files_needing_analysis(&mut self) -> (r: Result<Vec<AnalysisTarget>, CoreError>)
        ensures
            final(self).writes() == old(self).writes(),
            read_outcome(
                old(self).reads(),
                final(self).reads(),
                NEEDING_ANALYSIS,
                Seq::<ParamView>::empty(),
                r,
                |rows: Seq<Seq<SqlCell>>, out: Result<Vec<AnalysisTarget>, CoreError>| targets_given(rows, out),
            ),
    {
        let params = Vec::new();
        proof {
            assert(params_view(params@) =~= Seq::<ParamView>::empty());
        }
        let rows = self.run_query(NEEDING_ANALYSIS, params)?;
        let out = targets_from_rows(rows.as_slice());
        proof {
            assert(self.reads().last().rows =~= rows_view(rows@));
            crate::db::reads::lemma_one_query(old(self).reads(), NEEDING_ANALYSIS, Seq::<ParamView>::empty(), rows@);
        }
        out
    }

    /// Perceptual hashes of live analyzed images, one representative per
    /// content hash (smallest file id): exact duplicates belong to the dupes
    /// flow, not near clusters.
    pub fn perceptual_hashes(&mut self) -> (r: Result<Vec<HashedImage>, CoreError>)
        ensures
            final(self).writes() == old(self).writes(),
            hashes_read(old(self).reads(), final(self).reads(), r),
    {
        let params = Vec::new();
        proof {
            assert(params_view(params@) =~= Seq::<ParamView>::empty());
        }
        let rows = self.run_query(PERCEPTUAL_HASHES, params)?;
        let out = hashed_from_rows(rows.as_slice());
        proof {
            assert(self.reads().last().rows =~= rows_view(rows@));
            crate::db::reads::lemma_one_query(old(self).reads(), PERCEPTUAL_HASHES, Seq::<ParamView>::empty(), rows@);
        }
        out
    }

    /// Replaces all clusters of `kind` with `components` (lists of file ids)
    /// and returns them with member paths sorted, preserving component order:
    /// the paths are those the database gave for each member's id. All of
    /// it runs in one transaction, rolled back on any failure.
    pub fn replace_clusters(&mut self, kind: &str, components: &[Vec<i64>]) -> (r: Result<Vec<NearCluster>, CoreError>)
        ensures
            r matches Ok(out) ==> out@.len() == components@.len() && forall|k: int| 0 <= k < out@.len() ==> {
                &&& (#[trigger] out@[k]).files@.len() == components@[k]@.len()
                &&& vstd::relations::sorted_by(texts(out@[k].files@), lex_order())
            },
            r matches Ok(out) ==> committed(final(self).writes()) && clusters_replaced(
                kind@,
                out@,
                components@,
                began(old(self).writes()),
                final(self).writes().drop_last(),
            ),
            r matches Ok(out) ==> members_read(
                old(self).reads(),
                final(self).reads(),
                components@.map_values(|v: Vec<i64>| v@),
                out@,
            ),
            r is Err ==> rolled_back(old(self).writes(), final(self).writes()),
    {
        let now = unix_now();
        self.begin()?;
        let ghost start = self.writes();
        let outcome = self.write_clusters(kind, components, now);
        self.finish(outcome, Ghost(start))
    }

    fn write_clusters(&mut self, kind: &str, components: &[Vec<i64>], now: i64) -> (r: Result<Vec<NearCluster>, CoreError>)
        ensures
            r matches Ok(out) ==> out@.len() == components@.len() && forall|k: int| 0 <= k < out@.len() ==> {
                &&& (#[trigger] out@[k]).files@.len() == components@[k]@.len()
                &&& vstd::relations::sorted_by(texts(out@[k].files@), lex_order())
            },
            r matches Ok(out) ==> clusters_stored(kind@, now, out@, components@, old(self).writes(), final(self).writes()),
            r matches Ok(out) ==> members_read(
                old(self).reads(),
                final(self).reads(),
                components@.map_values(|v: Vec<i64>| v@),
                out@,
            ),
            extends(old(self).writes(), final(self).writes()),
    {
        let ghost before = self.writes();
        let ghost reads0 = self.reads();
        let ghost comps = components@.map_values(|v: Vec<i64>| v@);
        let ghost mut paths: Seq<Seq<Seq<char>>> = Seq::empty();
        let p1 = vec![Param::Text(kind.to_owned())];
        let p2 = vec![Param::Text(kind.to_owned())];
        proof {
            assert(params_view(p1@) =~= seq![ParamView::Text(kind@)]);
            assert(params_view(p2@) =~= seq![ParamView::Text(kind@)]);
        }
        self.write_extending(DELETE_MEMBERS, p1, Ghost(before))?;
        self.write_extending(DELETE_CLUSTERS, p2, Ghost(before))?;
        proof {
            assert(self.writes() =~= before + clear_statements(kind@));
            assert(self.reads().subrange(0, reads0.len() as int) =~= reads0);
        }
        let mut out: Vec<NearCluster> = Vec::new();
        let mut c: usize = 0;
        while c < components.len()
            invariant
                c <= components@.len(),
                out@.len() == c,
                comps == components@.map_values(|v: Vec<i64>| v@),
                forall|k: int| 0 <= k < c ==> {
                    &&& (#[trigger] out@[k]).files@.len() == components@[k]@.len()
                    &&& vstd::relations::sorted_by(texts(out@[k].files@), lex_order())
                },
                self.writes() == before + clear_statements(kind@) + cluster_statements(
                    kind@,
                    now,
                    out@.map_values(|o: NearCluster| o.id),
                    comps,
                    c as int,
                ),
                paths.len() == c,
                extends(before, self.writes()),
                before == old(self).writes(),
                self.reads().len() == reads0.len() + member_offset(comps, c as int),
                self.reads().subrange(0, reads0.len() as int) == reads0,
                forall|k: int| 0 <= k < c ==> (#[trigger] paths[k]).len() == comps[k].len(),
                forall|k: int, m: int|
                    0 <= k < c && 0 <= m < comps[k].len() ==> path_lookup_gives(
                        self.reads()[reads0.len() + member_offset(comps, k) + m],
                        comps[k][m],
                        #[trigger] paths[k][m],
                    ),
                forall|k: int| 0 <= k < c ==> texts((#[trigger] out@[k]).files@) == paths[k].sort_by(lex_order()),
            decreases components@.len() - c,
        {
            let ghost start = self.writes();
            let ghost prev_ids = out@.map_values(|o: NearCluster| o.id);
            let ghost reads_c = self.reads();
            let ghost paths_c = paths;
            let cluster_params = vec![Param::Text(kind.to_owned()), Param::Integer(now)];
            proof {
                assert(params_view(cluster_params@) =~= seq![ParamView::Text(kind@), ParamView::Integer(now)]);
            }
            self.write_extending(INSERT_CLUSTER, cluster_params, Ghost(before))?;
            let cluster_id = last_rowid(&self.conn);
            let component = &components[c];
            proof {
                assert(comps[c as int] == component@);
            }
            let ghost inserted = self.writes();
            let ghost mut cur: Seq<Seq<char>> = Seq::empty();
            let mut files: Vec<String> = Vec::new();
            let mut m: usize = 0;
            while m < component.len()
                invariant
                    m <= component@.len(),
                    files@.len() == m,
                    self.writes() == inserted + member_statements(cluster_id, component@, m as int),
                    extends(before, self.writes()),
                    before == old(self).writes(),
                    cur.len() == m,
                    texts(files@) == cur,
                    self.reads().len() == reads_c.len() + m,
                    self.reads().subrange(0, reads_c.len() as int) == reads_c,
                    forall|j: int| 0 <= j < m ==> path_lookup_gives(
                        self.reads()[reads_c.len() + j],
                        component@[j],
                        #[trigger] cur[j],
                    ),
                decreases component@.len() - m,
            {
                let member_params = vec![Param::Integer(cluster_id), Param::Integer(component[m])];
                proof {
                    assert(params_view(member_params@) =~= seq![ParamView::Integer(cluster_id), ParamView::Integer(component@[m as int])]);
                }
                self.write_extending(INSERT_MEMBER, member_params, Ghost(before))?;
                let by_id = vec![Param::Integer(component[m])];
                proof {
                    assert(params_view(by_id@) =~= seq![ParamView::Integer(component@[m as int])]);
                }
                let ghost reads_m = self.reads();
                let rows = self.run_query(MEMBER_PATH, by_id)?;
                if rows.len() == 0 {
                    return Err(CoreError::Column { column: 0 });
                }
                let path = column_error(get_text(rows[0].as_slice(), 0))?;
                proof {
                    lemma_rows_view(rows@);
                    let q = self.reads().last();
                    assert(q.rows[0] == rows@[0]@);
                    assert(path_lookup_gives(q, component@[m as int], path@));
                    cur = cur.push(path@);
                    assert forall|j: int| 0 <= j < m + 1 implies path_lookup_gives(
                        self.reads()[reads_c.len() + j],
                        component@[j],
                        #[trigger] cur[j],
                    ) by {
                        if j < m {
                            assert(self.reads()[reads_c.len() + j] == reads_m[reads_c.len() + j]);
                        }
                    }
                    assert(self.reads().subrange(0, reads_c.len() as int) =~= reads_c) by {
                        assert forall|i: int| 0 <= i < reads_c.len() implies self.reads()[i] == reads_c[i] by {
                            assert(self.reads()[i] == reads_m[i]);
                            assert(reads_m.subrange(0, reads_c.len() as int)[i] == reads_m[i]);
                        }
                    }
                }
                files.push(path);
                proof {
                    assert(texts(files@) =~= cur);
                }
                m += 1;
            }
            let ghost unsorted = files@;
            let sorted = sort_strings(files);
            proof {
                crate::text::lemma_lex_order();
                texts(unsorted).lemma_sort_by_ensures(lex_order());
                vstd::seq_lib::to_multiset_len(texts(sorted@));
                vstd::seq_lib::to_multiset_len(texts(unsorted));
            }
            out.push(NearCluster { id: cluster_id, files: sorted });
            proof {
                let ids = out@.map_values(|o: NearCluster| o.id);
                assert(ids =~= prev_ids.push(cluster_id));
                lemma_cluster_statements_prefix(kind@, now, prev_ids, ids, comps, c as int);
                assert(self.writes() =~= before + clear_statements(kind@) + cluster_statements(kind@, now, ids, comps, c + 1));
                let ra = self.reads();
                let base = reads0.len() + member_offset(comps, c as int);
                assert(reads_c.len() == base);
                assert(member_offset(comps, c + 1) == member_offset(comps, c as int) + comps[c as int].len());
                paths = paths.push(cur);
                assert forall|i: int| 0 <= i < reads_c.len() implies #[trigger] ra[i] == reads_c[i] by {
                    assert(ra.subrange(0, reads_c.len() as int)[i] == ra[i]);
                }
                lemma_member_offset_mono(comps, 0, c as int);
                assert(ra.subrange(0, reads0.len() as int) =~= reads0) by {
                    assert forall|i: int| 0 <= i < reads0.len() implies ra[i] == reads0[i] by {
                        assert(ra[i] == reads_c[i]);
                        assert(reads_c.subrange(0, reads0.len() as int)[i] == reads_c[i]);
                    }
                }
                assert forall|k: int, mm: int|
                    0 <= k < c + 1 && 0 <= mm < comps[k].len() implies path_lookup_gives(
                        ra[reads0.len() + member_offset(comps, k) + mm],
                        comps[k][mm],
                        #[trigger] paths[k][mm],
                    ) by {
                    if k < c {
                        lemma_member_offset_mono(comps, k, c as int);
                        assert(paths[k] == paths_c[k]);
                        assert(path_lookup_gives(reads_c[reads0.len() + member_offset(comps, k) + mm], comps[k][mm], paths_c[k][mm]));
                        let idx = reads0.len() + member_offset(comps, k) + mm;
                        assert(0 <= member_offset(comps, k)) by {
                            lemma_member_offset_mono(comps, 0, k);
                        }
                        assert(idx < reads_c.len());
                        assert(ra.subrange(0, reads_c.len() as int)[idx] == ra[idx]);
                        assert(ra[idx] == reads_c[idx]);
                    } else {
                        assert(paths[k] == cur);
                    }
                }
                assert forall|k: int| 0 <= k < c + 1 implies texts((#[trigger] out@[k]).files@) == paths[k].sort_by(lex_order()) by {
                    if k == c {
                        assert(texts(sorted@) == cur.sort_by(lex_order()));
                    }
                }
            }
            c += 1;
        }
        proof {
            assert(clusters_stored(kind@, now, out@, components@, before, self.writes()));
            assert(members_read_as(reads0, self.reads(), comps, out@, paths));
        }
        Ok(out)
    }

    /// Analyzed live images that have no face facts yet but do have a
    /// thumbnail the face pass can read, by id.
    pub fn images_needing_faces(&mut self) -> (r: Result<Vec<(i64, String)>, CoreError>)
        ensures
            final(self).writes() == old(self).writes(),
            faces_read(old(self).reads(), final(self).reads(), r),
    {
        let params = Vec::new();
        proof {
            assert(params_view(params@) =~= Seq::<ParamView>::empty());
        }
        let rows = self.run_query(NEEDING_FACES, params)?;
        let out = id_path_rows(rows.as_slice());
        proof {
            assert(self.reads().last().rows =~= rows_view(rows@));
            crate::db::reads::lemma_one_query(old(self).reads(), NEEDING_FACES, Seq::<ParamView>::empty(), rows@);
        }
        out
    }

    /// Live analyzed images with a thumbnail but no stored embedding yet, by
    /// id: thumbnails are what gets embedded.
    pub fn files_needing_embedding(&mut self) -> (r: Result<Vec<(i64, String)>, CoreError>)
        ensures
            final(self).writes() == old(self).writes(),
            read_outcome(
                old(self).reads(),
                final(self).reads(),
                NEEDING_EMBEDDING,
                Seq::<ParamView>::empty(),
                r,
                |rows: Seq<Seq<SqlCell>>, out: Result<Vec<(i64, String)>, CoreError>| id_paths_given(rows, out),
            ),
    {
        let params = Vec::new();
        proof {
            assert(params_view(params@) =~= Seq::<ParamView>::empty());
        }
        let rows = self.run_query(NEEDING_EMBEDDING, params)?;
        let out = id_path_rows(rows.as_slice());
        proof {
            assert(self.reads().last().rows =~= rows_view(rows@));
            crate::db::reads::lemma_one_query(old(self).reads(), NEEDING_EMBEDDING, Seq::<ParamView>::empty(), rows@);
        }
        out
    }

    /// Ids of every stored cluster.
    pub fn cluster_ids(&mut self) -> (r: Result<Vec<i64>, CoreError>)
        ensures
            final(self).writes() == old(self).writes(),
            read_outcome(
                old(self).reads(),
                final(self).reads(),
                CLUSTER_IDS,
                Seq::<ParamView>::empty(),
                r,
                |rows: Seq<Seq<SqlCell>>, out: Result<Vec<i64>, CoreError>| ids_given(rows, out),
            ),
    {
        let params = Vec::new();
        proof {
            assert(params_view(params@) =~= Seq::<ParamView>::empty());
        }
        let rows = self.run_query(CLUSTER_IDS, params)?;
        let out = ids_from_rows(rows.as_slice());
        proof {
            assert(self.reads().last().rows =~= rows_view(rows@));
            crate::db::reads::lemma_one_query(old(self).reads(), CLUSTER_IDS, Seq::<ParamView>::empty(), rows@);
        }
        out
    }

    /// Number of stored embeddings.
    pub fn embeddings_count(&mut self) -> (r: Result<u64, CoreError>)
        ensures
            final(self).writes() == old(self).writes(),
            read_outcome(
                old(self).reads(),
                final(self).reads(),
                EMBEDDINGS_COUNT,
                Seq::<ParamView>::empty(),
                r,
                |rows: Seq<Seq<SqlCell>>, out: Result<u64, CoreError>| count_given(rows, out),
            ),
    {
        let params: Vec<Param> = Vec::new();
        proof {
            assert(params_view(params@) =~= Seq::<ParamView>::empty());
        }
        let rows = self.run_query(EMBEDDINGS_COUNT, params)?;
        proof {
            assert(self.reads().last().rows =~= rows_view(rows@));
            crate::db::reads::lemma_one_query(old(self).reads(), EMBEDDINGS_COUNT, Seq::<ParamView>::empty(), rows@);
        }
        if rows.len() == 0 {
            return Err(CoreError::Column { column: 0 });
        }
        let count = column_error(get_i64(rows[0].as_slice(), 0))?;
        Ok(count as u64)
    }

    /// Path, thumbnail, and liveness for one file id.
    pub fn file_meta(&mut self, id: i64) -> (r: Result<Option<(String, Option<String>, bool)>, CoreError>)
        ensures
            final(self).writes() == old(self).writes(),
            read_outcome(
                old(self).reads(),
                final(self).reads(),
                FILE_META,
                seq![ParamView::Integer(id)],
                r,
                |rows: Seq<Seq<SqlCell>>, out: Result<Option<(String, Option<String>, bool)>, CoreError>| meta_given(rows, out),
            ),
    {
        let params = vec![Param::Integer(id)];
        proof {
            assert(params_view(params@) =~= seq![ParamView::Integer(id)]);
        }
        let rows = self.run_query(FILE_META, params)?;
        let out = meta_from_rows(rows.as_slice());
        proof {
            assert(self.reads().last().rows =~= rows_view(rows@));
            crate::db::reads::lemma_one_query(old(self).reads(), FILE_META, seq![ParamView::Integer(id)], rows@);
        }
        out
    }

    /// Analyzed live images, newest capture first (`NULL` capture time last,
    /// path as tiebreak), `limit` of them after skipping `offset`.
    pub fn grid_items(&mut self, offset: u64, limit: u64) -> (r: Result<Vec<GridItem>, CoreError>)
        ensures
            final(self).writes() == old(self).writes(),
            grid_read(old(self).reads(), final(self).reads(), offset, limit, r),
    {
        if limit == 0 || offset > 0x7fff_ffff_ffff_ffffu64 {
            return Ok(Vec::new());
        }
        let page = if limit > 0x7fff_ffff_ffff_ffffu64 { 0x7fff_ffff_ffff_ffffi64 } else { limit as i64 };
        let params = vec![Param::Integer(page), Param::Integer(offset as i64)];
        proof {
            assert(params_view(params@) =~= seq![ParamView::Integer(page_limit(limit)), ParamView::Integer(offset as i64)]);
        }
        let rows = self.run_query(GRID_PAGE, params)?;
        let out = grid_from_rows(rows.as_slice());
        proof {
            assert(self.reads().last().rows =~= rows_view(rows@));
            crate::db::reads::lemma_one_query(old(self).reads(), GRID_PAGE, seq![ParamView::Integer(page_limit(limit)), ParamView::Integer(offset as i64)], rows@);
        }
        out
    }

    /// Candidate frames for burst clustering: one representative (smallest
    /// id) per content hash among live analyzed files, in id order, with
    /// camera, capture time and stored embedding.
    pub fn burst_frames(&mut self) -> (r: Result<Vec<StoredFrame>, CoreError>)
        ensures
            final(self).writes() == old(self).writes(),
            read_outcome(
                old(self).reads(),
                final(self).reads(),
                BURST_FRAMES,
                Seq::<ParamView>::empty(),
                r,
                |rows: Seq<Seq<SqlCell>>, out: Result<Vec<StoredFrame>, CoreError>| frames_given(rows, out),
            ),
    {
        let params = Vec::new();
        proof {
            assert(params_view(params@) =~= Seq::<ParamView>::empty());
        }
        let rows = self.run_query(BURST_FRAMES, params)?;
        let out = frames_from_rows(rows.as_slice());
        proof {
            assert(self.reads().last().rows =~= rows_view(rows@));
            crate::db::reads::lemma_one_query(old(self).reads(), BURST_FRAMES, Seq::<ParamView>::empty(), rows@);
        }
        out
    }

    /// The connection the database is reached through.
    pub closed spec fn connection_spec(&self) -> Connection {
        self.conn
    }

    /// The underlying connection, for statements the library does not model
    /// (real-valued analysis signals). What runs on it is not recorded in
    /// [`Db::writes`] or [`Db::reads`].
    pub fn connection(&self) -> (r: &Connection)
        ensures
            *r == self.connection_spec(),
    {
        &self.conn
    }
}

/// Reads the `(id, path)` rows of a query.
pub fn id_path_rows(rows: &[Vec<SqlCell>]) -> (r: Result<Vec<(i64, String)>, CoreError>)
    ensures
        r matches Err(e) ==> !(e is Db),
        r matches Ok(v) ==> v@.len() == rows@.len() && forall|k: int| 0 <= k < v@.len() ==> {
            &&& cell_integer(#[trigger] rows@[k]@[0]) == Some(v@[k].0)
            &&& rows@[k]@[1] == SqlCell::Text(v@[k].1)
        },
        r is Err ==> exists|k: int| 0 <= k < rows@.len() && !(#[trigger] rows@[k]@.len() >= 2 && cell_integer(
            rows@[k]@[0],
        ) is Some && rows@[k]@[1] is Text),
{
    let mut out: Vec<(i64, String)> = Vec::new();
    let mut i: usize = 0;
    while i < rows.len()
        invariant
            i <= rows@.len(),
            out@.len() == i,
            forall|k: int| 0 <= k < i ==> {
                &&& cell_integer(#[trigger] rows@[k]@[0]) == Some(out@[k].0)
                &&& rows@[k]@[1] == SqlCell::Text(out@[k].1)
            },
        decreases rows@.len() - i,
    {
        let row = rows[i].as_slice();
        let id = match get_i64(row, 0) {
            Ok(v) => v,
            Err(e) => return Err(CoreError::Column { column: e.column }),
        };
        let path = match get_text(row, 1) {
            Ok(v) => v,
            Err(e) => return Err(CoreError::Column { column: e.column }),
        };
        out.push((id, path));
        i += 1;
    }
    Ok(out)
}

/// A stored `files` row as plain values: id, size, mtime, status.
pub open spec fn stored_view(f: StoredFile) -> (i64, i64, i64, Seq<char>) {
    (f.id, f.size, f.mtime, f.status@)
}

/// What a row of the path lookup holds: three integers (id, size, mtime)
/// and the status text.
pub open spec fn stored_cells(c: Seq<SqlCell>) -> Option<(i64, i64, i64, Seq<char>)> {
    if c.len() >= 4 && c[0] is Integer && c[1] is Integer && c[2] is Integer && c[3] is Text {
        Some((c[0]->Integer_0, c[1]->Integer_0, c[2]->Integer_0, c[3]->Text_0@))
    } else {
        None
    }
}

/// The stored row a path lookup returned: `None` for no row, else the first
/// row read as `(id, size, mtime, status)`.
pub fn stored_from_rows(rows: &[Vec<SqlCell>]) -> (r: Result<Option<StoredFile>, CoreError>)
    ensures
        r matches Err(e) ==> !(e is Db),
        rows@.len() == 0 ==> r == Ok::<Option<StoredFile>, CoreError>(None),
        rows@.len() > 0 ==> (r is Ok <==> stored_cells(rows@[0]@) is Some),
        rows@.len() > 0 ==> !(r matches Ok(None)),
        r matches Ok(Some(f)) ==> rows@.len() > 0 && stored_cells(rows@[0]@) == Some(stored_view(f)),
        r matches Err(e) ==> e is Column,
{
    if rows.len() == 0 {
        return Ok(None);
    }
    let row = rows[0].as_slice();
    let id = column_error(get_i64(row, 0))?;
    let size = column_error(get_i64(row, 1))?;
    let mtime = column_error(get_i64(row, 2))?;
    let status = column_error(get_text(row, 3))?;
    Ok(Some(StoredFile { id, size, mtime, status }))
}

/// The bytes of a content hash.
pub fn bytes_of(h: &[u8; 32]) -> (v: Vec<u8>)
    ensures
        v@ == h@,
{
    let mut v: Vec<u8> = Vec::new();
    let mut i: usize = 0;
    while i < 32
        invariant
            i <= 32,
            h@.len() == 32,
            v@ == h@.take(i as int),
        decreases 32 - i,
    {
        v.push(h[i]);
        i += 1;
        proof {
            assert(v@ =~= h@.take(i as int));
        }
    }
    assert(h@.take(32) =~= h@);
    v
}

/// `std::time::SystemTime::elapsed` on `UNIX_EPOCH`: the time now, as whole
/// seconds since the unix epoch (0 for a clock before the epoch). Nothing
/// is claimed of the value.
#[verifier::external_body]
pub(crate) fn unix_now() -> (secs: i64) {
    std::time::UNIX_EPOCH.elapsed().map_or(0, |d| d.as_secs() as i64)
}


} // verus!
