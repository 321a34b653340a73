//! What recording one walk does to each file row: insert, leave, revive,
//! reset, or mark missing.
use vstd::prelude::*;
use crate::text::{
    contains_sorted, lemma_lex_order, lex_order, sort_strings, starts_with, str_eq, texts,
};
use crate::FoundFile;

verus! {

/// A stored `files` row as the lookup by path returns it.
#[derive(Debug, Clone)]
pub struct StoredFile {
    pub id: i64,
    pub size: i64,
    pub mtime: i64,
    pub status: String,
}

/// What recording a found file does to its row.
#[derive(Debug, Clone, Copy, PartialEq, Eq)]
pub enum RecordAction {
    /// No row has the path: insert one as `pending`.
    Insert,
    /// The row was `missing` and is back unchanged: restore its status.
    Revive,
    /// Same size and mtime: leave the row alone.
    Unchanged,
    /// Size or mtime changed: reset the row and drop its derived facts.
    Update { id: i64 },
}

/// Outcome of recording one walk of a root.
#[derive(Debug, Default, Clone, Copy, PartialEq, Eq)]
pub struct RecordStats {
    pub added: u64,
    pub updated: u64,
    pub unchanged: u64,
    pub missing: u64,
}

/// The status text of rows whose file is gone.
pub open spec fn missing_status() -> Seq<char> {
    seq!['m', 'i', 's', 's', 'i', 'n', 'g']
}

/// The action for a found file of `size` bytes modified at `mtime`, given
/// the row stored under its path (if any).
pub open spec fn record_action_spec(existing: Option<StoredFile>, size: u64, mtime: i64) -> RecordAction {
    match existing {
        None => RecordAction::Insert,
        Some(row) => if row.size == size as i64 && row.mtime == mtime {
            if row.status@ == missing_status() {
                RecordAction::Revive
            } else {
                RecordAction::Unchanged
            }
        } else {
            RecordAction::Update { id: row.id }
        },
    }
}

/// Decides what recording `found` does to the row stored under its path.
pub fn record_action(existing: &Option<StoredFile>, found: &FoundFile) -> (a: RecordAction)
    ensures
        a == record_action_spec(*existing, found.size, found.mtime),
{
    match existing {
        None => RecordAction::Insert,
        Some(row) => {
            if row.size == found.size as i64 && row.mtime == found.mtime {
                proof {
                    reveal_strlit("missing");
                    assert("missing"@ =~= missing_status());
                }
                if str_eq(row.status.as_str(), "missing") {
                    RecordAction::Revive
                } else {
                    RecordAction::Unchanged
                }
            } else {
                RecordAction::Update { id: row.id }
            }
        },
    }
}

/// The counters after one more action.
pub open spec fn tally_spec(s: RecordStats, a: RecordAction) -> RecordStats {
    match a {
        RecordAction::Insert => RecordStats { added: (s.added + 1) as u64, ..s },
        RecordAction::Unchanged => RecordStats { unchanged: (s.unchanged + 1) as u64, ..s },
        _ => RecordStats { updated: (s.updated + 1) as u64, ..s },
    }
}

/// Counts one action.
pub fn tally(stats: &mut RecordStats, a: RecordAction)
    requires
        old(stats).added < u64::MAX,
        old(stats).updated < u64::MAX,
        old(stats).unchanged < u64::MAX,
    ensures
        *final(stats) == tally_spec(*old(stats), a),
{
    match a {
        RecordAction::Insert => stats.added = stats.added + 1,
        RecordAction::Unchanged => stats.unchanged = stats.unchanged + 1,
        _ => stats.updated = stats.updated + 1,
    }
}

/// `s` begins with `p`.
pub open spec fn has_prefix(s: Seq<char>, p: Seq<char>) -> bool {
    p.len() <= s.len() && s.subrange(0, p.len() as int) == p
}

/// Ids of live rows under `prefix` whose path the walk did not find, in row
/// order.
pub open spec fn newly_missing_spec(live: Seq<(i64, Seq<char>)>, prefix: Seq<char>, found: Seq<Seq<char>>) -> Seq<i64>
    decreases live.len(),
{
    if live.len() == 0 {
        Seq::empty()
    } else {
        let prev = newly_missing_spec(live.drop_last(), prefix, found);
        let r = live.last();
        if has_prefix(r.1, prefix) && !found.contains(r.1) {
            prev.push(r.0)
        } else {
            prev
        }
    }
}

/// The paths of found files.
pub open spec fn found_paths(found: Seq<FoundFile>) -> Seq<Seq<char>> {
    found.map_values(|f: FoundFile| f.path@)
}

/// Live rows as plain values.
pub open spec fn live_view(live: Seq<(i64, String)>) -> Seq<(i64, Seq<char>)> {
    live.map_values(|r: (i64, String)| (r.0, r.1@))
}

/// Ids of the live rows (`(id, path)`) under `prefix` that the walk did not
/// find.
// The found paths are searched in the slice itself rather than through a
// `HashSet<&str>`: vstd gives set lookups a meaning only for key types known
// to obey its key model (integers and `bool`), and a string key would need
// that assumed.
pub fn newly_missing(live: &[(i64, String)], prefix: &str, found: &[FoundFile]) -> (ids: Vec<i64>)
    ensures
        ids@ == newly_missing_spec(live_view(live@), prefix@, found_paths(found@)),
{
    let mut paths: Vec<String> = Vec::new();
    let mut k: usize = 0;
    while k < found.len()
        invariant
            k <= found@.len(),
            texts(paths@) == found_paths(found@).take(k as int),
        decreases found@.len() - k,
    {
        let ghost before = paths@;
        let p = found[k].path.clone();
        paths.push(p);
        proof {
            assert(paths@ == before.push(p));
            assert(texts(paths@) =~= texts(before).push(p@));
            assert(found_paths(found@).take(k + 1) =~= found_paths(found@).take(k as int).push(found@[k as int].path@));
        }
        k += 1;
    }
    proof {
        assert(found_paths(found@).take(found@.len() as int) =~= found_paths(found@));
    }
    let ghost fp = found_paths(found@);
    let sorted = sort_strings(paths);
    proof {
        lemma_lex_order();
        fp.lemma_sort_by_ensures(lex_order());
        assert forall|x: Seq<char>| texts(sorted@).contains(x) == fp.contains(x) by {
            vstd::seq_lib::to_multiset_contains(texts(sorted@), x);
            vstd::seq_lib::to_multiset_contains(fp, x);
        }
    }
    let ghost lv = live_view(live@);
    let mut ids: Vec<i64> = Vec::new();
    let mut i: usize = 0;
    while i < live.len()
        invariant
            i <= live@.len(),
            lv == live_view(live@),
            fp == found_paths(found@),
            vstd::relations::sorted_by(texts(sorted@), lex_order()),
            forall|x: Seq<char>| texts(sorted@).contains(x) == fp.contains(x),
            ids@ == newly_missing_spec(lv.take(i as int), prefix@, fp),
        decreases live@.len() - i,
    {
        proof {
            assert(lv.take(i + 1).drop_last() =~= lv.take(i as int));
            assert(lv.take(i + 1).last() == (live@[i as int].0, live@[i as int].1@));
        }
        let (id, path) = (live[i].0, live[i].1.as_str());
        if starts_with(path, prefix) && !contains_sorted(sorted.as_slice(), path) {
            ids.push(id);
        }
        i += 1;
    }
    proof {
        assert(lv.take(live@.len() as int) =~= lv);
    }
    ids
}

/// A file found again with the size and mtime its row holds is left alone
/// (never re-read), unless its row was marked missing, which revives it.
pub proof fn lemma_unchanged_files_are_left_alone(row: StoredFile, found: FoundFile)
    requires
        row.size == found.size as i64,
        row.mtime == found.mtime,
    ensures
        row.status@ != missing_status() ==> record_action_spec(Some(row), found.size, found.mtime) == RecordAction::Unchanged,
        row.status@ == missing_status() ==> record_action_spec(Some(row), found.size, found.mtime) == RecordAction::Revive,
{
}

/// A found file whose size or mtime differs from its row resets that row.
pub proof fn lemma_changed_files_are_reset(row: StoredFile, found: FoundFile)
    requires
        row.size != found.size as i64 || row.mtime != found.mtime,
    ensures
        record_action_spec(Some(row), found.size, found.mtime) == (RecordAction::Update { id: row.id }),
{
}

} // verus!
