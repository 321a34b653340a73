//! Exact-duplicate groups: runs of equal content hashes among live hashed
//! files, members keeper-first, groups most reclaimable first.
use vstd::prelude::*;
use vstd::relations::{sorted_by, total_ordering};
use crate::sort::{lemma_map_preserves_multiset, merge_sort_by, total_preorder};
use crate::text::{lemma_lex_total, lemma_lex_trans, lex_le, str_le};
use crate::db::sql::{get_blob, get_i64, get_text, SqlCell};
use crate::{column_error, CoreError, DupeFile, DupeGroup};

verus! {

/// A live hashed file as the duplicates query returns it.
#[derive(Debug, Clone)]
pub struct DupeRow {
    pub hash: [u8; 32],
    pub size: u64,
    pub file: DupeFile,
}

/// A copy as plain values: path characters and mtime.
pub type CopyView = (Seq<char>, i64);

/// A row as plain values: hash bytes, size, copy.
pub type RowView = (Seq<u8>, u64, CopyView);

/// A run of rows sharing a hash: hash, size of its first row, copies.
pub type RunView = (Seq<u8>, u64, Seq<CopyView>);

/// A reported group: hash, size, copies, reclaimable bytes.
pub type GroupView = (Seq<u8>, u64, Seq<CopyView>, u64);

pub open spec fn copy_view(f: DupeFile) -> CopyView {
    (f.path@, f.mtime)
}

pub open spec fn row_view(r: DupeRow) -> RowView {
    (r.hash@, r.size, copy_view(r.file))
}

pub open spec fn run_view(g: DupeGroup) -> RunView {
    (g.hash@, g.size, g.files@.map_values(|f: DupeFile| copy_view(f)))
}

pub open spec fn group_view(g: DupeGroup) -> GroupView {
    (g.hash@, g.size, g.files@.map_values(|f: DupeFile| copy_view(f)), g.reclaimable)
}

/// Length in bytes of the UTF-8 encoding of `s`, as `str::len` gives it.
pub open spec fn byte_len(s: Seq<char>) -> usize {
    vstd::utf8::encode_utf8(s).len() as usize
}

/// Keeper order: older first, then the shorter path (in bytes), then path
/// order.
pub open spec fn keeper_le(a: CopyView, b: CopyView) -> bool {
    ||| a.1 < b.1
    ||| a.1 == b.1 && byte_len(a.0) < byte_len(b.0)
    ||| a.1 == b.1 && byte_len(a.0) == byte_len(b.0) && lex_le(a.0, b.0)
}

/// Consecutive rows with equal hashes, in row order. A run keeps the size
/// of its first row.
pub open spec fn hash_runs(rows: Seq<RowView>) -> Seq<RunView>
    decreases rows.len(),
{
    if rows.len() == 0 {
        Seq::empty()
    } else {
        let prev = hash_runs(rows.drop_last());
        let r = rows.last();
        if prev.len() > 0 && prev.last().0 == r.0 {
            prev.update(prev.len() - 1, (prev.last().0, prev.last().1, prev.last().2.push(r.2)))
        } else {
            prev.push((r.0, r.1, seq![r.2]))
        }
    }
}

/// Bytes freed by removing all but one of `copies` files of `size` bytes,
/// saturating at `u64::MAX`.
pub open spec fn reclaimable_bytes(size: u64, copies: nat) -> u64 {
    if size * (copies - 1) > u64::MAX {
        u64::MAX
    } else {
        (size * (copies - 1)) as u64
    }
}

/// A run of at least two copies.
pub open spec fn is_dupe_run(r: RunView) -> bool {
    r.2.len() >= 2
}

/// A run as reported: copies keeper-first, with its reclaimable bytes.
pub open spec fn finish_run(r: RunView) -> GroupView {
    (r.0, r.1, r.2.sort_by(|a: CopyView, b: CopyView| keeper_le(a, b)), reclaimable_bytes(r.1, r.2.len()))
}

/// The runs of at least two copies, each as reported.
pub open spec fn dupe_runs(runs: Seq<RunView>) -> Seq<GroupView>
    decreases runs.len(),
{
    if runs.len() == 0 {
        Seq::empty()
    } else {
        let prev = dupe_runs(runs.drop_last());
        if is_dupe_run(runs.last()) {
            prev.push(finish_run(runs.last()))
        } else {
            prev
        }
    }
}

/// The duplicate groups of a row sequence, before report ordering.
pub open spec fn dupe_groups_spec(rows: Seq<RowView>) -> Seq<GroupView> {
    dupe_runs(hash_runs(rows))
}

/// The path of a group's first copy (its keeper), empty for no copies.
pub open spec fn keeper_path(g: GroupView) -> Seq<char> {
    if g.2.len() > 0 {
        g.2[0].0
    } else {
        Seq::empty()
    }
}

/// Report order: most reclaimable bytes first, then by the keeper's path.
pub open spec fn report_le(a: GroupView, b: GroupView) -> bool {
    ||| a.3 > b.3
    ||| a.3 == b.3 && lex_le(keeper_path(a), keeper_path(b))
}

/// Keeper order is a total order on copies.
pub proof fn lemma_keeper_order()
    ensures
        total_ordering(|a: CopyView, b: CopyView| keeper_le(a, b)),
{
    assert forall|a: CopyView, b: CopyView| keeper_le(a, b) || keeper_le(b, a) by {
        lemma_lex_total(a.0, b.0);
    }
    assert forall|a: CopyView, b: CopyView| keeper_le(a, b) && keeper_le(b, a) implies a == b by {
        lemma_lex_total(a.0, b.0);
    }
    assert forall|a: CopyView, b: CopyView, c: CopyView|
        keeper_le(a, b) && keeper_le(b, c) implies keeper_le(a, c) by {
        if a.1 == b.1 && b.1 == c.1 && byte_len(a.0) == byte_len(b.0) && byte_len(b.0) == byte_len(c.0) {
            lemma_lex_trans(a.0, b.0, c.0);
        }
    }
    assert forall|a: CopyView| keeper_le(a, a) by {
        lemma_lex_total(a.0, a.0);
    }
}

/// Report order relates every two groups and is transitive.
pub proof fn lemma_report_order()
    ensures
        total_preorder(|a: GroupView, b: GroupView| report_le(a, b)),
{
    assert forall|a: GroupView, b: GroupView| report_le(a, b) || report_le(b, a) by {
        lemma_lex_total(keeper_path(a), keeper_path(b));
    }
    assert forall|a: GroupView, b: GroupView, c: GroupView|
        report_le(a, b) && report_le(b, c) implies report_le(a, c) by {
        if a.3 == b.3 && b.3 == c.3 {
            lemma_lex_trans(keeper_path(a), keeper_path(b), keeper_path(c));
        }
    }
}

pub fn hash_eq(a: &[u8; 32], b: &[u8; 32]) -> (r: bool)
    ensures
        r == (a@ == b@),
{
    let mut i: usize = 0;
    while i < 32
        invariant
            i <= 32,
            a@.len() == 32,
            b@.len() == 32,
            forall|k: int| 0 <= k < i ==> a@[k] == b@[k],
        decreases 32 - i,
    {
        if a[i] != b[i] {
            return false;
        }
        i += 1;
    }
    assert(a@ =~= b@);
    true
}

fn copy_of(f: &DupeFile) -> (c: DupeFile)
    ensures
        copy_view(c) == copy_view(*f),
{
    DupeFile { path: f.path.clone(), mtime: f.mtime }
}

/// Splits rows into runs of equal hashes (reclaimable bytes not yet set).
pub fn runs_of(rows: &[DupeRow]) -> (runs: Vec<DupeGroup>)
    ensures
        runs@.map_values(|g: DupeGroup| run_view(g)) == hash_runs(rows@.map_values(|r: DupeRow| row_view(r))),
{
    let ghost rv = rows@.map_values(|r: DupeRow| row_view(r));
    let mut runs: Vec<DupeGroup> = Vec::new();
    let mut i: usize = 0;
    while i < rows.len()
        invariant
            i <= rows@.len(),
            rv == rows@.map_values(|r: DupeRow| row_view(r)),
            runs@.map_values(|g: DupeGroup| run_view(g)) == hash_runs(rv.take(i as int)),
        decreases rows@.len() - i,
    {
        let r = &rows[i];
        let ghost prev = runs@.map_values(|g: DupeGroup| run_view(g));
        proof {
            assert(rv.take(i + 1).drop_last() =~= rv.take(i as int));
            assert(rv.take(i + 1).last() == row_view(rows@[i as int]));
        }
        let n = runs.len();
        let joins = n > 0 && hash_eq(&runs[n - 1].hash, &r.hash);
        if joins {
            let mut last = runs.pop().unwrap();
            proof {
                assert(runs@.map_values(|g: DupeGroup| run_view(g)) =~= prev.drop_last());
            }
            let c = copy_of(&r.file);
            last.files.push(c);
            runs.push(last);
            proof {
                assert(last.files@.map_values(|f: DupeFile| copy_view(f)) =~= prev.last().2.push(copy_view(r.file)));
                assert(runs@.map_values(|g: DupeGroup| run_view(g)) =~= prev.update(
                    prev.len() - 1,
                    (prev.last().0, prev.last().1, prev.last().2.push(copy_view(r.file))),
                ));
            }
        } else {
            let mut files: Vec<DupeFile> = Vec::new();
            files.push(copy_of(&r.file));
            let g = DupeGroup { hash: r.hash, size: r.size, files, reclaimable: 0 };
            runs.push(g);
            proof {
                assert(g.files@.map_values(|f: DupeFile| copy_view(f)) =~= seq![copy_view(r.file)]);
                assert(runs@.map_values(|g: DupeGroup| run_view(g)) =~= prev.push((r.hash@, r.size, seq![copy_view(r.file)])));
            }
        }
        i += 1;
    }
    proof {
        assert(rv.take(rows@.len() as int) =~= rv);
    }
    runs
}

/// Keeper order lifted to copies.
pub open spec fn keeper_file_le(a: DupeFile, b: DupeFile) -> bool {
    keeper_le(copy_view(a), copy_view(b))
}

/// Sorts copies keeper-first.
pub fn sort_keeper_first(files: Vec<DupeFile>) -> (sorted: Vec<DupeFile>)
    ensures
        sorted@.map_values(|f: DupeFile| copy_view(f)) == files@.map_values(|f: DupeFile| copy_view(f)).sort_by(
            |a: CopyView, b: CopyView| keeper_le(a, b),
        ),
{
    let ghost leq = |a: DupeFile, b: DupeFile| keeper_file_le(a, b);
    let ghost vleq = |a: CopyView, b: CopyView| keeper_le(a, b);
    proof {
        lemma_keeper_order();
        assert forall|a: DupeFile, b: DupeFile| #[trigger] leq(a, b) || leq(b, a) by {
            assert(vleq(copy_view(a), copy_view(b)) || vleq(copy_view(b), copy_view(a)));
        }
        assert forall|a: DupeFile, b: DupeFile, c: DupeFile| #[trigger] leq(a, b) && #[trigger] leq(b, c) implies leq(a, c) by {
            assert(vleq(copy_view(a), copy_view(b)) && vleq(copy_view(b), copy_view(c)));
        }
    }
    let ghost before = files@;
    let sorted = merge_sort_by(
        files,
        &|a: &DupeFile, b: &DupeFile| -> (r: bool)
            ensures r == keeper_file_le(*a, *b)
        {
            let la = a.path.as_str().len();
            let lb = b.path.as_str().len();
            a.mtime < b.mtime || (a.mtime == b.mtime && (la < lb || (la == lb && str_le(a.path.as_str(), b.path.as_str()))))
        },
        Ghost(leq),
    );
    proof {
        let fv = |f: DupeFile| copy_view(f);
        lemma_map_preserves_multiset(sorted@, before, fv);
        let sv = sorted@.map_values(fv);
        let bv = before.map_values(fv);
        assert forall|i: int, j: int| 0 <= i < j < sv.len() implies #[trigger] vleq(sv[i], sv[j]) by {
            assert(leq(sorted@[i], sorted@[j]));
        }
        bv.lemma_sort_by_ensures(vleq);
        vstd::seq_lib::lemma_sorted_unique(sv, bv.sort_by(vleq), vleq);
    }
    sorted
}

/// Keeps the runs of at least two copies, sorts each keeper-first and sets
/// its reclaimable bytes.
pub fn finish_runs(runs: Vec<DupeGroup>) -> (groups: Vec<DupeGroup>)
    ensures
        groups@.map_values(|g: DupeGroup| group_view(g)) == dupe_runs(runs@.map_values(|g: DupeGroup| run_view(g))),
{
    let ghost rv = runs@.map_values(|g: DupeGroup| run_view(g));
    let ghost before = runs@;
    let mut groups: Vec<DupeGroup> = Vec::new();
    for g in it: runs.into_iter()
        invariant
            it.seq() == before,
            rv == before.map_values(|g: DupeGroup| run_view(g)),
            groups@.map_values(|g: DupeGroup| group_view(g)) == dupe_runs(rv.take(it.index() as int)),
    {
        let ghost k = it.index() as int;
        let ghost prev = groups@.map_values(|g: DupeGroup| group_view(g));
        proof {
            assert(rv.take(k + 1).drop_last() =~= rv.take(k));
            assert(rv.take(k + 1).last() == run_view(g));
        }
        if g.files.len() >= 2 {
            let copies = (g.files.len() - 1) as u64;
            let reclaimable = match g.size.checked_mul(copies) {
                Some(v) => v,
                None => u64::MAX,
            };
            let files = sort_keeper_first(g.files);
            let done = DupeGroup { hash: g.hash, size: g.size, files, reclaimable };
            groups.push(done);
            proof {
                assert(group_view(done) == finish_run(run_view(g)));
                assert(groups@.map_values(|g: DupeGroup| group_view(g)) =~= prev.push(finish_run(run_view(g))));
            }
        } else {
            proof {
                assert(groups@.map_values(|g: DupeGroup| group_view(g)) =~= prev);
            }
        }
    }
    proof {
        assert(rv.take(before.len() as int) =~= rv);
    }
    groups
}

/// Report order lifted to groups.
pub open spec fn report_group_le(a: DupeGroup, b: DupeGroup) -> bool {
    report_le(group_view(a), group_view(b))
}

fn keeper_path_of(g: &DupeGroup) -> (p: &str)
    ensures
        p@ == keeper_path(group_view(*g)),
{
    if g.files.len() > 0 {
        g.files[0].path.as_str()
    } else {
        proof {
            reveal_strlit("");
        }
        ""
    }
}

/// Sorts groups into report order.
pub fn sort_report(groups: Vec<DupeGroup>) -> (sorted: Vec<DupeGroup>)
    ensures
        sorted@.map_values(|g: DupeGroup| group_view(g)).to_multiset() == groups@.map_values(
            |g: DupeGroup| group_view(g),
        ).to_multiset(),
        sorted_by(sorted@.map_values(|g: DupeGroup| group_view(g)), |a: GroupView, b: GroupView| report_le(a, b)),
{
    let ghost leq = |a: DupeGroup, b: DupeGroup| report_group_le(a, b);
    let ghost vleq = |a: GroupView, b: GroupView| report_le(a, b);
    proof {
        lemma_report_order();
        assert forall|a: DupeGroup, b: DupeGroup| #[trigger] leq(a, b) || leq(b, a) by {
            assert(vleq(group_view(a), group_view(b)) || vleq(group_view(b), group_view(a)));
        }
        assert forall|a: DupeGroup, b: DupeGroup, c: DupeGroup| #[trigger] leq(a, b) && #[trigger] leq(b, c) implies leq(a, c) by {
            assert(vleq(group_view(a), group_view(b)) && vleq(group_view(b), group_view(c)));
        }
    }
    let ghost before = groups@;
    let sorted = merge_sort_by(
        groups,
        &|a: &DupeGroup, b: &DupeGroup| -> (r: bool)
            ensures r == report_group_le(*a, *b)
        {
            b.reclaimable < a.reclaimable || (a.reclaimable == b.reclaimable && str_le(keeper_path_of(a), keeper_path_of(b)))
        },
        Ghost(leq),
    );
    proof {
        let gv = |g: DupeGroup| group_view(g);
        lemma_map_preserves_multiset(sorted@, before, gv);
        let sv = sorted@.map_values(gv);
        assert forall|i: int, j: int| 0 <= i < j < sv.len() implies #[trigger] vleq(sv[i], sv[j]) by {
            assert(leq(sorted@[i], sorted@[j]));
        }
    }
    sorted
}

/// Exact-duplicate groups of `rows` (live hashed files in content-hash
/// order): runs of equal hashes with at least two copies, copies
/// keeper-first (oldest mtime, then shortest path, then path), groups in
/// report order (most reclaimable bytes first, then keeper path).
pub fn group_dupes(rows: &[DupeRow]) -> (groups: Vec<DupeGroup>)
    ensures
        groups@.map_values(|g: DupeGroup| group_view(g)).to_multiset() == dupe_groups_spec(
            rows@.map_values(|r: DupeRow| row_view(r)),
        ).to_multiset(),
        sorted_by(groups@.map_values(|g: DupeGroup| group_view(g)), |a: GroupView, b: GroupView| report_le(a, b)),
{
    let runs = runs_of(rows);
    let finished = finish_runs(runs);
    sort_report(finished)
}

/// A reported group is well formed: at least two copies, keeper first,
/// and the bytes its extra copies occupy.
pub open spec fn well_formed_group(g: GroupView) -> bool {
    &&& g.2.len() >= 2
    &&& sorted_by(g.2, |a: CopyView, b: CopyView| keeper_le(a, b))
    &&& g.3 == reclaimable_bytes(g.1, g.2.len())
}

/// Every group the duplicate report can hold is well formed.
pub proof fn lemma_dupe_runs_well_formed(runs: Seq<RunView>)
    ensures
        forall|k: int| 0 <= k < dupe_runs(runs).len() ==> well_formed_group(#[trigger] dupe_runs(runs)[k]),
    decreases runs.len(),
{
    if runs.len() > 0 {
        lemma_dupe_runs_well_formed(runs.drop_last());
        let r = runs.last();
        if is_dupe_run(r) {
            lemma_keeper_order();
            r.2.lemma_sort_by_ensures(|a: CopyView, b: CopyView| keeper_le(a, b));
            let sorted = r.2.sort_by(|a: CopyView, b: CopyView| keeper_le(a, b));
            vstd::seq_lib::to_multiset_len(sorted);
            vstd::seq_lib::to_multiset_len(r.2);
            assert(well_formed_group(finish_run(r)));
        }
        let prev = dupe_runs(runs.drop_last());
        assert forall|k: int| 0 <= k < dupe_runs(runs).len() implies well_formed_group(
            #[trigger] dupe_runs(runs)[k],
        ) by {
            if k < prev.len() {
                assert(dupe_runs(runs)[k] == prev[k]);
            }
        }
    }
}

/// The copy a content hash blob names, which must be 32 bytes long.
pub fn hash_from_blob(b: &[u8]) -> (r: Result<[u8; 32], CoreError>)
    ensures
        r matches Err(e) ==> !(e is Db),
        match r {
            Ok(h) => b@.len() == 32 && h@ == b@,
            Err(e) => b@.len() != 32 && e == (CoreError::HashLength { length: b@.len() as usize }),
        },
{
    if b.len() != 32 {
        return Err(CoreError::HashLength { length: b.len() });
    }
    let mut h: [u8; 32] = [0u8; 32];
    let mut i: usize = 0;
    while i < 32
        invariant
            i <= 32,
            b@.len() == 32,
            h@.len() == 32,
            forall|k: int| 0 <= k < i ==> h@[k] == b@[k],
        decreases 32 - i,
    {
        h[i] = b[i];
        i += 1;
    }
    assert(h@ =~= b@);
    Ok(h)
}

/// What a result row of the duplicates query holds: hash blob of 32 bytes,
/// size, path, mtime.
pub open spec fn dupe_row_cells(c: Seq<SqlCell>) -> Option<RowView> {
    if c.len() >= 4 && c[0] is Blob && c[0]->Blob_0@.len() == 32 && c[1] is Integer && c[2] is Text
        && c[3] is Integer {
        Some((c[0]->Blob_0@, c[1]->Integer_0 as u64, (c[2]->Text_0@, c[3]->Integer_0)))
    } else {
        None
    }
}

/// Reads one result row of the duplicates query.
pub fn decode_dupe_row(row: &[SqlCell]) -> (r: Result<DupeRow, CoreError>)
    ensures
        r matches Err(e) ==> !(e is Db),
        r is Ok <==> dupe_row_cells(row@) is Some,
        r matches Ok(d) ==> dupe_row_cells(row@) == Some(row_view(d)),
{
    let blob = column_error(get_blob(row, 0))?;
    let hash = hash_from_blob(blob.as_slice())?;
    let size = column_error(get_i64(row, 1))?;
    let path = column_error(get_text(row, 2))?;
    let mtime = column_error(get_i64(row, 3))?;
    Ok(DupeRow { hash, size: size as u64, file: DupeFile { path, mtime } })
}

/// Duplicate groups from the rows of the duplicates query: `Err` when a
/// row does not hold what the query selects, else the groups of
/// [`group_dupes`].
pub fn dupes_from_rows(rows: &[Vec<SqlCell>]) -> (r: Result<Vec<DupeGroup>, CoreError>)
    ensures
        r matches Err(e) ==> !(e is Db),
        r is Ok <==> forall|k: int| 0 <= k < rows@.len() ==> (#[trigger] dupe_row_cells(rows@[k]@)) is Some,
        r matches Ok(groups) ==> groups@.map_values(|g: DupeGroup| group_view(g)).to_multiset()
            == dupe_groups_spec(rows@.map_values(|c: Vec<SqlCell>| dupe_row_cells(c@)->0)).to_multiset(),
        r matches Ok(groups) ==> sorted_by(groups@.map_values(|g: DupeGroup| group_view(g)), |a: GroupView, b: GroupView| report_le(a, b)),
{
    let mut decoded: Vec<DupeRow> = Vec::new();
    let mut i: usize = 0;
    while i < rows.len()
        invariant
            i <= rows@.len(),
            decoded@.len() == i,
            forall|k: int| 0 <= k < i ==> (#[trigger] dupe_row_cells(rows@[k]@)) is Some,
            forall|k: int| 0 <= k < i ==> dupe_row_cells(rows@[k]@) == Some(#[trigger] row_view(decoded@[k])),
        decreases rows@.len() - i,
    {
        let d = decode_dupe_row(rows[i].as_slice());
        match d {
            Ok(d) => decoded.push(d),
            Err(e) => return Err(e),
        }
        i += 1;
    }
    let groups = group_dupes(decoded.as_slice());
    proof {
        assert(decoded@.map_values(|r: DupeRow| row_view(r)) =~= rows@.map_values(
            |c: Vec<SqlCell>| dupe_row_cells(c@)->0,
        ));
    }
    Ok(groups)
}

/// Every copy of run `run` comes from a row with the run's hash.
pub open spec fn run_from_rows(rows: Seq<RowView>, hash: Seq<u8>, copies: Seq<CopyView>) -> bool {
    forall|c: CopyView| copies.contains(c) ==> exists|i: int| 0 <= i < rows.len() && #[trigger] rows[i] == (
        hash,
        rows[i].1,
        c,
    )
}

proof fn lemma_hash_runs_from_rows(rows: Seq<RowView>)
    ensures
        forall|k: int| 0 <= k < hash_runs(rows).len() ==> run_from_rows(rows, (#[trigger] hash_runs(rows)[k]).0, hash_runs(rows)[k].2),
    decreases rows.len(),
{
    if rows.len() > 0 {
        let front = rows.drop_last();
        lemma_hash_runs_from_rows(front);
        let prev = hash_runs(front);
        let r = rows.last();
        let next = hash_runs(rows);
        assert forall|k: int| 0 <= k < next.len() implies run_from_rows(rows, (#[trigger] next[k]).0, next[k].2) by {
            let joined = prev.len() > 0 && prev.last().0 == r.0;
            if k < prev.len() && !(joined && k == prev.len() - 1) {
                assert(next[k] == prev[k]);
                assert forall|c: CopyView| next[k].2.contains(c) implies exists|i: int| 0 <= i < rows.len() && #[trigger] rows[i] == (
                    next[k].0,
                    rows[i].1,
                    c,
                ) by {
                    assert(run_from_rows(front, prev[k].0, prev[k].2));
                    let i = choose|i: int| 0 <= i < front.len() && #[trigger] front[i] == (prev[k].0, front[i].1, c);
                    assert(rows[i] == front[i]);
                }
            } else {
                assert forall|c: CopyView| next[k].2.contains(c) implies exists|i: int| 0 <= i < rows.len() && #[trigger] rows[i] == (
                    next[k].0,
                    rows[i].1,
                    c,
                ) by {
                    let last = rows.len() - 1;
                    if joined {
                        let old = prev.last().2;
                        assert(next[k].2 == old.push(r.2));
                        if c == r.2 {
                            assert(rows[last] == (next[k].0, rows[last].1, c));
                        } else {
                            let t = choose|t: int| 0 <= t < old.push(r.2).len() && old.push(r.2)[t] == c;
                            assert(old.contains(c)) by {
                                assert(old[t] == c);
                            }
                            assert(run_from_rows(front, prev[prev.len() - 1].0, prev[prev.len() - 1].2));
                            let i = choose|i: int| 0 <= i < front.len() && #[trigger] front[i] == (prev.last().0, front[i].1, c);
                            assert(rows[i] == front[i]);
                        }
                    } else {
                        assert(next[k].2 == seq![r.2]);
                        assert(c == r.2) by {
                            let t = choose|t: int| 0 <= t < seq![r.2].len() && seq![r.2][t] == c;
                        }
                        assert(rows[last] == (next[k].0, rows[last].1, c));
                    }
                }
            }
        }
    }
}

/// Exact duplicates have no false positives: every copy in a reported group
/// comes from a row whose content hash is the group's.
pub proof fn lemma_dupe_groups_share_their_hash(rows: Seq<RowView>)
    ensures
        forall|k: int| 0 <= k < dupe_groups_spec(rows).len() ==> run_from_rows(
            rows,
            (#[trigger] dupe_groups_spec(rows)[k]).0,
            dupe_groups_spec(rows)[k].2,
        ),
{
    lemma_hash_runs_from_rows(rows);
    lemma_dupe_runs_from_rows(rows, hash_runs(rows));
}

proof fn lemma_dupe_runs_from_rows(rows: Seq<RowView>, runs: Seq<RunView>)
    requires
        forall|k: int| 0 <= k < runs.len() ==> run_from_rows(rows, (#[trigger] runs[k]).0, runs[k].2),
    ensures
        forall|k: int| 0 <= k < dupe_runs(runs).len() ==> run_from_rows(
            rows,
            (#[trigger] dupe_runs(runs)[k]).0,
            dupe_runs(runs)[k].2,
        ),
    decreases runs.len(),
{
    if runs.len() > 0 {
        let front = runs.drop_last();
        assert forall|k: int| 0 <= k < front.len() implies run_from_rows(rows, (#[trigger] front[k]).0, front[k].2) by {
            assert(front[k] == runs[k]);
        }
        lemma_dupe_runs_from_rows(rows, front);
        let prev = dupe_runs(front);
        let r = runs.last();
        assert(run_from_rows(rows, runs[runs.len() - 1].0, runs[runs.len() - 1].2));
        if is_dupe_run(r) {
            lemma_keeper_order();
            r.2.lemma_sort_by_ensures(|a: CopyView, b: CopyView| keeper_le(a, b));
            let g = finish_run(r);
            assert forall|c: CopyView| g.2.contains(c) implies exists|i: int| 0 <= i < rows.len() && #[trigger] rows[i] == (
                g.0,
                rows[i].1,
                c,
            ) by {
                assert(r.2.contains(c));
            }
        }
        assert forall|k: int| 0 <= k < dupe_runs(runs).len() implies run_from_rows(
            rows,
            (#[trigger] dupe_runs(runs)[k]).0,
            dupe_runs(runs)[k].2,
        ) by {
            if k < prev.len() {
                assert(dupe_runs(runs)[k] == prev[k]);
            }
        }
    }
}

} // verus!
