//! Size-first candidate grouping for exact-duplicate hashing.
use vstd::prelude::*;
use crate::db::sql::{get_bool, get_i64, get_text, SqlCell};
use crate::{column_error, CoreError};

verus! {

/// A file that shares its size with at least one other live file, making it
/// an exact-duplicate candidate.
#[derive(Debug, Clone)]
pub struct CandidateFile {
    pub id: i64,
    pub path: String,
    pub already_hashed: bool,
}

/// A candidate as plain values.
pub type CandidateView = (i64, Seq<char>, bool);

pub open spec fn candidate_view(c: CandidateFile) -> CandidateView {
    (c.id, c.path@, c.already_hashed)
}

/// A size group as plain values.
pub open spec fn size_group_view(g: (u64, Vec<CandidateFile>)) -> (u64, Seq<CandidateView>) {
    (g.0, g.1@.map_values(|c: CandidateFile| candidate_view(c)))
}

/// Consecutive rows of equal size, in row order.
pub open spec fn size_runs(rows: Seq<(u64, CandidateView)>) -> Seq<(u64, Seq<CandidateView>)>
    decreases rows.len(),
{
    if rows.len() == 0 {
        Seq::empty()
    } else {
        let prev = size_runs(rows.drop_last());
        let r = rows.last();
        if prev.len() > 0 && prev.last().0 == r.0 {
            prev.update(prev.len() - 1, (r.0, prev.last().1.push(r.1)))
        } else {
            prev.push((r.0, seq![r.1]))
        }
    }
}

/// What a result row of the candidates query holds: size, id, path, and
/// whether a content hash is stored.
pub open spec fn candidate_cells(c: Seq<SqlCell>) -> Option<(u64, CandidateView)> {
    if c.len() >= 4 && c[0] is Integer && c[1] is Integer && c[2] is Text && c[3] is Integer {
        Some((c[0]->Integer_0 as u64, (c[1]->Integer_0, c[2]->Text_0@, c[3]->Integer_0 != 0)))
    } else {
        None
    }
}

fn candidate_copy(c: &CandidateFile) -> (d: CandidateFile)
    ensures
        candidate_view(d) == candidate_view(*c),
{
    CandidateFile { id: c.id, path: c.path.clone(), already_hashed: c.already_hashed }
}

/// Groups `(size, candidate)` rows into runs of equal size.
pub fn group_by_size(rows: &[(u64, CandidateFile)]) -> (groups: Vec<(u64, Vec<CandidateFile>)>)
    ensures
        groups@.map_values(|g: (u64, Vec<CandidateFile>)| size_group_view(g)) == size_runs(
            rows@.map_values(|r: (u64, CandidateFile)| (r.0, candidate_view(r.1))),
        ),
{
    let ghost rv = rows@.map_values(|r: (u64, CandidateFile)| (r.0, candidate_view(r.1)));
    let mut groups: Vec<(u64, Vec<CandidateFile>)> = Vec::new();
    let mut i: usize = 0;
    while i < rows.len()
        invariant
            i <= rows@.len(),
            rv == rows@.map_values(|r: (u64, CandidateFile)| (r.0, candidate_view(r.1))),
            groups@.map_values(|g: (u64, Vec<CandidateFile>)| size_group_view(g)) == size_runs(rv.take(i as int)),
        decreases rows@.len() - i,
    {
        let size = rows[i].0;
        let c = candidate_copy(&rows[i].1);
        let ghost prev = groups@.map_values(|g: (u64, Vec<CandidateFile>)| size_group_view(g));
        proof {
            assert(rv.take(i + 1).drop_last() =~= rv.take(i as int));
            assert(rv.take(i + 1).last() == (size, candidate_view(c)));
        }
        let n = groups.len();
        if n > 0 && groups[n - 1].0 == size {
            let (s, mut members) = groups.pop().unwrap();
            proof {
                assert(groups@.map_values(|g: (u64, Vec<CandidateFile>)| size_group_view(g)) =~= prev.drop_last());
            }
            members.push(c);
            groups.push((s, members));
            proof {
                assert(members@.map_values(|c: CandidateFile| candidate_view(c)) =~= prev.last().1.push(candidate_view(c)));
                assert(groups@.map_values(|g: (u64, Vec<CandidateFile>)| size_group_view(g)) =~= prev.update(
                    prev.len() - 1,
                    (size, prev.last().1.push(candidate_view(c))),
                ));
            }
        } else {
            let mut members: Vec<CandidateFile> = Vec::new();
            members.push(c);
            groups.push((size, members));
            proof {
                assert(members@.map_values(|c: CandidateFile| candidate_view(c)) =~= seq![candidate_view(c)]);
                assert(groups@.map_values(|g: (u64, Vec<CandidateFile>)| size_group_view(g)) =~= prev.push(
                    (size, seq![candidate_view(c)]),
                ));
            }
        }
        i += 1;
    }
    proof {
        assert(rv.take(rows@.len() as int) =~= rv);
    }
    groups
}

/// Reads one result row of the candidates query.
pub fn decode_candidate_row(row: &[SqlCell]) -> (r: Result<(u64, CandidateFile), CoreError>)
    ensures
        r matches Err(e) ==> !(e is Db),
        r is Ok <==> candidate_cells(row@) is Some,
        r matches Ok(d) ==> candidate_cells(row@) == Some((d.0, candidate_view(d.1))),
{
    let size = column_error(get_i64(row, 0))?;
    let id = column_error(get_i64(row, 1))?;
    let path = column_error(get_text(row, 2))?;
    let hashed = column_error(get_bool(row, 3))?;
    Ok((size as u64, CandidateFile { id, path, already_hashed: hashed }))
}

/// Size groups from the rows of the candidates query: `Err` when a row does
/// not hold what the query selects, else the runs of equal size.
pub fn candidates_from_rows(rows: &[Vec<SqlCell>]) -> (r: Result<Vec<(u64, Vec<CandidateFile>)>, CoreError>)
    ensures
        r matches Err(e) ==> !(e is Db),
        r is Ok <==> forall|k: int| 0 <= k < rows@.len() ==> (#[trigger] candidate_cells(rows@[k]@)) is Some,
        r matches Ok(groups) ==> groups@.map_values(|g: (u64, Vec<CandidateFile>)| size_group_view(g)) == size_runs(
            rows@.map_values(|c: Vec<SqlCell>| candidate_cells(c@)->0),
        ),
{
    let mut decoded: Vec<(u64, CandidateFile)> = Vec::new();
    let mut i: usize = 0;
    while i < rows.len()
        invariant
            i <= rows@.len(),
            decoded@.len() == i,
            forall|k: int| 0 <= k < i ==> (#[trigger] candidate_cells(rows@[k]@)) is Some,
            forall|k: int| 0 <= k < i ==> candidate_cells(rows@[k]@) == Some(
                (#[trigger] decoded@[k].0, candidate_view(decoded@[k].1)),
            ),
        decreases rows@.len() - i,
    {
        let d = decode_candidate_row(rows[i].as_slice());
        match d {
            Ok(d) => decoded.push(d),
            Err(e) => return Err(e),
        }
        i += 1;
    }
    proof {
        assert(decoded@.map_values(|r: (u64, CandidateFile)| (r.0, candidate_view(r.1))) =~= rows@.map_values(
            |c: Vec<SqlCell>| candidate_cells(c@)->0,
        ));
    }
    Ok(group_by_size(decoded.as_slice()))
}

/// Every run has a member, and neighbouring runs differ in size.
pub proof fn lemma_size_runs_shape(rows: Seq<(u64, CandidateView)>)
    ensures
        forall|k: int| 0 <= k < size_runs(rows).len() ==> (#[trigger] size_runs(rows)[k]).1.len() > 0,
        forall|k: int| 0 <= k < size_runs(rows).len() - 1 ==> (#[trigger] size_runs(rows)[k]).0 != size_runs(rows)[k + 1].0,
    decreases rows.len(),
{
    if rows.len() > 0 {
        lemma_size_runs_shape(rows.drop_last());
        let prev = size_runs(rows.drop_last());
        let next = size_runs(rows);
        assert forall|k: int| 0 <= k < next.len() implies (#[trigger] next[k]).1.len() > 0 by {
            if k < prev.len() && !(prev.len() > 0 && prev.last().0 == rows.last().0 && k == prev.len() - 1) {
                assert(next[k] == prev[k]);
            }
        }
        assert forall|k: int| 0 <= k < next.len() - 1 implies (#[trigger] next[k]).0 != next[k + 1].0 by {
            if k + 1 < prev.len() {
                assert(next[k] == prev[k]);
                if prev.len() > 0 && prev.last().0 == rows.last().0 && k + 1 == prev.len() - 1 {
                    assert(next[k + 1].0 == prev[k + 1].0);
                } else {
                    assert(next[k + 1] == prev[k + 1]);
                }
            }
        }
    }
}

} // verus!
