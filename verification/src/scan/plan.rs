//! Planning the content-hash stage of a scan: within each same-size group
//! that has unhashed members, everyone is prehashed (first 4 KB), then only
//! the unhashed members of multi-file prehash collisions get a full hash.
use vstd::prelude::*;
use crate::db::candidates::{candidate_view, CandidateFile, CandidateView};
use crate::db::dupes::hash_eq;

verus! {

/// Some member of the group has no stored content hash.
pub open spec fn group_needs_prehash(members: Seq<CandidateView>) -> bool {
    exists|i: int| 0 <= i < members.len() && !(#[trigger] members[i]).2
}

/// Whether a size group needs its prehashes read: some member lacks a
/// stored content hash.
pub fn needs_prehash(members: &[CandidateFile]) -> (r: bool)
    ensures
        r == group_needs_prehash(members@.map_values(|c: CandidateFile| candidate_view(c))),
        r <==> exists|i: int| 0 <= i < members@.len() && !(#[trigger] members@[i]).already_hashed,
{
    let ghost mv = members@.map_values(|c: CandidateFile| candidate_view(c));
    let mut i: usize = 0;
    while i < members.len()
        invariant
            i <= members@.len(),
            mv == members@.map_values(|c: CandidateFile| candidate_view(c)),
            forall|k: int| 0 <= k < i ==> (#[trigger] mv[k]).2,
            forall|k: int| 0 <= k < i ==> (#[trigger] members@[k]).already_hashed,
        decreases members@.len() - i,
    {
        if !members[i].already_hashed {
            assert(!mv[i as int].2);
            return true;
        }
        i += 1;
    }
    false
}

/// Prehash results as plain values (`None` for an unreadable file).
pub open spec fn prehash_view(p: Seq<Option<[u8; 32]>>) -> Seq<Option<Seq<u8>>> {
    p.map_values(|o: Option<[u8; 32]>| match o {
        Some(h) => Some(h@),
        None => None,
    })
}

/// Member `i`'s prehash was read and equals another member's.
pub open spec fn collides(p: Seq<Option<Seq<u8>>>, i: int) -> bool {
    p[i] is Some && exists|j: int| 0 <= j < p.len() && j != i && #[trigger] p[j] == p[i]
}

/// Among the first `n` members, those to full-hash: no stored hash and a
/// prehash that collides with another member's, in member order.
pub open spec fn full_hash_targets(members: Seq<CandidateView>, p: Seq<Option<Seq<u8>>>, n: int) -> Seq<CandidateView>
    decreases n,
{
    if n <= 0 {
        Seq::empty()
    } else {
        let prev = full_hash_targets(members, p, n - 1);
        if collides(p, n - 1) && !members[n - 1].2 {
            prev.push(members[n - 1])
        } else {
            prev
        }
    }
}

/// Among the first `n` prehash results, the unreadable ones.
pub open spec fn unreadable(p: Seq<Option<Seq<u8>>>, n: int) -> nat
    decreases n,
{
    if n <= 0 {
        0
    } else {
        unreadable(p, n - 1) + if p[n - 1] is None { 1nat } else { 0nat }
    }
}

/// Whether member `i`'s prehash equals another member's.
fn prehash_collides(prehashes: &[Option<[u8; 32]>], i: usize) -> (r: bool)
    requires
        i < prehashes@.len(),
        prehashes@[i as int] is Some,
    ensures
        r == collides(prehash_view(prehashes@), i as int),
{
    let ghost pv = prehash_view(prehashes@);
    let h = match &prehashes[i] {
        Some(h) => h,
        None => return false,
    };
    let mut j: usize = 0;
    while j < prehashes.len()
        invariant
            j <= prehashes@.len(),
            i < prehashes@.len(),
            pv == prehash_view(prehashes@),
            pv[i as int] == Some(h@),
            forall|k: int| 0 <= k < j && k != i ==> #[trigger] pv[k] != pv[i as int],
        decreases prehashes@.len() - j,
    {
        if j != i {
            if let Some(other) = &prehashes[j] {
                if hash_eq(h, other) {
                    assert(pv[j as int] == pv[i as int]);
                    return true;
                }
            }
        }
        j += 1;
    }
    false
}

/// Full-hash targets of one size group given each member's prehash (`None`
/// when the file could not be read), and the number of unreadable members.
// Members sharing a prehash are found by comparing prehashes pairwise rather
// than through a `HashMap` keyed by them: vstd gives map lookups a meaning
// only for key types known to obey its key model (integers and `bool`), and
// a `[u8; 32]` key would need that assumed.
pub fn plan_full_hash(members: &[CandidateFile], prehashes: &[Option<[u8; 32]>]) -> (r: (Vec<CandidateFile>, u64))
    requires
        members@.len() == prehashes@.len(),
    ensures
        r.0@.map_values(|c: CandidateFile| candidate_view(c)) == full_hash_targets(
            members@.map_values(|c: CandidateFile| candidate_view(c)),
            prehash_view(prehashes@),
            members@.len() as int,
        ),
        r.1 == unreadable(prehash_view(prehashes@), members@.len() as int),
{
    let ghost mv = members@.map_values(|c: CandidateFile| candidate_view(c));
    let ghost pv = prehash_view(prehashes@);
    let mut targets: Vec<CandidateFile> = Vec::new();
    let mut errors: u64 = 0;
    let mut i: usize = 0;
    while i < members.len()
        invariant
            i <= members@.len(),
            members@.len() == prehashes@.len(),
            mv == members@.map_values(|c: CandidateFile| candidate_view(c)),
            pv == prehash_view(prehashes@),
            targets@.map_values(|c: CandidateFile| candidate_view(c)) == full_hash_targets(mv, pv, i as int),
            errors == unreadable(pv, i as int),
            errors <= i,
        decreases members@.len() - i,
    {
        let ghost prev = targets@.map_values(|c: CandidateFile| candidate_view(c));
        if prehashes[i].is_none() {
            errors = errors + 1;
        } else if !members[i].already_hashed && prehash_collides(prehashes, i) {
            let c = CandidateFile {
                id: members[i].id,
                path: members[i].path.clone(),
                already_hashed: members[i].already_hashed,
            };
            targets.push(c);
            proof {
                assert(targets@.map_values(|c: CandidateFile| candidate_view(c)) =~= prev.push(mv[i as int]));
            }
        }
        i += 1;
    }
    (targets, errors)
}

/// The results that were read, as plain values.
pub open spec fn read_hashes(ids: Seq<i64>, results: Seq<Option<Seq<u8>>>, n: int) -> Seq<(i64, Seq<u8>)>
    decreases n,
{
    if n <= 0 {
        Seq::empty()
    } else {
        let prev = read_hashes(ids, results, n - 1);
        match results[n - 1] {
            Some(h) => prev.push((ids[n - 1], h)),
            None => prev,
        }
    }
}

/// Pairs each file id with its full hash where the file could be read, and
/// counts the files that could not.
pub fn collect_hashes(ids: &[i64], results: &[Option<[u8; 32]>]) -> (r: (Vec<(i64, [u8; 32])>, u64))
    requires
        ids@.len() == results@.len(),
    ensures
        r.0@.map_values(|p: (i64, [u8; 32])| (p.0, p.1@)) == read_hashes(ids@, prehash_view(results@), ids@.len() as int),
        r.1 == unreadable(prehash_view(results@), ids@.len() as int),
{
    let ghost rv = prehash_view(results@);
    let mut hashes: Vec<(i64, [u8; 32])> = Vec::new();
    let mut errors: u64 = 0;
    let mut i: usize = 0;
    while i < ids.len()
        invariant
            i <= ids@.len(),
            ids@.len() == results@.len(),
            rv == prehash_view(results@),
            hashes@.map_values(|p: (i64, [u8; 32])| (p.0, p.1@)) == read_hashes(ids@, rv, i as int),
            errors == unreadable(rv, i as int),
            errors <= i,
        decreases ids@.len() - i,
    {
        let ghost prev = hashes@.map_values(|p: (i64, [u8; 32])| (p.0, p.1@));
        match &results[i] {
            Some(h) => {
                hashes.push((ids[i], *h));
                proof {
                    assert(hashes@.map_values(|p: (i64, [u8; 32])| (p.0, p.1@)) =~= prev.push((ids@[i as int], h@)));
                }
            },
            None => {
                errors = errors + 1;
            },
        }
        i += 1;
    }
    (hashes, errors)
}

/// Only files without a stored hash whose prehash collides with another
/// member's are full-hashed: every planned target is such a member.
pub proof fn lemma_targets_collide_and_lack_a_hash(members: Seq<CandidateView>, p: Seq<Option<Seq<u8>>>, n: int)
    requires
        0 <= n <= members.len(),
        n <= p.len(),
    ensures
        forall|t: int| 0 <= t < full_hash_targets(members, p, n).len() ==> exists|i: int| 0 <= i < n && members[i]
            == #[trigger] full_hash_targets(members, p, n)[t] && collides(p, i) && !members[i].2,
    decreases n,
{
    if n > 0 {
        lemma_targets_collide_and_lack_a_hash(members, p, n - 1);
        let prev = full_hash_targets(members, p, n - 1);
        let next = full_hash_targets(members, p, n);
        assert forall|t: int| 0 <= t < next.len() implies exists|i: int| 0 <= i < n && members[i] == #[trigger] next[t]
            && collides(p, i) && !members[i].2 by {
            if t < prev.len() {
                assert(next[t] == prev[t]);
                let i = choose|i: int| 0 <= i < n - 1 && members[i] == #[trigger] prev[t] && collides(p, i) && !members[i].2;
                assert(members[i] == next[t]);
            } else {
                assert(members[n - 1] == next[t]);
            }
        }
    }
}

/// Every member without a stored hash whose prehash was read and equals the
/// prehash of any one other member is planned for a full hash: a pair of
/// same-size files sharing a prehash is enough.
pub proof fn lemma_shared_prehash_is_full_hashed(
    members: Seq<CandidateView>,
    p: Seq<Option<Seq<u8>>>,
    n: int,
    i: int,
    j: int,
)
    requires
        0 <= n <= members.len(),
        n <= p.len(),
        0 <= i < n,
        0 <= j < p.len(),
        i != j,
        p[i] is Some,
        p[j] == p[i],
        !members[i].2,
    ensures
        full_hash_targets(members, p, n).contains(members[i]),
    decreases n,
{
    let next = full_hash_targets(members, p, n);
    let prev = full_hash_targets(members, p, n - 1);
    if i == n - 1 {
        assert(collides(p, i));
        assert(next == prev.push(members[i]));
        assert(next[prev.len() as int] == members[i]);
    } else {
        lemma_shared_prehash_is_full_hashed(members, p, n - 1, i, j);
        let t = choose|t: int| 0 <= t < prev.len() && prev[t] == members[i];
        if next != prev {
            assert(next == prev.push(members[n - 1]));
        }
        assert(next[t] == members[i]);
    }
}

/// Whether a size group is prehashed depends on every member: it is exactly
/// when some member, wherever it stands, has no stored hash.
pub proof fn lemma_group_needs_prehash_when_any_member_lacks_a_hash(members: Seq<CandidateView>, i: int)
    ensures
        0 <= i < members.len() && !members[i].2 ==> group_needs_prehash(members),
        (forall|k: int| 0 <= k < members.len() ==> (#[trigger] members[k]).2) ==> !group_needs_prehash(members),
{
}

} // verus!
