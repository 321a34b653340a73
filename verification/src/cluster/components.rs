//! Connected components of a link relation over items with ids: the
//! clustering shared by near-duplicate and burst detection. A union-find
//! built from the links is read back as components of two or more items,
//! ids sorted, larger components first.
use vstd::prelude::*;
use std::collections::HashMap;
use crate::cluster::union_find::UnionFind;
use crate::sort::{merge_sort_by, lemma_map_preserves_multiset};
use vstd::relations::{sorted_by, total_ordering};

verus! {

broadcast use vstd::std_specs::hash::group_hash_axioms;

/// A labelling of the ids that gives linked ids the same label.
pub open spec fn closed_labelling(ids: Seq<i64>, link: spec_fn(int, int) -> bool, f: spec_fn(int) -> int) -> bool {
    forall|i: int, j: int|
        0 <= i < ids.len() && 0 <= j < ids.len() && #[trigger] link(i, j)
            ==> f(i) == f(j)
}

/// Items `i` and `j` are in the same connected component of `linked`: every
/// labelling that respects the links gives them the same label.
pub open spec fn joined(ids: Seq<i64>, link: spec_fn(int, int) -> bool, i: int, j: int) -> bool {
    forall|f: spec_fn(int) -> int| #[trigger] closed_labelling(ids, link, f) ==> f(i) == f(j)
}

pub proof fn lemma_linked_joined(ids: Seq<i64>, link: spec_fn(int, int) -> bool, i: int, j: int)
    requires
        0 <= i < ids.len(),
        0 <= j < ids.len(),
        link(i, j),
    ensures
        joined(ids, link, i, j),
{
    assert forall|f: spec_fn(int) -> int| #[trigger] closed_labelling(ids, link, f) implies f(i) == f(j) by {
        assert(link(i, j));
    }
}

pub proof fn lemma_joined_trans(ids: Seq<i64>, link: spec_fn(int, int) -> bool, i: int, j: int, k: int)
    requires
        joined(ids, link, i, j),
        joined(ids, link, j, k),
    ensures
        joined(ids, link, i, k),
{
    assert forall|f: spec_fn(int) -> int| #[trigger] closed_labelling(ids, link, f) implies f(i) == f(k) by {
        assert(f(i) == f(j));
        assert(f(j) == f(k));
    }
}

pub proof fn lemma_joined_sym(ids: Seq<i64>, link: spec_fn(int, int) -> bool, i: int, j: int)
    requires
        joined(ids, link, i, j),
    ensures
        joined(ids, link, j, i),
{
    assert forall|f: spec_fn(int) -> int| #[trigger] closed_labelling(ids, link, f) implies f(j) == f(i) by {
        assert(f(i) == f(j));
    }
}

/// Every pair in the same set is joined.
pub open spec fn sound(ids: Seq<i64>, link: spec_fn(int, int) -> bool, uf: UnionFind) -> bool {
    forall|x: int, y: int| 0 <= x < ids.len() && 0 <= y < ids.len() && #[trigger] uf.same(x, y)
        ==> joined(ids, link, x, y)
}

/// Ids of the first `k` ids whose representative is `r`, in item order.
pub open spec fn ids_with_root(ids: Seq<i64>, roots: Seq<usize>, r: usize, k: nat) -> Seq<i64>
    decreases k,
{
    if k == 0 {
        Seq::empty()
    } else {
        ids_with_root(ids, roots, r, (k - 1) as nat) + if roots[k - 1] == r {
            seq![ids[k - 1]]
        } else {
            Seq::empty()
        }
    }
}

/// Item `i` is the first with its representative.
pub open spec fn first_of_root(roots: Seq<usize>, i: int) -> bool {
    forall|j: int| 0 <= j < i ==> roots[j] != roots[i]
}

/// The ids among the first `k` that are first with their representative.
pub open spec fn firsts_upto(roots: Seq<usize>, k: nat) -> Seq<int>
    decreases k,
{
    if k == 0 {
        Seq::empty()
    } else {
        firsts_upto(roots, (k - 1) as nat) + if first_of_root(roots, k - 1) {
            seq![k - 1]
        } else {
            Seq::empty()
        }
    }
}

pub proof fn lemma_ids_with_root_absent(ids: Seq<i64>, roots: Seq<usize>, r: usize, k: nat)
    requires
        forall|j: int| 0 <= j < k ==> roots[j] != r,
    ensures
        ids_with_root(ids, roots, r, k) == Seq::<i64>::empty(),
    decreases k,
{
    if k > 0 {
        lemma_ids_with_root_absent(ids, roots, r, (k - 1) as nat);
        assert(ids_with_root(ids, roots, r, k) =~= Seq::<i64>::empty());
    }
}

pub proof fn lemma_firsts_bounded(roots: Seq<usize>, k: nat)
    ensures
        forall|g: int| 0 <= g < firsts_upto(roots, k).len() ==> 0 <= #[trigger] firsts_upto(roots, k)[g] < k,
    decreases k,
{
    if k > 0 {
        let p = (k - 1) as nat;
        lemma_firsts_bounded(roots, p);
        let prev = firsts_upto(roots, p);
        if first_of_root(roots, p as int) {
            assert(firsts_upto(roots, k) =~= prev.push(p as int));
        } else {
            assert(firsts_upto(roots, k) =~= prev);
        }
        assert forall|g: int| 0 <= g < firsts_upto(roots, k).len() implies 0 <= #[trigger] firsts_upto(roots, k)[g] < k by {
            if g < prev.len() {
                assert(firsts_upto(roots, k)[g] == prev[g]);
            }
        }
    }
}

/// Groups the item ids by representative, groups in order of first member.
#[verifier::spinoff_prover]
#[verifier::rlimit(80)]
pub fn group_by_root(ids: &[i64], roots: &Vec<usize>) -> (res: (Vec<Vec<i64>>, Ghost<Seq<int>>))
    requires
        roots@.len() == ids@.len(),
    ensures
        res.1@ == firsts_upto(roots@, ids@.len()),
        res.0@.len() == res.1@.len(),
        forall|g: int| 0 <= g < res.0@.len() ==> (#[trigger] res.0@[g])@ == ids_with_root(ids@, roots@, roots@[res.1@[g]], ids@.len()),
{
    let n = ids.len();
    let mut index: HashMap<usize, usize> = HashMap::new();
    let mut groups: Vec<Vec<i64>> = Vec::new();
    let ghost mut firsts: Seq<int> = Seq::empty();
    let mut i: usize = 0;
    while i < n
        invariant
            n == ids@.len(),
            roots@.len() == n,
            i <= n,
            groups@.len() == firsts.len(),
            firsts == firsts_upto(roots@, i as nat),
            forall|g: int| 0 <= g < firsts.len() ==> 0 <= #[trigger] firsts[g] < i,
            forall|g: int| 0 <= g < groups@.len() ==> (#[trigger] groups@[g])@ == ids_with_root(ids@, roots@, roots@[firsts[g]], i as nat),
            forall|r: usize| #[trigger] index@.contains_key(r) ==> index@[r] < groups@.len() && roots@[firsts[index@[r] as int]] == r,
            forall|g: int| 0 <= g < groups@.len() ==> #[trigger] index@.contains_key(roots@[firsts[g]]) && index@[roots@[firsts[g]]] == g,
            forall|k: int| 0 <= k < i ==> #[trigger] index@.contains_key(roots@[k]),
        decreases n - i,
    {
        let r = roots[i];
        let id = ids[i];
        let ghost old_groups = groups@;
        let ghost old_index = index@;
        proof {
            lemma_firsts_bounded(roots@, i as nat);
        }
        match index.get(&r) {
            Some(g) => {
                let g = *g;
                proof {
                    let f = firsts[g as int];
                    assert(roots@[f] == r && f < i);
                    assert(!first_of_root(roots@, i as int));
                    assert(firsts_upto(roots@, (i + 1) as nat) =~= firsts);
                }
                groups[g].push(id);
                proof {
                    assert forall|h: int| 0 <= h < groups@.len() implies (#[trigger] groups@[h])@ == ids_with_root(ids@, roots@, roots@[firsts[h]], (i + 1) as nat) by {
                        if h == g as int {
                            assert(groups@[h]@ =~= old_groups[h]@.push(id));
                        } else {
                            assert(roots@[firsts[h]] != r);
                            assert(groups@[h] == old_groups[h]);
                            assert(ids_with_root(ids@, roots@, roots@[firsts[h]], (i + 1) as nat) =~= ids_with_root(ids@, roots@, roots@[firsts[h]], i as nat));
                        }
                    }
                    assert(index@ == old_index);
                    assert(groups@.len() == old_groups.len());
                    assert forall|h: int| 0 <= h < groups@.len() implies #[trigger] index@.contains_key(roots@[firsts[h]]) && index@[roots@[firsts[h]]] == h by {
                        assert(old_index.contains_key(roots@[firsts[h]]));
                    }
                }
            },
            None => {
                let ghost ng = groups@.len();
                proof {
                    assert forall|j: int| 0 <= j < i implies roots@[j] != r by {
                        assert(index@.contains_key(roots@[j]));
                    }
                    assert(first_of_root(roots@, i as int));
                    assert(firsts_upto(roots@, (i + 1) as nat) =~= firsts.push(i as int));
                    lemma_ids_with_root_absent(ids@, roots@, r, i as nat);
                }
                index.insert(r, groups.len());
                let mut members: Vec<i64> = Vec::new();
                members.push(id);
                groups.push(members);
                proof {
                    firsts = firsts.push(i as int);
                    assert forall|h: int| 0 <= h < groups@.len() implies (#[trigger] groups@[h])@ == ids_with_root(ids@, roots@, roots@[firsts[h]], (i + 1) as nat) by {
                        if h == ng as int {
                            assert(groups@[h]@ =~= seq![id]);
                            assert(ids_with_root(ids@, roots@, r, (i + 1) as nat) =~= seq![id]);
                        } else {
                            assert(groups@[h] == old_groups[h]);
                            assert(roots@[firsts[h]] != r) by {
                                assert(old_index.contains_key(roots@[firsts[h]]));
                            }
                            assert(ids_with_root(ids@, roots@, roots@[firsts[h]], (i + 1) as nat) =~= ids_with_root(ids@, roots@, roots@[firsts[h]], i as nat));
                        }
                    }
                    assert forall|rr: usize| #[trigger] index@.contains_key(rr) implies index@[rr] < groups@.len() && roots@[firsts[index@[rr] as int]] == rr by {
                        if rr != r {
                            assert(old_index.contains_key(rr));
                        }
                    }
                    assert forall|h: int| 0 <= h < groups@.len() implies #[trigger] index@.contains_key(roots@[firsts[h]]) && index@[roots@[firsts[h]]] == h by {
                        if h < ng {
                            assert(old_index.contains_key(roots@[firsts[h]]));
                            assert(roots@[firsts[h]] != r);
                        }
                    }
                }
            },
        }
        proof {
            assert(forall|g: int| 0 <= g < groups@.len() ==> #[trigger] index@.contains_key(roots@[firsts[g]])
                && index@[roots@[firsts[g]]] == g);
        }
        i += 1;
    }
    (groups, Ghost(firsts))
}

/// Ids of the first `k` ids joined with item `i`, in item order.
pub open spec fn joined_ids(ids: Seq<i64>, link: spec_fn(int, int) -> bool, i: int, k: nat) -> Seq<i64>
    decreases k,
{
    if k == 0 {
        Seq::empty()
    } else {
        joined_ids(ids, link, i, (k - 1) as nat) + if joined(ids, link, i, k - 1) {
            seq![ids[k - 1]]
        } else {
            Seq::empty()
        }
    }
}

/// Ascending order on ids.
pub open spec fn id_le(a: i64, b: i64) -> bool {
    a <= b
}

/// Item `i` is the first item of its component.
pub open spec fn leads_component(ids: Seq<i64>, link: spec_fn(int, int) -> bool, i: int) -> bool {
    forall|j: int| 0 <= j < i ==> !joined(ids, link, j, i)
}

/// The sorted ids of the component led by item `i`, if it has two or more members.
pub open spec fn component_of(ids: Seq<i64>, link: spec_fn(int, int) -> bool, i: int) -> Seq<Seq<i64>> {
    let members = joined_ids(ids, link, i, ids.len());
    if leads_component(ids, link, i) && members.len() >= 2 {
        seq![members.sort_by(|a: i64, b: i64| id_le(a, b))]
    } else {
        Seq::empty()
    }
}

/// Components of two or more ids led by one of the first `k` ids,
/// each as its sorted ids, in order of their first item.
pub open spec fn components_upto(ids: Seq<i64>, link: spec_fn(int, int) -> bool, k: nat) -> Seq<Seq<i64>>
    decreases k,
{
    if k == 0 {
        Seq::empty()
    } else {
        components_upto(ids, link, (k - 1) as nat) + component_of(ids, link, k - 1)
    }
}

/// Every connected component of two or more items under `link`, each as
/// its sorted ids, in order of its first item.
pub open spec fn components_spec(ids: Seq<i64>, link: spec_fn(int, int) -> bool) -> Seq<Seq<i64>> {
    components_upto(ids, link, ids.len())
}

/// Larger components first, then by smallest id.
pub open spec fn component_le(a: Seq<i64>, b: Seq<i64>) -> bool {
    a.len() > b.len() || (a.len() == b.len() && (a.len() == 0 || a[0] <= b[0]))
}

pub open spec fn vec_component_le(a: Vec<i64>, b: Vec<i64>) -> bool {
    component_le(a@, b@)
}

/// The sorted ids of the group led by item `f` (by representative), if it has two or more members.
pub open spec fn group_component(ids: Seq<i64>, roots: Seq<usize>, f: int) -> Seq<Seq<i64>> {
    let members = ids_with_root(ids, roots, roots[f], ids.len());
    if members.len() >= 2 {
        seq![members.sort_by(|a: i64, b: i64| id_le(a, b))]
    } else {
        Seq::empty()
    }
}

pub open spec fn groups_components(ids: Seq<i64>, roots: Seq<usize>, leads: Seq<int>) -> Seq<Seq<i64>>
    decreases leads.len(),
{
    if leads.len() == 0 {
        Seq::empty()
    } else {
        groups_components(ids, roots, leads.drop_last()) + group_component(ids, roots, leads.last())
    }
}

/// Same representative exactly when joined.
pub open spec fn roots_match_joined(ids: Seq<i64>, link: spec_fn(int, int) -> bool, roots: Seq<usize>) -> bool {
    &&& roots.len() == ids.len()
    &&& forall|x: int, y: int| 0 <= x < ids.len() && 0 <= y < ids.len() ==>
        (roots[x] == roots[y] <==> #[trigger] joined(ids, link, x, y))
}

pub proof fn lemma_ids_bridge(ids: Seq<i64>, link: spec_fn(int, int) -> bool, roots: Seq<usize>, i: int, k: nat)
    requires
        roots_match_joined(ids, link, roots),
        0 <= i < ids.len(),
        k <= ids.len(),
    ensures
        ids_with_root(ids, roots, roots[i], k) == joined_ids(ids, link, i, k),
    decreases k,
{
    if k > 0 {
        lemma_ids_bridge(ids, link, roots, i, (k - 1) as nat);
        assert(roots[k - 1] == roots[i] <==> joined(ids, link, i, k - 1));
    }
}

pub proof fn lemma_components_bridge(ids: Seq<i64>, link: spec_fn(int, int) -> bool, roots: Seq<usize>, k: nat)
    requires
        roots_match_joined(ids, link, roots),
        k <= ids.len(),
    ensures
        groups_components(ids, roots, firsts_upto(roots, k)) == components_upto(ids, link, k),
    decreases k,
{
    if k > 0 {
        let p = (k - 1) as nat;
        lemma_components_bridge(ids, link, roots, p);
        let prev = firsts_upto(roots, p);
        assert(first_of_root(roots, p as int) <==> leads_component(ids, link, p as int)) by {
            if first_of_root(roots, p as int) {
                assert forall|j: int| 0 <= j < p implies !joined(ids, link, j, p as int) by {
                    assert(roots[j] != roots[p as int]);
                }
            }
            if leads_component(ids, link, p as int) {
                assert forall|j: int| 0 <= j < p implies roots[j] != roots[p as int] by {
                    assert(!joined(ids, link, j, p as int));
                }
            }
        }
        lemma_ids_bridge(ids, link, roots, p as int, ids.len());
        if first_of_root(roots, p as int) {
            assert(firsts_upto(roots, k) =~= prev.push(p as int));
            assert(firsts_upto(roots, k).drop_last() =~= prev);
        } else {
            assert(firsts_upto(roots, k) =~= prev);
            assert(component_of(ids, link, p as int) =~= Seq::<Seq<i64>>::empty());
            assert(components_upto(ids, link, k) =~= components_upto(ids, link, p));
        }
    }
}

pub proof fn lemma_id_order()
    ensures
        total_ordering(|a: i64, b: i64| id_le(a, b)),
{
}

/// The first of the first `k` positions joined with `i`, or `k`.
pub open spec fn first_joined(ids: Seq<i64>, link: spec_fn(int, int) -> bool, i: int, k: nat) -> int
    decreases k,
{
    if k == 0 {
        0
    } else {
        let f = first_joined(ids, link, i, (k - 1) as nat);
        if f < k - 1 {
            f
        } else if joined(ids, link, k - 1, i) {
            k - 1
        } else {
            k as int
        }
    }
}

pub proof fn lemma_first_joined(ids: Seq<i64>, link: spec_fn(int, int) -> bool, i: int, k: nat)
    ensures
        0 <= first_joined(ids, link, i, k) <= k,
        first_joined(ids, link, i, k) < k ==> joined(ids, link, first_joined(ids, link, i, k), i),
        forall|m: int| 0 <= m < first_joined(ids, link, i, k) ==> !joined(ids, link, m, i),
    decreases k,
{
    if k > 0 {
        lemma_first_joined(ids, link, i, (k - 1) as nat);
    }
}

pub proof fn lemma_joined_refl(ids: Seq<i64>, link: spec_fn(int, int) -> bool, i: int)
    ensures
        joined(ids, link, i, i),
{
}

pub proof fn lemma_joined_ids_count(ids: Seq<i64>, link: spec_fn(int, int) -> bool, l: int, k: nat, x: int, y: int)
    requires
        0 <= x < y < k <= ids.len(),
        joined(ids, link, l, x),
        joined(ids, link, l, y),
    ensures
        joined_ids(ids, link, l, k).contains(ids[x]),
        joined_ids(ids, link, l, k).contains(ids[y]),
        joined_ids(ids, link, l, k).len() >= 2,
    decreases k,
{
    let prev = joined_ids(ids, link, l, (k - 1) as nat);
    let tail = if joined(ids, link, l, k - 1) { seq![ids[k - 1]] } else { Seq::<i64>::empty() };
    let all = joined_ids(ids, link, l, k);
    assert(all == prev + tail);
    if y < k - 1 {
        lemma_joined_ids_count(ids, link, l, (k - 1) as nat, x, y);
        assert(all[prev.index_of(ids[x])] == ids[x]);
        assert(all[prev.index_of(ids[y])] == ids[y]);
    } else {
        lemma_joined_ids_member(ids, link, l, (k - 1) as nat, x);
        assert(all[prev.index_of(ids[x])] == ids[x]);
        assert(all[prev.len() as int] == ids[y]);
    }
}

pub proof fn lemma_joined_ids_member(ids: Seq<i64>, link: spec_fn(int, int) -> bool, l: int, k: nat, x: int)
    requires
        0 <= x < k <= ids.len(),
        joined(ids, link, l, x),
    ensures
        joined_ids(ids, link, l, k).contains(ids[x]),
        joined_ids(ids, link, l, k).len() >= 1,
    decreases k,
{
    let prev = joined_ids(ids, link, l, (k - 1) as nat);
    let all = joined_ids(ids, link, l, k);
    if x < k - 1 {
        lemma_joined_ids_member(ids, link, l, (k - 1) as nat, x);
        assert(all[prev.index_of(ids[x])] == ids[x]);
    } else {
        assert(all[prev.len() as int] == ids[x]);
    }
}

pub proof fn lemma_component_listed(ids: Seq<i64>, link: spec_fn(int, int) -> bool, l: int, k: nat)
    requires
        0 <= l < k <= ids.len(),
        leads_component(ids, link, l),
        joined_ids(ids, link, l, ids.len()).len() >= 2,
    ensures
        components_upto(ids, link, k).contains(
            joined_ids(ids, link, l, ids.len()).sort_by(|a: i64, b: i64| id_le(a, b)),
        ),
    decreases k,
{
    let c = joined_ids(ids, link, l, ids.len()).sort_by(|a: i64, b: i64| id_le(a, b));
    let prev = components_upto(ids, link, (k - 1) as nat);
    let all = components_upto(ids, link, k);
    if l == k - 1 {
        assert(component_of(ids, link, l) == seq![c]);
        assert(all[prev.len() as int] == c);
    } else {
        lemma_component_listed(ids, link, l, (k - 1) as nat);
        assert(all[prev.index_of(c)] == c);
    }
}

/// The connected components of `link` over `ids`, given a union-find whose
/// sets are exactly the `link`-connected items. Only components with two or
/// more members are returned; member ids are sorted within each component
/// and components are sorted by size descending, then smallest id.
pub fn components_of(ids: &[i64], uf: UnionFind, Ghost(link): Ghost<spec_fn(int, int) -> bool>) -> (res: Vec<Vec<i64>>)
    requires
        uf.wf(),
        uf.len() == ids@.len(),
        sound(ids@, link, uf),
        forall|a: int, b: int| 0 <= a < ids@.len() && 0 <= b < ids@.len() && #[trigger] link(a, b) ==> uf.same(a, b),
    ensures
        res@.map_values(|v: Vec<i64>| v@).to_multiset() == components_spec(ids@, link).to_multiset(),
        sorted_by(res@.map_values(|v: Vec<i64>| v@), |a: Seq<i64>, b: Seq<i64>| component_le(a, b)),
{
    let n = ids.len();
    let mut uf = uf;
    let ghost start = uf;
    let ghost final_roots = uf.roots();
    let mut roots: Vec<usize> = Vec::new();
    let mut i: usize = 0;
    while i < n
        invariant
            n == ids@.len(),
            uf.wf(),
            uf.len() == n,
            uf.roots() == final_roots,
            sound(ids@, link, uf),
            i <= n,
            roots@.len() == i,
            forall|k: int| 0 <= k < i ==> #[trigger] roots@[k] as int == final_roots[k],
        decreases n - i,
    {
        let ghost before = uf;
        let r = uf.find(i);
        proof {
            assert forall|x: int, y: int| 0 <= x < n && 0 <= y < n && #[trigger] uf.same(x, y)
                implies joined(ids@, link, x, y) by {
                assert(before.same(x, y));
            }
        }
        roots.push(r);
        i += 1;
    }
    proof {
        assert forall|x: int, y: int| 0 <= x < n && 0 <= y < n implies
            (roots@[x] == roots@[y] <==> #[trigger] joined(ids@, link, x, y)) by {
            assert(roots@[x] as int == final_roots[x]);
            assert(roots@[y] as int == final_roots[y]);
            if roots@[x] == roots@[y] {
                assert(uf.same(x, y));
                assert(sound(ids@, link, uf));
            }
            if joined(ids@, link, x, y) {
                let f = |k: int| final_roots[k];
                assert forall|a: int, b: int| 0 <= a < n && 0 <= b < n && #[trigger] link(a, b)
                    implies f(a) == f(b) by {
                    assert(start.same(a, b));
                }
                assert(closed_labelling(ids@, link, f));
                assert(f(x) == f(y));
            }
        }
        assert(roots_match_joined(ids@, link, roots@));
    }
    let (groups, Ghost(firsts)) = group_by_root(ids, &roots);
    let mut groups = groups;
    let ghost orig = groups@;
    let mut comps: Vec<Vec<i64>> = Vec::new();
    let ng = groups.len();
    let mut g: usize = 0;
    proof {
        lemma_firsts_bounded(roots@, n as nat);
        lemma_id_order();
    }
    while g < ng
        invariant
            ng == groups@.len(),
            ng == orig.len(),
            ng == firsts.len(),
            g <= ng,
            n == ids@.len(),
            roots@.len() == n,
            forall|h: int| 0 <= h < firsts.len() ==> 0 <= #[trigger] firsts[h] < n,
            forall|h: int| g <= h < ng ==> #[trigger] groups@[h] == orig[h],
            forall|h: int| 0 <= h < ng ==> (#[trigger] orig[h])@ == ids_with_root(ids@, roots@, roots@[firsts[h]], ids@.len()),
            comps@.map_values(|v: Vec<i64>| v@) == groups_components(ids@, roots@, firsts.take(g as int)),
            total_ordering(|a: i64, b: i64| id_le(a, b)),
        decreases ng - g,
    {
        let ghost prev = comps@.map_values(|v: Vec<i64>| v@);
        proof {
            assert(firsts.take(g + 1).drop_last() =~= firsts.take(g as int));
            assert(firsts.take(g + 1).last() == firsts[g as int]);
        }
        if groups[g].len() >= 2 {
            let mut grp: Vec<i64> = Vec::new();
            std::mem::swap(&mut grp, &mut groups[g]);
            let sorted = merge_sort_by(grp, &|a: &i64, b: &i64| -> (r: bool) ensures r == id_le(*a, *b) { *a <= *b }, Ghost(|a: i64, b: i64| id_le(a, b)));
            proof {
                let members = orig[g as int]@;
                members.lemma_sort_by_ensures(|a: i64, b: i64| id_le(a, b));
                vstd::seq_lib::lemma_sorted_unique(sorted@, members.sort_by(|a: i64, b: i64| id_le(a, b)), |a: i64, b: i64| id_le(a, b));
            }
            comps.push(sorted);
            proof {
                assert(comps@.map_values(|v: Vec<i64>| v@) =~= prev.push(sorted@));
                assert forall|h: int| g + 1 <= h < ng implies #[trigger] groups@[h] == orig[h] by {}
            }
        } else {
            proof {
                assert(comps@.map_values(|v: Vec<i64>| v@) =~= prev);
                assert(group_component(ids@, roots@, firsts[g as int]) =~= Seq::<Seq<i64>>::empty());
            }
        }
        g += 1;
    }
    proof {
        assert(firsts.take(ng as int) =~= firsts);
        lemma_components_bridge(ids@, link, roots@, n as nat);
    }
    let ghost unsorted = comps@;
    let ghost leq = |a: Vec<i64>, b: Vec<i64>| vec_component_le(a, b);
    let res = merge_sort_by(
        comps,
        &|a: &Vec<i64>, b: &Vec<i64>| -> (r: bool)
            ensures r == vec_component_le(*a, *b)
        {
            a.len() > b.len() || (a.len() == b.len() && (a.len() == 0 || a[0] <= b[0]))
        },
        Ghost(leq),
    );
    proof {
        lemma_map_preserves_multiset(res@, unsorted, |v: Vec<i64>| v@);
        let vs = res@.map_values(|v: Vec<i64>| v@);
        assert forall|a: int, b: int| 0 <= a < b < vs.len() implies #[trigger] component_le(vs[a], vs[b]) by {
            assert(leq(res@[a], res@[b]));
        }
    }
    res
}

/// Linked items always share a component: two distinct items that `link`
/// relates both belong to one of the reported components.
pub proof fn lemma_linked_share_a_component(ids: Seq<i64>, link: spec_fn(int, int) -> bool, i: int, j: int)
    requires
        0 <= i < ids.len(),
        0 <= j < ids.len(),
        i != j,
        link(i, j),
    ensures
        exists|c: Seq<i64>| #[trigger] components_spec(ids, link).contains(c) && c.contains(
            ids[i],
        ) && c.contains(ids[j]),
{
    lemma_linked_joined(ids, link, i, j);
    lemma_joined_refl(ids, link, i);
    let n = ids.len();
    lemma_first_joined(ids, link, i, (i + 1) as nat);
    let l = first_joined(ids, link, i, (i + 1) as nat);
    assert(l <= i);
    assert(joined(ids, link, l, i));
    assert forall|m: int| 0 <= m < l implies !joined(ids, link, m, l) by {
        if joined(ids, link, m, l) {
            lemma_joined_trans(ids, link, m, l, i);
        }
    }
    assert(leads_component(ids, link, l));
    lemma_joined_trans(ids, link, l, i, j);
    let (x, y) = if i < j { (i, j) } else { (j, i) };
    lemma_joined_ids_count(ids, link, l, n, x, y);
    let members = joined_ids(ids, link, l, n);
    lemma_component_listed(ids, link, l, n);
    lemma_id_order();
    members.lemma_sort_by_ensures(|a: i64, b: i64| id_le(a, b));
    let c = members.sort_by(|a: i64, b: i64| id_le(a, b));
    vstd::seq_lib::to_multiset_contains(members, ids[i]);
    vstd::seq_lib::to_multiset_contains(c, ids[i]);
    vstd::seq_lib::to_multiset_contains(members, ids[j]);
    vstd::seq_lib::to_multiset_contains(c, ids[j]);
    assert(components_spec(ids, link).contains(c));
}

} // verus!
