//! Near-duplicate clustering: connected components of the "dHash distance
//! <= t1 OR pHash distance <= t2" relation.
//!
//! Below 64 bits of tolerance, candidate pairs come from Hamming-LSH
//! banding (see `candidates`) and only bucket collisions get a real distance
//! check; at 64 or more every two hashes are within the tolerance.
use vstd::prelude::*;
use crate::analyze::phash::{hamming, hamming_distance, lemma_hamming_symmetric};
use crate::cluster::banding::{band_count, share_band, lemma_close_hashes_share_a_band};
use crate::cluster::candidates::{candidate_pairs, is_candidate, pair_of};
use crate::cluster::components::{
    component_le, components_of, components_spec, joined, lemma_joined_sym, lemma_joined_trans, lemma_linked_joined,
    lemma_linked_share_a_component, sound,
};
use crate::cluster::union_find::UnionFind;
use vstd::relations::sorted_by;

verus! {

/// Default dHash distance threshold.
pub const DEFAULT_DHASH_MAX: u32 = 8;
/// Default pHash distance threshold.
pub const DEFAULT_PHASH_MAX: u32 = 10;

/// One analyzed image's perceptual hashes.
#[derive(Debug, Clone, Copy)]
pub struct HashedImage {
    pub id: i64,
    pub dhash: Option<u64>,
    pub phash: Option<u64>,
}

/// The dHash (`use_dhash`) or pHash of an image.
pub open spec fn kind_hash(item: HashedImage, use_dhash: bool) -> Option<u64> {
    if use_dhash { item.dhash } else { item.phash }
}

/// Both hashes are present and at most `max` bits apart.
pub open spec fn within(h1: Option<u64>, h2: Option<u64>, max: u32) -> bool {
    match (h1, h2) {
        (Some(a), Some(b)) => hamming_distance(a, b) <= max,
        _ => false,
    }
}

/// Items `i` and `j` are near duplicates: dHash within `dhash_max` or pHash
/// within `phash_max`.
pub open spec fn near_pair(items: Seq<HashedImage>, dhash_max: u32, phash_max: u32, i: int, j: int) -> bool {
    within(items[i].dhash, items[j].dhash, dhash_max) || within(items[i].phash, items[j].phash, phash_max)
}

/// The ids of the items, in order.
pub open spec fn item_ids(items: Seq<HashedImage>) -> Seq<i64> {
    items.map_values(|h: HashedImage| h.id)
}

/// The near-pair relation as a link on item positions.
pub open spec fn near_link(items: Seq<HashedImage>, dhash_max: u32, phash_max: u32) -> spec_fn(int, int) -> bool {
    |i: int, j: int| near_pair(items, dhash_max, phash_max, i, j)
}

/// Every near-duplicate component of two or more items, as its sorted ids.
pub open spec fn near_components_spec(items: Seq<HashedImage>, dhash_max: u32, phash_max: u32) -> Seq<Seq<i64>> {
    components_spec(item_ids(items), near_link(items, dhash_max, phash_max))
}

/// `comps` is the near-duplicate clustering of `items` in report order:
/// the components of [`near_components_spec`], larger first.
pub open spec fn is_near_clustering(items: Seq<HashedImage>, dhash_max: u32, phash_max: u32, comps: Seq<Seq<i64>>) -> bool {
    &&& comps.to_multiset() == near_components_spec(items, dhash_max, phash_max).to_multiset()
    &&& sorted_by(comps, |a: Seq<i64>, b: Seq<i64>| component_le(a, b))
}

/// The ids of the items, in order.
fn ids_of(items: &[HashedImage]) -> (ids: Vec<i64>)
    ensures
        ids@ == item_ids(items@),
{
    let mut ids: Vec<i64> = Vec::new();
    let mut i: usize = 0;
    while i < items.len()
        invariant
            i <= items@.len(),
            ids@ == item_ids(items@).take(i as int),
        decreases items@.len() - i,
    {
        ids.push(items[i].id);
        i += 1;
        proof {
            assert(ids@ =~= item_ids(items@).take(i as int));
        }
    }
    proof {
        assert(item_ids(items@).take(items@.len() as int) =~= item_ids(items@));
    }
    ids
}


/// `(index, hash)` for every item that has the chosen hash, in item order.
fn hash_list(items: &[HashedImage], use_dhash: bool) -> (hs: Vec<(usize, u64)>)
    ensures
        forall|p: int| 0 <= p < hs@.len() ==> (#[trigger] hs@[p]).0 < items@.len()
            && kind_hash(items@[hs@[p].0 as int], use_dhash) == Some(hs@[p].1),
        forall|p: int, q: int| 0 <= p < q < hs@.len() ==> (#[trigger] hs@[p]).0 < (#[trigger] hs@[q]).0,
        forall|i: int| 0 <= i < items@.len() && (#[trigger] kind_hash(items@[i], use_dhash)) is Some
            ==> exists|p: int| 0 <= p < hs@.len() && (#[trigger] hs@[p]).0 == i,
{
    let mut hs: Vec<(usize, u64)> = Vec::new();
    let mut i: usize = 0;
    while i < items.len()
        invariant
            i <= items@.len(),
            forall|p: int| 0 <= p < hs@.len() ==> (#[trigger] hs@[p]).0 < i
                && kind_hash(items@[hs@[p].0 as int], use_dhash) == Some(hs@[p].1),
            forall|p: int, q: int| 0 <= p < q < hs@.len() ==> (#[trigger] hs@[p]).0 < (#[trigger] hs@[q]).0,
            forall|k: int| 0 <= k < i && (#[trigger] kind_hash(items@[k], use_dhash)) is Some
                ==> exists|p: int| 0 <= p < hs@.len() && (#[trigger] hs@[p]).0 == k,
        decreases items@.len() - i,
    {
        let h = if use_dhash { items[i].dhash } else { items[i].phash };
        if let Some(h) = h {
            let ghost old_hs = hs@;
            hs.push((i, h));
            proof {
                assert forall|k: int| 0 <= k < i + 1 && (#[trigger] kind_hash(items@[k], use_dhash)) is Some
                    implies exists|p: int| 0 <= p < hs@.len() && (#[trigger] hs@[p]).0 == k by {
                    if k < i {
                        let p = choose|p: int| 0 <= p < old_hs.len() && (#[trigger] old_hs[p]).0 == k;
                        assert(hs@[p].0 == k);
                    } else {
                        assert(hs@[old_hs.len() as int].0 == k);
                    }
                }
            }
        }
        i += 1;
    }
    hs
}

proof fn lemma_share_band_sym(a: u64, b: u64, bands: nat)
    requires
        share_band(a, b, bands),
    ensures
        share_band(b, a, bands),
{
    let band = choose|band: nat| band < bands && #[trigger] crate::cluster::banding::band_key(a, band, bands) == crate::cluster::banding::band_key(b, band, bands);
    assert(crate::cluster::banding::band_key(b, band, bands) == crate::cluster::banding::band_key(a, band, bands));
}

/// Facts about one candidate pair of `hash_list` positions.
proof fn lemma_candidate_facts(items: Seq<HashedImage>, hs: Seq<(usize, u64)>, use_dhash: bool, max: u32, pair: (usize, usize))
    requires
        is_candidate(hs, band_count(max), pair),
        forall|p: int| 0 <= p < hs.len() ==> (#[trigger] hs[p]).0 < items.len()
            && kind_hash(items[hs[p].0 as int], use_dhash) == Some(hs[p].1),
    ensures
        pair.0 < items.len(),
        pair.1 < items.len(),
        kind_hash(items[pair.0 as int], use_dhash) is Some,
        kind_hash(items[pair.1 as int], use_dhash) is Some,
        share_band(kind_hash(items[pair.0 as int], use_dhash)->0, kind_hash(items[pair.1 as int], use_dhash)->0, band_count(max)),
{
    let (p, q) = choose|p: int, q: int|
        0 <= p < q < hs.len() && #[trigger] share_band(hs[p].1, hs[q].1, band_count(max)) && pair_of(hs, p, q) == pair;
    assert(hs[p].0 < items.len());
    assert(hs[q].0 < items.len());
    if hs[p].0 > hs[q].0 {
        lemma_share_band_sym(hs[p].1, hs[q].1, band_count(max));
    }
}

/// Unions every candidate pair whose chosen hashes are within `max` (below
/// 64), found through banding.
fn link_banded(items: &[HashedImage], uf: &mut UnionFind, use_dhash: bool, max: u32, Ghost(dhash_max): Ghost<u32>, Ghost(phash_max): Ghost<u32>)
    requires
        old(uf).wf(),
        old(uf).len() == items@.len(),
        max < 64,
        max == if use_dhash { dhash_max } else { phash_max },
        sound(item_ids(items@), near_link(items@, dhash_max, phash_max), *old(uf)),
    ensures
        final(uf).wf(),
        final(uf).len() == items@.len(),
        sound(item_ids(items@), near_link(items@, dhash_max, phash_max), *final(uf)),
        forall|x: int, y: int| 0 <= x < items@.len() && 0 <= y < items@.len() && #[trigger] old(uf).same(x, y)
            ==> final(uf).same(x, y),
        forall|x: int, y: int| 0 <= x < items@.len() && 0 <= y < items@.len()
            && #[trigger] within(kind_hash(items@[x], use_dhash), kind_hash(items@[y], use_dhash), max)
            ==> final(uf).same(x, y),
{
    let ghost n = items@.len();
    let ghost start = *uf;
    let hs = hash_list(items, use_dhash);
    let pairs = candidate_pairs(&hs, max);
    let mut k: usize = 0;
    while k < pairs.len()
        invariant
            uf.wf(),
            uf.len() == n,
            n == items@.len(),
            start == *old(uf),
            max == if use_dhash { dhash_max } else { phash_max },
            sound(item_ids(items@), near_link(items@, dhash_max, phash_max), *uf),
            forall|x: int, y: int| 0 <= x < n && 0 <= y < n && #[trigger] start.same(x, y) ==> uf.same(x, y),
            k <= pairs@.len(),
            forall|pair: (usize, usize)| pairs@.contains(pair) <==> is_candidate(hs@, band_count(max), pair),
            forall|p: int| 0 <= p < hs@.len() ==> (#[trigger] hs@[p]).0 < items@.len()
                && kind_hash(items@[hs@[p].0 as int], use_dhash) == Some(hs@[p].1),
            forall|t: int| 0 <= t < k && within(kind_hash(items@[(#[trigger] pairs@[t]).0 as int], use_dhash), kind_hash(items@[pairs@[t].1 as int], use_dhash), max)
                ==> uf.same(pairs@[t].0 as int, pairs@[t].1 as int),
        decreases pairs@.len() - k,
    {
        let (i, j) = pairs[k];
        proof {
            assert(pairs@.contains(pairs@[k as int]));
            lemma_candidate_facts(items@, hs@, use_dhash, max, pairs@[k as int]);
        }
        let a = if use_dhash { items[i].dhash.unwrap() } else { items[i].phash.unwrap() };
        let b = if use_dhash { items[j].dhash.unwrap() } else { items[j].phash.unwrap() };
        let ghost before = *uf;
        if hamming(a, b) <= max {
            uf.union(i, j);
            proof {
                assert(near_pair(items@, dhash_max, phash_max, i as int, j as int));
                lemma_linked_joined(item_ids(items@), near_link(items@, dhash_max, phash_max), i as int, j as int);
                assert forall|x: int, y: int| 0 <= x < n && 0 <= y < n && #[trigger] uf.same(x, y)
                    implies joined(item_ids(items@), near_link(items@, dhash_max, phash_max), x, y) by {
                    if before.same(x, y) {
                    } else if before.same(x, i as int) && before.same(y, j as int) {
                        lemma_joined_sym(item_ids(items@), near_link(items@, dhash_max, phash_max), y, j as int);
                        lemma_joined_trans(item_ids(items@), near_link(items@, dhash_max, phash_max), x, i as int, j as int);
                        lemma_joined_trans(item_ids(items@), near_link(items@, dhash_max, phash_max), x, j as int, y);
                    } else {
                        assert(before.same(x, j as int) && before.same(y, i as int));
                        lemma_joined_sym(item_ids(items@), near_link(items@, dhash_max, phash_max), i as int, j as int);
                        lemma_joined_sym(item_ids(items@), near_link(items@, dhash_max, phash_max), y, i as int);
                        lemma_joined_trans(item_ids(items@), near_link(items@, dhash_max, phash_max), x, j as int, i as int);
                        lemma_joined_trans(item_ids(items@), near_link(items@, dhash_max, phash_max), x, i as int, y);
                    }
                }
                assert forall|x: int, y: int| 0 <= x < n && 0 <= y < n && #[trigger] start.same(x, y) implies uf.same(x, y) by {
                    assert(before.same(x, y));
                }
                assert forall|t: int| 0 <= t < k + 1 && within(kind_hash(items@[(#[trigger] pairs@[t]).0 as int], use_dhash), kind_hash(items@[pairs@[t].1 as int], use_dhash), max)
                    implies uf.same(pairs@[t].0 as int, pairs@[t].1 as int) by {
                    if t < k {
                        assert(pairs@.contains(pairs@[t]));
                        lemma_candidate_facts(items@, hs@, use_dhash, max, pairs@[t]);
                        assert(before.same(pairs@[t].0 as int, pairs@[t].1 as int));
                    } else {
                        assert(uf.same(i as int, j as int));
                    }
                }
            }
        } else {
            proof {
                assert forall|t: int| 0 <= t < k + 1 && within(kind_hash(items@[(#[trigger] pairs@[t]).0 as int], use_dhash), kind_hash(items@[pairs@[t].1 as int], use_dhash), max)
                    implies uf.same(pairs@[t].0 as int, pairs@[t].1 as int) by {
                    if t == k {
                        assert(false);
                    }
                }
            }
        }
        k += 1;
    }
    proof {
        assert forall|x: int, y: int| 0 <= x < n && 0 <= y < n
            && #[trigger] within(kind_hash(items@[x], use_dhash), kind_hash(items@[y], use_dhash), max)
            implies uf.same(x, y) by {
            if x != y {
                lemma_close_hashes_share_a_band(kind_hash(items@[x], use_dhash)->0, kind_hash(items@[y], use_dhash)->0, max);
                let px = choose|p: int| 0 <= p < hs@.len() && (#[trigger] hs@[p]).0 == x;
                let py = choose|p: int| 0 <= p < hs@.len() && (#[trigger] hs@[p]).0 == y;
                let (p, q) = if x < y { (px, py) } else { (py, px) };
                if p >= q {
                    if p > q {
                        assert(hs@[q].0 < hs@[p].0);
                    }
                    assert(false);
                }
                let hp = hs@[p].1;
                let hq = hs@[q].1;
                if x < y {
                    assert(share_band(hp, hq, band_count(max)));
                } else {
                    lemma_share_band_sym(hq, hp, band_count(max));
                }
                let pair = pair_of(hs@, p, q);
                assert(is_candidate(hs@, band_count(max), pair));
                assert(pairs@.contains(pair));
                let t = choose|t: int| 0 <= t < pairs@.len() && pairs@[t] == pair;
                lemma_hamming_symmetric(hp, hq);
                assert(within(kind_hash(items@[pairs@[t].0 as int], use_dhash), kind_hash(items@[pairs@[t].1 as int], use_dhash), max));
                assert(uf.same(pairs@[t].0 as int, pairs@[t].1 as int));
            }
        }
    }
}

/// Unions every two items that both have the chosen hash: at a tolerance
/// of 64 bits or more any two 64-bit hashes are within it.
fn link_all(items: &[HashedImage], uf: &mut UnionFind, use_dhash: bool, max: u32, Ghost(dhash_max): Ghost<u32>, Ghost(phash_max): Ghost<u32>)
    requires
        old(uf).wf(),
        old(uf).len() == items@.len(),
        max >= 64,
        max == if use_dhash { dhash_max } else { phash_max },
        sound(item_ids(items@), near_link(items@, dhash_max, phash_max), *old(uf)),
    ensures
        final(uf).wf(),
        final(uf).len() == items@.len(),
        sound(item_ids(items@), near_link(items@, dhash_max, phash_max), *final(uf)),
        forall|x: int, y: int| 0 <= x < items@.len() && 0 <= y < items@.len() && #[trigger] old(uf).same(x, y)
            ==> final(uf).same(x, y),
        forall|x: int, y: int| 0 <= x < items@.len() && 0 <= y < items@.len()
            && #[trigger] within(kind_hash(items@[x], use_dhash), kind_hash(items@[y], use_dhash), max)
            ==> final(uf).same(x, y),
{
    let ghost n = items@.len();
    let ghost start = *uf;
    let mut first: Option<usize> = None;
    let mut i: usize = 0;
    while i < items.len()
        invariant
            uf.wf(),
            uf.len() == n,
            n == items@.len(),
            i <= n,
            start == *old(uf),
            max >= 64,
            max == if use_dhash { dhash_max } else { phash_max },
            sound(item_ids(items@), near_link(items@, dhash_max, phash_max), *uf),
            forall|x: int, y: int| 0 <= x < n && 0 <= y < n && #[trigger] start.same(x, y) ==> uf.same(x, y),
            first matches Some(f) ==> f < i && kind_hash(items@[f as int], use_dhash) is Some,
            first is None ==> forall|k: int| 0 <= k < i ==> (#[trigger] kind_hash(items@[k], use_dhash)) is None,
            forall|k: int| 0 <= k < i && (#[trigger] kind_hash(items@[k], use_dhash)) is Some ==> first is Some
                && uf.same(k, first->0 as int),
        decreases n - i,
    {
        let h = if use_dhash { items[i].dhash } else { items[i].phash };
        if h.is_some() {
            match first {
                None => {
                    first = Some(i);
                },
                Some(f) => {
                    let ghost before = *uf;
                    let a = if use_dhash { items[f].dhash.unwrap() } else { items[f].phash.unwrap() };
                    let b = h.unwrap();
                    let d = hamming(a, b);
                    proof {
                        assert(within(kind_hash(items@[f as int], use_dhash), kind_hash(items@[i as int], use_dhash), max));
                        if use_dhash {
                            assert(near_pair(items@, dhash_max, phash_max, f as int, i as int));
                        } else {
                            assert(near_pair(items@, dhash_max, phash_max, f as int, i as int));
                        }
                    }
                    uf.union(f, i);
                    proof {
                        lemma_linked_joined(item_ids(items@), near_link(items@, dhash_max, phash_max), f as int, i as int);
                        assert forall|x: int, y: int| 0 <= x < n && 0 <= y < n && #[trigger] uf.same(x, y)
                            implies joined(item_ids(items@), near_link(items@, dhash_max, phash_max), x, y) by {
                            if before.same(x, y) {
                            } else if before.same(x, f as int) && before.same(y, i as int) {
                                lemma_joined_sym(item_ids(items@), near_link(items@, dhash_max, phash_max), y, i as int);
                                lemma_joined_trans(item_ids(items@), near_link(items@, dhash_max, phash_max), x, f as int, i as int);
                                lemma_joined_trans(item_ids(items@), near_link(items@, dhash_max, phash_max), x, i as int, y);
                            } else {
                                assert(before.same(x, i as int) && before.same(y, f as int));
                                lemma_joined_sym(item_ids(items@), near_link(items@, dhash_max, phash_max), f as int, i as int);
                                lemma_joined_sym(item_ids(items@), near_link(items@, dhash_max, phash_max), y, f as int);
                                lemma_joined_trans(item_ids(items@), near_link(items@, dhash_max, phash_max), x, i as int, f as int);
                                lemma_joined_trans(item_ids(items@), near_link(items@, dhash_max, phash_max), x, f as int, y);
                            }
                        }
                        assert forall|x: int, y: int| 0 <= x < n && 0 <= y < n && #[trigger] start.same(x, y)
                            implies uf.same(x, y) by {
                            assert(before.same(x, y));
                        }
                        assert forall|k: int| 0 <= k < i + 1 && (#[trigger] kind_hash(items@[k], use_dhash)) is Some
                            implies first is Some && uf.same(k, first->0 as int) by {
                            if k < i {
                                assert(before.same(k, f as int));
                            }
                        }
                    }
                    let _ = d;
                },
            }
        }
        i += 1;
    }
    proof {
        assert forall|x: int, y: int| 0 <= x < n && 0 <= y < n
            && #[trigger] within(kind_hash(items@[x], use_dhash), kind_hash(items@[y], use_dhash), max)
            implies uf.same(x, y) by {
            assert(kind_hash(items@[x], use_dhash) is Some);
            assert(kind_hash(items@[y], use_dhash) is Some);
        }
    }
}

/// Unions every two items whose chosen hashes are within `max`.
fn link_kind(items: &[HashedImage], uf: &mut UnionFind, use_dhash: bool, max: u32, Ghost(dhash_max): Ghost<u32>, Ghost(phash_max): Ghost<u32>)
    requires
        old(uf).wf(),
        old(uf).len() == items@.len(),
        max == if use_dhash { dhash_max } else { phash_max },
        sound(item_ids(items@), near_link(items@, dhash_max, phash_max), *old(uf)),
    ensures
        final(uf).wf(),
        final(uf).len() == items@.len(),
        sound(item_ids(items@), near_link(items@, dhash_max, phash_max), *final(uf)),
        forall|x: int, y: int| 0 <= x < items@.len() && 0 <= y < items@.len() && #[trigger] old(uf).same(x, y)
            ==> final(uf).same(x, y),
        forall|x: int, y: int| 0 <= x < items@.len() && 0 <= y < items@.len()
            && #[trigger] within(kind_hash(items@[x], use_dhash), kind_hash(items@[y], use_dhash), max)
            ==> final(uf).same(x, y),
{
    if max < 64 {
        link_banded(items, uf, use_dhash, max, Ghost(dhash_max), Ghost(phash_max));
    } else {
        link_all(items, uf, use_dhash, max, Ghost(dhash_max), Ghost(phash_max));
    }
}

/// Groups `items` into near-duplicate components: the connected components
/// of `near_pair` (dHash within `dhash_max` or pHash within `phash_max`). Only components with two or more members are returned;
/// member ids are sorted within each component and components are sorted by
/// size descending, then smallest id.
pub fn near_components(items: &[HashedImage], dhash_max: u32, phash_max: u32) -> (res: Vec<Vec<i64>>)
    ensures
        res@.map_values(|v: Vec<i64>| v@).to_multiset() == near_components_spec(items@, dhash_max, phash_max).to_multiset(),
        sorted_by(res@.map_values(|v: Vec<i64>| v@), |a: Seq<i64>, b: Seq<i64>| component_le(a, b)),
{
    let n = items.len();
    let mut uf = UnionFind::new(n);
    proof {
        assert forall|x: int, y: int| 0 <= x < n && 0 <= y < n && #[trigger] uf.same(x, y)
            implies joined(item_ids(items@), near_link(items@, dhash_max, phash_max), x, y) by {
            assert(x == y);
        }
    }
    link_kind(items, &mut uf, true, dhash_max, Ghost(dhash_max), Ghost(phash_max));
    let ghost after_d = uf;
    link_kind(items, &mut uf, false, phash_max, Ghost(dhash_max), Ghost(phash_max));
    let ids = ids_of(items);
    proof {
        assert forall|a: int, b: int| 0 <= a < n && 0 <= b < n && #[trigger] near_link(items@, dhash_max, phash_max)(a, b)
            implies uf.same(a, b) by {
            if within(items@[a].dhash, items@[b].dhash, dhash_max) {
                assert(within(kind_hash(items@[a], true), kind_hash(items@[b], true), dhash_max));
                assert(after_d.same(a, b));
            } else {
                assert(within(kind_hash(items@[a], false), kind_hash(items@[b], false), phash_max));
            }
        }
    }
    components_of(ids.as_slice(), uf, Ghost(near_link(items@, dhash_max, phash_max)))
}

/// Near duplicates always share a cluster: two distinct images whose dHash
/// or pHash distance is within its threshold both belong to one of the
/// reported components.
pub proof fn lemma_near_pairs_share_a_component(items: Seq<HashedImage>, dhash_max: u32, phash_max: u32, i: int, j: int)
    requires
        0 <= i < items.len(),
        0 <= j < items.len(),
        i != j,
        near_pair(items, dhash_max, phash_max, i, j),
    ensures
        exists|c: Seq<i64>| #[trigger] near_components_spec(items, dhash_max, phash_max).contains(c) && c.contains(
            items[i].id,
        ) && c.contains(items[j].id),
{
    assert(near_link(items, dhash_max, phash_max)(i, j));
    lemma_linked_share_a_component(item_ids(items), near_link(items, dhash_max, phash_max), i, j);
    assert(item_ids(items)[i] == items[i].id);
    assert(item_ids(items)[j] == items[j].id);
    let c = choose|c: Seq<i64>| #[trigger] components_spec(item_ids(items), near_link(items, dhash_max, phash_max)).contains(c)
        && c.contains(item_ids(items)[i]) && c.contains(item_ids(items)[j]);
    assert(near_components_spec(items, dhash_max, phash_max).contains(c));
}

} // verus!
