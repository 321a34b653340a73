//! Candidate pairs for near-duplicate checks via Hamming-LSH banding: only
//! bucket collisions get a real distance check, so there is no all-pairs
//! sweep.
use vstd::prelude::*;
use std::collections::HashMap;
use crate::cluster::banding::{
    band_count, band_key, band_mask, band_start, lemma_band_bounds, lemma_close_hashes_share_a_band, share_band,
};
use crate::analyze::phash::hamming_distance;

verus! {

broadcast use vstd::std_specs::hash::group_hash_axioms;

/// The pair of item indices of positions `p` and `q`, smaller first.
pub open spec fn pair_of(hashes: Seq<(usize, u64)>, p: int, q: int) -> (usize, usize) {
    if hashes[p].0 <= hashes[q].0 {
        (hashes[p].0, hashes[q].0)
    } else {
        (hashes[q].0, hashes[p].0)
    }
}

/// Positions `p` and `q` fall into the same bucket of band `band`.
pub open spec fn agree_in_band(hashes: Seq<(usize, u64)>, band: nat, bands: nat, p: int, q: int) -> bool {
    band_key(hashes[p].1, band, bands) == band_key(hashes[q].1, band, bands)
}

/// `pair` comes from two positions that collide in band `band`.
pub open spec fn collides_in_band(hashes: Seq<(usize, u64)>, band: nat, bands: nat, pair: (usize, usize)) -> bool {
    exists|p: int, q: int|
        0 <= p < q < hashes.len() && #[trigger] agree_in_band(hashes, band, bands, p, q)
            && pair_of(hashes, p, q) == pair
}

/// `pair` comes from two positions that collide in one of the first `k` bands.
pub open spec fn collides_below(hashes: Seq<(usize, u64)>, k: nat, bands: nat, pair: (usize, usize)) -> bool {
    exists|band: nat| band < k && #[trigger] collides_in_band(hashes, band, bands, pair)
}

/// `pair` is a candidate: two positions whose hashes share a band.
pub open spec fn is_candidate(hashes: Seq<(usize, u64)>, bands: nat, pair: (usize, usize)) -> bool {
    exists|p: int, q: int|
        0 <= p < q < hashes.len() && #[trigger] share_band(hashes[p].1, hashes[q].1, bands)
            && pair_of(hashes, p, q) == pair
}

spec fn in_bucket(bucket: Seq<usize>, x: usize) -> bool {
    exists|t: int| 0 <= t < bucket.len() && bucket[t] == x
}

/// Position `q` sits in the bucket that the index assigns to its key.
spec fn placed(hs: Seq<(usize, u64)>, band: nat, bands: nat, index: Map<u64, usize>, buckets: Seq<Vec<usize>>, q: int) -> bool {
    let k = band_key(hs[q].1, band, bands);
    index.contains_key(k) && index[k] < buckets.len() && in_bucket(buckets[index[k] as int]@, q as usize)
}

/// Pairs emitted from bucket `b` before inner position (`a`, `c`).
spec fn emitted_from(hashes: Seq<(usize, u64)>, bucket: Seq<usize>, a: int, c: int, pair: (usize, usize)) -> bool {
    exists|t1: int, t2: int|
        0 <= t1 < t2 < bucket.len() && (t1 < a || (t1 == a && t2 < c))
            && #[trigger] pair_of(hashes, bucket[t1] as int, bucket[t2] as int) == pair
}

spec fn emitted_buckets(hashes: Seq<(usize, u64)>, buckets: Seq<Vec<usize>>, bi: int, pair: (usize, usize)) -> bool {
    exists|b: int| 0 <= b < bi && #[trigger] emitted_from(hashes, buckets[b]@, buckets[b]@.len() as int, 0, pair)
}

fn band_key_exec(h: u64, start: u64, mask: u64) -> (k: u64)
    requires
        start < 64,
    ensures
        k == (h & mask) >> start,
{
    (h & mask) >> start
}

/// Adds every pair of positions that collide in band `band`.
#[verifier::rlimit(80)]
fn add_band_pairs(hashes: &[(usize, u64)], band: u64, bands: u64, pairs: &mut Vec<(usize, usize)>)
    requires
        0 < bands <= 64,
        band < bands,
    ensures
        forall|pair: (usize, usize)|
            final(pairs)@.contains(pair) <==> old(pairs)@.contains(pair) || collides_in_band(
                hashes@,
                band as nat,
                bands as nat,
                pair,
            ),
{
    proof {
        lemma_band_bounds(band as nat, bands as nat);
    }
    let start = band * 64 / bands;
    let end = (band + 1) * 64 / bands;
    let width = end - start;
    let mask = if width == 64 {
        u64::MAX
    } else {
        assert(1u64 << width >= 1) by (bit_vector)
            requires width < 64;
        ((1u64 << width) - 1) << start
    };
    assert(mask == band_mask(start as nat, end as nat));
    let ghost hs = hashes@;
    let n = hashes.len();
    let mut index: HashMap<u64, usize> = HashMap::new();
    let mut buckets: Vec<Vec<usize>> = Vec::new();
    let ghost mut bkeys: Seq<u64> = Seq::empty();
    let mut p: usize = 0;
    while p < n
        invariant
            n == hs.len(),
            hs == hashes@,
            0 <= p <= n,
            mask == band_mask(start as nat, end as nat),
            start as nat == band_start(band as nat, bands as nat),
            end as nat == band_start(band as nat + 1, bands as nat),
            buckets@.len() == bkeys.len(),
            forall|k: u64| #[trigger] index@.contains_key(k) ==> index@[k] < buckets@.len() && bkeys[index@[k] as int] == k,
            forall|b: int| 0 <= b < buckets@.len() ==> #[trigger] index@.contains_key(bkeys[b]) && index@[bkeys[b]] == b,
            forall|b: int, t: int| 0 <= b < buckets@.len() && 0 <= t < buckets@[b]@.len() ==>
                (#[trigger] buckets@[b]@[t]) < p && band_key(hs[buckets@[b]@[t] as int].1, band as nat, bands as nat) == bkeys[b],
            forall|b: int, t1: int, t2: int| 0 <= b < buckets@.len() && 0 <= t1 < t2 < buckets@[b]@.len() ==>
                (#[trigger] buckets@[b]@[t1]) < (#[trigger] buckets@[b]@[t2]),
            forall|q: int| 0 <= q < p ==> #[trigger] placed(hs, band as nat, bands as nat, index@, buckets@, q),
            start < 64,
            pairs@ == old(pairs)@,
        decreases n - p,
    {
        let key = band_key_exec(hashes[p].1, start, mask);
        assert(key == band_key(hs[p as int].1, band as nat, bands as nat));
        let ghost old_buckets = buckets@;
        let ghost old_index = index@;
        match index.get(&key) {
            Some(b) => {
                let b = *b;
                let ghost old_members = buckets@[b as int]@;
                buckets[b].push(p);
                assert(buckets@[b as int]@ == old_members.push(p));
                assert forall|c: int| 0 <= c < buckets@.len() && c != b as int implies buckets@[c] == old_buckets[c] by {}
                assert forall|q: int| 0 <= q < p + 1 implies #[trigger] placed(hs, band as nat, bands as nat, index@, buckets@, q) by {
                    let kq = band_key(hs[q].1, band as nat, bands as nat);
                    if q < p {
                        assert(placed(hs, band as nat, bands as nat, old_index, old_buckets, q));
                        let bq = old_index[kq] as int;
                        let t = choose|t: int| 0 <= t < old_buckets[bq]@.len() && old_buckets[bq]@[t] == q as usize;
                        assert(buckets@[bq]@[t] == q as usize);
                    } else {
                        assert(buckets@[b as int]@[old_members.len() as int] == p);
                    }
                }
            },
            None => {
                let ghost nb = buckets@.len();
                index.insert(key, buckets.len());
                let mut members = Vec::new();
                members.push(p);
                buckets.push(members);
                proof {
                    bkeys = bkeys.push(key);
                }
                assert forall|c: int| 0 <= c < nb implies buckets@[c] == old_buckets[c] by {}
                assert forall|q: int| 0 <= q < p + 1 implies #[trigger] placed(hs, band as nat, bands as nat, index@, buckets@, q) by {
                    let kq = band_key(hs[q].1, band as nat, bands as nat);
                    if q < p {
                        assert(placed(hs, band as nat, bands as nat, old_index, old_buckets, q));
                        let bq = old_index[kq] as int;
                        assert(kq != key);
                        let t = choose|t: int| 0 <= t < old_buckets[bq]@.len() && old_buckets[bq]@[t] == q as usize;
                        assert(buckets@[bq]@[t] == q as usize);
                    } else {
                        assert(buckets@[nb as int]@[0] == p);
                    }
                }
            },
        }
        p += 1;
    }
    proof {
        lemma_buckets_give_collisions(hs, band as nat, bands as nat, buckets@, bkeys, index@);
    }
    let ghost before = pairs@;
    let nbuckets = buckets.len();
    let mut bi: usize = 0;
    while bi < nbuckets
        invariant
            nbuckets == buckets@.len(),
            0 <= bi <= nbuckets,
            hs == hashes@,
            forall|pair: (usize, usize)| #![trigger before.contains(pair)] pairs@.contains(pair) <==> before.contains(pair) || emitted_buckets(hs, buckets@, bi as int, pair),
            forall|pair: (usize, usize)| emitted_buckets(hs, buckets@, nbuckets as int, pair) <==> collides_in_band(hs, band as nat, bands as nat, pair),
            forall|b: int, t: int| 0 <= b < buckets@.len() && 0 <= t < buckets@[b]@.len() ==> (#[trigger] buckets@[b]@[t]) < hs.len(),
        decreases nbuckets - bi,
    {
        let ghost mid = pairs@;
        let ghost ob = bi as int;
        emit_bucket(hashes, &buckets[bi], pairs);
        bi += 1;
        proof {
            assert forall|pair: (usize, usize)| #![trigger before.contains(pair)] pairs@.contains(pair) <==> before.contains(pair) || emitted_buckets(hs, buckets@, bi as int, pair) by {
                assert(mid.contains(pair) <==> before.contains(pair) || emitted_buckets(hs, buckets@, ob, pair));
                lemma_emitted_next_bucket(hs, buckets@, ob, pair);
                assert(bi as int == ob + 1);
            }
        }
    }
    proof {
        assert(bi == nbuckets);
        assert(before == old(pairs)@);
        assert forall|pair: (usize, usize)| pairs@.contains(pair) <==> old(pairs)@.contains(pair) || collides_in_band(hs, band as nat, bands as nat, pair) by {
            assert(pairs@.contains(pair) <==> before.contains(pair) || emitted_buckets(hs, buckets@, bi as int, pair));
            assert(emitted_buckets(hs, buckets@, nbuckets as int, pair) <==> collides_in_band(hs, band as nat, bands as nat, pair));
        }
    }
}

/// Appends the pairs of every two members of one bucket.
fn emit_bucket(hashes: &[(usize, u64)], members: &Vec<usize>, pairs: &mut Vec<(usize, usize)>)
    requires
        forall|t: int| 0 <= t < members@.len() ==> (#[trigger] members@[t]) < hashes@.len(),
    ensures
        forall|pair: (usize, usize)| #![trigger old(pairs)@.contains(pair)] final(pairs)@.contains(pair) <==> old(pairs)@.contains(pair)
            || emitted_from(hashes@, members@, members@.len() as int, 0, pair),
{
    let ghost hs = hashes@;
    let ghost before = pairs@;
    let m = members.len();
    let mut a: usize = 0;
    while a < m
        invariant
            m == members@.len(),
            0 <= a <= m,
            hs == hashes@,
            forall|t: int| 0 <= t < members@.len() ==> (#[trigger] members@[t]) < hs.len(),
            forall|pair: (usize, usize)| #![trigger before.contains(pair)] pairs@.contains(pair) <==> before.contains(pair)
                || emitted_from(hs, members@, a as int, 0, pair),
        decreases m - a,
    {
        let ghost mid = pairs@;
        let ghost oa = a as int;
        emit_row(hashes, members, a, pairs);
        a += 1;
        proof {
            assert forall|pair: (usize, usize)| #![trigger before.contains(pair)] pairs@.contains(pair) <==> before.contains(pair)
                || emitted_from(hs, members@, a as int, 0, pair) by {
                assert(mid.contains(pair) <==> before.contains(pair) || emitted_from(hs, members@, oa, 0, pair));
                lemma_emitted_row_end(hs, members@, oa, pair);
                lemma_row_pairs(hs, members@, oa, pair);
                assert(a as int == oa + 1);
            }
        }
    }
}

/// Pairs of member `a` with each later member, as an explicit set.
spec fn row_pair(hs: Seq<(usize, u64)>, members: Seq<usize>, a: int, c: int, pair: (usize, usize)) -> bool {
    exists|t: int| a < t < c && #[trigger] pair_of(hs, members[a] as int, members[t] as int) == pair
}

proof fn lemma_row_pairs(hs: Seq<(usize, u64)>, members: Seq<usize>, a: int, pair: (usize, usize))
    requires
        0 <= a < members.len(),
    ensures
        emitted_from(hs, members, a, members.len() as int, pair) <==> emitted_from(hs, members, a, 0, pair)
            || row_pair(hs, members, a, members.len() as int, pair),
{
    if emitted_from(hs, members, a, members.len() as int, pair) {
        let (t1, t2) = choose|t1: int, t2: int| 0 <= t1 < t2 < members.len() && (t1 < a || (t1 == a && t2 < members.len()))
            && #[trigger] pair_of(hs, members[t1] as int, members[t2] as int) == pair;
        if t1 < a {
            assert(emitted_from(hs, members, a, 0, pair));
        } else {
            assert(pair_of(hs, members[a] as int, members[t2] as int) == pair);
        }
    }
    if emitted_from(hs, members, a, 0, pair) {
        let (t1, t2) = choose|t1: int, t2: int| 0 <= t1 < t2 < members.len() && (t1 < a || (t1 == a && t2 < 0))
            && #[trigger] pair_of(hs, members[t1] as int, members[t2] as int) == pair;
        assert(pair_of(hs, members[t1] as int, members[t2] as int) == pair);
    }
    if row_pair(hs, members, a, members.len() as int, pair) {
        let t = choose|t: int| a < t < members.len() && #[trigger] pair_of(hs, members[a] as int, members[t] as int) == pair;
        assert(pair_of(hs, members[a] as int, members[t] as int) == pair);
    }
}

/// Appends the pairs of member `a` with each later member.
fn emit_row(hashes: &[(usize, u64)], members: &Vec<usize>, a: usize, pairs: &mut Vec<(usize, usize)>)
    requires
        a < members@.len(),
        forall|t: int| 0 <= t < members@.len() ==> (#[trigger] members@[t]) < hashes@.len(),
    ensures
        forall|pair: (usize, usize)| final(pairs)@.contains(pair) <==> old(pairs)@.contains(pair)
            || row_pair(hashes@, members@, a as int, members@.len() as int, pair),
{
    let ghost hs = hashes@;
    let ghost before = pairs@;
    let m = members.len();
    let mut c: usize = a + 1;
    while c < m
        invariant
            m == members@.len(),
            a < c <= m,
            hs == hashes@,
            forall|t: int| 0 <= t < members@.len() ==> (#[trigger] members@[t]) < hs.len(),
            forall|pair: (usize, usize)| #![trigger before.contains(pair)] pairs@.contains(pair) <==> before.contains(pair)
                || row_pair(hs, members@, a as int, c as int, pair),
        decreases m - c,
    {
        let i = hashes[members[a]].0;
        let j = hashes[members[c]].0;
        let pr = if i <= j { (i, j) } else { (j, i) };
        assert(pr == pair_of(hs, members@[a as int] as int, members@[c as int] as int));
        let ghost prev = pairs@;
        let ghost oc = c as int;
        pairs.push(pr);
        c += 1;
        proof {
            assert forall|pair: (usize, usize)| #![trigger before.contains(pair)] pairs@.contains(pair) <==> before.contains(pair)
                || row_pair(hs, members@, a as int, c as int, pair) by {
                assert(prev.contains(pair) <==> before.contains(pair) || row_pair(hs, members@, a as int, oc, pair));
                lemma_push_contains(prev, pr, pair);
                assert(c as int == oc + 1);
                if row_pair(hs, members@, a as int, c as int, pair) {
                    let t = choose|t: int| a < t < c && #[trigger] pair_of(hs, members@[a as int] as int, members@[t] as int) == pair;
                    if t < oc {
                        assert(row_pair(hs, members@, a as int, oc, pair));
                    }
                }
                if row_pair(hs, members@, a as int, oc, pair) {
                    let t = choose|t: int| a < t < oc && #[trigger] pair_of(hs, members@[a as int] as int, members@[t] as int) == pair;
                    assert(pair_of(hs, members@[a as int] as int, members@[t] as int) == pair);
                }
                if pair == pr {
                    assert(pair_of(hs, members@[a as int] as int, members@[oc] as int) == pair);
                }
            }
        }
    }
    proof {
        assert(before == old(pairs)@);
        assert forall|pair: (usize, usize)| pairs@.contains(pair) <==> old(pairs)@.contains(pair)
            || row_pair(hashes@, members@, a as int, members@.len() as int, pair) by {
            assert(c == m);
            assert(hs == hashes@);
            assert(pairs@.contains(pair) <==> before.contains(pair) || row_pair(hs, members@, a as int, c as int, pair));
        }
    }
}

proof fn lemma_push_contains<T>(s: Seq<T>, x: T, y: T)
    ensures
        s.push(x).contains(y) <==> s.contains(y) || x == y,
{
    if s.push(x).contains(y) {
        let k = choose|k: int| 0 <= k < s.push(x).len() && s.push(x)[k] == y;
        if k < s.len() {
            assert(s[k] == y);
        }
    }
    if s.contains(y) {
        let k = choose|k: int| 0 <= k < s.len() && s[k] == y;
        assert(s.push(x)[k] == y);
    }
    if x == y {
        assert(s.push(x)[s.len() as int] == y);
    }
}

proof fn lemma_emitted_row_end(hs: Seq<(usize, u64)>, members: Seq<usize>, a: int, pair: (usize, usize))
    requires
        0 <= a < members.len(),
    ensures
        emitted_from(hs, members, a + 1, 0, pair) <==> emitted_from(hs, members, a, members.len() as int, pair),
{
    if emitted_from(hs, members, a + 1, 0, pair) {
        let (t1, t2) = choose|t1: int, t2: int| 0 <= t1 < t2 < members.len() && (t1 < a + 1 || (t1 == a + 1 && t2 < 0))
            && #[trigger] pair_of(hs, members[t1] as int, members[t2] as int) == pair;
        assert(pair_of(hs, members[t1] as int, members[t2] as int) == pair);
    }
    if emitted_from(hs, members, a, members.len() as int, pair) {
        let (t1, t2) = choose|t1: int, t2: int| 0 <= t1 < t2 < members.len() && (t1 < a || (t1 == a && t2 < members.len()))
            && #[trigger] pair_of(hs, members[t1] as int, members[t2] as int) == pair;
        assert(pair_of(hs, members[t1] as int, members[t2] as int) == pair);
    }
}

proof fn lemma_emitted_next_bucket(hs: Seq<(usize, u64)>, buckets: Seq<Vec<usize>>, bi: int, pair: (usize, usize))
    requires
        0 <= bi < buckets.len(),
    ensures
        emitted_buckets(hs, buckets, bi + 1, pair) <==> emitted_buckets(hs, buckets, bi, pair)
            || emitted_from(hs, buckets[bi]@, buckets[bi]@.len() as int, 0, pair),
{
    if emitted_buckets(hs, buckets, bi + 1, pair) {
        let b = choose|b: int| 0 <= b < bi + 1 && #[trigger] emitted_from(hs, buckets[b]@, buckets[b]@.len() as int, 0, pair);
        if b < bi {
            assert(emitted_from(hs, buckets[b]@, buckets[b]@.len() as int, 0, pair));
        }
    }
    if emitted_buckets(hs, buckets, bi, pair) || emitted_from(hs, buckets[bi]@, buckets[bi]@.len() as int, 0, pair) {
        if emitted_buckets(hs, buckets, bi, pair) {
            let b = choose|b: int| 0 <= b < bi && #[trigger] emitted_from(hs, buckets[b]@, buckets[b]@.len() as int, 0, pair);
            assert(emitted_from(hs, buckets[b]@, buckets[b]@.len() as int, 0, pair));
        } else {
            assert(emitted_from(hs, buckets[bi]@, buckets[bi]@.len() as int, 0, pair));
        }
    }
}

/// The buckets of one band produce exactly the pairs colliding in that band.
proof fn lemma_buckets_give_collisions(
    hs: Seq<(usize, u64)>,
    band: nat,
    bands: nat,
    buckets: Seq<Vec<usize>>,
    bkeys: Seq<u64>,
    index: Map<u64, usize>,
)
    requires
        hs.len() <= usize::MAX,
        buckets.len() == bkeys.len(),
        forall|k: u64| #[trigger] index.contains_key(k) ==> index[k] < buckets.len() && bkeys[index[k] as int] == k,
        forall|b: int, t: int| 0 <= b < buckets.len() && 0 <= t < buckets[b]@.len() ==>
            (#[trigger] buckets[b]@[t]) < hs.len() && band_key(hs[buckets[b]@[t] as int].1, band, bands) == bkeys[b],
        forall|b: int, t1: int, t2: int| 0 <= b < buckets.len() && 0 <= t1 < t2 < buckets[b]@.len() ==>
            (#[trigger] buckets[b]@[t1]) < (#[trigger] buckets[b]@[t2]),
        forall|q: int| 0 <= q < hs.len() ==> #[trigger] placed(hs, band, bands, index, buckets, q),
    ensures
        forall|pair: (usize, usize)| emitted_buckets(hs, buckets, buckets.len() as int, pair) <==> collides_in_band(hs, band, bands, pair),
{
    assert forall|pair: (usize, usize)| emitted_buckets(hs, buckets, buckets.len() as int, pair) implies collides_in_band(hs, band, bands, pair) by {
        let b = choose|b: int| 0 <= b < buckets.len() && #[trigger] emitted_from(hs, buckets[b]@, buckets[b]@.len() as int, 0, pair);
        let members = buckets[b]@;
        let (t1, t2) = choose|t1: int, t2: int| 0 <= t1 < t2 < members.len() && (t1 < members.len() || (t1 == members.len() && t2 < 0))
            && #[trigger] pair_of(hs, members[t1] as int, members[t2] as int) == pair;
        let p = members[t1] as int;
        let q = members[t2] as int;
        assert(buckets[b]@[t1] < buckets[b]@[t2]);
        assert(buckets[b]@[t1] < hs.len() && buckets[b]@[t2] < hs.len());
        assert(agree_in_band(hs, band, bands, p, q));
    }
    assert forall|pair: (usize, usize)| collides_in_band(hs, band, bands, pair) implies emitted_buckets(hs, buckets, buckets.len() as int, pair) by {
        let (p, q) = choose|p: int, q: int| 0 <= p < q < hs.len() && #[trigger] agree_in_band(hs, band, bands, p, q)
            && pair_of(hs, p, q) == pair;
        let k = band_key(hs[p].1, band, bands);
        assert(placed(hs, band, bands, index, buckets, p));
        assert(placed(hs, band, bands, index, buckets, q));
        let b = index[k] as int;
        let members = buckets[b]@;
        assert(in_bucket(members, p as usize));
        assert(in_bucket(members, q as usize));
        let t1 = choose|t: int| 0 <= t < members.len() && members[t] == p as usize;
        let t2 = choose|t: int| 0 <= t < members.len() && members[t] == q as usize;
        if t2 < t1 {
            assert(buckets[b]@[t2] < buckets[b]@[t1]);
        }
        assert(p as usize != q as usize);
        assert(t1 != t2);
        assert(members[t1] as int == p && members[t2] as int == q);
        assert(pair_of(hs, members[t1] as int, members[t2] as int) == pair);
        assert(emitted_from(hs, buckets[b]@, buckets[b]@.len() as int, 0, pair));
    }
}

proof fn lemma_collides_below_step(hs: Seq<(usize, u64)>, k: nat, bands: nat, pair: (usize, usize))
    ensures
        collides_below(hs, k + 1, bands, pair) <==> collides_below(hs, k, bands, pair) || collides_in_band(hs, k, bands, pair),
{
    if collides_below(hs, k + 1, bands, pair) {
        let b = choose|b: nat| b < k + 1 && #[trigger] collides_in_band(hs, b, bands, pair);
        if b < k {
            assert(collides_below(hs, k, bands, pair));
        }
    }
    if collides_below(hs, k, bands, pair) {
        let b = choose|b: nat| b < k && #[trigger] collides_in_band(hs, b, bands, pair);
        assert(collides_below(hs, k + 1, bands, pair));
    }
    if collides_in_band(hs, k, bands, pair) {
        assert(collides_below(hs, k + 1, bands, pair));
    }
}

proof fn lemma_collides_below_all(hs: Seq<(usize, u64)>, bands: nat, pair: (usize, usize))
    ensures
        collides_below(hs, bands, bands, pair) <==> is_candidate(hs, bands, pair),
{
    if collides_below(hs, bands, bands, pair) {
        let b = choose|b: nat| b < bands && #[trigger] collides_in_band(hs, b, bands, pair);
        let (p, q) = choose|p: int, q: int|
            0 <= p < q < hs.len() && #[trigger] agree_in_band(hs, b, bands, p, q) && pair_of(hs, p, q) == pair;
        assert(share_band(hs[p].1, hs[q].1, bands));
    }
    if is_candidate(hs, bands, pair) {
        let (p, q) = choose|p: int, q: int|
            0 <= p < q < hs.len() && #[trigger] share_band(hs[p].1, hs[q].1, bands) && pair_of(hs, p, q) == pair;
        let b = choose|b: nat| b < bands && #[trigger] band_key(hs[p].1, b, bands) == band_key(hs[q].1, b, bands);
        assert(agree_in_band(hs, b, bands, p, q));
        assert(collides_in_band(hs, b, bands, pair));
    }
}

/// Indices of `hashes` pairs that might be within `max_distance` (a
/// superset of the true pairs, which the caller verifies). Pairs are
/// (smaller, larger) item indices. With `max_distance + 1` bands (at most
/// 64), two hashes that agree exactly on some band become a candidate.
pub fn candidate_pairs(hashes: &[(usize, u64)], max_distance: u32) -> (pairs: Vec<(usize, usize)>)
    ensures
        forall|pair: (usize, usize)| pairs@.contains(pair) <==> is_candidate(hashes@, band_count(max_distance), pair),
{
    let bands: u64 = if (max_distance as u64) + 1 < 64 { (max_distance as u64) + 1 } else { 64 };
    let mut pairs: Vec<(usize, usize)> = Vec::new();
    let mut band: u64 = 0;
    while band < bands
        invariant
            bands as nat == band_count(max_distance),
            0 < bands <= 64,
            band <= bands,
            forall|pair: (usize, usize)| pairs@.contains(pair) <==> collides_below(hashes@, band as nat, bands as nat, pair),
        decreases bands - band,
    {
        let ghost prev = pairs@;
        let ghost ob = band as nat;
        add_band_pairs(hashes, band, bands, &mut pairs);
        band += 1;
        proof {
            assert forall|pair: (usize, usize)| pairs@.contains(pair) <==> collides_below(hashes@, band as nat, bands as nat, pair) by {
                lemma_collides_below_step(hashes@, ob, bands as nat, pair);
                assert(prev.contains(pair) <==> collides_below(hashes@, ob, bands as nat, pair));
                assert(band as nat == ob + 1);
            }
        }
    }
    proof {
        assert forall|pair: (usize, usize)| pairs@.contains(pair) <==> is_candidate(hashes@, band_count(max_distance), pair) by {
            lemma_collides_below_all(hashes@, bands as nat, pair);
            assert(band == bands);
        }
    }
    pairs
}

/// Banding misses no close pair: two positions whose hashes are at most
/// `max_distance` (below 64) bits apart form a candidate pair.
pub proof fn lemma_banding_finds_every_close_pair(hashes: Seq<(usize, u64)>, max_distance: u32, p: int, q: int)
    requires
        max_distance < 64,
        0 <= p < q < hashes.len(),
        hamming_distance(hashes[p].1, hashes[q].1) <= max_distance,
    ensures
        is_candidate(hashes, band_count(max_distance), pair_of(hashes, p, q)),
{
    lemma_close_hashes_share_a_band(hashes[p].1, hashes[q].1, max_distance);
    assert(share_band(hashes[p].1, hashes[q].1, band_count(max_distance)));
}

} // verus!
