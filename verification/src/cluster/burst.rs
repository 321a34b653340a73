//! Burst detection: two frames link when they were captured at most the gap
//! apart on the same camera and their embeddings are similar. Bursts are the
//! connected components of that link: A~B and B~C form one burst even if A
//! and C are farther apart.
//!
//! The library lists every pair of frames within the gap on one camera;
//! whether two such frames look alike (cosine similarity of their
//! embeddings) is measured by the caller, and the bursts follow.
use vstd::prelude::*;
use vstd::relations::{sorted_by, total_ordering};
use crate::cluster::components::{component_le, components_of, components_spec, joined, sound};
use crate::cluster::union_find::UnionFind;
use crate::sort::merge_sort_by;
use crate::text::{lemma_lex_total, lemma_lex_trans, lex_le, str_eq, str_le};

verus! {

/// Default burst gap, seconds.
pub const DEFAULT_BURST_GAP_SECS: i64 = 3;

/// What burst detection reads of a frame; its embedding is compared by the
/// caller.
#[derive(Debug, Clone)]
pub struct BurstKey {
    pub id: i64,
    pub camera: Option<String>,
    pub captured_at: Option<i64>,
    /// Whether the frame has an embedding.
    pub has_embedding: bool,
}

/// Frames missing camera, capture time, or embedding never join a burst.
pub open spec fn eligible(f: BurstKey) -> bool {
    f.camera is Some && f.captured_at is Some && f.has_embedding
}

/// The camera text of a frame (empty when absent).
pub open spec fn camera_of(f: BurstKey) -> Seq<char> {
    match f.camera {
        Some(c) => c@,
        None => Seq::empty(),
    }
}

/// The capture time of a frame (0 when absent).
pub open spec fn time_of(f: BurstKey) -> i64 {
    match f.captured_at {
        Some(t) => t,
        None => 0,
    }
}

/// Frame order on positions: camera, then capture time, then id, then
/// position (the input order among equal frames). Positions outside
/// `frames` sort last, by position.
pub open spec fn frame_le(frames: Seq<BurstKey>, a: usize, b: usize) -> bool {
    let n = frames.len();
    if a < n && b < n {
        let (fa, fb) = (frames[a as int], frames[b as int]);
        if camera_of(fa) != camera_of(fb) {
            lex_le(camera_of(fa), camera_of(fb))
        } else if time_of(fa) != time_of(fb) {
            time_of(fa) < time_of(fb)
        } else if fa.id != fb.id {
            fa.id < fb.id
        } else {
            a <= b
        }
    } else if a < n {
        true
    } else if b < n {
        false
    } else {
        a <= b
    }
}

pub open spec fn frame_order(frames: Seq<BurstKey>) -> spec_fn(usize, usize) -> bool {
    |a: usize, b: usize| frame_le(frames, a, b)
}

/// Positions of the eligible frames among the first `k`, in input order.
pub open spec fn eligible_upto(frames: Seq<BurstKey>, k: int) -> Seq<usize>
    decreases k,
{
    if k <= 0 {
        Seq::empty()
    } else {
        let prev = eligible_upto(frames, k - 1);
        if eligible(frames[k - 1]) {
            prev.push((k - 1) as usize)
        } else {
            prev
        }
    }
}

/// The eligible frames in frame order.
pub open spec fn burst_order_spec(frames: Seq<BurstKey>) -> Seq<usize> {
    eligible_upto(frames, frames.len() as int).sort_by(frame_order(frames))
}

/// Frame order is a total order.
pub proof fn lemma_frame_order(frames: Seq<BurstKey>)
    ensures
        total_ordering(frame_order(frames)),
{
    let le = frame_order(frames);
    assert forall|a: usize, b: usize| #[trigger] le(a, b) || le(b, a) by {
        if a < frames.len() && b < frames.len() {
            lemma_lex_total(camera_of(frames[a as int]), camera_of(frames[b as int]));
        }
    }
    assert forall|a: usize, b: usize| #[trigger] le(a, b) && #[trigger] le(b, a) implies a == b by {
        if a < frames.len() && b < frames.len() {
            lemma_lex_total(camera_of(frames[a as int]), camera_of(frames[b as int]));
        }
    }
    assert forall|a: usize, b: usize, c: usize| #[trigger] le(a, b) && #[trigger] le(b, c) implies le(a, c) by {
        let n = frames.len();
        if a < n && b < n && c < n {
            let (ca, cb, cc) = (camera_of(frames[a as int]), camera_of(frames[b as int]), camera_of(frames[c as int]));
            lemma_lex_total(ca, cb);
            lemma_lex_total(cb, cc);
            lemma_lex_total(ca, cc);
            lemma_lex_trans(ca, cb, cc);
        }
    }
    assert forall|a: usize| #[trigger] le(a, a) by {
        if a < frames.len() {
            lemma_lex_total(camera_of(frames[a as int]), camera_of(frames[a as int]));
        }
    }
}

proof fn lemma_eligible_upto(frames: Seq<BurstKey>, k: int)
    requires
        0 <= k <= frames.len(),
        frames.len() <= usize::MAX,
    ensures
        forall|t: int| 0 <= t < eligible_upto(frames, k).len() ==> {
            &&& (#[trigger] eligible_upto(frames, k)[t]) < k
            &&& eligible(frames[eligible_upto(frames, k)[t] as int])
        },
    decreases k,
{
    if k > 0 {
        lemma_eligible_upto(frames, k - 1);
        let prev = eligible_upto(frames, k - 1);
        assert forall|t: int| 0 <= t < eligible_upto(frames, k).len() implies {
            &&& (#[trigger] eligible_upto(frames, k)[t]) < k
            &&& eligible(frames[eligible_upto(frames, k)[t] as int])
        } by {
            if t < prev.len() {
                assert(eligible_upto(frames, k)[t] == prev[t]);
            }
        }
    }
}

proof fn lemma_eligible_listed(frames: Seq<BurstKey>, k: int, i: int)
    requires
        0 <= i < k <= frames.len(),
        frames.len() <= usize::MAX,
        eligible(frames[i]),
    ensures
        eligible_upto(frames, k).contains(i as usize),
    decreases k,
{
    let all = eligible_upto(frames, k);
    if i == k - 1 {
        assert(all[all.len() - 1] == i as usize);
    } else {
        lemma_eligible_listed(frames, k - 1, i);
        let prev = eligible_upto(frames, k - 1);
        let t = choose|t: int| 0 <= t < prev.len() && prev[t] == i as usize;
        assert(all[t] == i as usize);
    }
}

/// Whether frame `a` sorts before or with frame `b` (positions within
/// `frames`).
fn frame_le_exec(frames: &[BurstKey], a: usize, b: usize) -> (r: bool)
    ensures
        r == frame_le(frames@, a, b),
{
    let n = frames.len();
    if a < n && b < n {
        let (fa, fb) = (&frames[a], &frames[b]);
        let ca: &str = match &fa.camera {
            Some(c) => c.as_str(),
            None => {
                proof {
                    reveal_strlit("");
                }
                ""
            },
        };
        let cb: &str = match &fb.camera {
            Some(c) => c.as_str(),
            None => {
                proof {
                    reveal_strlit("");
                }
                ""
            },
        };
        let ta: i64 = match fa.captured_at {
            Some(t) => t,
            None => 0,
        };
        let tb: i64 = match fb.captured_at {
            Some(t) => t,
            None => 0,
        };
        assert(ca@ == camera_of(frames@[a as int]));
        assert(cb@ == camera_of(frames@[b as int]));
        if !str_eq(ca, cb) {
            str_le(ca, cb)
        } else if ta != tb {
            ta < tb
        } else if fa.id != fb.id {
            fa.id < fb.id
        } else {
            a <= b
        }
    } else if a < n {
        true
    } else if b < n {
        false
    } else {
        a <= b
    }
}

/// Positions of the eligible frames in frame order: camera, capture time,
/// id, then input position.
// Frames are grouped by camera by sorting on the camera name rather than
// through a `HashMap` keyed by it: vstd gives map lookups a meaning only for
// key types known to obey its key model (integers and `bool`), and a string
// key would need that assumed.
pub fn burst_order(frames: &[BurstKey]) -> (order: Vec<usize>)
    ensures
        order@ == burst_order_spec(frames@),
        forall|t: int| 0 <= t < order@.len() ==> (#[trigger] order@[t]) < frames@.len() && eligible(
            frames@[order@[t] as int],
        ),
        forall|i: int| 0 <= i < frames@.len() && eligible(#[trigger] frames@[i]) ==> order@.contains(i as usize),
        sorted_by(order@, frame_order(frames@)),
{
    let mut picked: Vec<usize> = Vec::new();
    let mut i: usize = 0;
    while i < frames.len()
        invariant
            i <= frames@.len(),
            picked@ == eligible_upto(frames@, i as int),
        decreases frames@.len() - i,
    {
        let f = &frames[i];
        if f.camera.is_some() && f.captured_at.is_some() && f.has_embedding {
            picked.push(i);
        }
        i += 1;
    }
    let ghost leq = frame_order(frames@);
    proof {
        lemma_frame_order(frames@);
    }
    let ghost before = picked@;
    let sorted = merge_sort_by(
        picked,
        &|a: &usize, b: &usize| -> (r: bool)
            ensures r == frame_le(frames@, *a, *b)
        {
            frame_le_exec(frames, *a, *b)
        },
        Ghost(leq),
    );
    proof {
        before.lemma_sort_by_ensures(leq);
        vstd::seq_lib::lemma_sorted_unique(sorted@, before.sort_by(leq), leq);
        lemma_eligible_upto(frames@, frames@.len() as int);
        assert forall|t: int| 0 <= t < sorted@.len() implies (#[trigger] sorted@[t]) < frames@.len() && eligible(
            frames@[sorted@[t] as int],
        ) by {
            assert(sorted@.contains(sorted@[t]));
            assert(before.contains(sorted@[t]));
            let u = choose|u: int| 0 <= u < before.len() && before[u] == sorted@[t];
            assert(before[u] == eligible_upto(frames@, frames@.len() as int)[u]);
        }
        assert forall|i: int| 0 <= i < frames@.len() && eligible(#[trigger] frames@[i]) implies sorted@.contains(i as usize) by {
            lemma_eligible_listed(frames@, frames@.len() as int, i);
            vstd::seq_lib::to_multiset_contains(before, i as usize);
            vstd::seq_lib::to_multiset_contains(sorted@, i as usize);
        }
    }
    sorted
}

/// Frames `i` and `j` may form a burst: both eligible, on the same camera,
/// and captured at most `max_gap_secs` apart.
pub open spec fn burst_candidate(frames: Seq<BurstKey>, max_gap_secs: i64, i: int, j: int) -> bool {
    &&& 0 <= i < frames.len()
    &&& 0 <= j < frames.len()
    &&& eligible(frames[i])
    &&& eligible(frames[j])
    &&& camera_of(frames[i]) == camera_of(frames[j])
    &&& time_of(frames[j]) - time_of(frames[i]) <= max_gap_secs
    &&& time_of(frames[i]) - time_of(frames[j]) <= max_gap_secs
}

/// The burst link: a candidate pair that the caller judged similar, listed
/// in either order.
pub open spec fn burst_link(frames: Seq<BurstKey>, similar: Seq<(usize, usize)>, max_gap_secs: i64) -> spec_fn(int, int) -> bool {
    |i: int, j: int| burst_candidate(frames, max_gap_secs, i, j) && (similar.contains((i as usize, j as usize))
        || similar.contains((j as usize, i as usize)))
}

/// The ids of the frames, in order.
pub open spec fn frame_ids(frames: Seq<BurstKey>) -> Seq<i64> {
    frames.map_values(|f: BurstKey| f.id)
}

/// The bursts: every connected component of two or more frames under the
/// burst link, ids sorted, in order of first frame.
pub open spec fn bursts_spec(frames: Seq<BurstKey>, similar: Seq<(usize, usize)>, max_gap_secs: i64) -> Seq<Seq<i64>> {
    components_spec(frame_ids(frames), burst_link(frames, similar, max_gap_secs))
}

/// Frames `a..=b` of `order` all share frame `order[a]`'s camera and were
/// captured at most `max_gap_secs` after it.
pub open spec fn in_window(frames: Seq<BurstKey>, order: Seq<usize>, max_gap_secs: i64, a: int, b: int) -> bool {
    forall|c: int| a < c <= b ==> {
        &&& camera_of(frames[(#[trigger] order[c]) as int]) == camera_of(frames[order[a] as int])
        &&& time_of(frames[order[c] as int]) - time_of(frames[order[a] as int]) <= max_gap_secs
    }
}

/// In frame order, a frame between two frames of one camera has that camera
/// and a capture time between theirs.
proof fn lemma_between(frames: Seq<BurstKey>, order: Seq<usize>, a: int, c: int, b: int)
    requires
        sorted_by(order, frame_order(frames)),
        0 <= a <= c <= b < order.len(),
        forall|t: int| 0 <= t < order.len() ==> (#[trigger] order[t]) < frames.len(),
        camera_of(frames[order[a] as int]) == camera_of(frames[order[b] as int]),
    ensures
        camera_of(frames[order[c] as int]) == camera_of(frames[order[a] as int]),
        time_of(frames[order[a] as int]) <= time_of(frames[order[c] as int]) <= time_of(frames[order[b] as int]),
{
    let le = frame_order(frames);
    assert(le(order[a], order[c]));
    assert(le(order[c], order[b]));
    let (ca, cc, cb) = (camera_of(frames[order[a] as int]), camera_of(frames[order[c] as int]), camera_of(frames[order[b] as int]));
    crate::text::lemma_lex_order();
    let lo = crate::text::lex_order();
    if cc != ca {
        assert(lex_le(ca, cc));
        assert(lex_le(cc, cb));
        assert(lo(ca, cc) && lo(cc, ca));
    }
}

/// Every pair of frames within `max_gap_secs` of each other on one camera,
/// each pair once, in either order.
pub fn burst_pairs(frames: &[BurstKey], max_gap_secs: i64) -> (pairs: Vec<(usize, usize)>)
    ensures
        forall|t: int| 0 <= t < pairs@.len() ==> burst_candidate(frames@, max_gap_secs, (#[trigger] pairs@[t]).0 as int, pairs@[t].1 as int),
        forall|i: int, j: int| i != j && #[trigger] burst_candidate(frames@, max_gap_secs, i, j) ==> pairs@.contains(
            (i as usize, j as usize),
        ) || pairs@.contains((j as usize, i as usize)),
{
    let nf = frames.len();
    let order = burst_order(frames);
    let m = order.len();
    let mut pairs: Vec<(usize, usize)> = Vec::new();
    let mut p: usize = 0;
    while p < m
        invariant
            m == order@.len(),
            p <= m,
            forall|t: int| 0 <= t < m ==> (#[trigger] order@[t]) < frames@.len() && eligible(frames@[order@[t] as int]),
            sorted_by(order@, frame_order(frames@)),
            forall|t: int| 0 <= t < pairs@.len() ==> burst_candidate(frames@, max_gap_secs, (#[trigger] pairs@[t]).0 as int, pairs@[t].1 as int),
            forall|a: int, b: int| 0 <= a < p && a < b < m && #[trigger] in_window(frames@, order@, max_gap_secs, a, b)
                ==> pairs@.contains((order@[a], order@[b])),
        decreases m - p,
    {
        let fp = &frames[order[p]];
        let cp: &str = match &fp.camera {
            Some(c) => c.as_str(),
            None => {
                proof {
                    reveal_strlit("");
                }
                ""
            },
        };
        let tp: i64 = match fp.captured_at {
            Some(t) => t,
            None => 0,
        };
        assert(cp@ == camera_of(frames@[order@[p as int] as int]));
        let ghost start = pairs@;
        let mut q: usize = p + 1;
        let mut going = true;
        while going && q < m
            invariant
                m == order@.len(),
                p < m,
                p < q <= m,
                forall|t: int| 0 <= t < m ==> (#[trigger] order@[t]) < frames@.len() && eligible(frames@[order@[t] as int]),
                sorted_by(order@, frame_order(frames@)),
                cp@ == camera_of(frames@[order@[p as int] as int]),
                tp == time_of(frames@[order@[p as int] as int]),
                in_window(frames@, order@, max_gap_secs, p as int, q - 1),
                !going ==> q < m && !in_window(frames@, order@, max_gap_secs, p as int, q as int),
                forall|t: int| 0 <= t < start.len() ==> pairs@[t] == start[t],
                start.len() <= pairs@.len(),
                forall|t: int| 0 <= t < pairs@.len() ==> burst_candidate(frames@, max_gap_secs, (#[trigger] pairs@[t]).0 as int, pairs@[t].1 as int),
                forall|b: int| p < b < q ==> pairs@.contains((order@[p as int], #[trigger] order@[b])),
            decreases (m - q) * 2 + if going { 1int } else { 0int },
        {
            let fq = &frames[order[q]];
            let cq: &str = match &fq.camera {
                Some(c) => c.as_str(),
                None => {
                    proof {
                        reveal_strlit("");
                    }
                    ""
                },
            };
            let tq: i64 = match fq.captured_at {
                Some(t) => t,
                None => 0,
            };
            assert(cq@ == camera_of(frames@[order@[q as int] as int]));
            if str_eq(cp, cq) && (tq as i128) - (tp as i128) <= max_gap_secs as i128 {
                proof {
                    lemma_between(frames@, order@, p as int, p as int, q as int);
                }
                let ghost before = pairs@;
                pairs.push((order[p], order[q]));
                proof {
                    assert(pairs@[pairs@.len() - 1] == (order@[p as int], order@[q as int]));
                    assert forall|b: int| p < b < q + 1 implies pairs@.contains((order@[p as int], #[trigger] order@[b])) by {
                        if b < q {
                            let t = choose|t: int| 0 <= t < before.len() && before[t] == (order@[p as int], order@[b]);
                            assert(pairs@[t] == before[t]);
                        }
                    }
                    assert(in_window(frames@, order@, max_gap_secs, p as int, q as int));
                }
                q += 1;
            } else {
                going = false;
            }
        }
        proof {
            assert forall|a: int, b: int| 0 <= a < p + 1 && a < b < m && #[trigger] in_window(frames@, order@, max_gap_secs, a, b)
                implies pairs@.contains((order@[a], order@[b])) by {
                if a < p {
                    let t = choose|t: int| 0 <= t < start.len() && start[t] == (order@[a], order@[b]);
                    assert(pairs@[t] == start[t]);
                } else {
                    if b >= q {
                        assert(!going);
                        assert(in_window(frames@, order@, max_gap_secs, p as int, q as int));
                    }
                }
            }
        }
        p += 1;
    }
    proof {
        assert forall|i: int, j: int| i != j && #[trigger] burst_candidate(frames@, max_gap_secs, i, j) implies pairs@.contains(
            (i as usize, j as usize),
        ) || pairs@.contains((j as usize, i as usize)) by {
            assert(order@.contains(i as usize));
            assert(order@.contains(j as usize));
            let pi = choose|t: int| 0 <= t < m && order@[t] == i as usize;
            let pj = choose|t: int| 0 <= t < m && order@[t] == j as usize;
            assert(i < nf && j < nf);
            assert(order@[pi] as int == i);
            assert(order@[pj] as int == j);
            assert(pi != pj);
            let (a, b) = if pi < pj { (pi, pj) } else { (pj, pi) };
            assert(camera_of(frames@[order@[a] as int]) == camera_of(frames@[order@[b] as int]));
            assert forall|c: int| a < c <= b implies {
                &&& camera_of(frames@[(#[trigger] order@[c]) as int]) == camera_of(frames@[order@[a] as int])
                &&& time_of(frames@[order@[c] as int]) - time_of(frames@[order@[a] as int]) <= max_gap_secs
            } by {
                lemma_between(frames@, order@, a, c, b);
            }
            assert(in_window(frames@, order@, max_gap_secs, a, b));
        }
    }
    pairs
}

/// The ids of the frames, in order.
fn ids_of(frames: &[BurstKey]) -> (ids: Vec<i64>)
    ensures
        ids@ == frame_ids(frames@),
{
    let mut ids: Vec<i64> = Vec::new();
    let mut i: usize = 0;
    while i < frames.len()
        invariant
            i <= frames@.len(),
            ids@ == frame_ids(frames@).take(i as int),
        decreases frames@.len() - i,
    {
        ids.push(frames[i].id);
        i += 1;
        proof {
            assert(ids@ =~= frame_ids(frames@).take(i as int));
        }
    }
    proof {
        assert(frame_ids(frames@).take(frames@.len() as int) =~= frame_ids(frames@));
    }
    ids
}

/// Whether frames `i` and `j` may form a burst.
fn candidate_exec(frames: &[BurstKey], max_gap_secs: i64, i: usize, j: usize) -> (r: bool)
    ensures
        r == burst_candidate(frames@, max_gap_secs, i as int, j as int),
{
    if i >= frames.len() || j >= frames.len() {
        return false;
    }
    let (fi, fj) = (&frames[i], &frames[j]);
    match (&fi.camera, fi.captured_at, &fj.camera, fj.captured_at) {
        (Some(ci), Some(ti), Some(cj), Some(tj)) => {
            fi.has_embedding && fj.has_embedding && str_eq(ci.as_str(), cj.as_str())
                && (tj as i128) - (ti as i128) <= max_gap_secs as i128
                && (ti as i128) - (tj as i128) <= max_gap_secs as i128
        },
        _ => false,
    }
}

/// Groups frames into bursts, given the pairs (from [`burst_pairs`]) whose
/// embeddings the caller found similar: the connected components of the
/// burst link. Only components of two or more frames are returned; ids are
/// sorted within each and components are sorted by size descending, then
/// smallest id.
pub fn split_bursts(frames: &[BurstKey], similar: &[(usize, usize)], max_gap_secs: i64) -> (res: Vec<Vec<i64>>)
    ensures
        res@.map_values(|v: Vec<i64>| v@).to_multiset() == bursts_spec(frames@, similar@, max_gap_secs).to_multiset(),
        sorted_by(res@.map_values(|v: Vec<i64>| v@), |a: Seq<i64>, b: Seq<i64>| component_le(a, b)),
{
    let ghost link = burst_link(frames@, similar@, max_gap_secs);
    let ghost ids_spec = frame_ids(frames@);
    let n = frames.len();
    let mut uf = UnionFind::new(n);
    proof {
        assert forall|x: int, y: int| 0 <= x < n && 0 <= y < n && #[trigger] uf.same(x, y)
            implies joined(ids_spec, link, x, y) by {
            assert(x == y);
            crate::cluster::components::lemma_joined_refl(ids_spec, link, x);
        }
    }
    let mut k: usize = 0;
    while k < similar.len()
        invariant
            uf.wf(),
            uf.len() == n,
            n == frames@.len(),
            ids_spec == frame_ids(frames@),
            link == burst_link(frames@, similar@, max_gap_secs),
            k <= similar@.len(),
            sound(ids_spec, link, uf),
            forall|t: int| 0 <= t < k && burst_candidate(frames@, max_gap_secs, (#[trigger] similar@[t]).0 as int, similar@[t].1 as int)
                ==> uf.same(similar@[t].0 as int, similar@[t].1 as int),
        decreases similar@.len() - k,
    {
        let (i, j) = similar[k];
        if candidate_exec(frames, max_gap_secs, i, j) {
            let ghost before = uf;
            proof {
                assert(similar@.contains((i, j)));
                assert(link(i as int, j as int));
                crate::cluster::components::lemma_linked_joined(ids_spec, link, i as int, j as int);
            }
            uf.union(i, j);
            proof {
                assert forall|x: int, y: int| 0 <= x < n && 0 <= y < n && #[trigger] uf.same(x, y)
                    implies joined(ids_spec, link, x, y) by {
                    if before.same(x, y) {
                    } else if before.same(x, i as int) && before.same(y, j as int) {
                        crate::cluster::components::lemma_joined_sym(ids_spec, link, y, j as int);
                        crate::cluster::components::lemma_joined_trans(ids_spec, link, x, i as int, j as int);
                        crate::cluster::components::lemma_joined_trans(ids_spec, link, x, j as int, y);
                    } else {
                        assert(before.same(x, j as int) && before.same(y, i as int));
                        crate::cluster::components::lemma_joined_sym(ids_spec, link, i as int, j as int);
                        crate::cluster::components::lemma_joined_sym(ids_spec, link, y, i as int);
                        crate::cluster::components::lemma_joined_trans(ids_spec, link, x, j as int, i as int);
                        crate::cluster::components::lemma_joined_trans(ids_spec, link, x, i as int, y);
                    }
                }
                assert forall|t: int| 0 <= t < k + 1 && burst_candidate(frames@, max_gap_secs, (#[trigger] similar@[t]).0 as int, similar@[t].1 as int)
                    implies uf.same(similar@[t].0 as int, similar@[t].1 as int) by {
                    if t < k {
                        assert(before.same(similar@[t].0 as int, similar@[t].1 as int));
                    }
                }
            }
        }
        k += 1;
    }
    proof {
        assert forall|a: int, b: int| 0 <= a < n && 0 <= b < n && #[trigger] link(a, b) implies uf.same(a, b) by {
            if similar@.contains((a as usize, b as usize)) {
                let t = choose|t: int| 0 <= t < similar@.len() && similar@[t] == (a as usize, b as usize);
                assert(burst_candidate(frames@, max_gap_secs, similar@[t].0 as int, similar@[t].1 as int));
            } else {
                let t = choose|t: int| 0 <= t < similar@.len() && similar@[t] == (b as usize, a as usize);
                assert(burst_candidate(frames@, max_gap_secs, b, a));
                assert(burst_candidate(frames@, max_gap_secs, similar@[t].0 as int, similar@[t].1 as int));
                assert(uf.same(b, a));
            }
        }
    }
    let ids = ids_of(frames);
    components_of(ids.as_slice(), uf, Ghost(link))
}

} // verus!
