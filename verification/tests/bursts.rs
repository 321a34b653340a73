use culler_core::cluster::burst::{burst_order, burst_pairs, split_bursts, BurstKey, DEFAULT_BURST_GAP_SECS};

const EMBED_DIM: usize = 512;
const DEFAULT_BURST_MIN_COSINE: f32 = 0.92;

struct BurstFrame {
    id: i64,
    camera: Option<String>,
    captured_at: Option<i64>,
    embedding: Option<Vec<f32>>,
}

fn normalize(v: &mut [f32]) {
    let norm: f32 = v.iter().map(|x| x * x).sum::<f32>().sqrt();
    if norm > 0.0 {
        for x in v.iter_mut() {
            *x /= norm;
        }
    }
}

fn vec_along(basis: usize, lean: f32) -> Vec<f32> {
    let mut v = vec![0.0f32; EMBED_DIM];
    v[basis] = 1.0;
    v[(basis + 1) % EMBED_DIM] = lean;
    normalize(&mut v);
    v
}

fn cosine(a: &[f32], b: &[f32]) -> f32 {
    let dot: f32 = a.iter().zip(b).map(|(x, y)| x * y).sum();
    let na: f32 = a.iter().map(|x| x * x).sum::<f32>().sqrt();
    let nb: f32 = b.iter().map(|x| x * x).sum::<f32>().sqrt();
    if na == 0.0 || nb == 0.0 {
        0.0
    } else {
        dot / (na * nb)
    }
}

/// The library's ordering and burst forming, with the neighbour similarity
/// measured here.
fn burst_components(frames: &[BurstFrame], max_gap_secs: i64, min_cosine: f32) -> Vec<Vec<i64>> {
    let keys: Vec<BurstKey> = frames
        .iter()
        .map(|f| BurstKey {
            id: f.id,
            camera: f.camera.clone(),
            captured_at: f.captured_at,
            has_embedding: f.embedding.is_some(),
        })
        .collect();
    let similar: Vec<(usize, usize)> = burst_pairs(&keys, max_gap_secs)
        .into_iter()
        .filter(|&(i, j)| match (&frames[i].embedding, &frames[j].embedding) {
            (Some(a), Some(b)) => cosine(a, b) >= min_cosine,
            _ => false,
        })
        .collect();
    split_bursts(&keys, &similar, max_gap_secs)
}

fn frame(id: i64, camera: &str, at: i64, embedding: Vec<f32>) -> BurstFrame {
    BurstFrame {
        id,
        camera: Some(camera.to_owned()),
        captured_at: Some(at),
        embedding: Some(embedding),
    }
}

#[test]
fn consecutive_similar_frames_chain_into_one_burst() {
    // 4 frames 2s apart: first and last are 6s apart but chain through.
    let frames: Vec<BurstFrame> = (0..4)
        .map(|i| frame(i, "iPhone", 1000 + i * 2, vec_along(0, 0.1 * i as f32)))
        .collect();
    let bursts = burst_components(&frames, DEFAULT_BURST_GAP_SECS, DEFAULT_BURST_MIN_COSINE);
    assert_eq!(bursts, vec![vec![0, 1, 2, 3]]);
}

#[test]
fn time_gap_splits_bursts() {
    let frames = [
        frame(1, "iPhone", 1000, vec_along(0, 0.0)),
        frame(2, "iPhone", 1002, vec_along(0, 0.05)),
        frame(3, "iPhone", 1010, vec_along(0, 0.1)), // 8s later
        frame(4, "iPhone", 1012, vec_along(0, 0.15)),
    ];
    let bursts = burst_components(&frames, DEFAULT_BURST_GAP_SECS, DEFAULT_BURST_MIN_COSINE);
    assert_eq!(bursts.len(), 2);
    assert!(bursts.contains(&vec![1, 2]) && bursts.contains(&vec![3, 4]));
}

#[test]
fn different_cameras_never_share_a_burst() {
    let frames = [
        frame(1, "iPhone", 1000, vec_along(0, 0.0)),
        frame(2, "Canon", 1001, vec_along(0, 0.0)),
    ];
    assert!(burst_components(&frames, DEFAULT_BURST_GAP_SECS, DEFAULT_BURST_MIN_COSINE).is_empty());
}

#[test]
fn dissimilar_content_splits_even_within_the_gap() {
    // Orthogonal embeddings: cosine 0 < 0.92.
    let frames = [
        frame(1, "iPhone", 1000, vec_along(0, 0.0)),
        frame(2, "iPhone", 1001, vec_along(7, 0.0)),
    ];
    assert!(burst_components(&frames, DEFAULT_BURST_GAP_SECS, DEFAULT_BURST_MIN_COSINE).is_empty());
}

#[test]
fn cosine_threshold_is_tunable() {
    let frames = [
        frame(1, "iPhone", 1000, vec_along(0, 0.0)),
        frame(2, "iPhone", 1001, vec_along(7, 0.0)),
    ];
    // With the bar on the floor, time alone groups them.
    let bursts = burst_components(&frames, DEFAULT_BURST_GAP_SECS, -1.0);
    assert_eq!(bursts, vec![vec![1, 2]]);
}

#[test]
fn incomplete_frames_are_ignored() {
    let frames = [
        frame(1, "iPhone", 1000, vec_along(0, 0.0)),
        BurstFrame {
            id: 2,
            camera: None,
            captured_at: Some(1001),
            embedding: Some(vec_along(0, 0.0)),
        },
        BurstFrame {
            id: 3,
            camera: Some("iPhone".into()),
            captured_at: None,
            embedding: Some(vec_along(0, 0.0)),
        },
        BurstFrame {
            id: 4,
            camera: Some("iPhone".into()),
            captured_at: Some(1001),
            embedding: None,
        },
    ];
    assert!(burst_components(&frames, DEFAULT_BURST_GAP_SECS, DEFAULT_BURST_MIN_COSINE).is_empty());
}

#[test]
fn frames_order_by_camera_then_time_then_id() {
    let key = |id: i64, camera: &str, at: i64| BurstKey {
        id,
        camera: Some(camera.to_owned()),
        captured_at: Some(at),
        has_embedding: true,
    };
    let keys = vec![key(5, "b", 10), key(4, "a", 20), key(3, "b", 5), key(2, "a", 20), BurstKey { id: 9, camera: None, captured_at: Some(1), has_embedding: true }];
    assert_eq!(burst_order(&keys), vec![3, 1, 2, 0]);
}

#[test]
fn split_follows_the_similar_pairs_and_sorts_bursts() {
    let key = |id: i64, at: i64| BurstKey {
        id,
        camera: Some("cam".to_owned()),
        captured_at: Some(at),
        has_embedding: true,
    };
    let keys = vec![key(30, 0), key(10, 1), key(20, 2), key(40, 3), key(50, 4), key(60, 100)];
    let bursts = split_bursts(&keys, &[(0, 1), (2, 3), (4, 3), (4, 5)], 3);
    assert_eq!(bursts, vec![vec![20, 40, 50], vec![10, 30]]);
    // Pairs beyond the gap, or naming the same frame twice, link nothing.
    assert!(split_bursts(&keys, &[(0, 5), (1, 1), (7, 0)], 3).is_empty());
}

#[test]
fn similar_frames_within_the_gap_join_across_a_dissimilar_one() {
    let f = |id: i64, t: i64, e: Vec<f32>| BurstFrame {
        id,
        camera: Some("iPhone".into()),
        captured_at: Some(t),
        embedding: Some(e),
    };
    let frames = vec![f(1, 1000, vec![1.0, 0.0]), f(2, 1001, vec![0.0, 1.0]), f(3, 1002, vec![1.0, 0.0])];
    assert_eq!(burst_components(&frames, 3, 0.92), vec![vec![1, 3]]);
}

#[test]
fn candidate_pairs_are_every_pair_within_the_gap_on_one_camera() {
    let key = |id: i64, camera: &str, t: i64| BurstKey {
        id,
        camera: Some(camera.to_owned()),
        captured_at: Some(t),
        has_embedding: true,
    };
    let keys = vec![key(1, "A", 10), key(2, "A", 12), key(3, "B", 11), key(4, "A", 14), key(5, "A", 20)];
    let mut pairs: Vec<(usize, usize)> = burst_pairs(&keys, 3)
        .into_iter()
        .map(|(i, j)| if i < j { (i, j) } else { (j, i) })
        .collect();
    pairs.sort();
    assert_eq!(pairs, vec![(0, 1), (1, 3)]);
    assert_eq!(burst_pairs(&keys, i64::MAX).len(), 6);
}
