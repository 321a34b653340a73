use culler_core::analyze::phash::hamming;
use culler_core::cluster::candidates::candidate_pairs;
use culler_core::cluster::near::{near_components, HashedImage, DEFAULT_DHASH_MAX, DEFAULT_PHASH_MAX};

/// Deterministic xorshift so the property test needs no rand crate.
fn random_hashes(n: usize, mut seed: u64) -> Vec<u64> {
    (0..n)
        .map(|_| {
            seed ^= seed << 13;
            seed ^= seed >> 7;
            seed ^= seed << 17;
            seed
        })
        .collect()
}

fn flip_bits(base: u64, bits: &[u32]) -> u64 {
    bits.iter().fold(base, |h, b| h ^ (1u64 << b))
}

fn img(id: i64, dhash: u64, phash: u64) -> HashedImage {
    HashedImage {
        id,
        dhash: Some(dhash),
        phash: Some(phash),
    }
}

#[test]
fn banding_finds_every_pair_within_the_bound() {
    // Random hashes plus planted near-pairs at and around the threshold.
    let mut hashes = random_hashes(300, 0xC0FFEE);
    let base = hashes[0];
    hashes.push(flip_bits(base, &[1, 5, 9, 13, 17, 21, 25, 29, 33, 37])); // d=10
    hashes.push(flip_bits(base, &[2, 6, 10])); // d=3
    let indexed: Vec<(usize, u64)> = hashes.iter().copied().enumerate().collect();

    let max = 10;
    let candidates = candidate_pairs(&indexed, max);
    for i in 0..hashes.len() {
        for j in (i + 1)..hashes.len() {
            if hamming(hashes[i], hashes[j]) <= max {
                assert!(
                    candidates.contains(&(i, j)),
                    "banding missed pair ({i},{j}) at distance {}",
                    hamming(hashes[i], hashes[j])
                );
            }
        }
    }
}

#[test]
fn clusters_at_threshold_but_not_beyond() {
    let far = 0xFFFF_FFFF_FFFF_FFFFu64;
    let items = [
        img(1, 0, far),
        // dhash distance exactly 8 from id 1, phash far: in.
        img(
            2,
            flip_bits(0, &[0, 1, 2, 3, 4, 5, 6, 7]),
            0x00FF_FF00_0000_0000,
        ),
        // dhash distance 9, phash far from everyone: out.
        img(
            3,
            flip_bits(0, &[10, 11, 12, 13, 14, 15, 16, 17, 18]),
            0xF0F0_0F0F_AAAA_5555,
        ),
    ];
    let components = near_components(&items, DEFAULT_DHASH_MAX, DEFAULT_PHASH_MAX);
    assert_eq!(components, vec![vec![1, 2]]);
}

#[test]
fn phash_within_bound_is_enough_on_its_own() {
    let items = [
        img(7, 0, 0xABCD_0000_0000_0000),
        // dhash far (32 bits), phash distance exactly 10: in.
        img(
            8,
            0xFFFF_FFFF_0000_0000,
            flip_bits(0xABCD_0000_0000_0000, &[0, 2, 4, 6, 8, 10, 12, 14, 16, 18]),
        ),
    ];
    let components = near_components(&items, DEFAULT_DHASH_MAX, DEFAULT_PHASH_MAX);
    assert_eq!(components, vec![vec![7, 8]]);

    // Distance 11 phash and far dhash: nothing clusters.
    let items = [
        img(7, 0, 0xABCD_0000_0000_0000),
        img(
            8,
            0xFFFF_FFFF_0000_0000,
            flip_bits(
                0xABCD_0000_0000_0000,
                &[0, 2, 4, 6, 8, 10, 12, 14, 16, 18, 20],
            ),
        ),
    ];
    assert!(near_components(&items, DEFAULT_DHASH_MAX, DEFAULT_PHASH_MAX).is_empty());
}

#[test]
fn chains_merge_transitively_into_one_component() {
    // a~b and b~c but a is far from c: still one cluster of three.
    let a = 0u64;
    let b = flip_bits(a, &[0, 1, 2, 3, 4, 5]); // d(a,b)=6
    let c = flip_bits(b, &[8, 9, 10, 11, 12, 13]); // d(b,c)=6, d(a,c)=12
    let far = 0xFFFF_FFFF_FFFF_FFFFu64;
    let items = [img(1, a, far), img(2, b, far ^ 1), img(3, c, far ^ 3)];
    let components = near_components(&items, DEFAULT_DHASH_MAX, DEFAULT_PHASH_MAX);
    assert_eq!(components, vec![vec![1, 2, 3]]);
}

#[test]
fn missing_hashes_never_cluster() {
    let items = [
        HashedImage {
            id: 1,
            dhash: None,
            phash: None,
        },
        HashedImage {
            id: 2,
            dhash: None,
            phash: None,
        },
        img(3, 5, 5),
    ];
    assert!(near_components(&items, DEFAULT_DHASH_MAX, DEFAULT_PHASH_MAX).is_empty());
}

#[test]
fn larger_components_come_first_then_smallest_id() {
    let far = 0xFFFF_FFFF_FFFF_FFFFu64;
    let items = [
        img(10, 0x0F0F_0F00_0000_0000, far),
        img(4, 0x0F0F_0F00_0000_0001, far ^ 0xFF00),
        img(20, 0, far ^ 0xFFFF_0000),
        img(21, 1, far ^ 0xFFFF_0000_0000),
        img(22, 3, far ^ 0x0F0F_0F0F_0000_0000),
    ];
    let components = near_components(&items, DEFAULT_DHASH_MAX, DEFAULT_PHASH_MAX);
    assert_eq!(components, vec![vec![20, 21, 22], vec![4, 10]]);
}

#[test]
fn candidate_pairs_hold_each_pair_once_smaller_index_first() {
    let indexed = vec![(0usize, 7u64), (1, 7), (2, 7)];
    let mut pairs = candidate_pairs(&indexed, 0);
    pairs.sort();
    pairs.dedup();
    assert_eq!(pairs, vec![(0, 1), (0, 2), (1, 2)]);
}

#[test]
fn complementary_hashes_cluster_at_the_top_threshold() {
    let items = vec![
        HashedImage { id: 1, dhash: Some(0), phash: None },
        HashedImage { id: 2, dhash: Some(u64::MAX), phash: None },
    ];
    assert_eq!(near_components(&items, 64, 10), vec![vec![1, 2]]);
    assert_eq!(near_components(&items, u32::MAX, 10), vec![vec![1, 2]]);
    assert!(near_components(&items, 63, 10).is_empty());
}

#[test]
fn the_largest_threshold_joins_every_hashed_image_but_not_unhashed_ones() {
    let items = vec![
        img(3, 0x1234, 0),
        img(1, u64::MAX, 5),
        HashedImage { id: 2, dhash: None, phash: None },
    ];
    assert_eq!(near_components(&items, u32::MAX, u32::MAX), vec![vec![1, 3]]);
}
