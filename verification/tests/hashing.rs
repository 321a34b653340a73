use culler_core::scan::hash::{hash_bytes, prehash_bytes, PREHASH_BYTES};

fn hex(h: &[u8; 32]) -> String {
    h.iter().map(|b| format!("{b:02x}")).collect()
}

#[test]
fn hash_matches_the_blake3_test_vector() {
    assert_eq!(
        hex(&hash_bytes(b"abc")),
        "6437b3ac38465133ffb63b75273a8db548c558465d79db03fd359c6cd5bd9d85"
    );
    assert_eq!(
        hex(&hash_bytes(b"")),
        "af1349b9f5f9a1a6a0404dea36dcc9499bcb25c9adc112b7cc9a93cae41f3262"
    );
}

#[test]
fn hash_matches_blake3_of_contents() {
    let contents = b"culler milestone one".repeat(1000);
    let got = hash_bytes(&contents);
    assert_eq!(got, *blake3::hash(&contents).as_bytes());
}

#[test]
fn identical_contents_hash_identically() {
    let a = vec![0x7Au8; 10_000];
    let b = vec![0x7Au8; 10_000];
    assert_eq!(hash_bytes(&a), hash_bytes(&b));
}

#[test]
fn different_contents_hash_differently() {
    let a = vec![1u8; 5000];
    let b = vec![2u8; 5000];
    assert_ne!(hash_bytes(&a), hash_bytes(&b));
}

#[test]
fn prehash_covers_only_the_first_4kb() {
    let mut one = vec![0xAAu8; 8192];
    let mut two = one.clone();
    two[5000] = 0xBB; // differs only after the prehash window
    assert_eq!(prehash_bytes(&one), prehash_bytes(&two));
    assert_ne!(hash_bytes(&one), hash_bytes(&two));

    // And a difference inside the window changes the prehash.
    one[100] = 0xCC;
    assert_ne!(prehash_bytes(&two), prehash_bytes(&one));
    assert_eq!(prehash_bytes(&two), hash_bytes(&two[..PREHASH_BYTES as usize]));
}

#[test]
fn prehash_of_short_file_equals_full_hash() {
    let contents = b"tiny".to_vec();
    assert!((contents.len() as u64) < PREHASH_BYTES);
    assert_eq!(prehash_bytes(&contents), hash_bytes(&contents));
    assert_eq!(prehash_bytes(&contents), *blake3::hash(&contents).as_bytes());
    let exact = vec![4u8; 4096];
    assert_eq!(prehash_bytes(&exact), hash_bytes(&exact));
}
