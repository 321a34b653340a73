use culler_core::analyze::phash::hamming;

#[test]
fn hamming_counts_differing_bits() {
    assert_eq!(hamming(0, 0), 0);
    assert_eq!(hamming(0, u64::MAX), 64);
    assert_eq!(hamming(0b1011, 0b0010), 2);
    assert_eq!(hamming(1 << 63, 0), 1);
}

#[test]
fn hamming_is_symmetric_on_samples() {
    let samples = [0u64, 1, 0xDEAD_BEEF, u64::MAX, 1 << 40];
    for a in samples {
        assert_eq!(hamming(a, a), 0);
        for b in samples {
            assert_eq!(hamming(a, b), hamming(b, a));
        }
    }
}

#[test]
fn distance_zero_only_for_equal_hashes_and_the_triangle_holds() {
    let (a, b, c) = (0x0F0Fu64, 0x0F0Eu64, 0xF0F0u64);
    assert_eq!(hamming(a, a), 0);
    assert_ne!(hamming(a, b), 0);
    assert!(hamming(a, c) <= hamming(a, b) + hamming(b, c));
    assert_eq!(hamming(0, u64::MAX), 64);
}
