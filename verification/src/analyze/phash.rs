//! Arithmetic on 64-bit perceptual hashes (dHash and pHash).
use vstd::prelude::*;

verus! {

/// Whether bit `i` of `x` is set.
pub open spec fn bit_of(x: u64, i: nat) -> bool {
    (x >> (i as u64)) & 1 == 1
}

/// Number of set bits of `x` among positions `lo..hi`.
pub open spec fn ones_in(x: u64, lo: nat, hi: nat) -> nat
    decreases hi,
{
    if hi <= lo {
        0
    } else {
        ones_in(x, lo, (hi - 1) as nat) + if bit_of(x, (hi - 1) as nat) { 1nat } else { 0nat }
    }
}

/// Number of set bits of a 64-bit word.
pub open spec fn popcount(x: u64) -> nat {
    ones_in(x, 0, 64)
}

/// Hamming distance between two 64-bit hashes: the number of differing bits.
pub open spec fn hamming_distance(a: u64, b: u64) -> nat {
    popcount(a ^ b)
}

/// `ones_in` splits additively at any midpoint.
pub proof fn lemma_ones_in_split(x: u64, lo: nat, mid: nat, hi: nat)
    requires
        lo <= mid <= hi,
    ensures
        ones_in(x, lo, hi) == ones_in(x, lo, mid) + ones_in(x, mid, hi),
    decreases hi,
{
    if hi > mid {
        lemma_ones_in_split(x, lo, mid, (hi - 1) as nat);
    }
}

/// `ones_in` never exceeds the width of the range.
pub proof fn lemma_ones_in_bound(x: u64, lo: nat, hi: nat)
    requires
        lo <= hi,
    ensures
        ones_in(x, lo, hi) <= hi - lo,
    decreases hi,
{
    if hi > lo {
        lemma_ones_in_bound(x, lo, (hi - 1) as nat);
    }
}

/// Hamming distance is symmetric.
pub proof fn lemma_hamming_symmetric(a: u64, b: u64)
    ensures
        hamming_distance(a, b) == hamming_distance(b, a),
{
    assert(a ^ b == b ^ a) by (bit_vector);
}

/// A hash is at distance zero from itself.
pub proof fn lemma_hamming_self(a: u64)
    ensures
        hamming_distance(a, a) == 0,
{
    assert(a ^ a == 0) by (bit_vector);
    lemma_zero_has_no_ones(0, 64);
}

proof fn lemma_zero_has_no_ones(lo: nat, hi: nat)
    ensures
        ones_in(0, lo, hi) == 0,
    decreases hi,
{
    if hi > lo {
        lemma_zero_has_no_ones(lo, (hi - 1) as nat);
        let k = (hi - 1) as nat;
        let ku = k as u64;
        assert((0u64 >> ku) & 1 == 0) by (bit_vector);
    }
}

/// With no set bit among positions `0..k`, each of those bits is clear.
proof fn lemma_no_ones_no_bits(x: u64, k: nat)
    requires
        ones_in(x, 0, k) == 0,
    ensures
        forall|i: nat| i < k ==> !#[trigger] bit_of(x, i),
    decreases k,
{
    if k > 0 {
        lemma_no_ones_no_bits(x, (k - 1) as nat);
    }
}

/// Only equal hashes are at distance zero.
pub proof fn lemma_hamming_zero_means_equal(a: u64, b: u64)
    requires
        hamming_distance(a, b) == 0,
    ensures
        a == b,
{
    let x = a ^ b;
    lemma_no_ones_no_bits(x, 64);
    assert forall|i: u64| i < 64 implies #[trigger] ((x >> i) & 1) == 0 by {
        assert(!bit_of(x, i as nat));
        let v = (x >> i) & 1;
        assert(v == 0 || v == 1) by (bit_vector)
            requires v == (x >> i) & 1;
    }
    assert(x == 0) by (bit_vector)
        requires
            (x >> 0u64) & 1 == 0,
            (x >> 1u64) & 1 == 0,
            (x >> 2u64) & 1 == 0,
            (x >> 3u64) & 1 == 0,
            (x >> 4u64) & 1 == 0,
            (x >> 5u64) & 1 == 0,
            (x >> 6u64) & 1 == 0,
            (x >> 7u64) & 1 == 0,
            (x >> 8u64) & 1 == 0,
            (x >> 9u64) & 1 == 0,
            (x >> 10u64) & 1 == 0,
            (x >> 11u64) & 1 == 0,
            (x >> 12u64) & 1 == 0,
            (x >> 13u64) & 1 == 0,
            (x >> 14u64) & 1 == 0,
            (x >> 15u64) & 1 == 0,
            (x >> 16u64) & 1 == 0,
            (x >> 17u64) & 1 == 0,
            (x >> 18u64) & 1 == 0,
            (x >> 19u64) & 1 == 0,
            (x >> 20u64) & 1 == 0,
            (x >> 21u64) & 1 == 0,
            (x >> 22u64) & 1 == 0,
            (x >> 23u64) & 1 == 0,
            (x >> 24u64) & 1 == 0,
            (x >> 25u64) & 1 == 0,
            (x >> 26u64) & 1 == 0,
            (x >> 27u64) & 1 == 0,
            (x >> 28u64) & 1 == 0,
            (x >> 29u64) & 1 == 0,
            (x >> 30u64) & 1 == 0,
            (x >> 31u64) & 1 == 0,
            (x >> 32u64) & 1 == 0,
            (x >> 33u64) & 1 == 0,
            (x >> 34u64) & 1 == 0,
            (x >> 35u64) & 1 == 0,
            (x >> 36u64) & 1 == 0,
            (x >> 37u64) & 1 == 0,
            (x >> 38u64) & 1 == 0,
            (x >> 39u64) & 1 == 0,
            (x >> 40u64) & 1 == 0,
            (x >> 41u64) & 1 == 0,
            (x >> 42u64) & 1 == 0,
            (x >> 43u64) & 1 == 0,
            (x >> 44u64) & 1 == 0,
            (x >> 45u64) & 1 == 0,
            (x >> 46u64) & 1 == 0,
            (x >> 47u64) & 1 == 0,
            (x >> 48u64) & 1 == 0,
            (x >> 49u64) & 1 == 0,
            (x >> 50u64) & 1 == 0,
            (x >> 51u64) & 1 == 0,
            (x >> 52u64) & 1 == 0,
            (x >> 53u64) & 1 == 0,
            (x >> 54u64) & 1 == 0,
            (x >> 55u64) & 1 == 0,
            (x >> 56u64) & 1 == 0,
            (x >> 57u64) & 1 == 0,
            (x >> 58u64) & 1 == 0,
            (x >> 59u64) & 1 == 0,
            (x >> 60u64) & 1 == 0,
            (x >> 61u64) & 1 == 0,
            (x >> 62u64) & 1 == 0,
            (x >> 63u64) & 1 == 0,
    ;
    assert(a ^ b == 0 ==> a == b) by (bit_vector);
}

/// A bit where `a` and `c` differ is one where `a` and `b`, or `b` and `c`,
/// differ.
proof fn lemma_bit_triangle(a: u64, b: u64, c: u64, i: u64)
    requires
        i < 64,
    ensures
        bit_of(a ^ c, i as nat) ==> bit_of(a ^ b, i as nat) || bit_of(b ^ c, i as nat),
{
    assert(((a ^ c) >> i) & 1 == 1 ==> ((a ^ b) >> i) & 1 == 1 || ((b ^ c) >> i) & 1 == 1) by (bit_vector)
        requires i < 64;
}

proof fn lemma_ones_triangle(a: u64, b: u64, c: u64, k: nat)
    requires
        k <= 64,
    ensures
        ones_in(a ^ c, 0, k) <= ones_in(a ^ b, 0, k) + ones_in(b ^ c, 0, k),
    decreases k,
{
    if k > 0 {
        lemma_ones_triangle(a, b, c, (k - 1) as nat);
        lemma_bit_triangle(a, b, c, (k - 1) as u64);
    }
}

/// Hamming distance obeys the triangle inequality.
pub proof fn lemma_hamming_triangle(a: u64, b: u64, c: u64)
    ensures
        hamming_distance(a, c) <= hamming_distance(a, b) + hamming_distance(b, c),
{
    lemma_ones_triangle(a, b, c, 64);
}

/// Hamming distance between two 64-bit hashes.
pub fn hamming(a: u64, b: u64) -> (d: u32)
    ensures
        d as nat == hamming_distance(a, b),
        d <= 64,
{
    let x = a ^ b;
    let mut count: u32 = 0;
    let mut i: u64 = 0;
    while i < 64
        invariant
            i <= 64,
            x == a ^ b,
            count as nat == ones_in(x, 0, i as nat),
            count <= i,
        decreases 64 - i,
    {
        let bit = (x >> i) & 1;
        assert(bit == 0 || bit == 1) by (bit_vector)
            requires bit == (x >> i) & 1;
        if bit == 1 {
            count = count + 1;
        }
        i = i + 1;
    }
    proof {
        lemma_ones_in_bound(x, 0, 64);
    }
    count
}

} // verus!
