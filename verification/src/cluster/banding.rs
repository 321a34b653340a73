//! Hamming-LSH banding: a 64-bit hash is cut into `max_distance + 1` bands,
//! and by pigeonhole two hashes within the distance bound must agree exactly
//! on at least one band.
use vstd::prelude::*;
use vstd::arithmetic::div_mod::*;
use crate::analyze::phash::{bit_of, ones_in, hamming_distance, lemma_ones_in_split};

verus! {

/// Number of bands used for a distance bound.
pub open spec fn band_count(max_distance: u32) -> nat {
    if max_distance as nat + 1 < 64 { max_distance as nat + 1 } else { 64 }
}

/// First bit of band `band` out of `bands`.
pub open spec fn band_start(band: nat, bands: nat) -> nat {
    (band * 64) / bands
}

/// Bit mask selecting the bits `start..end` (end - start <= 64).
pub open spec fn band_mask(start: nat, end: nat) -> u64 {
    if end - start >= 64 {
        u64::MAX
    } else {
        (((1u64 << ((end - start) as u64)) - 1) as u64) << (start as u64)
    }
}

/// The bucket key of hash `h` in band `band` out of `bands`.
pub open spec fn band_key(h: u64, band: nat, bands: nat) -> u64 {
    let s = band_start(band, bands);
    let e = band_start(band + 1, bands);
    (h & band_mask(s, e)) >> (s as u64)
}

/// Two hashes fall into the same bucket in at least one band.
pub open spec fn share_band(a: u64, b: u64, bands: nat) -> bool {
    exists|band: nat| band < bands && #[trigger] band_key(a, band, bands) == band_key(b, band, bands)
}

/// The mask of bits `lo..hi`, built one bit at a time.
pub open spec fn range_mask(lo: nat, hi: nat) -> u64
    decreases hi,
{
    if hi <= lo {
        0
    } else {
        range_mask(lo, (hi - 1) as nat) | (1u64 << ((hi - 1) as u64))
    }
}

proof fn lemma_zero_step(x: u64, m: u64, k: u64)
    requires
        k < 64,
        x & m == 0,
        (x >> k) & 1 != 1,
    ensures
        x & (m | (1u64 << k)) == 0,
{
    assert(x & m == 0 && (x >> k) & 1 != 1 && k < 64 ==> x & (m | (1u64 << k)) == 0)
        by (bit_vector);
}

/// A range with no set bits is cleared by its mask.
proof fn lemma_no_ones_masks_to_zero(x: u64, lo: nat, hi: nat)
    requires
        lo <= hi <= 64,
        ones_in(x, lo, hi) == 0,
    ensures
        x & range_mask(lo, hi) == 0,
    decreases hi,
{
    if hi > lo {
        let k = (hi - 1) as nat;
        lemma_no_ones_masks_to_zero(x, lo, k);
        assert(!bit_of(x, k));
        lemma_zero_step(x, range_mask(lo, k), k as u64);
    } else {
        assert(x & 0 == 0) by (bit_vector);
    }
}

proof fn lemma_mask_step(s: u64, w: u64)
    requires
        w + 1 < 64,
        s + w + 1 <= 64,
    ensures
        ((((1u64 << (w + 1)) - 1) as u64) << s) == ((((1u64 << w) - 1) as u64) << s) | (1u64 << (
        s + w)),
{
    assert(w + 1 < 64 && s + w + 1 <= 64 ==> ((((1u64 << (w + 1)) - 1) as u64) << s) == ((((1u64
        << w) - 1) as u64) << s) | (1u64 << (s + w))) by (bit_vector);
}

/// The closed-form mask equals the bit-by-bit mask for widths below 64.
proof fn lemma_closed_mask(s: nat, w: nat)
    requires
        w < 64,
        s + w <= 64,
    ensures
        (((1u64 << (w as u64)) - 1) as u64) << (s as u64) == range_mask(s, s + w),
    decreases w,
{
    if w == 0 {
        let su = s as u64;
        assert(((((1u64 << 0u64) - 1) as u64) << su) == 0) by (bit_vector);
    } else {
        lemma_closed_mask(s, (w - 1) as nat);
        lemma_mask_step(s as u64, (w - 1) as u64);
    }
}

proof fn lemma_full_mask()
    ensures
        range_mask(0, 64) == u64::MAX,
{
    lemma_closed_mask(0, 63);
    assert(((((1u64 << 63u64) - 1) as u64) << 0u64) | (1u64 << 63u64) == u64::MAX) by (bit_vector);
}

/// The band mask is the bit-by-bit mask of the band's range.
proof fn lemma_band_mask(s: nat, e: nat)
    requires
        s <= e <= 64,
    ensures
        band_mask(s, e) == range_mask(s, e),
{
    if e - s >= 64 {
        assert(s == 0 && e == 64);
        lemma_full_mask();
    } else {
        lemma_closed_mask(s, (e - s) as nat);
    }
}

proof fn lemma_equal_under_mask(a: u64, b: u64, m: u64, s: u64)
    requires
        (a ^ b) & m == 0,
    ensures
        (a & m) >> s == (b & m) >> s,
{
    assert((a ^ b) & m == 0 ==> (a & m) >> s == (b & m) >> s) by (bit_vector);
}

/// Band boundaries are ordered and span `0..64`.
pub proof fn lemma_band_bounds(band: nat, bands: nat)
    requires
        0 < bands,
        band < bands,
    ensures
        band_start(band, bands) <= band_start(band + 1, bands) <= 64,
        band_start(band, bands) < 64,
        band_start(0, bands) == 0,
        band_start(bands, bands) == 64,
{
    lemma_div_is_ordered((band * 64) as int, ((band + 1) * 64) as int, bands as int);
    lemma_div_is_ordered(((band + 1) * 64) as int, (bands * 64) as int, bands as int);
    lemma_div_by_multiple(64, bands as int);
    assert(bands * 64 == 64 * bands) by (nonlinear_arith);
    assert(band * 64 <= (band + 1) * 64) by (nonlinear_arith);
    assert((band + 1) * 64 <= bands * 64) by (nonlinear_arith)
        requires band < bands;
    assert(0 * 64 == 0);
    lemma_fundamental_div_mod((band * 64) as int, bands as int);
    lemma_mod_bound((band * 64) as int, bands as int);
    assert(band_start(band, bands) < 64) by (nonlinear_arith)
        requires
            band < bands,
            0 < bands,
            band * 64 == bands * ((band * 64) / bands) + (band * 64) % bands,
            0 <= (band * 64) % bands,
            band_start(band, bands) == (band * 64) / bands,
    {
        if band_start(band, bands) >= 64 {
            assert(bands * ((band * 64) / bands) >= bands * 64);
        }
    }
}

/// If every band among the first `k` holds a set bit, the bits below the
/// end of band `k - 1` hold at least `k` set bits.
proof fn lemma_bands_accumulate(x: u64, bands: nat, k: nat)
    requires
        0 < bands <= 64,
        k <= bands,
        forall|b: nat| b < k ==> #[trigger] ones_in(x, band_start(b, bands), band_start(b + 1, bands)) >= 1,
    ensures
        ones_in(x, 0, band_start(k, bands)) >= k,
    decreases k,
{
    if k > 0 {
        let p = (k - 1) as nat;
        lemma_bands_accumulate(x, bands, p);
        lemma_band_bounds(p, bands);
        lemma_band_bounds(0, bands);
        assert(ones_in(x, band_start(p, bands), band_start(p + 1, bands)) >= 1);
        lemma_ones_in_split(x, 0, band_start(p, bands), band_start(k, bands));
    }
}

/// Pigeonhole: two hashes within `max_distance` bits of each other
/// (`max_distance < 64`) agree exactly on at least one of the
/// `max_distance + 1` bands.
pub proof fn lemma_close_hashes_share_a_band(a: u64, b: u64, max_distance: u32)
    requires
        max_distance < 64,
        hamming_distance(a, b) <= max_distance,
    ensures
        share_band(a, b, band_count(max_distance)),
{
    let bands = band_count(max_distance);
    let x = a ^ b;
    if forall|band: nat| band < bands ==> #[trigger] ones_in(x, band_start(band, bands), band_start(band + 1, bands)) >= 1 {
        lemma_bands_accumulate(x, bands, bands);
        lemma_band_bounds(0, bands);
        assert(false);
    }
    let band = choose|band: nat| band < bands && !(#[trigger] ones_in(x, band_start(band, bands), band_start(band + 1, bands)) >= 1);
    let s = band_start(band, bands);
    let e = band_start(band + 1, bands);
    lemma_band_bounds(band, bands);
    lemma_no_ones_masks_to_zero(x, s, e);
    lemma_band_mask(s, e);
    lemma_equal_under_mask(a, b, band_mask(s, e), s as u64);
    assert(band_key(a, band, bands) == band_key(b, band, bands));
}

} // verus!
