//! Difference hash (dHash): a 9x8 grayscale downscale, one bit per pixel
//! brighter than its right-hand neighbour.
use vstd::prelude::*;
use crate::analyze::phash::bit_of;

verus! {

/// The 72 grey levels, row by row, of the 9x8 downscale of the image that
/// `bytes` encode, or `None` when they do not decode as an image.
pub uninterp spec fn decoded_grey_9x8(bytes: Seq<u8>) -> Option<Seq<u8>>;

/// `image::load_from_memory`, then `DynamicImage::resize_exact` to 9x8 with
/// the triangle filter, `to_luma8` and `into_raw`: the grey levels of the
/// downscale (72 of them, one per pixel of a 9x8 one-channel image), or
/// `None` when the bytes do not decode. The levels are named by
/// [`decoded_grey_9x8`], not stated: they depend on the decoder and the
/// filter.
#[verifier::external_body]
fn grey_9x8(bytes: &[u8]) -> (luma: Option<Vec<u8>>)
    ensures
        match luma {
            Some(v) => decoded_grey_9x8(bytes@) == Some(v@) && v@.len() == 72,
            None => decoded_grey_9x8(bytes@) is None,
        },
{
    match image::load_from_memory(bytes) {
        Ok(img) => Some(img.resize_exact(9, 8, image::imageops::FilterType::Triangle).to_luma8().into_raw()),
        Err(_) => None,
    }
}

/// Bit `y * 8 + x` of the dHash of a 9x8 grey grid: the pixel at `(x, y)`
/// is brighter than the one to its right.
pub open spec fn dhash_bit(luma: Seq<u8>, y: int, x: int) -> bool {
    luma[y * 9 + x] > luma[y * 9 + x + 1]
}

/// Sets bit `k` of `h`; the other bits stay as they are.
proof fn lemma_set_bit(h: u64, k: u64, j: u64)
    requires
        k < 64,
        j < 64,
    ensures
        bit_of(h | (1u64 << k), j as nat) == (j == k || bit_of(h, j as nat)),
{
    assert((((h | (1u64 << k)) >> j) & 1 == 1) == (j == k || ((h >> j) & 1 == 1))) by (bit_vector)
        requires
            k < 64,
            j < 64,
    ;
}

/// The dHash of a 9x8 grey grid given row by row: bit `y * 8 + x` is set
/// exactly when pixel `(x, y)` is brighter than pixel `(x + 1, y)`.
pub fn dhash_of_grid(luma: &[u8]) -> (h: u64)
    requires
        luma@.len() == 72,
    ensures
        forall|y: int, x: int| 0 <= y < 8 && 0 <= x < 8 ==> bit_of(h, (y * 8 + x) as nat) == #[trigger] dhash_bit(luma@, y, x),
{
    let mut h: u64 = 0;
    proof {
        assert forall|j: u64| 0 <= j < 64 implies !#[trigger] bit_of(h, j as nat) by {
            assert((0u64 >> j) & 1 == 0) by (bit_vector);
        }
    }
    let mut y: usize = 0;
    while y < 8
        invariant
            y <= 8,
            luma@.len() == 72,
            forall|yy: int, xx: int| 0 <= yy < y && 0 <= xx < 8 ==> bit_of(h, (yy * 8 + xx) as nat) == #[trigger] dhash_bit(luma@, yy, xx),
            forall|j: u64| y * 8 <= j < 64 ==> !#[trigger] bit_of(h, j as nat),
        decreases 8 - y,
    {
        let mut x: usize = 0;
        while x < 8
            invariant
                y < 8,
                x <= 8,
                luma@.len() == 72,
                forall|yy: int, xx: int| 0 <= yy < y && 0 <= xx < 8 ==> bit_of(h, (yy * 8 + xx) as nat) == #[trigger] dhash_bit(luma@, yy, xx),
                forall|xx: int| 0 <= xx < x ==> bit_of(h, (y * 8 + xx) as nat) == #[trigger] dhash_bit(luma@, y as int, xx),
                forall|j: u64| y * 8 + x <= j < 64 ==> !#[trigger] bit_of(h, j as nat),
            decreases 8 - x,
        {
            let k: u64 = (y * 8 + x) as u64;
            let ghost before = h;
            if luma[y * 9 + x] > luma[y * 9 + x + 1] {
                h = h | (1u64 << k);
                proof {
                    assert forall|j: u64| j < 64 implies #[trigger] bit_of(h, j as nat) == (j == k || bit_of(before, j as nat)) by {
                        lemma_set_bit(before, k, j);
                    }
                }
            }
            proof {
                assert forall|yy: int, xx: int| 0 <= yy < y && 0 <= xx < 8 implies bit_of(h, (yy * 8 + xx) as nat) == #[trigger] dhash_bit(luma@, yy, xx) by {
                    assert(bit_of(h, ((yy * 8 + xx) as u64) as nat) == bit_of(before, ((yy * 8 + xx) as u64) as nat));
                }
                assert forall|xx: int| 0 <= xx < x + 1 implies bit_of(h, (y * 8 + xx) as nat) == #[trigger] dhash_bit(luma@, y as int, xx) by {
                    if xx < x {
                        assert(bit_of(h, ((y * 8 + xx) as u64) as nat) == bit_of(before, ((y * 8 + xx) as u64) as nat));
                    } else {
                        assert(!bit_of(before, k as nat));
                    }
                }
                assert forall|j: u64| y * 8 + x + 1 <= j < 64 implies !#[trigger] bit_of(h, j as nat) by {
                    assert(!bit_of(before, j as nat));
                }
            }
            x += 1;
        }
        y += 1;
    }
    h
}

/// Bits `0..64` of `h` are the dHash bits of the grey grid `luma`.
pub open spec fn is_dhash_of(luma: Seq<u8>, h: u64) -> bool {
    forall|y: int, x: int| 0 <= y < 8 && 0 <= x < 8 ==> bit_of(h, (y * 8 + x) as nat) == #[trigger] dhash_bit(luma, y, x)
}

/// Difference hash of the image that `encoded` holds (a file's bytes): its
/// 9x8 grey downscale, hashed by [`dhash_of_grid`]; `None` when the bytes do
/// not decode as an image.
pub fn dhash(encoded: &[u8]) -> (r: Option<u64>)
    ensures
        match decoded_grey_9x8(encoded@) {
            Some(luma) => r matches Some(h) && is_dhash_of(luma, h),
            None => r is None,
        },
{
    match grey_9x8(encoded) {
        Some(luma) => Some(dhash_of_grid(luma.as_slice())),
        None => None,
    }
}

} // verus!
