//! BLAKE3 content hashing. Exact-duplicate detection only ever full-hashes
//! files that share a size with another file, and among those, only files
//! whose first-4KB prehash also collides.
use vstd::prelude::*;

verus! {

/// Bytes covered by the prehash.
pub const PREHASH_BYTES: u64 = 4096;

/// The BLAKE3 digest (32 bytes) of `data`.
pub uninterp spec fn blake3_digest(data: Seq<u8>) -> Seq<u8>;

/// `blake3::hash`: the BLAKE3 digest of `data`, which depends on the bytes
/// alone.
#[verifier::external_body]
fn blake3_hash(data: &[u8]) -> (h: [u8; 32])
    ensures
        h@ == blake3_digest(data@),
{
    *blake3::hash(data).as_bytes()
}

/// The bytes a prehash covers: the first [`PREHASH_BYTES`] (all of them if
/// fewer).
pub open spec fn prehash_window(data: Seq<u8>) -> Seq<u8> {
    if data.len() <= PREHASH_BYTES {
        data
    } else {
        data.take(PREHASH_BYTES as int)
    }
}

/// BLAKE3 of the entire contents.
pub fn hash_bytes(data: &[u8]) -> (h: [u8; 32])
    ensures
        h@ == blake3_digest(data@),
{
    blake3_hash(data)
}

/// BLAKE3 of the first [`PREHASH_BYTES`] of the contents (all of them if
/// shorter): a cheap collision filter run before full hashing.
pub fn prehash_bytes(data: &[u8]) -> (h: [u8; 32])
    ensures
        h@ == blake3_digest(prehash_window(data@)),
{
    if data.len() as u64 <= PREHASH_BYTES {
        blake3_hash(data)
    } else {
        let window = slice_prefix(data, 4096);
        blake3_hash(window.as_slice())
    }
}

/// The first `n` bytes of `data`.
fn slice_prefix(data: &[u8], n: usize) -> (v: Vec<u8>)
    requires
        n <= data@.len(),
    ensures
        v@ == data@.take(n as int),
{
    let mut v: Vec<u8> = Vec::new();
    let mut i: usize = 0;
    while i < n
        invariant
            i <= n <= data@.len(),
            v@ == data@.take(i as int),
        decreases n - i,
    {
        v.push(data[i]);
        i += 1;
        proof {
            assert(v@ =~= data@.take(i as int));
        }
    }
    v
}

/// Contents no longer than the prehash window prehash to their full hash.
pub proof fn lemma_short_prehash_is_full_hash(data: Seq<u8>)
    requires
        data.len() <= PREHASH_BYTES,
    ensures
        blake3_digest(prehash_window(data)) == blake3_digest(data),
{
}

/// The prehash sees only the first [`PREHASH_BYTES`]: contents of at least
/// that length that agree there prehash alike, whatever follows.
pub proof fn lemma_prehash_covers_only_the_window(a: Seq<u8>, b: Seq<u8>)
    requires
        a.len() >= PREHASH_BYTES,
        b.len() >= PREHASH_BYTES,
        a.take(PREHASH_BYTES as int) == b.take(PREHASH_BYTES as int),
    ensures
        blake3_digest(prehash_window(a)) == blake3_digest(prehash_window(b)),
{
    if a.len() == PREHASH_BYTES {
        assert(a.take(PREHASH_BYTES as int) =~= a);
    }
    if b.len() == PREHASH_BYTES {
        assert(b.take(PREHASH_BYTES as int) =~= b);
    }
    assert(prehash_window(a) =~= prehash_window(b));
}

} // verus!
