//! Keccak-256 hashing of byte strings, and the byte-level helpers built on it.
use vstd::prelude::*;

verus! {

/// A 32-byte Keccak-256 hash (transaction hashes, digests and Merkle nodes).
pub type Hash32 = [u8; 32];

/// The Keccak-256 hash of a byte string.
pub uninterp spec fn keccak_of(data: Seq<u8>) -> Seq<u8>;

/// Relies on `alloy::primitives::keccak256`: the Keccak-256 hash of `data`,
/// which depends on the bytes alone.
#[verifier::external_body]
pub(crate) fn keccak(data: &[u8]) -> (r: Hash32)
    ensures
        r@ == keccak_of(data@),
{
    alloy::primitives::keccak256(data).0
}

/// The hash of a raw transaction: Keccak-256 over its encoded bytes.
pub open spec fn tx_hash_of(raw: Seq<u8>) -> Seq<u8> {
    keccak_of(raw)
}

/// Hashes a raw encoded transaction.
pub fn tx_hash(raw: &Vec<u8>) -> (r: Hash32)
    ensures
        r@ == tx_hash_of(raw@),
{
    keccak(raw.as_slice())
}

/// Byte-wise equality of two hashes.
pub fn hash_eq(a: &Hash32, b: &Hash32) -> (r: bool)
    ensures
        r == (a@ == b@),
{
    let mut i: usize = 0;
    while i < 32
        invariant
            i <= 32,
            a@.len() == 32,
            b@.len() == 32,
            forall|j: int| 0 <= j < i ==> a@[j] == b@[j],
        decreases 32 - i,
    {
        if a[i] != b[i] {
            return false;
        }
        i = i + 1;
    }
    assert(a@ =~= b@);
    true
}

/// Appends every byte of `src` to `dst`.
pub fn append_bytes(dst: &mut Vec<u8>, src: &[u8])
    ensures
        final(dst)@ == old(dst)@ + src@,
{
    let mut i: usize = 0;
    while i < src.len()
        invariant
            i <= src@.len(),
            dst@ == old(dst)@ + src@.subrange(0, i as int),
        decreases src@.len() - i,
    {
        dst.push(src[i]);
        i = i + 1;
        assert(src@.subrange(0, i as int) =~= src@.subrange(0, i - 1) + seq![src@[i - 1]]);
    }
    assert(src@.subrange(0, src@.len() as int) =~= src@);
}

} // verus!
