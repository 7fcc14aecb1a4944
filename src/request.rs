//! Inclusion requests, their canonical digest, and the commitments issued for them.
use vstd::prelude::*;
use crate::hashing::{append_bytes, keccak, keccak_of, tx_hash, tx_hash_of, Hash32};
use crate::signing::{Address, SignatureBytes};

verus! {

/// A user's request that `transactions` be included in the block of `slot`.
/// The signature and the recovered signer are set once, during intake.
#[derive(Clone, Debug)]
pub struct InclusionRequest {
    pub slot: u64,
    /// The raw encoded transactions, in the order the user signed them.
    pub transactions: Vec<Vec<u8>>,
    pub signature: Option<SignatureBytes>,
    pub signer: Option<Address>,
}

/// The sidecar's acknowledgment that it will include a request's transactions.
#[derive(Clone, Copy, Debug)]
pub struct Commitment {
    pub request_digest: Hash32,
    pub signer: Address,
    pub signature: SignatureBytes,
}

/// The views of a list of raw transactions.
pub open spec fn tx_views(txs: Seq<Vec<u8>>) -> Seq<Seq<u8>> {
    txs.map_values(|t: Vec<u8>| t@)
}

/// The hashes of a list of raw transactions, in order.
pub open spec fn tx_hashes_of(txs: Seq<Seq<u8>>) -> Seq<Seq<u8>> {
    txs.map_values(|t: Seq<u8>| tx_hash_of(t))
}

/// The concatenation of a list of byte strings.
pub open spec fn concat_all(parts: Seq<Seq<u8>>) -> Seq<u8>
    decreases parts.len(),
{
    if parts.len() == 0 {
        Seq::empty()
    } else {
        concat_all(parts.drop_last()) + parts.last()
    }
}

/// The first `n` little-endian bytes of `x`.
pub open spec fn le_bytes(x: nat, n: nat) -> Seq<u8>
    decreases n,
{
    if n == 0 {
        Seq::empty()
    } else {
        seq![(x % 256) as u8] + le_bytes(x / 256, (n - 1) as nat)
    }
}

/// The bytes a request's digest is taken over: the hashes of its transactions
/// in order, then the slot as eight little-endian bytes.
pub open spec fn digest_preimage(slot: u64, txs: Seq<Seq<u8>>) -> Seq<u8> {
    concat_all(tx_hashes_of(txs)) + le_bytes(slot as nat, 8)
}

/// The digest of a request for `slot` with transactions `txs`.
pub open spec fn request_digest(slot: u64, txs: Seq<Seq<u8>>) -> Seq<u8> {
    keccak_of(digest_preimage(slot, txs))
}

/// Every part is 32 bytes long.
pub open spec fn all_32_bytes(parts: Seq<Seq<u8>>) -> bool {
    forall|i: int| 0 <= i < parts.len() ==> (#[trigger] parts[i]).len() == 32
}

proof fn lemma_concat_chunks(parts: Seq<Seq<u8>>)
    requires
        all_32_bytes(parts),
    ensures
        concat_all(parts).len() == 32 * parts.len(),
        forall|j: int| 0 <= j < parts.len() ==> concat_all(parts).subrange(32 * j, 32 * j + 32) == #[trigger] parts[j],
    decreases parts.len(),
{
    if parts.len() > 0 {
        let init = parts.drop_last();
        lemma_concat_chunks(init);
        let c = concat_all(parts);
        let ci = concat_all(init);
        assert(c == ci + parts.last());
        assert forall|j: int| 0 <= j < parts.len() implies concat_all(parts).subrange(32 * j, 32 * j + 32) == #[trigger] parts[j] by {
            if j < parts.len() - 1 {
                assert(init[j] == parts[j]);
                assert(32 * j + 32 <= ci.len());
                assert(c.subrange(32 * j, 32 * j + 32) =~= ci.subrange(32 * j, 32 * j + 32));
            } else {
                assert(c.subrange(32 * j, 32 * j + 32) =~= parts.last());
            }
        }
    }
}

/// The bytes a digest is taken over determine the ordered transaction hashes:
/// two requests for one slot whose transaction hashes differ, in content or
/// in order, have different digest preimages.
pub proof fn lemma_digest_preimage_order_sensitive(slot: u64, a: Seq<Seq<u8>>, b: Seq<Seq<u8>>)
    requires
        all_32_bytes(tx_hashes_of(a)),
        all_32_bytes(tx_hashes_of(b)),
        tx_hashes_of(a) != tx_hashes_of(b),
    ensures
        digest_preimage(slot, a) != digest_preimage(slot, b),
{
    let ha = tx_hashes_of(a);
    let hb = tx_hashes_of(b);
    lemma_concat_chunks(ha);
    lemma_concat_chunks(hb);
    let pa = digest_preimage(slot, a);
    let pb = digest_preimage(slot, b);
    if pa == pb {
        if ha.len() != hb.len() {
            assert(pa.len() == 32 * ha.len() + le_bytes(slot as nat, 8).len());
            assert(pb.len() == 32 * hb.len() + le_bytes(slot as nat, 8).len());
        } else {
            let j = choose|j: int| 0 <= j < ha.len() && ha[j] != hb[j];
            if !(exists|j: int| 0 <= j < ha.len() && ha[j] != hb[j]) {
                assert(ha =~= hb);
            }
            assert(pa.subrange(32 * j, 32 * j + 32) =~= concat_all(ha).subrange(32 * j, 32 * j + 32));
            assert(pb.subrange(32 * j, 32 * j + 32) =~= concat_all(hb).subrange(32 * j, 32 * j + 32));
        }
    }
}

/// Appends the eight little-endian bytes of `x`.
pub(crate) fn append_le_u64(dst: &mut Vec<u8>, x: u64)
    ensures
        final(dst)@ == old(dst)@ + le_bytes(x as nat, 8),
{
    let mut v: u64 = x;
    let mut k: usize = 0;
    while k < 8
        invariant
            k <= 8,
            dst@ + le_bytes(v as nat, (8 - k) as nat) == old(dst)@ + le_bytes(x as nat, 8),
        decreases 8 - k,
    {
        let ghost before = dst@;
        let ghost rest = le_bytes((v / 256) as nat, (8 - k - 1) as nat);
        assert(le_bytes(v as nat, (8 - k) as nat) == seq![(v % 256) as u8] + rest);
        dst.push((v % 256) as u8);
        assert(dst@ + rest =~= before + (seq![(v % 256) as u8] + rest));
        v = v / 256;
        k = k + 1;
    }
    assert(le_bytes(v as nat, 0) =~= Seq::<u8>::empty());
    assert(dst@ + Seq::<u8>::empty() =~= dst@);
}

impl InclusionRequest {
    /// The digest that the user signs and that the signer is recovered from.
    pub fn digest(&self) -> (r: Hash32)
        ensures
            r@ == request_digest(self.slot, tx_views(self.transactions@)),
    {
        let ghost hashes = tx_hashes_of(tx_views(self.transactions@));
        let mut buf: Vec<u8> = Vec::new();
        let mut i: usize = 0;
        while i < self.transactions.len()
            invariant
                i <= self.transactions@.len(),
                hashes == tx_hashes_of(tx_views(self.transactions@)),
                buf@ == concat_all(hashes.subrange(0, i as int)),
            decreases self.transactions@.len() - i,
        {
            let h = tx_hash(&self.transactions[i]);
            append_bytes(&mut buf, &h);
            i = i + 1;
            assert(hashes.subrange(0, i as int).drop_last() =~= hashes.subrange(0, i - 1));
        }
        assert(hashes.subrange(0, i as int) =~= hashes);
        append_le_u64(&mut buf, self.slot);
        keccak(buf.as_slice())
    }

    /// Records the signature carried by the request's authentication.
    pub fn set_signature(&mut self, sig: SignatureBytes)
        ensures
            final(self).signature == Some(sig),
            final(self).slot == old(self).slot,
            final(self).transactions == old(self).transactions,
            final(self).signer == old(self).signer,
    {
        self.signature = Some(sig);
    }

    /// Records the signer recovered from the request's signature.
    pub fn set_signer(&mut self, signer: Address)
        ensures
            final(self).signer == Some(signer),
            final(self).slot == old(self).slot,
            final(self).transactions == old(self).transactions,
            final(self).signature == old(self).signature,
    {
        self.signer = Some(signer);
    }
}

} // verus!
