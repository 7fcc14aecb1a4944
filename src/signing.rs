//! Recovery of a signer's address from a 65-byte ECDSA signature over a digest.
use vstd::prelude::*;
use crate::hashing::Hash32;

verus! {

/// A 20-byte account address.
pub type Address = [u8; 20];

/// A 65-byte signature: `r`, then `s`, then the recovery byte `v`.
pub type SignatureBytes = [u8; 65];

/// The recovery bytes that a signature may carry: 0 or 1, 27 or 28, or an
/// EIP-155 value from 35 on.
pub open spec fn valid_recovery_byte(v: u8) -> bool {
    v <= 1 || v == 27 || v == 28 || v >= 35
}

/// The address recovered from a signature over a 32-byte prehash, if recovery succeeds.
pub uninterp spec fn ecrecover_of(sig: Seq<u8>, prehash: Seq<u8>) -> Option<Seq<u8>>;

/// Relies on `alloy::primitives::Signature::from_raw_array`, which refuses a
/// recovery byte outside `valid_recovery_byte`, and on
/// `Signature::recover_address_from_prehash`, which depends on the signature
/// and the prehash alone.
#[verifier::external_body]
fn recover_address(sig: &SignatureBytes, prehash: &Hash32) -> (r: Option<Address>)
    ensures
        r matches Some(a) ==> ecrecover_of(sig@, prehash@) == Some(a@),
        r is None ==> ecrecover_of(sig@, prehash@) is None,
        !valid_recovery_byte(sig@[64]) ==> r is None,
{
    match alloy::primitives::Signature::from_raw_array(sig) {
        Ok(s) => s.recover_address_from_prehash(&alloy::primitives::B256::from(*prehash)).ok().map(|a| a.0.0),
        Err(_) => None,
    }
}

/// The signature is malformed or no signer can be recovered from it.
#[derive(Clone, Copy, Debug, PartialEq, Eq, Structural)]
pub struct SignatureError;

/// Recovers the signer of `digest` from `sig`.
pub fn recover_signer(digest: &Hash32, sig: &SignatureBytes) -> (r: Result<Address, SignatureError>)
    ensures
        match r {
            Ok(a) => ecrecover_of(sig@, digest@) == Some(a@),
            Err(_) => ecrecover_of(sig@, digest@) is None,
        },
        !valid_recovery_byte(sig@[64]) ==> r is Err,
{
    match recover_address(sig, digest) {
        Some(a) => Ok(a),
        None => Err(SignatureError),
    }
}

/// Byte-wise equality of two addresses.
pub fn address_eq(a: &Address, b: &Address) -> (r: bool)
    ensures
        r == (a@ == b@),
{
    let mut i: usize = 0;
    while i < 20
        invariant
            i <= 20,
            a@.len() == 20,
            b@.len() == 20,
            forall|j: int| 0 <= j < i ==> a@[j] == b@[j],
        decreases 20 - i,
    {
        if a[i] != b[i] {
            return false;
        }
        i = i + 1;
    }
    assert(a@ =~= b@);
    true
}

} // verus!
