//! Validation of inclusion requests and issuance of commitments.
use vstd::prelude::*;
use crate::aggregator::{after_commit, slot_view, Aggregator, Limits, SlotPhase, SlotState};
use crate::error::{CommitmentError, ParamError};
use crate::hashing::{tx_hash, Hash32};
use crate::merkle::hash_views;
use crate::request::{request_digest, tx_hashes_of, tx_views, Commitment, InclusionRequest};
use crate::signing::{address_eq, ecrecover_of, recover_signer, Address};

verus! {

/// The gas limit of a raw transaction, if it decodes as a whole EIP-2718 transaction.
pub uninterp spec fn tx_gas_limit_of(raw: Seq<u8>) -> Option<u64>;

/// Relies on `TxEnvelope::decode_2718_exact`, which decodes one EIP-2718
/// transaction with no trailing bytes, and on `Transaction::gas_limit`.
#[verifier::external_body]
fn decoded_gas_limit(raw: &[u8]) -> (r: Option<u64>)
    ensures
        r == tx_gas_limit_of(raw@),
{
    match <alloy::consensus::TxEnvelope as alloy::eips::Decodable2718>::decode_2718_exact(raw) {
        Ok(tx) => Some(alloy::consensus::Transaction::gas_limit(&tx)),
        Err(_) => None,
    }
}

/// What the validator checks requests against.
#[derive(Clone, Copy, Debug)]
pub struct ValidatorConfig {
    pub limits: Limits,
    /// How many slots past the current one a request may target.
    pub max_lookahead_slots: u64,
}

/// The position of the first transaction from `k` on that does not decode.
pub open spec fn first_undecodable(txs: Seq<Seq<u8>>, k: int) -> Option<int>
    decreases txs.len() - k,
{
    if k < 0 || k >= txs.len() {
        None
    } else if tx_gas_limit_of(txs[k]) is None {
        Some(k)
    } else {
        first_undecodable(txs, k + 1)
    }
}

/// The gas limit of a transaction, zero where it does not decode.
pub open spec fn gas_of(raw: Seq<u8>) -> nat {
    match tx_gas_limit_of(raw) {
        Some(g) => g as nat,
        None => 0,
    }
}

/// The summed gas limits of a list of transactions.
pub open spec fn total_gas(txs: Seq<Seq<u8>>) -> nat
    decreases txs.len(),
{
    if txs.len() == 0 {
        0
    } else {
        total_gas(txs.drop_last()) + gas_of(txs.last())
    }
}

/// The slot lies between the current slot and the look-ahead bound.
pub open spec fn slot_in_window(slot: u64, current_slot: u64, max_lookahead: u64) -> bool {
    current_slot <= slot && slot - current_slot <= max_lookahead
}

/// The signature carried by a request, as bytes.
pub open spec fn signature_view(req: InclusionRequest) -> Option<Seq<u8>> {
    match req.signature {
        Some(s) => Some(s@),
        None => None,
    }
}

/// `sig` is a signature over the digest of `slot` and `txs` whose recovered signer is `claimed`.
pub open spec fn signed_by(slot: u64, txs: Seq<Seq<u8>>, sig: Option<Seq<u8>>, claimed: Seq<u8>) -> bool {
    sig matches Some(s) && ecrecover_of(s, request_digest(slot, txs)) == Some(claimed)
}

/// The first check a request fails, in the validator's order, or `None`
/// where it passes them all.
pub open spec fn inclusion_error(
    cfg: ValidatorConfig,
    slots: Map<u64, SlotState>,
    current_slot: u64,
    slot: u64,
    txs: Seq<Seq<u8>>,
    sig: Option<Seq<u8>>,
    claimed: Seq<u8>,
) -> Option<CommitmentError> {
    let v = slot_view(slots, slot);
    if txs.len() == 0 {
        Some(CommitmentError::InvalidParams(ParamError::NoTransactions))
    } else if !signed_by(slot, txs, sig, claimed) {
        Some(CommitmentError::InvalidSignature)
    } else if !slot_in_window(slot, current_slot, cfg.max_lookahead_slots) {
        Some(CommitmentError::SlotOutOfRange)
    } else if first_undecodable(txs, 0) is Some {
        Some(CommitmentError::InvalidTransaction(first_undecodable(txs, 0).unwrap() as usize))
    } else if !(v.phase is Open) {
        Some(CommitmentError::SlotSealed)
    } else if v.commitments + 1 > cfg.limits.max_commitments_per_slot
        || v.gas + total_gas(txs) > cfg.limits.max_committed_gas_per_slot {
        Some(CommitmentError::ResourceLimitExceeded)
    } else {
        None
    }
}

proof fn lemma_total_gas_prefix(txs: Seq<Seq<u8>>, i: int)
    requires
        0 <= i <= txs.len(),
    ensures
        total_gas(txs.subrange(0, i)) <= total_gas(txs),
    decreases txs.len() - i,
{
    if i < txs.len() {
        lemma_total_gas_prefix(txs, i + 1);
        assert(txs.subrange(0, i + 1).drop_last() =~= txs.subrange(0, i));
    } else {
        assert(txs.subrange(0, i) =~= txs);
    }
}

/// Validates a request whose authentication claims `claimed_signer`, and on
/// success records its transactions as constraints of its slot and returns
/// the commitment. Validation and recording are one step: a request that
/// fails any check leaves the aggregator as it was.
pub fn validate(
    agg: &mut Aggregator,
    cfg: &ValidatorConfig,
    request: &InclusionRequest,
    claimed_signer: &Address,
    current_slot: u64,
) -> (r: Result<Commitment, CommitmentError>)
    requires
        old(agg).wf(),
    ensures
        final(agg).wf(),
        match r {
            Ok(c) => {
                &&& inclusion_error(*cfg, old(agg).slots@, current_slot, request.slot, tx_views(request.transactions@), signature_view(*request), claimed_signer@) is None
                &&& c.request_digest@ == request_digest(request.slot, tx_views(request.transactions@))
                &&& c.signer == *claimed_signer
                &&& request.signature == Some(c.signature)
                &&& slot_view(final(agg).slots@, request.slot) == after_commit(
                    slot_view(old(agg).slots@, request.slot),
                    tx_hashes_of(tx_views(request.transactions@)),
                    total_gas(tx_views(request.transactions@)),
                )
                &&& forall|s: u64| s != request.slot ==> slot_view(#[trigger] final(agg).slots@, s) == slot_view(old(agg).slots@, s)
            },
            Err(e) => {
                &&& inclusion_error(*cfg, old(agg).slots@, current_slot, request.slot, tx_views(request.transactions@), signature_view(*request), claimed_signer@) == Some(e)
                &&& final(agg).slots@ == old(agg).slots@
            },
        },
{
    let ghost txs = tx_views(request.transactions@);
    let n = request.transactions.len();
    if n == 0 {
        return Err(CommitmentError::InvalidParams(ParamError::NoTransactions));
    }
    let sig = match request.signature {
        Some(s) => s,
        None => return Err(CommitmentError::InvalidSignature),
    };
    let digest = request.digest();
    match recover_signer(&digest, &sig) {
        Ok(a) => {
            if !address_eq(&a, claimed_signer) {
                return Err(CommitmentError::InvalidSignature);
            }
        },
        Err(_) => return Err(CommitmentError::InvalidSignature),
    }
    let slot = request.slot;
    if slot < current_slot || slot - current_slot > cfg.max_lookahead_slots {
        return Err(CommitmentError::SlotOutOfRange);
    }
    let mut gas: Vec<u64> = Vec::new();
    let mut i: usize = 0;
    while i < n
        invariant
            agg.wf(),
            agg.slots@ == old(agg).slots@,
            n > 0,
            signed_by(request.slot, tx_views(request.transactions@), signature_view(*request), claimed_signer@),
            slot_in_window(request.slot, current_slot, cfg.max_lookahead_slots),
            slot == request.slot,
            n == request.transactions@.len(),
            txs == tx_views(request.transactions@),
            i <= n,
            gas@.len() == i,
            forall|j: int| 0 <= j < i ==> tx_gas_limit_of(txs[j]) == Some(#[trigger] gas@[j]),
            first_undecodable(txs, 0) == first_undecodable(txs, i as int),
        decreases n - i,
    {
        match decoded_gas_limit(request.transactions[i].as_slice()) {
            Some(g) => gas.push(g),
            None => return Err(CommitmentError::InvalidTransaction(i)),
        }
        i = i + 1;
    }
    assert(first_undecodable(txs, n as int) is None);
    if agg.phase(slot) != SlotPhase::Open {
        return Err(CommitmentError::SlotSealed);
    }
    let (prior_commitments, prior_gas) = agg.tallies(slot);
    if prior_commitments >= cfg.limits.max_commitments_per_slot || prior_gas > cfg.limits.max_committed_gas_per_slot {
        return Err(CommitmentError::ResourceLimitExceeded);
    }
    let budget = cfg.limits.max_committed_gas_per_slot - prior_gas;
    let mut total: u64 = 0;
    let mut k: usize = 0;
    proof {
        assert(txs.subrange(0, 0) =~= Seq::<Seq<u8>>::empty());
    }
    while k < n
        invariant
            agg.wf(),
            agg.slots@ == old(agg).slots@,
            n > 0,
            signed_by(request.slot, tx_views(request.transactions@), signature_view(*request), claimed_signer@),
            slot_in_window(request.slot, current_slot, cfg.max_lookahead_slots),
            slot == request.slot,
            slot_view(agg.slots@, slot).phase is Open,
            prior_commitments == slot_view(agg.slots@, slot).commitments,
            prior_gas == slot_view(agg.slots@, slot).gas,
            prior_commitments < cfg.limits.max_commitments_per_slot,
            budget == cfg.limits.max_committed_gas_per_slot - prior_gas,
            first_undecodable(txs, 0) is None,
            n == request.transactions@.len(),
            txs == tx_views(request.transactions@),
            gas@.len() == n,
            forall|j: int| 0 <= j < n ==> tx_gas_limit_of(txs[j]) == Some(#[trigger] gas@[j]),
            k <= n,
            total <= budget,
            total == total_gas(txs.subrange(0, k as int)),
        decreases n - k,
    {
        assert(txs.subrange(0, k + 1).drop_last() =~= txs.subrange(0, k as int));
        if gas[k] > budget - total {
            proof {
                lemma_total_gas_prefix(txs, k + 1);
            }
            return Err(CommitmentError::ResourceLimitExceeded);
        }
        total = total + gas[k];
        k = k + 1;
    }
    assert(txs.subrange(0, n as int) =~= txs);
    let mut hashes: Vec<Hash32> = Vec::new();
    let mut j: usize = 0;
    while j < n
        invariant
            agg.wf(),
            agg.slots@ == old(agg).slots@,
            n > 0,
            signed_by(request.slot, tx_views(request.transactions@), signature_view(*request), claimed_signer@),
            slot_in_window(request.slot, current_slot, cfg.max_lookahead_slots),
            slot == request.slot,
            n == request.transactions@.len(),
            txs == tx_views(request.transactions@),
            j <= n,
            hash_views(hashes@) == tx_hashes_of(txs).subrange(0, j as int),
        decreases n - j,
    {
        let h = tx_hash(&request.transactions[j]);
        let ghost prev = hashes@;
        hashes.push(h);
        assert(hashes@ == prev.push(h));
        assert(txs[j as int] == request.transactions@[j as int]@);
        assert(tx_hashes_of(txs)[j as int] == h@);
        assert(hash_views(hashes@) =~= hash_views(prev).push(h@));
        assert(tx_hashes_of(txs).subrange(0, j + 1) =~= tx_hashes_of(txs).subrange(0, j as int).push(h@));
        j = j + 1;
        assert(hash_views(hashes@) =~= tx_hashes_of(txs).subrange(0, j as int));
    }
    assert(tx_hashes_of(txs).subrange(0, n as int) =~= tx_hashes_of(txs));
    agg.commit(slot, &hashes, total);
    Ok(Commitment { request_digest: digest, signer: *claimed_signer, signature: sig })
}

} // verus!
