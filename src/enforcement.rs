//! Builder-side enforcement: a payload is accepted only when every sealed
//! constraint of its slot is proven included against the payload's root.
use vstd::prelude::*;
use crate::aggregator::{constraint_hashes, slot_view, Aggregator, Constraint};
use crate::hashing::{tx_hash, Hash32};
use crate::merkle::{build_proof, hash_views, lemma_built_proof_verifies, root_of_level, verify_proof};
use crate::request::{tx_hashes_of, tx_views};

verus! {

/// A builder's payload: its declared transaction root and its raw transactions.
#[derive(Clone, Debug)]
pub struct Payload {
    pub transactions_root: Hash32,
    pub transactions: Vec<Vec<u8>>,
}

/// Why a payload was turned down.
#[derive(Clone, Copy, Debug)]
pub enum RejectReason {
    /// The constrained transaction with this hash is not proven included.
    MissingConstraint(Hash32),
}

/// The enforcement decision on a payload.
#[derive(Clone, Copy, Debug)]
pub enum Decision {
    Accept,
    Reject(RejectReason),
}

/// A constrained hash is proven included when it is among the payload's
/// transaction hashes and the payload's declared root is their Merkle root.
pub open spec fn proven_included(h: Seq<u8>, payload_hashes: Seq<Seq<u8>>, declared_root: Seq<u8>) -> bool {
    payload_hashes.contains(h) && root_of_level(payload_hashes) == declared_root
}

/// The first constraint from position `k` on that is not proven included.
pub open spec fn first_unproven(
    constrained: Seq<Seq<u8>>,
    payload_hashes: Seq<Seq<u8>>,
    declared_root: Seq<u8>,
    k: int,
) -> Option<int>
    decreases constrained.len() - k,
{
    if k < 0 || k >= constrained.len() {
        None
    } else if !proven_included(constrained[k], payload_hashes, declared_root) {
        Some(k)
    } else {
        first_unproven(constrained, payload_hashes, declared_root, k + 1)
    }
}

/// The hash a payload is rejected for, or `None` where it is accepted.
pub open spec fn enforcement_outcome(
    constrained: Seq<Seq<u8>>,
    payload_hashes: Seq<Seq<u8>>,
    declared_root: Seq<u8>,
) -> Option<Seq<u8>> {
    match first_unproven(constrained, payload_hashes, declared_root, 0) {
        Some(k) => Some(constrained[k]),
        None => None,
    }
}

proof fn lemma_first_unproven(cs: Seq<Seq<u8>>, ph: Seq<Seq<u8>>, root: Seq<u8>, k: int)
    requires
        0 <= k <= cs.len(),
    ensures
        (forall|i: int| k <= i < cs.len() ==> proven_included(#[trigger] cs[i], ph, root)) ==> first_unproven(cs, ph, root, k) is None,
        first_unproven(cs, ph, root, k) matches Some(j) ==> k <= j < cs.len() && !proven_included(cs[j], ph, root),
        (exists|i: int| k <= i < cs.len() && !proven_included(#[trigger] cs[i], ph, root)) ==> first_unproven(cs, ph, root, k) is Some,
    decreases cs.len() - k,
{
    if k < cs.len() {
        lemma_first_unproven(cs, ph, root, k + 1);
        if exists|i: int| k <= i < cs.len() && !proven_included(#[trigger] cs[i], ph, root) {
            let i = choose|i: int| k <= i < cs.len() && !proven_included(#[trigger] cs[i], ph, root);
            if i > k && proven_included(cs[k], ph, root) {
                assert(k + 1 <= i < cs.len() && !proven_included(cs[i], ph, root));
            }
        }
    }
}

/// A payload whose declared root is the Merkle root of its transactions is
/// accepted when it holds every constrained transaction.
pub proof fn lemma_complete_payload_accepted(constrained: Seq<Seq<u8>>, payload_hashes: Seq<Seq<u8>>, declared_root: Seq<u8>)
    requires
        root_of_level(payload_hashes) == declared_root,
        forall|i: int| 0 <= i < constrained.len() ==> payload_hashes.contains(#[trigger] constrained[i]),
    ensures
        enforcement_outcome(constrained, payload_hashes, declared_root) is None,
{
    lemma_first_unproven(constrained, payload_hashes, declared_root, 0);
}

/// A payload whose declared root is the Merkle root of its transactions, and
/// that lacks the constrained transaction `t` but holds every other one, is
/// rejected naming `t`.
pub proof fn lemma_missing_constraint_named(
    constrained: Seq<Seq<u8>>,
    payload_hashes: Seq<Seq<u8>>,
    declared_root: Seq<u8>,
    t: Seq<u8>,
)
    requires
        root_of_level(payload_hashes) == declared_root,
        constrained.contains(t),
        !payload_hashes.contains(t),
        forall|i: int| 0 <= i < constrained.len() && constrained[i] != t ==> payload_hashes.contains(#[trigger] constrained[i]),
    ensures
        enforcement_outcome(constrained, payload_hashes, declared_root) == Some(t),
{
    lemma_first_unproven(constrained, payload_hashes, declared_root, 0);
    let i = choose|i: int| 0 <= i < constrained.len() && constrained[i] == t;
    assert(!proven_included(constrained[i], payload_hashes, declared_root));
}

/// The decision, as the hash it rejects for.
pub open spec fn rejected_hash(d: Decision) -> Option<Seq<u8>> {
    match d {
        Decision::Accept => None,
        Decision::Reject(RejectReason::MissingConstraint(h)) => Some(h@),
    }
}

/// The hashes of a payload's transactions.
pub open spec fn payload_hashes(p: Payload) -> Seq<Seq<u8>> {
    tx_hashes_of(tx_views(p.transactions@))
}

/// Hashes a payload's transactions, in order.
fn hash_transactions(txs: &Vec<Vec<u8>>) -> (r: Vec<Hash32>)
    ensures
        hash_views(r@) == tx_hashes_of(tx_views(txs@)),
{
    let ghost all = tx_hashes_of(tx_views(txs@));
    let mut out: Vec<Hash32> = Vec::new();
    let mut j: usize = 0;
    while j < txs.len()
        invariant
            j <= txs@.len(),
            all == tx_hashes_of(tx_views(txs@)),
            hash_views(out@) == all.subrange(0, j as int),
        decreases txs@.len() - j,
    {
        let h = tx_hash(&txs[j]);
        let ghost prev = out@;
        out.push(h);
        assert(hash_views(out@) =~= hash_views(prev).push(h@));
        assert(all.subrange(0, j + 1) =~= all.subrange(0, j as int).push(h@));
        j = j + 1;
    }
    assert(all.subrange(0, j as int) =~= all);
    out
}

/// Checks a payload against a list of constraints: each is proven by building
/// its inclusion proof over the payload's transactions and verifying it
/// against the declared root. The first constraint that fails names the rejection.
pub fn check_constraints(constraints: &Vec<Constraint>, payload: &Payload) -> (r: Decision)
    ensures
        rejected_hash(r) == enforcement_outcome(
            constraint_hashes(constraints@),
            payload_hashes(*payload),
            payload.transactions_root@,
        ),
{
    let ghost cs = constraint_hashes(constraints@);
    let ghost ph = payload_hashes(*payload);
    let ghost root = payload.transactions_root@;
    let hashes = hash_transactions(&payload.transactions);
    let mut k: usize = 0;
    while k < constraints.len()
        invariant
            k <= constraints@.len(),
            cs == constraint_hashes(constraints@),
            ph == payload_hashes(*payload),
            root == payload.transactions_root@,
            hash_views(hashes@) == ph,
            first_unproven(cs, ph, root, 0) == first_unproven(cs, ph, root, k as int),
        decreases constraints@.len() - k,
    {
        let h = constraints[k].transaction_hash;
        assert(cs[k as int] == h@);
        let proven = match build_proof(&h, &hashes) {
            Ok(p) => {
                proof {
                    lemma_built_proof_verifies(hashes@, p);
                    assert(ph.contains(h@)) by {
                        assert(ph[p.index as int] == h@);
                    }
                }
                match verify_proof(&p, &payload.transactions_root) {
                    Ok(b) => b,
                    Err(_) => false,
                }
            },
            Err(_) => {
                proof {
                    if ph.contains(h@) {
                        let j = choose|j: int| 0 <= j < ph.len() && ph[j] == h@;
                        assert(hashes@[j]@ == h@);
                    }
                }
                false
            },
        };
        if !proven {
            return Decision::Reject(RejectReason::MissingConstraint(h));
        }
        k = k + 1;
    }
    Decision::Accept
}

/// Checks a builder's payload for `slot`: against the slot's sealed
/// constraints, and trivially accepted where the slot has no sealed set.
pub fn check_payload(agg: &Aggregator, slot: u64, payload: &Payload) -> (r: Decision)
    requires
        agg.wf(),
    ensures
        rejected_hash(r) == if slot_view(agg.slots@, slot).phase is Sealed {
            enforcement_outcome(slot_view(agg.slots@, slot).hashes, payload_hashes(*payload), payload.transactions_root@)
        } else {
            None
        },
{
    match agg.sealed_constraints(slot) {
        Some(set) => check_constraints(&set.constraints, payload),
        None => Decision::Accept,
    }
}

} // verus!
