use alloy::consensus::{SignableTransaction, TxEnvelope, TxLegacy};
use alloy::eips::Encodable2718;
use alloy::primitives::{keccak256, Address as AlloyAddress, Bytes, TxKind, B256, U256};
use alloy::signers::local::PrivateKeySigner;
use alloy::signers::SignerSync;

use bolt_commitments::aggregator::{Aggregator, Limits, SlotPhase};
use bolt_commitments::auth::parse_auth_header;
use bolt_commitments::contracts::{
    deployments, strategy_to_address, Bolt, Chain, Contracts, EigenLayer, EigenLayerStrategies, EigenLayerStrategy,
    Symbiotic,
};
use bolt_commitments::enforcement::{check_constraints, check_payload, Decision, Payload, RejectReason};
use bolt_commitments::error::{CommitmentError, ParamError};
use bolt_commitments::gateway::{not_found, parse_method, status, CommitmentsApi, RpcMethod, RpcResult};
use bolt_commitments::hashing::{hash_eq, tx_hash};
use bolt_commitments::merkle::{build_proof, compute_root, verify_proof, ProofError};
use bolt_commitments::request::InclusionRequest;
use bolt_commitments::signing::recover_signer;
use bolt_commitments::validator::{validate, ValidatorConfig};

fn key(k: u8) -> PrivateKeySigner {
    PrivateKeySigner::from_bytes(&B256::from([k; 32])).unwrap()
}

fn address_of(s: &PrivateKeySigner) -> [u8; 20] {
    s.address().0 .0
}

fn raw_tx(nonce: u64, gas_limit: u64) -> Vec<u8> {
    let tx = TxLegacy {
        chain_id: Some(1),
        nonce,
        gas_price: 1,
        gas_limit,
        to: TxKind::Call(AlloyAddress::ZERO),
        value: U256::ZERO,
        input: Bytes::new(),
    };
    let sig = key(9).sign_hash_sync(&tx.signature_hash()).unwrap();
    TxEnvelope::Legacy(tx.into_signed(sig)).encoded_2718()
}

fn sign_digest(s: &PrivateKeySigner, digest: [u8; 32]) -> [u8; 65] {
    s.sign_hash_sync(&B256::from(digest)).unwrap().as_bytes()
}

fn hex(b: &[u8]) -> String {
    b.iter().map(|x| format!("{:02x}", x)).collect()
}

fn auth_header(addr: &[u8; 20], sig: &[u8; 65]) -> String {
    format!("0x{}:0x{}", hex(addr), hex(sig))
}

fn request(slot: u64, transactions: Vec<Vec<u8>>) -> InclusionRequest {
    InclusionRequest { slot, transactions, signature: None, signer: None }
}

fn config() -> ValidatorConfig {
    ValidatorConfig {
        limits: Limits { max_commitments_per_slot: 128, max_committed_gas_per_slot: 10_000_000 },
        max_lookahead_slots: 64,
    }
}

fn api() -> CommitmentsApi {
    CommitmentsApi::new(config(), "0.3.0".to_string())
}

fn h(n: u8) -> [u8; 32] {
    keccak256([n]).0
}

fn signed_header(s: &PrivateKeySigner, req: &InclusionRequest) -> String {
    auth_header(&address_of(s), &sign_digest(s, req.digest()))
}

#[test]
fn digest_is_deterministic_and_order_sensitive() {
    let a = raw_tx(0, 21_000);
    let b = raw_tx(1, 21_000);
    let r1 = request(100, vec![a.clone(), b.clone()]);
    let r2 = request(100, vec![a.clone(), b.clone()]);
    let swapped = request(100, vec![b.clone(), a.clone()]);
    assert_eq!(r1.digest(), r1.digest());
    assert_eq!(r1.digest(), r2.digest());
    assert_ne!(r1.digest(), swapped.digest());
    assert_ne!(r1.digest(), request(101, vec![a, b]).digest());
}

#[test]
fn digest_matches_hash_list_then_little_endian_slot() {
    let a = raw_tx(0, 21_000);
    let b = raw_tx(1, 21_000);
    let mut pre = Vec::new();
    pre.extend_from_slice(keccak256(&a).as_slice());
    pre.extend_from_slice(keccak256(&b).as_slice());
    pre.extend_from_slice(&100u64.to_le_bytes());
    assert_eq!(request(100, vec![a, b]).digest(), keccak256(&pre).0);
}

#[test]
fn tx_hash_is_keccak_of_raw_bytes() {
    let a = raw_tx(3, 21_000);
    assert_eq!(tx_hash(&a), keccak256(&a).0);
    assert_ne!(tx_hash(&vec![0u8; 32]).to_vec(), vec![0u8; 32]);
}

#[test]
fn signature_round_trip() {
    for k in 1u8..5 {
        let s = key(k);
        let digest = request(7, vec![raw_tx(k as u64, 21_000)]).digest();
        let sig = sign_digest(&s, digest);
        assert_eq!(recover_signer(&digest, &sig).unwrap(), address_of(&s));
    }
}

#[test]
fn recover_signer_rejects_bad_recovery_byte() {
    let s = key(1);
    let digest = h(1);
    let mut sig = sign_digest(&s, digest);
    sig[64] = 5;
    assert!(recover_signer(&digest, &sig).is_err());
}

#[test]
fn recover_signer_on_other_digest_gives_other_signer() {
    let s = key(1);
    let sig = sign_digest(&s, h(1));
    match recover_signer(&h(2), &sig) {
        Ok(a) => assert_ne!(a, address_of(&s)),
        Err(_) => {}
    }
}

#[test]
fn merkle_root_exact_values() {
    assert_eq!(compute_root(&vec![]), keccak256([]).0);
    assert_eq!(compute_root(&vec![h(1)]), h(1));
    let mut ab = h(1).to_vec();
    ab.extend_from_slice(&h(2));
    let n12 = keccak256(&ab).0;
    assert_eq!(compute_root(&vec![h(1), h(2)]), n12);
    // An unpaired last node is carried up unchanged.
    let mut top = n12.to_vec();
    top.extend_from_slice(&h(3));
    assert_eq!(compute_root(&vec![h(1), h(2), h(3)]), keccak256(&top).0);
}

#[test]
fn proof_round_trip() {
    for n in 1u8..9 {
        let hashes: Vec<[u8; 32]> = (0..n).map(h).collect();
        let root = compute_root(&hashes);
        for (i, leaf) in hashes.iter().enumerate() {
            let p = build_proof(leaf, &hashes).unwrap();
            assert_eq!(p.index, i);
            assert_eq!(p.leaf_count, n as usize);
            assert_eq!(p.root, root);
            assert_eq!(verify_proof(&p, &root), Ok(true));
        }
    }
}

#[test]
fn build_proof_leaf_not_found() {
    let hashes = vec![h(1), h(2), h(3)];
    assert!(matches!(build_proof(&h(4), &hashes), Err(ProofError::LeafNotFound)));
    assert!(matches!(build_proof(&h(1), &vec![]), Err(ProofError::LeafNotFound)));
}

#[test]
fn proof_tamper_resistance() {
    let hashes: Vec<[u8; 32]> = (0..6).map(h).collect();
    let root = compute_root(&hashes);
    for leaf in hashes.iter() {
        let p = build_proof(leaf, &hashes).unwrap();
        for s in 0..p.path.len() {
            for b in 0..32 {
                let mut t = p.clone();
                t.path[s].sibling[b] ^= 0x01;
                assert_eq!(verify_proof(&t, &root), Ok(false));
            }
        }
    }
}

#[test]
fn verify_proof_against_other_root_is_false() {
    let hashes: Vec<[u8; 32]> = (0..4).map(h).collect();
    let p = build_proof(&h(2), &hashes).unwrap();
    assert_eq!(verify_proof(&p, &h(9)), Ok(false));
}

#[test]
fn verify_proof_malformed() {
    let hashes: Vec<[u8; 32]> = (0..5).map(h).collect();
    let root = compute_root(&hashes);
    let p = build_proof(&h(1), &hashes).unwrap();

    let mut flipped = p.clone();
    flipped.path[0].sibling_on_left = !flipped.path[0].sibling_on_left;
    assert_eq!(verify_proof(&flipped, &root), Err(ProofError::MalformedProof));

    let mut longer = p.clone();
    longer.path.push(p.path[0]);
    assert_eq!(verify_proof(&longer, &root), Err(ProofError::MalformedProof));

    let mut shorter = p.clone();
    shorter.path.pop();
    assert_eq!(verify_proof(&shorter, &root), Err(ProofError::MalformedProof));

    let mut outside = p.clone();
    outside.index = 5;
    assert_eq!(verify_proof(&outside, &root), Err(ProofError::MalformedProof));
}

#[test]
fn hash_eq_compares_bytes() {
    assert!(hash_eq(&h(1), &h(1)));
    assert!(!hash_eq(&h(1), &h(2)));
}

#[test]
fn sealing_keeps_exactly_the_commitments_before_the_deadline() {
    let mut agg = Aggregator::new();
    let cfg = config();
    let s = key(1);
    let claimed = address_of(&s);
    let mut accepted = Vec::new();
    for n in 0..4u64 {
        let mut r = request(100, vec![raw_tx(n, 21_000)]);
        r.set_signature(sign_digest(&s, r.digest()));
        assert!(validate(&mut agg, &cfg, &r, &claimed, 90).is_ok());
        accepted.push(keccak256(&r.transactions[0]).0);
    }
    let set = agg.seal(100).unwrap();
    let mut late = request(100, vec![raw_tx(50, 21_000)]);
    late.set_signature(sign_digest(&s, late.digest()));
    assert!(matches!(validate(&mut agg, &cfg, &late, &claimed, 90), Err(CommitmentError::SlotSealed)));
    assert_eq!(set.slot, 100);
    assert_eq!(set.constraints.len(), 4);
    for (i, c) in set.constraints.iter().enumerate() {
        assert_eq!(c.transaction_hash, accepted[i]);
        assert_eq!(c.slot, 100);
        assert_eq!(c.position_hint, Some(i));
    }
    let again = agg.sealed_constraints(100).unwrap();
    assert_eq!(again.constraints.len(), 4);
    assert_eq!(agg.phase(100), SlotPhase::Sealed);
}

#[test]
fn sealing_an_empty_slot_refuses_later_commitments() {
    let mut agg = Aggregator::new();
    let s = key(1);
    let set = agg.seal(100).unwrap();
    assert!(set.constraints.is_empty());
    let mut r = request(100, vec![raw_tx(0, 21_000)]);
    r.set_signature(sign_digest(&s, r.digest()));
    assert!(matches!(validate(&mut agg, &config(), &r, &address_of(&s), 90), Err(CommitmentError::SlotSealed)));
}

#[test]
fn retired_slot_is_dropped_and_closed() {
    let mut agg = Aggregator::new();
    let s = key(1);
    let mut r = request(100, vec![raw_tx(0, 21_000)]);
    r.set_signature(sign_digest(&s, r.digest()));
    assert!(validate(&mut agg, &config(), &r, &address_of(&s), 90).is_ok());
    agg.retire(100);
    assert_eq!(agg.phase(100), SlotPhase::Retired);
    assert!(agg.seal(100).is_none());
    assert!(agg.sealed_constraints(100).is_none());
    assert!(matches!(validate(&mut agg, &config(), &r, &address_of(&s), 90), Err(CommitmentError::SlotSealed)));
}

#[test]
fn validate_tallies_commitments_and_gas() {
    let mut agg = Aggregator::new();
    let s = key(1);
    let mut r = request(100, vec![raw_tx(0, 21_000), raw_tx(1, 50_000)]);
    r.set_signature(sign_digest(&s, r.digest()));
    let c = validate(&mut agg, &config(), &r, &address_of(&s), 90).unwrap();
    assert_eq!(c.request_digest, r.digest());
    assert_eq!(c.signer, address_of(&s));
    assert_eq!(agg.tallies(100), (1, 71_000));
    assert_eq!(agg.tallies(101), (0, 0));
}

#[test]
fn validate_errors() {
    let s = key(1);
    let other = key(2);
    let cfg = config();
    let signed = |slot: u64, txs: Vec<Vec<u8>>| {
        let mut r = request(slot, txs);
        r.set_signature(sign_digest(&s, r.digest()));
        r
    };
    let mut agg = Aggregator::new();
    let me = address_of(&s);

    let empty = signed(100, vec![]);
    assert!(matches!(
        validate(&mut agg, &cfg, &empty, &me, 90),
        Err(CommitmentError::InvalidParams(ParamError::NoTransactions))
    ));
    let unsigned = request(100, vec![raw_tx(0, 21_000)]);
    assert!(matches!(validate(&mut agg, &cfg, &unsigned, &me, 90), Err(CommitmentError::InvalidSignature)));
    let ok = signed(100, vec![raw_tx(0, 21_000)]);
    assert!(matches!(
        validate(&mut agg, &cfg, &ok, &address_of(&other), 90),
        Err(CommitmentError::InvalidSignature)
    ));
    let past = signed(89, vec![raw_tx(0, 21_000)]);
    assert!(matches!(validate(&mut agg, &cfg, &past, &me, 90), Err(CommitmentError::SlotOutOfRange)));
    let far = signed(155, vec![raw_tx(0, 21_000)]);
    assert!(matches!(validate(&mut agg, &cfg, &far, &me, 90), Err(CommitmentError::SlotOutOfRange)));
    let edge = signed(154, vec![raw_tx(0, 21_000)]);
    assert!(validate(&mut agg, &cfg, &edge, &me, 90).is_ok());
    let bad = signed(100, vec![raw_tx(0, 21_000), vec![1, 2, 3]]);
    assert!(matches!(validate(&mut agg, &cfg, &bad, &me, 90), Err(CommitmentError::InvalidTransaction(1))));
    let heavy = signed(100, vec![raw_tx(0, 9_000_000), raw_tx(1, 2_000_000)]);
    assert!(matches!(validate(&mut agg, &cfg, &heavy, &me, 90), Err(CommitmentError::ResourceLimitExceeded)));
    assert_eq!(agg.tallies(100), (0, 0));
}

#[test]
fn validate_commitment_count_limit() {
    let s = key(1);
    let cfg = ValidatorConfig {
        limits: Limits { max_commitments_per_slot: 2, max_committed_gas_per_slot: 10_000_000 },
        max_lookahead_slots: 64,
    };
    let mut agg = Aggregator::new();
    for n in 0..3u64 {
        let mut r = request(100, vec![raw_tx(n, 21_000)]);
        r.set_signature(sign_digest(&s, r.digest()));
        let res = validate(&mut agg, &cfg, &r, &address_of(&s), 90);
        if n < 2 {
            assert!(res.is_ok());
        } else {
            assert!(matches!(res, Err(CommitmentError::ResourceLimitExceeded)));
        }
    }
}

fn payload_of(txs: Vec<Vec<u8>>) -> Payload {
    let hashes: Vec<[u8; 32]> = txs.iter().map(|t| keccak256(t).0).collect();
    Payload { transactions_root: compute_root(&hashes), transactions: txs }
}

#[test]
fn enforcement_accepts_complete_and_names_missing() {
    let s = key(1);
    let (a, b, c) = (raw_tx(0, 21_000), raw_tx(1, 21_000), raw_tx(2, 21_000));
    let mut agg = Aggregator::new();
    let mut r = request(100, vec![a.clone(), b.clone()]);
    r.set_signature(sign_digest(&s, r.digest()));
    validate(&mut agg, &config(), &r, &address_of(&s), 90).unwrap();
    let set = agg.seal(100).unwrap();

    assert!(matches!(check_constraints(&set.constraints, &payload_of(vec![c.clone(), b.clone(), a.clone()])), Decision::Accept));
    match check_constraints(&set.constraints, &payload_of(vec![a.clone(), c.clone()])) {
        Decision::Reject(RejectReason::MissingConstraint(x)) => assert_eq!(x, keccak256(&b).0),
        Decision::Accept => panic!("accepted a payload without a constrained transaction"),
    }
    let mut wrong_root = payload_of(vec![a.clone(), b.clone()]);
    wrong_root.transactions_root = h(0);
    match check_payload(&agg, 100, &wrong_root) {
        Decision::Reject(RejectReason::MissingConstraint(x)) => assert_eq!(x, keccak256(&a).0),
        Decision::Accept => panic!("accepted a payload with a wrong root"),
    }
    assert!(matches!(check_payload(&agg, 101, &payload_of(vec![c])), Decision::Accept));
}

#[test]
fn end_to_end_scenario() {
    let s = key(7);
    let signer = address_of(&s);
    let (tx_a, tx_b, tx_c) = (raw_tx(0, 21_000), raw_tx(1, 21_000), raw_tx(2, 21_000));
    let mut sidecar = api();
    let req = request(100, vec![tx_a.clone(), tx_b.clone()]);
    let digest = req.digest();
    let sig = sign_digest(&s, digest);
    let header = auth_header(&signer, &sig);
    let res = sidecar.rpc_entrypoint("bolt_requestInclusion", Some(Ok(req)), Some(header.as_bytes()), 95);
    match res {
        Ok(RpcResult::Commitment(c)) => {
            assert_eq!(c.request_digest, digest);
            assert_eq!(c.signer, signer);
            assert_eq!(c.signature, sig);
        }
        _ => panic!("expected a commitment"),
    }
    let set = sidecar.aggregator.seal(100).unwrap();
    assert_eq!(set.slot, 100);
    let hashes: Vec<[u8; 32]> = set.constraints.iter().map(|c| c.transaction_hash).collect();
    assert_eq!(hashes, vec![keccak256(&tx_a).0, keccak256(&tx_b).0]);
    assert!(matches!(
        check_payload(&sidecar.aggregator, 100, &payload_of(vec![tx_a.clone(), tx_b.clone(), tx_c.clone()])),
        Decision::Accept
    ));
    match check_payload(&sidecar.aggregator, 100, &payload_of(vec![tx_a, tx_c])) {
        Decision::Reject(RejectReason::MissingConstraint(x)) => assert_eq!(x, keccak256(&tx_b).0),
        Decision::Accept => panic!("expected a rejection"),
    }
}

#[test]
fn unauthenticated_request_is_refused() {
    let mut sidecar = api();
    let req = request(100, vec![raw_tx(0, 21_000)]);
    let res = sidecar.rpc_entrypoint("bolt_requestInclusion", Some(Ok(req.clone())), None, 95);
    assert!(matches!(res, Err(CommitmentError::InvalidParams(ParamError::MissingAuthHeader))));
    let res = sidecar.request_inclusion(req, None, 95);
    assert!(matches!(res, Err(CommitmentError::InvalidParams(ParamError::MissingAuthHeader))));
    assert_eq!(sidecar.aggregator.tallies(100), (0, 0));
}

#[test]
fn request_inclusion_rejects_mismatched_and_malformed_headers() {
    let s = key(1);
    let other = key(2);
    let mut sidecar = api();
    let req = request(100, vec![raw_tx(0, 21_000)]);
    let sig = sign_digest(&s, req.digest());
    let wrong = auth_header(&address_of(&other), &sig);
    assert!(matches!(
        sidecar.request_inclusion(req.clone(), Some(wrong.as_bytes()), 95),
        Err(CommitmentError::InvalidSignature)
    ));
    assert!(matches!(
        sidecar.request_inclusion(req.clone(), Some(b"0x1234:0xabcd"), 95),
        Err(CommitmentError::InvalidParams(ParamError::MalformedAuthHeader))
    ));
    assert!(matches!(
        sidecar.request_inclusion(req.clone(), Some(b"no colon here"), 95),
        Err(CommitmentError::InvalidParams(ParamError::MalformedAuthHeader))
    ));
    let good = signed_header(&s, &req);
    assert!(sidecar.request_inclusion(req, Some(good.as_bytes()), 95).is_ok());
}

#[test]
fn rpc_dispatch() {
    let mut sidecar = api();
    match sidecar.rpc_entrypoint("bolt_getVersion", None, None, 0) {
        Ok(RpcResult::Version(v)) => assert_eq!(v, "0.3.0"),
        _ => panic!("expected the version"),
    }
    match sidecar.rpc_entrypoint("bolt_getMetadata", None, None, 0) {
        Ok(RpcResult::Metadata(m)) => {
            assert_eq!(m.version, "0.3.0");
            assert_eq!(m.limits.max_commitments_per_slot, 128);
            assert_eq!(m.limits.max_committed_gas_per_slot, 10_000_000);
        }
        _ => panic!("expected the metadata"),
    }
    assert!(matches!(sidecar.rpc_entrypoint("bolt_other", None, None, 0), Err(CommitmentError::UnknownMethod)));
    let s = key(1);
    let req = request(100, vec![raw_tx(0, 21_000)]);
    let header = signed_header(&s, &req);
    assert!(matches!(
        sidecar.rpc_entrypoint("bolt_requestInclusion", None, Some(header.as_bytes()), 95),
        Err(CommitmentError::InvalidParams(ParamError::MissingParam))
    ));
    match sidecar.rpc_entrypoint("bolt_requestInclusion", Some(Err("expected value".to_string())), Some(header.as_bytes()), 95) {
        Err(CommitmentError::InvalidJson(msg)) => assert_eq!(msg, "expected value"),
        _ => panic!("expected a decode error"),
    }
    assert_eq!(parse_method("bolt_requestInclusion").unwrap(), RpcMethod::RequestInclusion);
    assert_eq!(sidecar.get_version(), "0.3.0");
    assert_eq!(sidecar.limits().max_commitments_per_slot, 128);
}

#[test]
fn fixed_routes() {
    assert_eq!(not_found(), "404 - Not Found");
    assert_eq!(status(), "OK");
}

#[test]
fn auth_header_decodes_both_parts() {
    let addr: [u8; 20] = core::array::from_fn(|i| i as u8);
    let sig: [u8; 65] = core::array::from_fn(|i| (255 - i) as u8);
    let (a, s) = parse_auth_header(auth_header(&addr, &sig).as_bytes()).unwrap();
    assert_eq!(a, addr);
    assert_eq!(s, sig);
    let upper = format!("{}:{}", hex(&addr).to_uppercase(), hex(&sig));
    let (a, s) = parse_auth_header(upper.as_bytes()).unwrap();
    assert_eq!(a, addr);
    assert_eq!(s, sig);
    let bad = format!("0x{}:0x{}zz", hex(&addr), &hex(&sig)[..128]);
    assert!(parse_auth_header(bad.as_bytes()).is_err());
}

#[test]
fn strategies() {
    let addrs = EigenLayerStrategies { st_eth: [1; 20], r_eth: [2; 20], w_eth: [3; 20], cb_eth: [4; 20], m_eth: [5; 20] };
    assert_eq!(strategy_to_address(EigenLayerStrategy::StEth, addrs), [1; 20]);
    assert_eq!(strategy_to_address(EigenLayerStrategy::REth, addrs), [2; 20]);
    assert_eq!(strategy_to_address(EigenLayerStrategy::WEth, addrs), [3; 20]);
    assert_eq!(strategy_to_address(EigenLayerStrategy::CbEth, addrs), [4; 20]);
    assert_eq!(strategy_to_address(EigenLayerStrategy::MEth, addrs), [5; 20]);
    assert_eq!(EigenLayerStrategy::StEth.as_str(), "stETH");
    assert_eq!(EigenLayerStrategy::REth.as_str(), "rETH");
    assert_eq!(EigenLayerStrategy::WEth.as_str(), "wETH");
    assert_eq!(EigenLayerStrategy::CbEth.as_str(), "cbETH");
    assert_eq!(EigenLayerStrategy::MEth.as_str(), "mETH");
}

#[test]
fn deployments_lookup() {
    let contracts = |k: u8| Contracts {
        bolt: Bolt {
            validators: [k; 20],
            parameters: [k; 20],
            manager: [k; 20],
            eigenlayer_middleware: [k; 20],
            symbiotic_middleware: [k; 20],
            operators_registry: [k; 20],
        },
        symbiotic: Symbiotic {
            network: [k; 20],
            operator_registry: [k; 20],
            network_opt_in_service: [k; 20],
            vault_factory: [k; 20],
            vault_configurator: [k; 20],
            network_registry: [k; 20],
            network_middleware_service: [k; 20],
            supported_vaults: [[k; 20]; 6],
        },
        eigen_layer: EigenLayer {
            avs_directory: [k; 20],
            delegation_manager: [k; 20],
            strategy_manager: [k; 20],
            supported_strategies: EigenLayerStrategies { st_eth: [k; 20], r_eth: [k; 20], w_eth: [k; 20], cb_eth: [k; 20], m_eth: [k; 20] },
        },
        collateral: vec![("st_eth".to_string(), [k; 20])],
    };
    let registry = deployments(contracts(1), contracts(2));
    assert_eq!(registry.deployments_for_chain(Chain::Holesky).unwrap().bolt.manager, [1; 20]);
    assert_eq!(registry.deployments_for_chain(Chain::Mainnet).unwrap().bolt.manager, [2; 20]);
    assert!(registry.deployments_for_chain(Chain::Helder).is_none());
}

#[test]
fn constraints_set_digest_exact() {
    let s = key(1);
    let (a, b) = (raw_tx(0, 21_000), raw_tx(1, 21_000));
    let mut agg = Aggregator::new();
    let mut r = request(100, vec![a.clone(), b.clone()]);
    r.set_signature(sign_digest(&s, r.digest()));
    validate(&mut agg, &config(), &r, &address_of(&s), 90).unwrap();
    let set = agg.seal(100).unwrap();
    let mut pre = 100u64.to_le_bytes().to_vec();
    pre.extend_from_slice(keccak256(&a).as_slice());
    pre.extend_from_slice(keccak256(&b).as_slice());
    assert_eq!(set.digest(), keccak256(&pre).0);
    assert_ne!(set.digest(), r.digest());
}
