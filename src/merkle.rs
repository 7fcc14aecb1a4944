//! Binary Merkle trees over ordered hash lists: building inclusion proofs and
//! verifying them against an expected root.
use vstd::prelude::*;
use crate::hashing::{append_bytes, hash_eq, keccak, keccak_of, Hash32};

verus! {

/// The hash of an inner node: Keccak-256 over the left child followed by the right.
pub open spec fn parent_hash(left: Seq<u8>, right: Seq<u8>) -> Seq<u8> {
    keccak_of(left + right)
}

/// The level above `level`: adjacent pairs are hashed together, and an
/// unpaired last node is carried up unchanged.
pub open spec fn next_level(level: Seq<Seq<u8>>) -> Seq<Seq<u8>> {
    Seq::new(
        ((level.len() + 1) / 2) as nat,
        |j: int|
            if 2 * j + 1 < level.len() {
                parent_hash(level[2 * j], level[2 * j + 1])
            } else {
                level[2 * j]
            },
    )
}

/// The root of the tree whose lowest level is `level`; the tree over no leaves
/// has the hash of the empty string as its root.
pub open spec fn root_of_level(level: Seq<Seq<u8>>) -> Seq<u8>
    decreases level.len(),
{
    if level.len() == 0 {
        keccak_of(Seq::empty())
    } else if level.len() == 1 {
        level[0]
    } else {
        root_of_level(next_level(level))
    }
}

/// The views of a list of hashes.
pub open spec fn hash_views(hashes: Seq<Hash32>) -> Seq<Seq<u8>> {
    hashes.map_values(|h: Hash32| h@)
}

/// The Merkle root of an ordered list of hashes.
pub open spec fn merkle_root(hashes: Seq<Hash32>) -> Seq<u8> {
    root_of_level(hash_views(hashes))
}

/// The sibling path of leaf `i`, from the leaves up: each sibling with `true`
/// where it stands on the left.
pub open spec fn path_of(level: Seq<Seq<u8>>, i: int) -> Seq<(Seq<u8>, bool)>
    decreases level.len(),
{
    if level.len() <= 1 {
        Seq::empty()
    } else {
        let rest = path_of(next_level(level), i / 2);
        if i % 2 == 1 {
            seq![(level[i - 1], true)] + rest
        } else if i + 1 < level.len() {
            seq![(level[i + 1], false)] + rest
        } else {
            rest
        }
    }
}

/// The left/right flags that a proof for leaf `i` of `n` leaves carries, from the
/// leaves up.
pub open spec fn shape_of(n: nat, i: int) -> Seq<bool>
    decreases n,
{
    if n <= 1 {
        Seq::empty()
    } else {
        let rest = shape_of(((n + 1) / 2) as nat, i as int / 2);
        if i % 2 == 1 {
            seq![true] + rest
        } else if i + 1 < n {
            seq![false] + rest
        } else {
            rest
        }
    }
}

/// Folds a leaf up through a sibling path.
pub open spec fn fold_path(leaf: Seq<u8>, path: Seq<(Seq<u8>, bool)>) -> Seq<u8>
    decreases path.len(),
{
    if path.len() == 0 {
        leaf
    } else {
        let up = if path[0].1 {
            parent_hash(path[0].0, leaf)
        } else {
            parent_hash(leaf, path[0].0)
        };
        fold_path(up, path.drop_first())
    }
}

/// One step of an inclusion proof.
#[derive(Clone, Copy, Debug)]
pub struct ProofStep {
    pub sibling: Hash32,
    /// Whether the sibling is the left child of the parent node.
    pub sibling_on_left: bool,
}

/// A Merkle inclusion proof of `leaf`, the leaf at `index` among `leaf_count`
/// leaves, in the tree whose root is `root`.
#[derive(Clone, Debug)]
pub struct InclusionProof {
    pub leaf: Hash32,
    pub index: usize,
    pub leaf_count: usize,
    pub path: Vec<ProofStep>,
    pub root: Hash32,
}

/// Proof engine failures.
#[derive(Clone, Copy, Debug, PartialEq, Eq, Structural)]
pub enum ProofError {
    /// The hash to prove is not among the leaves.
    LeafNotFound,
    /// The path's length or left/right flags do not fit the leaf's position.
    MalformedProof,
}

/// The path of a proof as sibling views and flags.
pub open spec fn steps_view(path: Seq<ProofStep>) -> Seq<(Seq<u8>, bool)> {
    path.map_values(|s: ProofStep| (s.sibling@, s.sibling_on_left))
}

/// The flags of a proof's path.
pub open spec fn flags_of(path: Seq<ProofStep>) -> Seq<bool> {
    path.map_values(|s: ProofStep| s.sibling_on_left)
}

/// A proof is well shaped when its leaf lies among the leaves and its path has
/// exactly the steps, with the flags, that the leaf's position asks for.
pub open spec fn well_shaped(p: InclusionProof) -> bool {
    &&& p.index < p.leaf_count
    &&& flags_of(p.path@) == shape_of(p.leaf_count as nat, p.index as int)
}

/// The root that a proof's path leads to from its leaf.
pub open spec fn computed_root(p: InclusionProof) -> Seq<u8> {
    fold_path(p.leaf@, steps_view(p.path@))
}

/// Whether `h` occurs among `hashes`.
pub open spec fn contains_hash(hashes: Seq<Hash32>, h: Seq<u8>) -> bool {
    exists|k: int| 0 <= k < hashes.len() && hashes[k]@ == h
}

/// `k` is the first position of `h` in `hashes`.
pub open spec fn first_index(hashes: Seq<Hash32>, h: Seq<u8>, k: int) -> bool {
    &&& 0 <= k < hashes.len()
    &&& hashes[k]@ == h
    &&& forall|j: int| 0 <= j < k ==> hashes[j]@ != h
}

proof fn lemma_next_level_len(level: Seq<Seq<u8>>)
    requires
        level.len() >= 2,
    ensures
        next_level(level).len() < level.len(),
        next_level(level).len() >= 1,
{
}

/// Folding leaf `i` up through its own path gives the root of the level.
pub proof fn lemma_path_folds_to_root(level: Seq<Seq<u8>>, i: int)
    requires
        0 <= i < level.len(),
    ensures
        fold_path(level[i], path_of(level, i)) == root_of_level(level),
    decreases level.len(),
{
    if level.len() > 1 {
        lemma_next_level_len(level);
        let up = next_level(level);
        lemma_path_folds_to_root(up, i / 2);
        let rest = path_of(up, i / 2);
        if i % 2 == 1 {
            let p = seq![(level[i - 1], true)] + rest;
            assert(p.drop_first() =~= rest);
            assert(up[i / 2] == parent_hash(level[i - 1], level[i]));
        } else if i + 1 < level.len() {
            let p = seq![(level[i + 1], false)] + rest;
            assert(p.drop_first() =~= rest);
            assert(up[i / 2] == parent_hash(level[i], level[i + 1]));
        } else {
            assert(up[i / 2] == level[i]);
        }
    }
}

/// The flags of a leaf's path are the shape asked for by its position.
pub proof fn lemma_path_shape(level: Seq<Seq<u8>>, i: int)
    requires
        0 <= i < level.len(),
    ensures
        path_of(level, i).map_values(|s: (Seq<u8>, bool)| s.1) == shape_of(level.len(), i),
    decreases level.len(),
{
    if level.len() > 1 {
        lemma_next_level_len(level);
        let up = next_level(level);
        lemma_path_shape(up, i / 2);
        let rest = path_of(up, i / 2);
        let f = |s: (Seq<u8>, bool)| s.1;
        if i % 2 == 1 {
            assert((seq![(level[i - 1], true)] + rest).map_values(f) =~= seq![true] + rest.map_values(f));
        } else if i + 1 < level.len() {
            assert((seq![(level[i + 1], false)] + rest).map_values(f) =~= seq![false] + rest.map_values(f));
        }
    } else {
        assert(path_of(level, i).map_values(|s: (Seq<u8>, bool)| s.1) =~= Seq::<bool>::empty());
    }
}

/// The hash of two nodes side by side.
fn hash_pair(left: &Hash32, right: &Hash32) -> (r: Hash32)
    ensures
        r@ == parent_hash(left@, right@),
{
    let mut buf: Vec<u8> = Vec::new();
    append_bytes(&mut buf, left);
    append_bytes(&mut buf, right);
    keccak(buf.as_slice())
}

/// Computes the level above `level`.
fn build_next_level(level: &Vec<Hash32>) -> (r: Vec<Hash32>)
    ensures
        hash_views(r@) == next_level(hash_views(level@)),
{
    let ghost lv = hash_views(level@);
    let mut out: Vec<Hash32> = Vec::new();
    let mut j: usize = 0;
    while j < level.len()
        invariant
            lv == hash_views(level@),
            j <= level.len(),
            j % 2 == 0 || j == level.len(),
            out@.len() == (j + 1) / 2,
            forall|k: int| 0 <= k < out@.len() ==> #[trigger] out@[k]@ == next_level(lv)[k],
        decreases level.len() - j,
    {
        if j + 1 < level.len() {
            let h = hash_pair(&level[j], &level[j + 1]);
            out.push(h);
            j = j + 2;
        } else {
            out.push(level[j]);
            j = j + 1;
        }
    }
    assert(hash_views(out@) =~= next_level(lv));
    out
}

/// Computes the Merkle root of an ordered list of hashes.
pub fn compute_root(hashes: &Vec<Hash32>) -> (r: Hash32)
    ensures
        r@ == merkle_root(hashes@),
{
    if hashes.len() == 0 {
        let empty: Vec<u8> = Vec::new();
        proof {
            assert(empty@ =~= Seq::<u8>::empty());
        }
        return keccak(empty.as_slice());
    }
    if hashes.len() == 1 {
        return hashes[0];
    }
    proof {
        lemma_next_level_len(hash_views(hashes@));
    }
    let mut level: Vec<Hash32> = build_next_level(hashes);
    while level.len() > 1
        invariant
            level.len() >= 1,
            root_of_level(hash_views(level@)) == merkle_root(hashes@),
        decreases level.len(),
    {
        proof {
            lemma_next_level_len(hash_views(level@));
        }
        level = build_next_level(&level);
    }
    level[0]
}

/// Copies a list of hashes.
fn copy_hashes(hashes: &Vec<Hash32>) -> (r: Vec<Hash32>)
    ensures
        r@ == hashes@,
{
    let mut out: Vec<Hash32> = Vec::new();
    let mut j: usize = 0;
    while j < hashes.len()
        invariant
            j <= hashes.len(),
            out@ == hashes@.subrange(0, j as int),
        decreases hashes.len() - j,
    {
        out.push(hashes[j]);
        j = j + 1;
        assert(out@ =~= hashes@.subrange(0, j as int));
    }
    assert(hashes@.subrange(0, j as int) =~= hashes@);
    out
}

/// Finds the first position of `h` in `hashes`.
pub fn find_hash(hashes: &Vec<Hash32>, h: &Hash32) -> (r: Option<usize>)
    ensures
        match r {
            Some(k) => first_index(hashes@, h@, k as int),
            None => !contains_hash(hashes@, h@),
        },
{
    let mut j: usize = 0;
    while j < hashes.len()
        invariant
            j <= hashes.len(),
            forall|k: int| 0 <= k < j ==> hashes@[k]@ != h@,
        decreases hashes.len() - j,
    {
        if hash_eq(&hashes[j], h) {
            return Some(j);
        }
        j = j + 1;
    }
    None
}

/// Builds the inclusion proof of `tx_hash` in the tree over `hashes`, for its
/// first occurrence; fails with `LeafNotFound` when it does not occur.
pub fn build_proof(tx_hash: &Hash32, hashes: &Vec<Hash32>) -> (r: Result<InclusionProof, ProofError>)
    ensures
        match r {
            Ok(p) => {
                &&& first_index(hashes@, tx_hash@, p.index as int)
                &&& p.leaf == *tx_hash
                &&& p.leaf_count == hashes.len()
                &&& steps_view(p.path@) == path_of(hash_views(hashes@), p.index as int)
                &&& p.root@ == merkle_root(hashes@)
                &&& well_shaped(p)
            },
            Err(e) => e == ProofError::LeafNotFound && !contains_hash(hashes@, tx_hash@),
        },
{
    let idx = match find_hash(hashes, tx_hash) {
        Some(k) => k,
        None => return Err(ProofError::LeafNotFound),
    };
    let ghost lv0 = hash_views(hashes@);
    let mut level = copy_hashes(hashes);
    let mut i: usize = idx;
    let mut path: Vec<ProofStep> = Vec::new();
    proof {
        assert(steps_view(path@) + path_of(lv0, idx as int) =~= path_of(lv0, idx as int));
    }
    while level.len() > 1
        invariant
            i < level.len(),
            path_of(lv0, idx as int) == steps_view(path@) + path_of(hash_views(level@), i as int),
            root_of_level(hash_views(level@)) == root_of_level(lv0),
        decreases level.len(),
    {
        let ghost lv = hash_views(level@);
        let ghost old_path = path@;
        proof {
            lemma_next_level_len(lv);
        }
        if i % 2 == 1 {
            path.push(ProofStep { sibling: level[i - 1], sibling_on_left: true });
        } else if i + 1 < level.len() {
            path.push(ProofStep { sibling: level[i + 1], sibling_on_left: false });
        }
        proof {
            let rest = path_of(next_level(lv), i as int / 2);
            if i % 2 == 1 || i + 1 < level.len() {
                assert(steps_view(path@) =~= steps_view(old_path).push(path_of(lv, i as int)[0]));
                assert(steps_view(old_path) + path_of(lv, i as int) =~= steps_view(path@) + rest);
            } else {
                assert(path@ == old_path);
            }
        }
        level = build_next_level(&level);
        i = i / 2;
    }
    proof {
        assert(steps_view(path@) + path_of(hash_views(level@), i as int) =~= steps_view(path@));
        lemma_path_shape(lv0, idx as int);
        assert(flags_of(path@) =~= steps_view(path@).map_values(|s: (Seq<u8>, bool)| s.1));
    }
    Ok(InclusionProof { leaf: *tx_hash, index: idx, leaf_count: hashes.len(), path, root: level[0] })
}

/// Verifies an inclusion proof against the root the verifier expects: the
/// proof holds when its path leads from its leaf to that root and it names
/// that root itself. A path that does not fit the leaf's position fails with
/// `MalformedProof`.
pub fn verify_proof(proof: &InclusionProof, expected_root: &Hash32) -> (r: Result<bool, ProofError>)
    ensures
        match r {
            Ok(b) => well_shaped(*proof) && b == (computed_root(*proof) == expected_root@
                && proof.root@ == expected_root@),
            Err(e) => e == ProofError::MalformedProof && !well_shaped(*proof),
        },
{
    if proof.index >= proof.leaf_count {
        return Err(ProofError::MalformedProof);
    }
    let ghost n0 = proof.leaf_count as nat;
    let ghost i0 = proof.index as int;
    let ghost steps = steps_view(proof.path@);
    let ghost flags = flags_of(proof.path@);
    let mut n: usize = proof.leaf_count;
    let mut i: usize = proof.index;
    let mut k: usize = 0;
    let mut acc: Hash32 = proof.leaf;
    proof {
        assert(flags.subrange(0, 0) + shape_of(n0, i0) =~= shape_of(n0, i0));
        assert(steps.subrange(0, steps.len() as int) =~= steps);
    }
    while n > 1
        invariant
            i < n,
            k <= proof.path@.len(),
            n0 == proof.leaf_count as nat,
            i0 == proof.index as int,
            steps == steps_view(proof.path@),
            flags == flags_of(proof.path@),
            shape_of(n0, i0) == flags.subrange(0, k as int) + shape_of(n as nat, i as int),
            computed_root(*proof) == fold_path(acc@, steps.subrange(k as int, steps.len() as int)),
        decreases n,
    {
        let expected: Option<bool> = if i % 2 == 1 {
            Some(true)
        } else if i + 1 < n {
            Some(false)
        } else {
            None
        };
        let ghost rest = shape_of(((n + 1) / 2) as nat, i as int / 2);
        match expected {
            Some(f) => {
                assert(shape_of(n as nat, i as int) == seq![f] + rest);
                if k >= proof.path.len() {
                    assert(shape_of(n0, i0).len() > flags.len());
                    assert(flags != shape_of(n0, i0));
                    return Err(ProofError::MalformedProof);
                }
                let step = proof.path[k];
                if step.sibling_on_left != f {
                    assert((flags.subrange(0, k as int) + shape_of(n as nat, i as int))[k as int] == f);
                    assert(flags[k as int] != f);
                    assert(flags != shape_of(n0, i0));
                    return Err(ProofError::MalformedProof);
                }
                let ghost tail = steps.subrange(k as int, steps.len() as int);
                assert(tail.drop_first() =~= steps.subrange(k + 1, steps.len() as int));
                acc = if f {
                    hash_pair(&step.sibling, &acc)
                } else {
                    hash_pair(&acc, &step.sibling)
                };
                assert(flags.subrange(0, k + 1) =~= flags.subrange(0, k as int).push(f));
                assert(flags.subrange(0, k + 1) + rest =~= flags.subrange(0, k as int) + (seq![f] + rest));
                k = k + 1;
            },
            None => {},
        }
        n = n / 2 + n % 2;
        i = i / 2;
    }
    if k != proof.path.len() {
        assert(shape_of(n0, i0).len() < flags.len());
        assert(flags != shape_of(n0, i0));
        return Err(ProofError::MalformedProof);
    }
    proof {
        assert(flags.subrange(0, k as int) + shape_of(n as nat, i as int) =~= flags);
    }
    Ok(hash_eq(&acc, expected_root) && hash_eq(&proof.root, expected_root))
}

/// A proof built for a hash of a list, as `build_proof` describes it, is well
/// shaped, its path leads from the leaf to the list's Merkle root, and it names
/// that root: so `verify_proof` accepts it against that root.
pub proof fn lemma_built_proof_verifies(hashes: Seq<Hash32>, p: InclusionProof)
    requires
        first_index(hashes, p.leaf@, p.index as int),
        p.leaf_count == hashes.len(),
        steps_view(p.path@) == path_of(hash_views(hashes), p.index as int),
        p.root@ == merkle_root(hashes),
    ensures
        well_shaped(p),
        computed_root(p) == merkle_root(hashes),
        p.root@ == merkle_root(hashes),
{
    let lv = hash_views(hashes);
    let i = p.index as int;
    lemma_path_folds_to_root(lv, i);
    lemma_path_shape(lv, i);
    assert(flags_of(p.path@) =~= steps_view(p.path@).map_values(|s: (Seq<u8>, bool)| s.1));
}

} // verus!
