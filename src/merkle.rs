//! Checking an inclusion path of a Merkle sum tree, whose nodes carry a hash
//! and the sum of the balances below them.
//!
//! Node hashing is left to the caller: it hashes the ordered pair of children
//! that [`children_at`] names at each level, and hands the hashes of the path
//! to [`verify_proof`], which checks the path's shape, its balances and its
//! root.
use crate::field::{encode, le_value, reduce, Fp};
use vstd::prelude::*;

verus! {

/// The leaf being proven: an identity and one balance, each as the
/// little-endian bytes of a non-negative integer.
#[derive(Clone, Debug)]
pub struct MerkleEntry {
    pub identity: Vec<u8>,
    pub balance: Vec<u8>,
}

/// A node of the tree: a hash and the sum of the balances below it.
#[derive(Clone, Copy, Debug)]
pub struct Node {
    pub hash: Fp,
    pub balance: Fp,
}

/// A claimed inclusion path: per level, the sibling's hash and balance and
/// the side of the proven node (`0`: left child, `1`: right child).
#[derive(Clone, Debug)]
pub struct MerkleProof {
    pub entry: MerkleEntry,
    pub root_hash: Fp,
    pub sibling_hashes: Vec<Fp>,
    pub sibling_sums: Vec<Fp>,
    pub path_indices: Vec<Fp>,
}

/// Number of levels of the path.
pub open spec fn depth(p: MerkleProof) -> nat {
    p.sibling_hashes@.len()
}

/// The three sequences agree in length, each side indicator is 0 or 1, and the
/// leaf balance fits the field encoding.
pub open spec fn well_shaped(p: MerkleProof) -> bool {
    &&& p.sibling_sums@.len() == depth(p)
    &&& p.path_indices@.len() == depth(p)
    &&& p.entry.balance@.len() <= 64
    &&& forall|i: int| 0 <= i < depth(p) ==> #[trigger] p.path_indices@[i].value() <= 1
}

/// The running balance after `i` levels: the leaf balance plus the first `i`
/// sibling sums, in the field.
pub open spec fn balance_at(p: MerkleProof, i: nat) -> nat
    decreases i,
{
    if i == 0 {
        reduce(le_value(p.entry.balance@) as int)
    } else {
        reduce(balance_at(p, (i - 1) as nat) + p.sibling_sums@[i - 1].value() as int)
    }
}

/// The balance of the proven node's ancestor after `i` levels, built as
/// left child's balance plus right child's balance.
pub open spec fn node_balance_at(p: MerkleProof, i: nat) -> nat
    decreases i,
{
    if i == 0 {
        reduce(le_value(p.entry.balance@) as int)
    } else if p.path_indices@[i - 1].value() == 0 {
        reduce(node_balance_at(p, (i - 1) as nat) + p.sibling_sums@[i - 1].value() as int)
    } else {
        reduce(p.sibling_sums@[i - 1].value() + node_balance_at(p, (i - 1) as nat) as int)
    }
}

/// The hash of the proven node's ancestor after `i` levels, as the caller's
/// hasher gave it.
pub open spec fn hash_at(leaf_hash: Fp, parent_hashes: Seq<Fp>, i: nat) -> nat {
    if i == 0 {
        leaf_hash.value()
    } else {
        parent_hashes[i - 1].value()
    }
}

/// The path is well shaped, there is one parent hash per level, the top hash
/// is the root, and the running balance is the top node's balance.
pub open spec fn path_verifies(p: MerkleProof, leaf_hash: Fp, parent_hashes: Seq<Fp>) -> bool {
    &&& well_shaped(p)
    &&& parent_hashes.len() == depth(p)
    &&& hash_at(leaf_hash, parent_hashes, depth(p)) == p.root_hash.value()
    &&& balance_at(p, depth(p)) == node_balance_at(p, depth(p))
}

/// Summing children and accumulating sibling sums agree at every level: the
/// balance carried up a path is the balance of the node it reaches.
pub proof fn lemma_balance_conserved(p: MerkleProof, i: nat)
    requires
        well_shaped(p),
        i <= depth(p),
    ensures
        balance_at(p, i) == node_balance_at(p, i),
    decreases i,
{
    if i > 0 {
        lemma_balance_conserved(p, (i - 1) as nat);
    }
}

/// Whether the path is well shaped: equal lengths, each side indicator 0 or
/// 1, and a leaf balance of at most 64 bytes.
pub fn check_shape(proof: &MerkleProof) -> (r: bool)
    ensures
        r == well_shaped(*proof),
{
    let n = proof.sibling_hashes.len();
    if proof.sibling_sums.len() != n || proof.path_indices.len() != n || proof.entry.balance.len() > 64 {
        return false;
    }
    let zero = Fp::zero();
    let one = Fp::one();
    let mut i: usize = 0;
    while i < n
        invariant
            n == depth(*proof),
            proof.path_indices@.len() == n,
            zero.value() == 0,
            one.value() == 1,
            i <= n,
            forall|j: int| 0 <= j < i ==> #[trigger] proof.path_indices@[j].value() <= 1,
        decreases n - i,
    {
        let side = proof.path_indices[i];
        if !side.equals(&zero) && !side.equals(&one) {
            proof {
                assert(proof.path_indices@[i as int].value() > 1);
            }
            return false;
        }
        i = i + 1;
    }
    true
}

/// Checks a claimed path. `leaf_hash` is the hash of the entry's leaf, and
/// `parent_hashes[i]` the hash of the pair that [`children_at`] names at level
/// `i`. Malformed input gives `false`.
pub fn verify_proof(proof: &MerkleProof, leaf_hash: &Fp, parent_hashes: &Vec<Fp>) -> (r: bool)
    ensures
        r == path_verifies(*proof, *leaf_hash, parent_hashes@),
{
    let n = proof.sibling_hashes.len();
    if !check_shape(proof) || parent_hashes.len() != n {
        return false;
    }
    let zero = Fp::zero();
    let mut node_hash: Fp = *leaf_hash;
    let mut node_balance: Fp = encode(&proof.entry.balance);
    let mut balance: Fp = node_balance;
    let mut i: usize = 0;
    while i < n
        invariant
            n == depth(*proof),
            proof.sibling_sums@.len() == n,
            proof.path_indices@.len() == n,
            parent_hashes@.len() == n,
            proof.entry.balance@.len() <= 64,
            well_shaped(*proof),
            zero.value() == 0,
            i <= n,
            node_hash.value() == hash_at(*leaf_hash, parent_hashes@, i as nat),
            node_balance.value() == node_balance_at(*proof, i as nat),
            balance.value() == balance_at(*proof, i as nat),
        decreases n - i,
    {
        let side = proof.path_indices[i];
        let sibling = Node { hash: proof.sibling_hashes[i], balance: proof.sibling_sums[i] };
        if side.equals(&zero) {
            node_balance = node_balance.add(&sibling.balance);
        } else {
            node_balance = sibling.balance.add(&node_balance);
        }
        node_hash = parent_hashes[i];
        balance = balance.add(&sibling.balance);
        i = i + 1;
    }
    let r = proof.root_hash.equals(&node_hash) && balance.equals(&node_balance);
    proof {
        lemma_balance_conserved(*proof, n as nat);
    }
    r
}

/// The ordered pair of children whose hash is the parent at `level`: the
/// ancestor of the proven node reached so far and the sibling at that level,
/// the ancestor on the left where the side indicator is 0.
pub fn children_at(proof: &MerkleProof, leaf_hash: &Fp, parent_hashes: &Vec<Fp>, level: usize) -> (r:
    (Node, Node))
    requires
        well_shaped(*proof),
        level < depth(*proof),
        level <= parent_hashes@.len(),
    ensures
        ({
            let (current, sibling) = if proof.path_indices@[level as int].value() == 0 {
                (r.0, r.1)
            } else {
                (r.1, r.0)
            };
            &&& current.hash.value() == hash_at(*leaf_hash, parent_hashes@, level as nat)
            &&& current.balance.value() == balance_at(*proof, level as nat)
            &&& sibling.hash.value() == proof.sibling_hashes@[level as int].value()
            &&& sibling.balance.value() == proof.sibling_sums@[level as int].value()
        }),
{
    let zero = Fp::zero();
    let mut balance: Fp = encode(&proof.entry.balance);
    let mut i: usize = 0;
    while i < level
        invariant
            well_shaped(*proof),
            level < depth(*proof),
            i <= level,
            balance.value() == balance_at(*proof, i as nat),
        decreases level - i,
    {
        balance = balance.add(&proof.sibling_sums[i]);
        i = i + 1;
    }
    let hash: Fp = if level == 0 {
        *leaf_hash
    } else {
        parent_hashes[level - 1]
    };
    let current = Node { hash, balance };
    let sibling = Node { hash: proof.sibling_hashes[level], balance: proof.sibling_sums[level] };
    if proof.path_indices[level].equals(&zero) {
        (current, sibling)
    } else {
        (sibling, current)
    }
}

} // verus!
