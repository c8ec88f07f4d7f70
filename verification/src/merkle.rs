//! Merkle inclusion proofs over SHA-256.
//!
//! A proof is the list of sibling nodes on the way from a leaf to the root,
//! lowest level first. The verifier walks that way: at every level the parity
//! of the node's index says on which side the node stands, the node and its
//! sibling are hashed into their parent, and the index is halved. The proof
//! is valid when the walk ends at index 0 with the claimed root in hand.

use vstd::arithmetic::power2::{lemma2_to64, lemma_pow2_unfold, pow2};
use vstd::prelude::*;

verus! {

/// The SHA-256 digest of the given byte strings, taken one after the other,
/// as `solana_program::hash::hashv` computes it.
pub uninterp spec fn sha256_hashv(parts: Seq<Seq<u8>>) -> Seq<u8>;

/// Hashes two nodes into their parent: `solana_program::hash::hashv`, reached
/// through `anchor_lang`, on the slice `[left, right]`, and `Hash::to_bytes`
/// on what it returns. Believed and not proved: the 32 bytes that come back
/// depend on the two byte strings and their order alone, and are what
/// `sha256_hashv` names for them.
#[verifier::external_body]
fn hash_pair(left: &[u8], right: &[u8]) -> (digest: [u8; 32])
    ensures
        digest@ == sha256_hashv(seq![left@, right@]),
{
    anchor_lang::solana_program::hash::hashv(&[left, right]).to_bytes()
}

/// The byte strings that are hashed into the parent of `node`: `node` comes
/// first where it is a left child, which is where `index` is even.
pub open spec fn parent_input(node: Seq<u8>, index: nat, sibling: Seq<u8>) -> Seq<Seq<u8>> {
    if index % 2 == 0 {
        seq![node, sibling]
    } else {
        seq![sibling, node]
    }
}

/// The parent of `node`, which stands at `index` in its level beside
/// `sibling`.
pub open spec fn parent_node(node: Seq<u8>, index: nat, sibling: Seq<u8>) -> Seq<u8> {
    sha256_hashv(parent_input(node, index, sibling))
}

/// The root that the walk from `node` at `index` along `siblings` arrives at.
/// There is none where `index` does not fit a tree as deep as `siblings` is
/// long, that is where `index >= 2^siblings.len()`.
pub open spec fn merkle_root_from(node: Seq<u8>, index: nat, siblings: Seq<Seq<u8>>) -> Option<
    Seq<u8>,
>
    decreases siblings.len(),
{
    if siblings.len() == 0 {
        if index == 0 {
            Some(node)
        } else {
            None
        }
    } else {
        merkle_root_from(
            parent_node(node, index, siblings[0]),
            index / 2,
            siblings.drop_first(),
        )
    }
}

/// Whether `siblings` proves that `leaf` stands at `index` in the tree with
/// the given root.
pub open spec fn merkle_proof_valid(
    root: Seq<u8>,
    leaf: Seq<u8>,
    index: nat,
    siblings: Seq<Seq<u8>>,
) -> bool {
    merkle_root_from(leaf, index, siblings) == Some(root)
}

/// The proof steps as byte strings.
pub open spec fn proof_steps(steps: Seq<[u8; 32]>) -> Seq<Seq<u8>> {
    steps.map_values(|step: [u8; 32]| step@)
}

/// Whether two byte strings are the same.
pub fn bytes_equal(a: &[u8], b: &[u8]) -> (same: bool)
    ensures
        same == (a@ == b@),
{
    if a.len() != b.len() {
        return false;
    }
    let mut i: usize = 0;
    while i < a.len()
        invariant
            a.len() == b.len(),
            i <= a.len(),
            forall|k: int| 0 <= k < i ==> a@[k] == b@[k],
        decreases a.len() - i,
    {
        if a[i] != b[i] {
            return false;
        }
        i += 1;
    }
    assert(a@ =~= b@);
    true
}

fn hash_parent(node: &[u8], index: u32, sibling: &[u8; 32]) -> (parent: [u8; 32])
    ensures
        parent@ == parent_node(node@, index as nat, sibling@),
{
    if index % 2 == 0 {
        hash_pair(node, sibling)
    } else {
        hash_pair(sibling, node)
    }
}

/// Checks a Merkle inclusion proof: recomputes the root from `leaf`, which is
/// taken as the node at `leaf_index` of the lowest level, and the sibling
/// nodes in `proof`, and compares it with `root` byte for byte. A proof too
/// short for `leaf_index` is invalid. An empty proof is valid just when
/// `leaf_index` is 0 and `leaf` is `root` itself.
pub fn verify_merkle_proof(
    root: &[u8; 32],
    leaf: &[u8],
    leaf_index: u32,
    proof: &[[u8; 32]],
) -> (valid: bool)
    ensures
        valid == merkle_proof_valid(root@, leaf@, leaf_index as nat, proof_steps(proof@)),
{
    let ghost steps = proof_steps(proof@);
    let depth = proof.len();
    if depth == 0 {
        return leaf_index == 0 && bytes_equal(leaf, root);
    }
    let mut node: [u8; 32] = hash_parent(leaf, leaf_index, &proof[0]);
    let mut index: u32 = leaf_index / 2;
    let mut level: usize = 1;
    while level < depth
        invariant
            depth == proof.len(),
            steps == proof_steps(proof@),
            1 <= level <= depth,
            merkle_root_from(leaf@, leaf_index as nat, steps) == merkle_root_from(
                node@,
                index as nat,
                steps.skip(level as int),
            ),
        decreases depth - level,
    {
        assert(steps.skip(level as int).drop_first() =~= steps.skip(level + 1));
        node = hash_parent(&node, index, &proof[level]);
        index = index / 2;
        level += 1;
    }
    index == 0 && bytes_equal(&node, root)
}

/// A proof fits its index: the walk arrives at a root exactly when the index
/// lies in a tree as deep as the proof is long.
pub proof fn lemma_root_exists_iff_index_fits(node: Seq<u8>, index: nat, siblings: Seq<Seq<u8>>)
    ensures
        merkle_root_from(node, index, siblings) is Some <==> index < pow2(siblings.len()),
    decreases siblings.len(),
{
    if siblings.len() == 0 {
        lemma2_to64();
    } else {
        lemma_pow2_unfold(siblings.len());
        lemma_root_exists_iff_index_fits(
            parent_node(node, index, siblings[0]),
            index / 2,
            siblings.drop_first(),
        );
    }
}

/// A proof that verifies against one root fails against every other root.
pub proof fn lemma_proof_binds_root(
    root: Seq<u8>,
    other: Seq<u8>,
    leaf: Seq<u8>,
    index: nat,
    siblings: Seq<Seq<u8>>,
)
    requires
        merkle_proof_valid(root, leaf, index, siblings),
        other != root,
    ensures
        !merkle_proof_valid(other, leaf, index, siblings),
{
}

/// The level above `nodes` in a complete binary tree: its node `k` is the
/// parent of the nodes `2k` and `2k + 1`.
pub open spec fn level_above(nodes: Seq<Seq<u8>>) -> Seq<Seq<u8>> {
    Seq::new(nodes.len() / 2, |k: int| sha256_hashv(seq![nodes[2 * k], nodes[2 * k + 1]]))
}

/// The root of the complete binary tree of the given depth whose lowest
/// level is `nodes`, a level of `2^depth` nodes.
pub open spec fn tree_root(nodes: Seq<Seq<u8>>, depth: nat) -> Seq<u8>
    decreases depth,
{
    if depth == 0 {
        nodes[0]
    } else {
        tree_root(level_above(nodes), (depth - 1) as nat)
    }
}

/// The index of the node that shares its parent with the node at `index`.
pub open spec fn sibling_index(index: nat) -> nat {
    if index % 2 == 0 {
        index + 1
    } else {
        (index - 1) as nat
    }
}

/// The inclusion proof for the node at `index` of the lowest level of that
/// tree: its sibling, then the proof for its parent in the level above.
pub open spec fn tree_proof(nodes: Seq<Seq<u8>>, depth: nat, index: nat) -> Seq<Seq<u8>>
    decreases depth,
{
    if depth == 0 {
        Seq::empty()
    } else {
        seq![nodes[sibling_index(index) as int]] + tree_proof(
            level_above(nodes),
            (depth - 1) as nat,
            index / 2,
        )
    }
}

/// Every leaf of a tree has a proof that verifies against the tree's root:
/// the one made of the siblings on its way up.
pub proof fn lemma_tree_proof_verifies(leaves: Seq<Seq<u8>>, depth: nat, index: nat)
    requires
        leaves.len() == pow2(depth),
        index < leaves.len(),
    ensures
        tree_proof(leaves, depth, index).len() == depth,
        merkle_proof_valid(
            tree_root(leaves, depth),
            leaves[index as int],
            index,
            tree_proof(leaves, depth, index),
        ),
    decreases depth,
{
    if depth == 0 {
        lemma2_to64();
    } else {
        lemma_pow2_unfold(depth);
        let above = level_above(leaves);
        let siblings = tree_proof(leaves, depth, index);
        let rest = tree_proof(above, (depth - 1) as nat, index / 2);
        lemma_tree_proof_verifies(above, (depth - 1) as nat, index / 2);
        assert(siblings.drop_first() =~= rest);
    }
}

/// Whether, on the walks from `node_a` along `steps_a` and from `node_b`
/// along `steps_b`, both at `index`, SHA-256 gives one digest for two
/// different inputs at some level.
pub open spec fn collides_on_path(
    node_a: Seq<u8>,
    steps_a: Seq<Seq<u8>>,
    node_b: Seq<u8>,
    steps_b: Seq<Seq<u8>>,
    index: nat,
) -> bool
    decreases steps_a.len(),
{
    if steps_a.len() == 0 || steps_b.len() == 0 {
        false
    } else {
        let input_a = parent_input(node_a, index, steps_a[0]);
        let input_b = parent_input(node_b, index, steps_b[0]);
        (input_a != input_b && sha256_hashv(input_a) == sha256_hashv(input_b)) || collides_on_path(
            sha256_hashv(input_a),
            steps_a.drop_first(),
            sha256_hashv(input_b),
            steps_b.drop_first(),
            index / 2,
        )
    }
}

/// Two walks of one length and from one index that differ in their starting
/// node or in any sibling arrive at different roots, unless SHA-256 collides
/// on the way.
pub proof fn lemma_changed_proof_changes_root(
    node_a: Seq<u8>,
    steps_a: Seq<Seq<u8>>,
    node_b: Seq<u8>,
    steps_b: Seq<Seq<u8>>,
    index: nat,
)
    requires
        steps_a.len() == steps_b.len(),
        node_a != node_b || steps_a != steps_b,
        !collides_on_path(node_a, steps_a, node_b, steps_b, index),
    ensures
        merkle_root_from(node_a, index, steps_a) is Some ==> merkle_root_from(
            node_a,
            index,
            steps_a,
        ) != merkle_root_from(node_b, index, steps_b),
    decreases steps_a.len(),
{
    if steps_a.len() == 0 {
        assert(steps_a =~= steps_b);
    } else {
        let input_a = parent_input(node_a, index, steps_a[0]);
        let input_b = parent_input(node_b, index, steps_b[0]);
        if input_a == input_b {
            if steps_a.drop_first() == steps_b.drop_first() {
                assert(steps_a =~= seq![steps_a[0]] + steps_a.drop_first());
                assert(steps_b =~= seq![steps_b[0]] + steps_b.drop_first());
            }
        }
        lemma_changed_proof_changes_root(
            sha256_hashv(input_a),
            steps_a.drop_first(),
            sha256_hashv(input_b),
            steps_b.drop_first(),
            index / 2,
        );
    }
}

/// A proof in which a step was changed no longer verifies for the leaf, the
/// index and the root for which it was made, unless SHA-256 collides on the
/// way.
pub proof fn lemma_tampered_proof_fails(
    root: Seq<u8>,
    leaf: Seq<u8>,
    index: nat,
    siblings: Seq<Seq<u8>>,
    tampered: Seq<Seq<u8>>,
)
    requires
        merkle_proof_valid(root, leaf, index, siblings),
        tampered.len() == siblings.len(),
        tampered != siblings,
        !collides_on_path(leaf, siblings, leaf, tampered, index),
    ensures
        !merkle_proof_valid(root, leaf, index, tampered),
{
    lemma_changed_proof_changes_root(leaf, siblings, leaf, tampered, index);
}

} // verus!
