use anchor_lang::solana_program::hash::hashv;
use zk_cpop_program::merkle::{bytes_equal, verify_merkle_proof};

const ROOT_OF_FOUR: [u8; 32] = [
    191, 53, 180, 164, 217, 159, 72, 111, 194, 232, 81, 45, 113, 212, 47, 81, 128, 9, 93, 251, 249,
    156, 212, 159, 27, 14, 111, 80, 63, 217, 255, 193,
];
const LEFT_OF_FOUR: [u8; 32] = [
    21, 91, 133, 103, 204, 97, 143, 172, 176, 123, 80, 136, 81, 73, 18, 84, 151, 64, 225, 140, 133,
    234, 33, 251, 222, 50, 87, 24, 128, 214, 78, 127,
];
const RIGHT_OF_FOUR: [u8; 32] = [
    63, 5, 122, 177, 7, 74, 16, 117, 72, 161, 134, 175, 236, 27, 58, 1, 108, 10, 151, 190, 235, 43,
    31, 173, 84, 84, 107, 168, 251, 155, 21, 109,
];
const HELLO_THEN_ONES: [u8; 32] = [
    196, 97, 192, 235, 189, 13, 2, 118, 4, 178, 111, 235, 130, 128, 200, 92, 109, 69, 149, 113,
    176, 199, 11, 53, 127, 200, 12, 45, 249, 1, 176, 23,
];

fn leaf_key(tag: u8) -> [u8; 32] {
    let mut key = [0u8; 32];
    key[0] = tag;
    key[31] = 0xA0 + tag;
    key
}

fn node_of(left: &[u8], right: &[u8]) -> [u8; 32] {
    hashv(&[left, right]).to_bytes()
}

fn levels_of(leaves: &[[u8; 32]]) -> Vec<Vec<[u8; 32]>> {
    let mut levels = vec![leaves.to_vec()];
    while levels[levels.len() - 1].len() > 1 {
        let below = &levels[levels.len() - 1];
        let mut above = Vec::new();
        let mut k = 0;
        while k < below.len() {
            above.push(node_of(&below[k], &below[k + 1]));
            k += 2;
        }
        levels.push(above);
    }
    levels
}

fn proof_of(levels: &[Vec<[u8; 32]>], index: usize) -> Vec<[u8; 32]> {
    let mut steps = Vec::new();
    let mut at = index;
    for level in &levels[..levels.len() - 1] {
        steps.push(level[at ^ 1]);
        at /= 2;
    }
    steps
}

#[test]
fn merkle_known_root_of_four_leaves() {
    let leaves = [leaf_key(0), leaf_key(1), leaf_key(2), leaf_key(3)];
    assert!(verify_merkle_proof(&ROOT_OF_FOUR, &leaves[0], 0, &[leaves[1], RIGHT_OF_FOUR]));
    assert!(verify_merkle_proof(&ROOT_OF_FOUR, &leaves[1], 1, &[leaves[0], RIGHT_OF_FOUR]));
    assert!(verify_merkle_proof(&ROOT_OF_FOUR, &leaves[2], 2, &[leaves[3], LEFT_OF_FOUR]));
    assert!(verify_merkle_proof(&ROOT_OF_FOUR, &leaves[3], 3, &[leaves[2], LEFT_OF_FOUR]));
}

#[test]
fn merkle_one_level_hashes_node_then_sibling() {
    assert!(verify_merkle_proof(&HELLO_THEN_ONES, b"hello", 0, &[[1u8; 32]]));
    assert!(!verify_merkle_proof(&HELLO_THEN_ONES, b"hello", 1, &[[1u8; 32]]));
    let swapped = node_of(&[1u8; 32], b"hello");
    assert!(verify_merkle_proof(&swapped, b"hello", 1, &[[1u8; 32]]));
    assert!(!verify_merkle_proof(&swapped, b"hello", 0, &[[1u8; 32]]));
}

#[test]
fn merkle_index_order_matters() {
    let leaves = [leaf_key(0), leaf_key(1), leaf_key(2), leaf_key(3)];
    assert!(!verify_merkle_proof(&ROOT_OF_FOUR, &leaves[2], 3, &[leaves[3], LEFT_OF_FOUR]));
    assert!(!verify_merkle_proof(&ROOT_OF_FOUR, &leaves[2], 0, &[leaves[3], LEFT_OF_FOUR]));
    assert!(!verify_merkle_proof(&ROOT_OF_FOUR, &leaves[2], 2, &[LEFT_OF_FOUR, leaves[3]]));
}

#[test]
fn merkle_empty_proof_needs_leaf_equal_root_at_index_zero() {
    let root = leaf_key(9);
    assert!(verify_merkle_proof(&root, &root, 0, &[]));
    assert!(!verify_merkle_proof(&root, &leaf_key(8), 0, &[]));
    assert!(!verify_merkle_proof(&root, &root, 1, &[]));
    assert!(!verify_merkle_proof(&root, &root[..31], 0, &[]));
    assert!(!verify_merkle_proof(&root, &[], 0, &[]));
}

#[test]
fn merkle_every_leaf_of_a_tree_has_a_proof() {
    let leaves: Vec<[u8; 32]> = (0u8..8).map(leaf_key).collect();
    let levels = levels_of(&leaves);
    let root = levels[3][0];
    for index in 0..8usize {
        let proof = proof_of(&levels, index);
        assert_eq!(proof.len(), 3);
        assert!(verify_merkle_proof(&root, &leaves[index], index as u32, &proof));
    }
}

#[test]
fn merkle_proof_fails_against_another_root() {
    let leaves: Vec<[u8; 32]> = (0u8..8).map(leaf_key).collect();
    let levels = levels_of(&leaves);
    let root = levels[3][0];
    let proof = proof_of(&levels, 5);
    for byte in 0..32usize {
        let mut other = root;
        other[byte] ^= 1;
        assert!(!verify_merkle_proof(&other, &leaves[5], 5, &proof));
    }
    assert!(!verify_merkle_proof(&[0u8; 32], &leaves[5], 5, &proof));
}

#[test]
fn merkle_proof_fails_when_any_step_byte_is_flipped() {
    let leaves: Vec<[u8; 32]> = (0u8..8).map(leaf_key).collect();
    let levels = levels_of(&leaves);
    let root = levels[3][0];
    let proof = proof_of(&levels, 5);
    for step in 0..proof.len() {
        for byte in 0..32usize {
            for bit in 0..8u8 {
                let mut tampered = proof.clone();
                tampered[step][byte] ^= 1 << bit;
                assert!(!verify_merkle_proof(&root, &leaves[5], 5, &tampered));
            }
        }
    }
}

#[test]
fn merkle_proof_fails_for_another_leaf() {
    let leaves: Vec<[u8; 32]> = (0u8..8).map(leaf_key).collect();
    let levels = levels_of(&leaves);
    let root = levels[3][0];
    let proof = proof_of(&levels, 5);
    assert!(!verify_merkle_proof(&root, &leaves[4], 5, &proof));
    assert!(!verify_merkle_proof(&root, &leaves[5][..31], 5, &proof));
}

#[test]
fn merkle_proof_of_wrong_length_is_invalid() {
    let leaves: Vec<[u8; 32]> = (0u8..8).map(leaf_key).collect();
    let levels = levels_of(&leaves);
    let root = levels[3][0];
    let proof = proof_of(&levels, 5);
    assert!(!verify_merkle_proof(&root, &leaves[5], 5, &proof[..2]));
    assert!(!verify_merkle_proof(&root, &leaves[5], 5, &[]));
    let mut longer = proof.clone();
    longer.push([0u8; 32]);
    assert!(!verify_merkle_proof(&root, &leaves[5], 5, &longer));
}

#[test]
fn merkle_index_beyond_the_depth_is_invalid() {
    let leaves = [leaf_key(0), leaf_key(1), leaf_key(2), leaf_key(3)];
    let proof = [leaves[3], LEFT_OF_FOUR];
    assert!(verify_merkle_proof(&ROOT_OF_FOUR, &leaves[2], 2, &proof));
    assert!(!verify_merkle_proof(&ROOT_OF_FOUR, &leaves[2], 6, &proof));
    assert!(!verify_merkle_proof(&ROOT_OF_FOUR, &leaves[2], 2 + (1 << 31), &proof));
    assert!(!verify_merkle_proof(&ROOT_OF_FOUR, &leaves[2], u32::MAX, &proof));
}

#[test]
fn merkle_deep_proof_takes_every_index() {
    let mut node = leaf_key(1);
    let mut proof = Vec::new();
    for level in 0..40u8 {
        let sibling = [level; 32];
        proof.push(sibling);
        node = if level < 32 { node_of(&sibling, &node) } else { node_of(&node, &sibling) };
    }
    assert!(verify_merkle_proof(&node, &leaf_key(1), u32::MAX, &proof));
    assert!(!verify_merkle_proof(&node, &leaf_key(1), u32::MAX - 1, &proof));
}

#[test]
fn bytes_equal_compares_length_and_content() {
    assert!(bytes_equal(&[], &[]));
    assert!(bytes_equal(&[1, 2, 3], &[1, 2, 3]));
    assert!(!bytes_equal(&[1, 2, 3], &[1, 2, 4]));
    assert!(!bytes_equal(&[1, 2, 3], &[1, 2]));
    assert!(!bytes_equal(&[1, 2], &[1, 2, 3]));
    assert!(!bytes_equal(&[0], &[]));
}
