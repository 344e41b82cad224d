use merkle_tree_lib::compute_leaf_hash;
use merkle_tree_lib::hash_pair;
use merkle_tree_lib::verify_merkle_path;

#[test]
fn test_hash_pair() {
    let left = [1u8; 32];
    let right = [2u8; 32];
    let result = hash_pair(left, right);

    // The result should be deterministic
    let result2 = hash_pair(left, right);
    assert_eq!(result, result2);

    // Different order should give different result
    let result3 = hash_pair(right, left);
    assert_ne!(result, result3);
}

#[test]
fn test_simple_merkle_path() {
    // Create a simple 2-level tree
    let leaf1 = compute_leaf_hash(b"data1");
    let leaf2 = compute_leaf_hash(b"data2");
    let root = hash_pair(leaf1, leaf2);

    // Verify path for leaf1 (left child)
    let proof = vec![leaf2];
    let indices = vec![false]; // leaf1 is left child, so leaf2 goes on right
    assert!(verify_merkle_path(leaf1, root, &proof, &indices));

    // Verify path for leaf2 (right child)
    let proof = vec![leaf1];
    let indices = vec![true]; // leaf2 is right child, so leaf1 goes on left
    assert!(verify_merkle_path(leaf2, root, &proof, &indices));

    // Invalid proof should fail
    let wrong_proof = vec![leaf1];
    let wrong_indices = vec![false];
    assert!(!verify_merkle_path(
        leaf1,
        root,
        &wrong_proof,
        &wrong_indices
    ));
}

#[test]
fn test_three_level_merkle_tree() {
    // Create a 3-level tree with 4 leaves
    let leaf1 = compute_leaf_hash(b"data1");
    let leaf2 = compute_leaf_hash(b"data2");
    let leaf3 = compute_leaf_hash(b"data3");
    let leaf4 = compute_leaf_hash(b"data4");

    let node1 = hash_pair(leaf1, leaf2);
    let node2 = hash_pair(leaf3, leaf4);
    let root = hash_pair(node1, node2);

    // Verify path for leaf1 (left-left position)
    let proof = vec![leaf2, node2];
    let indices = vec![false, false]; // both times current goes left
    assert!(verify_merkle_path(leaf1, root, &proof, &indices));

    // Verify path for leaf4 (right-right position)
    let proof = vec![leaf3, node1];
    let indices = vec![true, true]; // both times current goes right
    assert!(verify_merkle_path(leaf4, root, &proof, &indices));
}
