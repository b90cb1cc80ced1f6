use cross_chain_merkle_proof::api::{
    handle_add_root, handle_create_merkle_tree, handle_verify_proof, State, REGISTERED_ROOT_ID,
};
use cross_chain_merkle_proof::blockchain::Blockchain;
use cross_chain_merkle_proof::error::MerkleError;
use cross_chain_merkle_proof::inclusion::{ProofStep, Side};
use cross_chain_merkle_proof::merkle_tree::MerkleTree;

fn three_leaves() -> Vec<Vec<u8>> {
    vec![vec![0u8; 32], vec![1u8; 32], vec![2u8; 32]]
}

#[test]
fn state_starts_empty() {
    let state = State::new();
    assert!(state.blockchain.known_roots.is_empty());
    assert!(state.merkle_tree.is_none());
}

#[test]
fn create_request_keeps_the_tree_and_answers_its_root() {
    let mut state = State::new();
    let root = handle_create_merkle_tree(three_leaves(), &mut state).unwrap();
    assert_eq!(root, MerkleTree::new(three_leaves()).unwrap().root_hash());
    let kept = state.merkle_tree.as_ref().unwrap();
    assert_eq!(kept.leaves(), &three_leaves());
    assert_eq!(kept.root_hash(), root);
    assert!(state.blockchain.known_roots.is_empty());
}

#[test]
fn create_request_replaces_the_tree() {
    let mut state = State::new();
    handle_create_merkle_tree(three_leaves(), &mut state).unwrap();
    let second = vec![b"x".to_vec()];
    let root = handle_create_merkle_tree(second.clone(), &mut state).unwrap();
    assert_eq!(state.merkle_tree.as_ref().unwrap().leaves(), &second);
    assert_eq!(state.merkle_tree.as_ref().unwrap().root_hash(), root);
}

#[test]
fn create_request_over_no_leaves_is_refused() {
    let mut state = State::new();
    assert_eq!(
        handle_create_merkle_tree(Vec::new(), &mut state),
        Err(MerkleError::EmptyInput)
    );
    assert!(state.merkle_tree.is_none());

    handle_create_merkle_tree(three_leaves(), &mut state).unwrap();
    assert_eq!(
        handle_create_merkle_tree(Vec::new(), &mut state),
        Err(MerkleError::EmptyInput)
    );
    assert_eq!(state.merkle_tree.as_ref().unwrap().leaves(), &three_leaves());
}

#[test]
fn add_root_request_registers_under_the_service_identifier() {
    assert_eq!(REGISTERED_ROOT_ID, 1);
    let mut state = State::new();
    assert!(handle_add_root(vec![7u8; 32], &mut state));
    assert_eq!(state.blockchain.known_roots.len(), 1);
    assert_eq!(state.blockchain.known_roots.get(&1), Some(&vec![7u8; 32]));
    assert!(state.merkle_tree.is_none());
}

#[test]
fn add_root_request_replaces_the_earlier_root() {
    let mut state = State::new();
    assert!(handle_add_root(vec![7u8; 32], &mut state));
    assert!(handle_add_root(vec![8u8; 32], &mut state));
    assert_eq!(state.blockchain.known_roots.len(), 1);
    assert_eq!(state.blockchain.known_roots.get(&1), Some(&vec![8u8; 32]));
}

#[test]
fn add_root_request_refuses_what_is_no_digest() {
    let mut state = State::new();
    assert!(!handle_add_root(vec![7u8; 31], &mut state));
    assert!(!handle_add_root(vec![7u8; 33], &mut state));
    assert!(!handle_add_root(Vec::new(), &mut state));
    assert!(state.blockchain.known_roots.is_empty());
    assert!(handle_add_root(vec![7u8; 32], &mut state));
    assert!(!handle_add_root(vec![9u8; 64], &mut state));
    assert_eq!(state.blockchain.known_roots.get(&1), Some(&vec![7u8; 32]));
}

#[test]
fn verify_request_gives_the_registry_verdict() {
    let mut state = State::new();
    let leaves = three_leaves();
    let root = handle_create_merkle_tree(leaves.clone(), &mut state).unwrap();
    let proof = state.merkle_tree.as_ref().unwrap().generate_proof(1).unwrap();
    assert_eq!(handle_verify_proof(proof.clone(), leaves[1].clone(), &state), Some(false));
    assert!(handle_add_root(root, &mut state));
    assert_eq!(handle_verify_proof(proof.clone(), leaves[1].clone(), &state), Some(true));
    assert_eq!(handle_verify_proof(proof, leaves[0].clone(), &state), Some(false));
}

#[test]
fn verify_request_refuses_a_malformed_proof() {
    let mut state = State::new();
    let leaves = three_leaves();
    let root = handle_create_merkle_tree(leaves.clone(), &mut state).unwrap();
    assert!(handle_add_root(root, &mut state));
    let mut proof = state.merkle_tree.as_ref().unwrap().generate_proof(1).unwrap();
    proof[1].sibling.push(0);
    assert_eq!(handle_verify_proof(proof, leaves[1].clone(), &state), None);
    let stub = vec![ProofStep { sibling: Vec::new(), side: Side::Left }];
    assert_eq!(handle_verify_proof(stub, leaves[1].clone(), &state), None);
}

#[test]
fn verify_request_with_an_empty_proof() {
    let mut state = State::new();
    let root = handle_create_merkle_tree(vec![b"only".to_vec()], &mut state).unwrap();
    assert!(handle_add_root(root, &mut state));
    assert_eq!(handle_verify_proof(Vec::new(), b"only".to_vec(), &state), Some(true));
    assert_eq!(handle_verify_proof(Vec::new(), b"else".to_vec(), &state), Some(false));
}

#[test]
fn is_known_root_looks_at_every_identifier() {
    let mut chain = Blockchain::new();
    assert!(!chain.is_known_root(&[1u8; 32]));
    chain.add_root(4, vec![1u8; 32]);
    chain.add_root(9, vec![2u8; 32]);
    chain.add_root(2, vec![3u8; 32]);
    assert!(chain.is_known_root(&[1u8; 32]));
    assert!(chain.is_known_root(&[2u8; 32]));
    assert!(chain.is_known_root(&[3u8; 32]));
    assert!(!chain.is_known_root(&[4u8; 32]));
    assert!(!chain.is_known_root(&[1u8; 31]));
    chain.add_root(9, vec![5u8; 32]);
    assert!(!chain.is_known_root(&[2u8; 32]));
    assert!(chain.is_known_root(&[5u8; 32]));
}

#[test]
fn leaves_are_kept_in_input_order() {
    let leaves = vec![b"c".to_vec(), b"a".to_vec(), b"b".to_vec(), b"a".to_vec()];
    let tree = MerkleTree::new(leaves.clone()).unwrap();
    assert_eq!(tree.leaves(), &leaves);
    assert_eq!(tree.len(), 4);
}
