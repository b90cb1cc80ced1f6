use cross_chain_merkle_proof::blockchain::Blockchain;
use cross_chain_merkle_proof::inclusion::{ProofStep, Side};
use cross_chain_merkle_proof::merkle_tree::MerkleTree;
use cross_chain_merkle_proof::relay::{Relay, RELAYED_LEAF_LEN};
use cross_chain_merkle_proof::run_project;

fn hex(text: &str) -> Vec<u8> {
    let digits: Vec<u8> = text
        .bytes()
        .map(|c| match c {
            b'0'..=b'9' => c - b'0',
            b'a'..=b'f' => c - b'a' + 10,
            _ => panic!("not a hex digit"),
        })
        .collect();
    digits.chunks(2).map(|pair| pair[0] * 16 + pair[1]).collect()
}

fn three_leaves() -> Vec<Vec<u8>> {
    vec![vec![0u8; 32], vec![1u8; 32], vec![2u8; 32]]
}

const ROOT_3: &str = "9aa08d413285ecda667944ba9446d77c1f1712ecf946bfcf74453c731a38e7b7";

#[test]
fn new_registry_is_empty() {
    let chain = Blockchain::new();
    assert!(chain.known_roots.is_empty());
}

#[test]
fn add_root_registers_under_the_identifier() {
    let mut chain = Blockchain::new();
    chain.add_root(1, vec![0xaa; 32]);
    chain.add_root(7, vec![0xbb; 32]);
    assert_eq!(chain.known_roots.len(), 2);
    assert_eq!(chain.known_roots.get(&1), Some(&vec![0xaa; 32]));
    assert_eq!(chain.known_roots.get(&7), Some(&vec![0xbb; 32]));
    assert_eq!(chain.known_roots.get(&2), None);
}

#[test]
fn add_root_replaces_an_earlier_root() {
    let mut chain = Blockchain::new();
    chain.add_root(1, vec![0xaa; 32]);
    chain.add_root(1, vec![0xbb; 32]);
    assert_eq!(chain.known_roots.len(), 1);
    assert_eq!(chain.known_roots.get(&1), Some(&vec![0xbb; 32]));
}

#[test]
fn empty_registry_accepts_nothing() {
    let leaves = three_leaves();
    let tree = MerkleTree::new(leaves.clone()).unwrap();
    let chain = Blockchain::new();
    assert!(!chain.verify_proof(tree.generate_proof(0).unwrap(), leaves[0].clone()));
    assert!(!chain.verify_proof(Vec::new(), leaves[0].clone()));
}

#[test]
fn registry_accepts_a_proof_for_a_registered_root() {
    let leaves = three_leaves();
    let tree = MerkleTree::new(leaves.clone()).unwrap();
    let mut chain = Blockchain::new();
    chain.add_root(1, tree.root_hash());
    for index in 0..3 {
        assert!(chain.verify_proof(tree.generate_proof(index).unwrap(), leaves[index].clone()));
    }
}

#[test]
fn registry_rejects_the_wrong_leaf() {
    let leaves = three_leaves();
    let tree = MerkleTree::new(leaves.clone()).unwrap();
    let mut chain = Blockchain::new();
    chain.add_root(1, tree.root_hash());
    assert!(!chain.verify_proof(tree.generate_proof(0).unwrap(), leaves[1].clone()));
    assert!(!chain.verify_proof(tree.generate_proof(0).unwrap(), vec![3u8; 32]));
}

#[test]
fn registry_does_not_accept_a_leaf_for_being_listed_in_the_proof() {
    // Holding the leaf among the proof's digests proves nothing.
    let leaf = vec![0u8; 32];
    let mut chain = Blockchain::new();
    chain.add_root(1, hex(ROOT_3));
    let listing = vec![ProofStep { sibling: leaf.clone(), side: Side::Right }];
    assert!(!chain.verify_proof(listing, leaf));
}

#[test]
fn registry_rejects_a_proof_for_an_unregistered_root() {
    let leaves = three_leaves();
    let tree = MerkleTree::new(leaves.clone()).unwrap();
    let other = MerkleTree::new(vec![b"x".to_vec(), b"y".to_vec()]).unwrap();
    let mut chain = Blockchain::new();
    chain.add_root(1, other.root_hash());
    assert!(!chain.verify_proof(tree.generate_proof(0).unwrap(), leaves[0].clone()));
}

#[test]
fn registry_checks_every_registered_root() {
    let first_leaves = three_leaves();
    let first = MerkleTree::new(first_leaves.clone()).unwrap();
    let second_leaves = vec![b"x".to_vec(), b"y".to_vec()];
    let second = MerkleTree::new(second_leaves.clone()).unwrap();
    let mut chain = Blockchain::new();
    chain.add_root(10, vec![0u8; 32]);
    chain.add_root(11, first.root_hash());
    chain.add_root(12, second.root_hash());
    chain.add_root(13, vec![0xffu8; 32]);
    assert!(chain.verify_proof(first.generate_proof(2).unwrap(), first_leaves[2].clone()));
    assert!(chain.verify_proof(second.generate_proof(1).unwrap(), second_leaves[1].clone()));
    assert!(!chain.verify_proof(second.generate_proof(1).unwrap(), first_leaves[1].clone()));
}

#[test]
fn replaced_root_is_no_longer_accepted() {
    let leaves = three_leaves();
    let tree = MerkleTree::new(leaves.clone()).unwrap();
    let mut chain = Blockchain::new();
    chain.add_root(1, tree.root_hash());
    assert!(chain.verify_proof(tree.generate_proof(0).unwrap(), leaves[0].clone()));
    chain.add_root(1, vec![0u8; 32]);
    assert!(!chain.verify_proof(tree.generate_proof(0).unwrap(), leaves[0].clone()));
}

#[test]
fn registry_rejects_a_malformed_proof() {
    let leaves = three_leaves();
    let tree = MerkleTree::new(leaves.clone()).unwrap();
    let mut chain = Blockchain::new();
    chain.add_root(1, tree.root_hash());
    let mut proof = tree.generate_proof(0).unwrap();
    proof[0].sibling.truncate(31);
    assert!(!chain.verify_proof(proof, leaves[0].clone()));
}

#[test]
fn single_leaf_root_is_opened_by_the_empty_proof() {
    let tree = MerkleTree::new(vec![b"only".to_vec()]).unwrap();
    let mut chain = Blockchain::new();
    chain.add_root(5, tree.root_hash());
    assert!(chain.verify_proof(Vec::new(), b"only".to_vec()));
    assert!(!chain.verify_proof(Vec::new(), b"other".to_vec()));
}

#[test]
fn relay_submits_the_zero_leaf() {
    assert_eq!(RELAYED_LEAF_LEN, 32);
    let tree = MerkleTree::new(three_leaves()).unwrap();
    let mut chain = Blockchain::new();
    chain.add_root(1, tree.root_hash());
    assert!(Relay::submit_proof(tree.generate_proof(0).unwrap(), &mut chain));
    assert!(!Relay::submit_proof(tree.generate_proof(1).unwrap(), &mut chain));
    assert!(!Relay::submit_proof(tree.generate_proof(2).unwrap(), &mut chain));
}

#[test]
fn relay_is_rejected_by_a_chain_without_the_root() {
    let tree = MerkleTree::new(three_leaves()).unwrap();
    let mut chain = Blockchain::new();
    assert!(!Relay::submit_proof(tree.generate_proof(0).unwrap(), &mut chain));
    chain.add_root(1, vec![0u8; 32]);
    assert!(!Relay::submit_proof(tree.generate_proof(0).unwrap(), &mut chain));
}

#[test]
fn relay_leaves_the_registry_as_it_was() {
    let tree = MerkleTree::new(three_leaves()).unwrap();
    let mut chain = Blockchain::new();
    chain.add_root(1, tree.root_hash());
    chain.add_root(2, vec![9u8; 32]);
    let before = chain.known_roots.clone();
    Relay::submit_proof(tree.generate_proof(0).unwrap(), &mut chain);
    Relay::submit_proof(Vec::new(), &mut chain);
    assert_eq!(chain.known_roots, before);
}

#[test]
fn relay_between_two_chains() {
    // The root registered with chain A is carried to chain B; a proof made on
    // A's side is then accepted by B.
    let tree = MerkleTree::new(three_leaves()).unwrap();
    let mut chain_a = Blockchain::new();
    chain_a.add_root(1, tree.root_hash());
    let mut chain_b = Blockchain::new();
    let proof = tree.generate_proof(0).unwrap();
    assert!(!Relay::submit_proof(proof.clone(), &mut chain_b));
    chain_b.add_root(1, chain_a.known_roots[&1].clone());
    assert!(Relay::submit_proof(proof, &mut chain_b));
}

#[test]
fn run_project_reports_root_and_acceptance() {
    let (root, accepted) = run_project();
    assert_eq!(root, hex(ROOT_3));
    assert!(accepted);
}
