//! A static Merkle tree over SHA-256 with inclusion proofs, a registry of
//! trusted roots and a relay that submits proofs to it.
//!
//! [`merkle_tree::MerkleTree::new`] builds the tree over an ordered, non-empty
//! list of leaf values, [`merkle_tree::MerkleTree::root_hash`] gives its root
//! and [`merkle_tree::MerkleTree::generate_proof`] the inclusion proof of one
//! leaf. [`inclusion::verify`] checks such a proof against a trusted root and
//! needs no tree. Leaves and inner nodes are hashed under different tags; a
//! level of odd length is padded with a copy of its last digest before it is
//! paired.
//!
//! [`model`] says what root and proof are, [`laws`] what follows from that.
//! [`blockchain`], [`relay`] and [`api`] are the registry of roots, the relay
//! and the decisions of the service around them.

pub mod api;
pub mod blockchain;
pub mod error;
pub mod inclusion;
pub mod laws;
pub mod merkle_tree;
pub mod model;
pub mod relay;
pub mod utils;

use crate::blockchain::Blockchain;
use crate::merkle_tree::MerkleTree;
use crate::model::merkle_root;
use crate::relay::{relayed_leaf, Relay};
use crate::utils::byte_strings;
use vstd::prelude::*;

verus! {

/// The leaves of the demonstration: 32 bytes each of 0, of 1 and of 2.
pub open spec fn project_leaves() -> Seq<Seq<u8>> {
    seq![
        Seq::new(32, |i: int| 0u8),
        Seq::new(32, |i: int| 1u8),
        Seq::new(32, |i: int| 2u8),
    ]
}

/// Runs the whole round once: builds the tree over the three demonstration
/// leaves, registers its root with a fresh chain under identifier 1, and has
/// the relay submit the proof of the first leaf. Returns the root and the
/// chain's answer, which is always yes.
pub fn run_project() -> (outcome: (Vec<u8>, bool))
    ensures
        outcome.0@ == merkle_root(project_leaves()),
        outcome.1,
{
    let leaves: Vec<Vec<u8>> = vec![vec![0u8; 32], vec![1u8; 32], vec![2u8; 32]];
    assert(byte_strings(leaves@) =~~= project_leaves());
    let merkle_tree = MerkleTree::new(leaves).unwrap();
    let root_hash = merkle_tree.root_hash();

    let mut blockchain_b = Blockchain::new();
    blockchain_b.add_root(1, merkle_tree.root_hash());
    assert(blockchain_b@.contains_key(1u64));

    let proof = merkle_tree.generate_proof(0).unwrap();
    let accepted = Relay::submit_proof(proof, &mut blockchain_b);
    (root_hash, accepted)
}

} // verus!
