//! What the service decides for each request: how the request changes the
//! state that the requests share, and what is answered. Transport, locking
//! and encoding are the caller's.

use crate::blockchain::{registry_accepts, Blockchain};
use crate::error::MerkleError;
use crate::inclusion::{is_digest, path_is_well_formed, path_view, path_well_formed, ProofStep};
use crate::merkle_tree::{leaves_hashable, MerkleTree};
use crate::model::merkle_root;
use crate::utils::{byte_strings, DIGEST_LEN};
use vstd::prelude::*;

verus! {

/// The identifier under which the service registers a root. A later root
/// takes the place of an earlier one.
pub const REGISTERED_ROOT_ID: u64 = 1;

/// What the requests share: the registry of roots, and the tree built last,
/// if any was.
pub struct State {
    pub blockchain: Blockchain,
    pub merkle_tree: Option<MerkleTree>,
}

impl State {
    /// The state before any request: no root, no tree.
    pub fn new() -> (state: Self)
        ensures
            state.blockchain@ == Map::<u64, Seq<u8>>::empty(),
            state.merkle_tree is None,
    {
        State { blockchain: Blockchain::new(), merkle_tree: None }
    }
}

/// A request to build a tree over `leaves`: the tree takes the place of the
/// one kept so far and its root is the answer. Over no leaves nothing is
/// built and the state stays as it was.
pub fn handle_create_merkle_tree(leaves: Vec<Vec<u8>>, state: &mut State) -> (reply: Result<
    Vec<u8>,
    MerkleError,
>)
    requires
        leaves_hashable(byte_strings(leaves@)),
    ensures
        reply is Err <==> leaves@.len() == 0,
        reply matches Err(e) ==> e == MerkleError::EmptyInput && *final(state) == *old(state),
        reply matches Ok(root) ==> {
            &&& root@ == merkle_root(byte_strings(leaves@))
            &&& root@.len() == DIGEST_LEN
            &&& final(state).blockchain == old(state).blockchain
            &&& final(state).merkle_tree matches Some(tree) && tree.wf() && tree@ == byte_strings(
                leaves@,
            )
        },
{
    match MerkleTree::new(leaves) {
        Ok(tree) => {
            let root = tree.root_hash();
            state.merkle_tree = Some(tree);
            Ok(root)
        },
        Err(e) => Err(e),
    }
}

/// A request to register `root_hash`: it is registered if it has the length
/// of a digest, and refused otherwise. The answer says which.
pub fn handle_add_root(root_hash: Vec<u8>, state: &mut State) -> (added: bool)
    ensures
        added == (root_hash@.len() == DIGEST_LEN),
        added ==> final(state).blockchain@ == old(state).blockchain@.insert(
            REGISTERED_ROOT_ID,
            root_hash@,
        ),
        !added ==> final(state).blockchain == old(state).blockchain,
        final(state).merkle_tree == old(state).merkle_tree,
{
    if !is_digest(root_hash.as_slice()) {
        return false;
    }
    state.blockchain.add_root(REGISTERED_ROOT_ID, root_hash);
    true
}

/// A request to check `proof` for `leaf` against the registered roots. A
/// proof that holds a sibling of another length than a digest's is refused
/// with no verdict; otherwise the verdict is the registry's.
pub fn handle_verify_proof(proof: Vec<ProofStep>, leaf: Vec<u8>, state: &State) -> (verdict:
    Option<bool>)
    ensures
        verdict is Some <==> path_well_formed(path_view(proof@)),
        verdict matches Some(verified) ==> verified == registry_accepts(
            state.blockchain@,
            leaf@,
            path_view(proof@),
        ),
{
    if !path_is_well_formed(proof.as_slice()) {
        return None;
    }
    Some(state.blockchain.verify_proof(proof, leaf))
}

} // verus!
