//! The relay: it carries a proof to a chain's registry and reports the
//! registry's answer.

use crate::blockchain::{registry_accepts, Blockchain};
use crate::inclusion::{path_view, ProofStep};
use vstd::prelude::*;

verus! {

/// Length of the leaf that the relay vouches for.
pub const RELAYED_LEAF_LEN: usize = 32;

/// The leaf that the relay vouches for: 32 zero bytes.
pub open spec fn relayed_leaf() -> Seq<u8> {
    Seq::new(RELAYED_LEAF_LEN as nat, |i: int| 0u8)
}

/// Submits proofs to a chain.
pub struct Relay;

impl Relay {
    /// Asks `blockchain` whether `proof` shows the relayed leaf to be under
    /// one of its roots. The registry is left as it was.
    pub fn submit_proof(proof: Vec<ProofStep>, blockchain: &mut Blockchain) -> (accepted: bool)
        ensures
            accepted == registry_accepts(old(blockchain)@, relayed_leaf(), path_view(proof@)),
            *final(blockchain) == *old(blockchain),
    {
        let leaf: Vec<u8> = vec![0u8; RELAYED_LEAF_LEN];
        assert(leaf@ =~= relayed_leaf());
        blockchain.verify_proof(proof, leaf)
    }
}

} // verus!
