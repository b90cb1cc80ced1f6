//! A registry of trusted Merkle roots, as a chain would keep it.

use crate::inclusion::{path_view, recompute_root, verifies, ProofStep, Side};
use crate::utils::bytes_eq;
use std::collections::HashMap;
use vstd::prelude::*;
use vstd::std_specs::iter::IteratorSpec;

verus! {

/// `root` is registered, under whatever identifier.
pub open spec fn registry_holds(roots: Map<u64, Seq<u8>>, root: Seq<u8>) -> bool {
    exists|id: u64| #[trigger] roots.contains_key(id) && roots[id] == root
}

/// Some registered root is opened by `leaf` and `path`.
pub open spec fn registry_accepts(
    roots: Map<u64, Seq<u8>>,
    leaf: Seq<u8>,
    path: Seq<(Seq<u8>, Side)>,
) -> bool {
    exists|id: u64| #[trigger] roots.contains_key(id) && verifies(leaf, path, roots[id])
}

/// The roots a chain trusts, each under the identifier it was registered with.
pub struct Blockchain {
    pub known_roots: HashMap<u64, Vec<u8>>,
}

impl View for Blockchain {
    type V = Map<u64, Seq<u8>>;

    /// The registered roots by identifier.
    open spec fn view(&self) -> Map<u64, Seq<u8>> {
        self.known_roots@.map_values(|root: Vec<u8>| root@)
    }
}

impl Blockchain {
    /// A registry without roots.
    pub fn new() -> (chain: Self)
        ensures
            chain@ == Map::<u64, Seq<u8>>::empty(),
    {
        let chain = Blockchain { known_roots: HashMap::new() };
        chain
    }

    /// Registers `root_hash` under `id`, in place of what was there before.
    pub fn add_root(&mut self, id: u64, root_hash: Vec<u8>)
        ensures
            final(self)@ == old(self)@.insert(id, root_hash@),
    {
        self.known_roots.insert(id, root_hash);
    }

    /// Whether `root` is registered, under whatever identifier.
    pub fn is_known_root(&self, root: &[u8]) -> (known: bool)
        ensures
            known == registry_holds(self@, root@),
    {
        proof {
            // Walking the values meets every registered root, and nothing else.
            let all = self.known_roots.values().remaining();
            assert forall|j: int| 0 <= j < all.len() implies #[trigger]
                self.known_roots@.values().contains(*all[j]) by {
                assert(all.unref()[j] == *all[j]);
            }
            assert forall|id: u64| #[trigger]
                self.known_roots@.contains_key(id) implies exists|j: int|
                0 <= j < all.len() && *#[trigger] all[j] == self.known_roots@[id] by {
                let stored = self.known_roots@[id];
                assert(all.unref().to_set().contains(stored));
                let j = choose|j: int| 0 <= j < all.unref().len() && all.unref()[j] == stored;
                assert(*all[j] == stored);
            }
        }
        for stored in values: self.known_roots.values()
            invariant
                forall|j: int|
                    0 <= j < values.index() ==> (*#[trigger] values.seq()[j])@ != root@,
                forall|j: int|
                    0 <= j < values.seq().len() ==> #[trigger]
                        self.known_roots@.values().contains(*values.seq()[j]),
                forall|id: u64| #[trigger]
                    self.known_roots@.contains_key(id) ==> exists|j: int|
                        0 <= j < values.seq().len() && *#[trigger] values.seq()[j]
                            == self.known_roots@[id],
        {
            if bytes_eq(stored.as_slice(), root) {
                proof {
                    assert(self.known_roots@.values().contains(*stored));
                    let id = choose|id: u64| #[trigger]
                        self.known_roots@.dom().contains(id) && self.known_roots@[id] == *stored;
                    assert(self@.contains_key(id) && self@[id] == root@);
                }
                return true;
            }
        }
        false
    }

    /// Whether `leaf` with `proof` opens one of the registered roots.
    pub fn verify_proof(&self, proof: Vec<ProofStep>, leaf: Vec<u8>) -> (accepted: bool)
        ensures
            accepted == registry_accepts(self@, leaf@, path_view(proof@)),
    {
        match recompute_root(leaf.as_slice(), proof.as_slice()) {
            Some(root) => self.is_known_root(root.as_slice()),
            None => false,
        }
    }
}

} // verus!
