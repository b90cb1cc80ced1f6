//! Inclusion proofs and their verification. Nothing here needs the tree: a
//! proof is checked against a trusted root alone.

use crate::utils::{
    bytes_eq, hash_leaf, hash_node, leaf_digest, leaf_input, node_input, sha256, DIGEST_LEN,
    MAX_LEAF_LEN,
};
use vstd::prelude::*;
use vstd::slice::slice_to_vec;

verus! {

/// The side of a pair on which a sibling stands.
#[derive(Clone, Copy, Debug, PartialEq, Eq, Structural)]
pub enum Side {
    Left,
    Right,
}

impl Side {
    /// The other side.
    pub open spec fn flipped(self) -> Side {
        match self {
            Side::Left => Side::Right,
            Side::Right => Side::Left,
        }
    }

    /// The other side.
    pub fn opposite(self) -> (other: Side)
        ensures
            other == self.flipped(),
    {
        match self {
            Side::Left => Side::Right,
            Side::Right => Side::Left,
        }
    }
}

/// One step of an inclusion proof: the digest of the sibling and its side.
#[derive(Debug, PartialEq, Eq)]
pub struct ProofStep {
    pub sibling: Vec<u8>,
    pub side: Side,
}

impl Clone for ProofStep {
    fn clone(&self) -> (copy: Self)
        ensures
            copy@ == self@,
    {
        ProofStep { sibling: slice_to_vec(self.sibling.as_slice()), side: self.side }
    }
}

impl View for ProofStep {
    type V = (Seq<u8>, Side);

    open spec fn view(&self) -> (Seq<u8>, Side) {
        (self.sibling@, self.side)
    }
}

/// A proof as a sequence of (sibling digest, side) pairs, bottom-up.
pub open spec fn path_view(steps: Seq<ProofStep>) -> Seq<(Seq<u8>, Side)> {
    Seq::new(steps.len(), |k: int| steps[k]@)
}

/// The bytes hashed for the parent of `current` and the sibling of `step`: a
/// sibling on the right comes second, one on the left first.
pub open spec fn step_input(current: Seq<u8>, step: (Seq<u8>, Side)) -> Seq<u8> {
    match step.1 {
        Side::Right => node_input(current, step.0),
        Side::Left => node_input(step.0, current),
    }
}

/// The digest of the parent of `current` and the sibling of `step`.
pub open spec fn apply_step(current: Seq<u8>, step: (Seq<u8>, Side)) -> Seq<u8> {
    sha256(step_input(current, step))
}

/// The running digest after the first `count` steps of `path`, starting
/// from the digest of `leaf`.
pub open spec fn digest_after(leaf: Seq<u8>, path: Seq<(Seq<u8>, Side)>, count: nat) -> Seq<u8>
    decreases count,
{
    if count == 0 {
        leaf_digest(leaf)
    } else {
        apply_step(digest_after(leaf, path, (count - 1) as nat), path[count - 1])
    }
}

/// The message hashed at `stage` of a verification: the tagged leaf at stage
/// 0, then for each step the tagged pair of running digest and sibling.
pub open spec fn hashed_at(leaf: Seq<u8>, path: Seq<(Seq<u8>, Side)>, stage: nat) -> Seq<u8> {
    if stage == 0 {
        leaf_input(leaf)
    } else {
        step_input(digest_after(leaf, path, (stage - 1) as nat), path[stage - 1])
    }
}

/// The root that `leaf` and `path` lead to.
pub open spec fn recomputed_root(leaf: Seq<u8>, path: Seq<(Seq<u8>, Side)>) -> Seq<u8> {
    digest_after(leaf, path, path.len())
}

/// Every sibling of the path has the length of a digest.
pub open spec fn path_well_formed(path: Seq<(Seq<u8>, Side)>) -> bool {
    forall|k: int| 0 <= k < path.len() ==> (#[trigger] path[k]).0.len() == DIGEST_LEN
}

/// `leaf` and `path` open `root`: the leaf can be hashed, the path is made
/// of digests, and the root they lead to is `root`, byte for byte.
pub open spec fn verifies(leaf: Seq<u8>, path: Seq<(Seq<u8>, Side)>, root: Seq<u8>) -> bool {
    &&& leaf.len() <= MAX_LEAF_LEN
    &&& path_well_formed(path)
    &&& recomputed_root(leaf, path) == root
}

/// Whether `bytes` has the length of a digest.
pub fn is_digest(bytes: &[u8]) -> (ok: bool)
    ensures
        ok == (bytes@.len() == DIGEST_LEN),
{
    bytes.len() == DIGEST_LEN
}

/// Whether every sibling of `path` has the length of a digest.
pub fn path_is_well_formed(path: &[ProofStep]) -> (ok: bool)
    ensures
        ok == path_well_formed(path_view(path@)),
{
    let mut k: usize = 0;
    while k < path.len()
        invariant
            0 <= k <= path@.len(),
            forall|j: int| 0 <= j < k ==> (#[trigger] path_view(path@)[j]).0.len() == DIGEST_LEN,
        decreases path@.len() - k,
    {
        if !is_digest(path[k].sibling.as_slice()) {
            assert(path_view(path@)[k as int].0.len() != DIGEST_LEN);
            return false;
        }
        k = k + 1;
    }
    true
}

/// Recomputes the root that `leaf_value` and `path` lead to, consuming the
/// steps bottom-up. There is no root for a leaf too long to be hashed, nor
/// for a path that holds a sibling which is no digest.
pub fn recompute_root(leaf_value: &[u8], path: &[ProofStep]) -> (root: Option<Vec<u8>>)
    ensures
        root is Some <==> leaf_value@.len() <= MAX_LEAF_LEN && path_well_formed(
            path_view(path@),
        ),
        root matches Some(digest) ==> digest@ == recomputed_root(leaf_value@, path_view(path@))
            && digest@.len() == DIGEST_LEN,
{
    if leaf_value.len() as u64 > MAX_LEAF_LEN || !path_is_well_formed(path) {
        return None;
    }
    let ghost steps = path_view(path@);
    let mut current: Vec<u8> = hash_leaf(leaf_value);
    let mut k: usize = 0;
    while k < path.len()
        invariant
            0 <= k <= path@.len(),
            steps == path_view(path@),
            path_well_formed(steps),
            current@ == digest_after(leaf_value@, steps, k as nat),
            current@.len() == DIGEST_LEN,
        decreases path@.len() - k,
    {
        let step = &path[k];
        assert(steps[k as int] == step@);
        let parent = match step.side {
            Side::Right => hash_node(current.as_slice(), step.sibling.as_slice()),
            Side::Left => hash_node(step.sibling.as_slice(), current.as_slice()),
        };
        current = parent;
        k = k + 1;
    }
    Some(current)
}

/// Checks an inclusion proof against a trusted root. Never fails: input that
/// opens nothing is answered with `false`.
pub fn verify(leaf_value: &[u8], path: &[ProofStep], trusted_root: &[u8]) -> (accepted: bool)
    ensures
        accepted == verifies(leaf_value@, path_view(path@), trusted_root@),
{
    match recompute_root(leaf_value, path) {
        Some(root) => bytes_eq(root.as_slice(), trusted_root),
        None => false,
    }
}

} // verus!
