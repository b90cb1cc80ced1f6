//! The tree itself: built once from its leaves, then read only.

use crate::error::MerkleError;
use crate::inclusion::{path_view, verifies, ProofStep, Side};
use crate::laws::lemma_generated_proof_verifies;
use crate::model::{
    ancestor_index, leaf_level, lemma_ancestor_in_range, lemma_level_shape, lemma_next_level_len,
    level_at, merkle_proof, merkle_root, pad_level, pair_level, sibling_step, tree_height,
};
use crate::utils::{
    byte_strings, hash_leaf, hash_node, leaf_digest, node_digest, DIGEST_LEN, MAX_LEAF_LEN,
};
use vstd::prelude::*;
use vstd::slice::slice_to_vec;

verus! {

/// Every entry of `level` has the length of a digest.
spec fn all_digests(level: Seq<Vec<u8>>) -> bool {
    forall|k: int| 0 <= k < level.len() ==> (#[trigger] level[k])@.len() == DIGEST_LEN
}

/// Every value of `leaves` is short enough to be hashed as a leaf.
pub open spec fn leaves_hashable(leaves: Seq<Seq<u8>>) -> bool {
    forall|i: int| 0 <= i < leaves.len() ==> (#[trigger] leaves[i]).len() <= MAX_LEAF_LEN
}

/// Whether every value of `leaves` is short enough to be hashed as a leaf,
/// which is what building a tree over them asks for.
pub fn all_hashable(leaves: &[Vec<u8>]) -> (ok: bool)
    ensures
        ok == leaves_hashable(byte_strings(leaves@)),
{
    let mut i: usize = 0;
    while i < leaves.len()
        invariant
            0 <= i <= leaves@.len(),
            forall|j: int|
                0 <= j < i ==> (#[trigger] byte_strings(leaves@)[j]).len() <= MAX_LEAF_LEN,
        decreases leaves@.len() - i,
    {
        if leaves[i].len() as u64 > MAX_LEAF_LEN {
            assert(byte_strings(leaves@)[i as int].len() > MAX_LEAF_LEN);
            return false;
        }
        i = i + 1;
    }
    true
}

/// Hashes every leaf value under the leaf tag, keeping the order.
fn hash_leaves(leaves: &Vec<Vec<u8>>) -> (bottom: Vec<Vec<u8>>)
    requires
        forall|i: int| 0 <= i < leaves@.len() ==> (#[trigger] leaves@[i])@.len() <= MAX_LEAF_LEN,
    ensures
        byte_strings(bottom@) == leaf_level(byte_strings(leaves@)),
        all_digests(bottom@),
{
    let mut bottom: Vec<Vec<u8>> = Vec::new();
    let mut i: usize = 0;
    while i < leaves.len()
        invariant
            0 <= i <= leaves@.len(),
            bottom@.len() == i,
            forall|j: int|
                0 <= j < leaves@.len() ==> (#[trigger] leaves@[j])@.len() <= MAX_LEAF_LEN,
            forall|j: int| 0 <= j < i ==> (#[trigger] bottom@[j])@ == leaf_digest(leaves@[j]@),
            all_digests(bottom@),
        decreases leaves@.len() - i,
    {
        let digest = hash_leaf(leaves[i].as_slice());
        bottom.push(digest);
        i = i + 1;
    }
    bottom
}

/// Makes a level even: one of odd length gets a copy of its last digest.
fn pad(level: &mut Vec<Vec<u8>>)
    requires
        all_digests(old(level)@),
    ensures
        byte_strings(final(level)@) == pad_level(byte_strings(old(level)@)),
        all_digests(final(level)@),
{
    if level.len() % 2 == 1 {
        let last = slice_to_vec(level[level.len() - 1].as_slice());
        level.push(last);
    }
}

/// Hashes each pair of neighbours of an even level into their parent.
fn pair_up(level: &Vec<Vec<u8>>) -> (parents: Vec<Vec<u8>>)
    requires
        level@.len() % 2 == 0,
        all_digests(level@),
    ensures
        byte_strings(parents@) == pair_level(byte_strings(level@)),
        all_digests(parents@),
{
    let mut parents: Vec<Vec<u8>> = Vec::new();
    let mut k: usize = 0;
    while k < level.len() / 2
        invariant
            level@.len() % 2 == 0,
            all_digests(level@),
            0 <= k <= level@.len() / 2,
            parents@.len() == k,
            forall|j: int| 0 <= j < k ==> (#[trigger] parents@[j])@ == node_digest(
                level@[2 * j]@,
                level@[2 * j + 1]@,
            ),
            all_digests(parents@),
        decreases level@.len() / 2 - k,
    {
        let parent = hash_node(level[2 * k].as_slice(), level[2 * k + 1].as_slice());
        parents.push(parent);
        k = k + 1;
    }
    parents
}

/// A level as the tree keeps it: padded wherever it is paired, so that every
/// node below the root has its sibling beside it. The top level is the root
/// alone.
spec fn stored_level(leaves: Seq<Seq<u8>>, height: nat) -> Seq<Seq<u8>> {
    let level = level_at(leaves, height);
    if level.len() > 1 {
        pad_level(level)
    } else {
        level
    }
}

/// A Merkle tree over an ordered, non-empty list of leaf values. It keeps
/// the leaves and every level of digests, from the leaf digests up to the
/// root; node `k` of a level has nodes `2k` and `2k + 1` of the level below
/// as its children.
pub struct MerkleTree {
    leaves: Vec<Vec<u8>>,
    levels: Vec<Vec<Vec<u8>>>,
}

impl View for MerkleTree {
    type V = Seq<Seq<u8>>;

    /// The leaf values, in input order.
    closed spec fn view(&self) -> Seq<Seq<u8>> {
        byte_strings(self.leaves@)
    }
}

impl MerkleTree {
    /// What holds of every tree: there is a leaf, every leaf can be hashed,
    /// and the levels kept are those of the leaves, each entry a digest.
    #[verifier::type_invariant]
    pub closed spec fn wf(&self) -> bool {
        &&& self.leaves@.len() >= 1
        &&& forall|i: int|
            0 <= i < self.leaves@.len() ==> (#[trigger] self.leaves@[i])@.len() <= MAX_LEAF_LEN
        &&& self.levels@.len() == tree_height(self.leaves@.len()) + 1
        &&& forall|h: int|
            0 <= h < self.levels@.len() ==> byte_strings((#[trigger] self.levels@[h])@)
                == stored_level(byte_strings(self.leaves@), h as nat)
        &&& forall|h: int|
            0 <= h < self.levels@.len() ==> all_digests((#[trigger] self.levels@[h])@)
    }

    /// Builds the tree over `leaves`: hashes each leaf, then pads and pairs
    /// level by level until one digest is left. Fails on an empty list. No
    /// leaf may be longer than `MAX_LEAF_LEN` bytes, the most that SHA-256
    /// takes; `all_hashable` tests that.
    pub fn new(leaves: Vec<Vec<u8>>) -> (built: Result<MerkleTree, MerkleError>)
        requires
            leaves_hashable(byte_strings(leaves@)),
        ensures
            built is Err <==> leaves@.len() == 0,
            built matches Err(e) ==> e == MerkleError::EmptyInput,
            built matches Ok(tree) ==> tree.wf() && tree@ == byte_strings(leaves@),
    {
        if leaves.len() == 0 {
            return Err(MerkleError::EmptyInput);
        }
        let ghost values = byte_strings(leaves@);
        assert forall|i: int| 0 <= i < leaves@.len() implies (#[trigger] leaves@[i])@.len()
            <= MAX_LEAF_LEN by {
            assert(values[i] == leaves@[i]@);
        }
        let mut levels: Vec<Vec<Vec<u8>>> = Vec::new();
        let mut current = hash_leaves(&leaves);
        while current.len() > 1
            invariant
                values == byte_strings(leaves@),
                values.len() >= 1,
                levels@.len() <= tree_height(values.len()),
                byte_strings(current@) == level_at(values, levels@.len() as nat),
                all_digests(current@),
                forall|h: int|
                    0 <= h < levels@.len() ==> byte_strings((#[trigger] levels@[h])@)
                        == stored_level(values, h as nat),
                forall|h: int| 0 <= h < levels@.len() ==> all_digests((#[trigger] levels@[h])@),
            decreases current@.len(),
        {
            proof {
                lemma_level_shape(values, levels@.len() as nat);
                lemma_next_level_len(byte_strings(current@));
            }
            pad(&mut current);
            let parents = pair_up(&current);
            levels.push(current);
            current = parents;
        }
        proof {
            lemma_level_shape(values, levels@.len() as nat);
        }
        levels.push(current);
        Ok(MerkleTree { leaves, levels })
    }

    /// The root digest, as computed when the tree was built.
    pub fn root_hash(&self) -> (digest: Vec<u8>)
        ensures
            digest@ == merkle_root(self@),
            digest@.len() == DIGEST_LEN,
    {
        proof {
            use_type_invariant(self);
        }
        let top = &self.levels[self.levels.len() - 1];
        proof {
            lemma_level_shape(self@, tree_height(self@.len()));
        }
        slice_to_vec(top[0].as_slice())
    }

    /// In a well-formed tree there is a leaf, every leaf can be hashed, and
    /// every digest of every level is 32 bytes long.
    pub proof fn lemma_digest_lengths(self)
        requires
            self.wf(),
        ensures
            self@.len() >= 1,
            forall|i: int| 0 <= i < self@.len() ==> (#[trigger] self@[i]).len() <= MAX_LEAF_LEN,
            forall|h: nat, k: int|
                h <= tree_height(self@.len()) && 0 <= k < level_at(self@, h).len() ==> (
                #[trigger] level_at(self@, h)[k]).len() == DIGEST_LEN,
    {
        assert forall|h: nat, k: int|
            h <= tree_height(self@.len()) && 0 <= k < level_at(self@, h).len() implies (
        #[trigger] level_at(self@, h)[k]).len() == DIGEST_LEN by {
            // The level as kept holds the level of the leaves, entry by entry.
            let kept = self.levels@[h as int]@;
            assert(byte_strings(kept) == stored_level(self@, h));
            assert(byte_strings(kept)[k] == kept[k]@);
        }
    }

    /// The inclusion proof of the leaf at `leaf_index`: for each level below
    /// the root, the digest beside the leaf's ancestor and the side it is on.
    /// Fails when there is no leaf at `leaf_index`.
    pub fn generate_proof(&self, leaf_index: usize) -> (generated: Result<
        Vec<ProofStep>,
        MerkleError,
    >)
        ensures
            generated is Err <==> leaf_index >= self@.len(),
            generated matches Err(e) ==> e == MerkleError::IndexOutOfRange,
            generated matches Ok(path) ==> {
                &&& path_view(path@) == merkle_proof(self@, leaf_index as int)
                &&& path@.len() == tree_height(self@.len())
                &&& verifies(self@[leaf_index as int], path_view(path@), merkle_root(self@))
            },
    {
        proof {
            use_type_invariant(self);
        }
        if leaf_index >= self.leaves.len() {
            return Err(MerkleError::IndexOutOfRange);
        }
        let mut path: Vec<ProofStep> = Vec::new();
        let mut position: usize = leaf_index;
        let mut height: usize = 0;
        let top: usize = self.levels.len() - 1;
        while height < top
            invariant
                self.wf(),
                0 <= leaf_index < self@.len(),
                top == self.levels@.len() - 1,
                height <= top,
                position == ancestor_index(leaf_index as int, height as nat),
                path@.len() == height,
                forall|h: int|
                    0 <= h < height ==> (#[trigger] path@[h])@ == sibling_step(
                        level_at(self@, h as nat),
                        ancestor_index(leaf_index as int, h as nat),
                    ),
            decreases top - height,
        {
            let level = &self.levels[height];
            proof {
                lemma_ancestor_in_range(self@, leaf_index as int, height as nat);
                lemma_level_shape(self@, height as nat);
                assert(byte_strings(level@) == pad_level(level_at(self@, height as nat)));
            }
            let step = if position % 2 == 0 {
                ProofStep {
                    sibling: slice_to_vec(level[position + 1].as_slice()),
                    side: Side::Right,
                }
            } else {
                ProofStep {
                    sibling: slice_to_vec(level[position - 1].as_slice()),
                    side: Side::Left,
                }
            };
            path.push(step);
            position = position / 2;
            height = height + 1;
        }
        proof {
            lemma_generated_proof_verifies(*self, leaf_index as int);
        }
        Ok(path)
    }

    /// The leaf values, in input order.
    pub fn leaves(&self) -> (values: &Vec<Vec<u8>>)
        ensures
            byte_strings(values@) == self@,
    {
        &self.leaves
    }

    /// Number of leaves.
    pub fn len(&self) -> (count: usize)
        ensures
            count == self@.len(),
            count >= 1,
    {
        proof {
            use_type_invariant(self);
        }
        self.leaves.len()
    }
}

} // verus!
