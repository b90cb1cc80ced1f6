//! What holds of trees, proofs and verification in general.

use crate::blockchain::registry_accepts;
use crate::inclusion::{
    digest_after, hashed_at, path_well_formed, recomputed_root, step_input, verifies, Side,
};
use crate::merkle_tree::MerkleTree;
use crate::model::{
    ancestor_index, built_message, lemma_ancestor_in_range, lemma_height_is_ceil_log2,
    lemma_level_shape, lemma_next_level_len, lemma_node_is_digest_of_message, level_at,
    merkle_proof, merkle_root, next_level, pad_level, sibling_step, tree_height,
};
use crate::utils::{
    collide, leaf_digest, leaf_input, lemma_leaf_input_injective,
    lemma_leaf_input_is_no_node_input, lemma_node_input_injective, node_input, sha256, DIGEST_LEN,
};
use vstd::arithmetic::power2::pow2;
use vstd::prelude::*;

verus! {

/// Building is deterministic: trees over the same leaf values in the same
/// order have the same root, and the same proof for every position.
pub proof fn lemma_same_leaves_same_root(first: MerkleTree, second: MerkleTree)
    requires
        first.wf(),
        second.wf(),
        first@.len() == second@.len(),
        forall|i: int| 0 <= i < first@.len() ==> first@[i] == second@[i],
    ensures
        merkle_root(first@) == merkle_root(second@),
        forall|index: int|
            merkle_proof(first@, index) == #[trigger] merkle_proof(second@, index),
{
    assert(first@ =~= second@);
}

/// A proof has as many steps as the tree has levels below the root: the
/// logarithm to base two of the number of leaves, rounded up. Over a single
/// leaf it is empty.
pub proof fn lemma_proof_length(leaves: Seq<Seq<u8>>, index: int)
    requires
        leaves.len() >= 1,
    ensures
        merkle_proof(leaves, index).len() == tree_height(leaves.len()),
        pow2(merkle_proof(leaves, index).len()) >= leaves.len(),
        merkle_proof(leaves, index).len() > 0 ==> pow2(
            (merkle_proof(leaves, index).len() - 1) as nat,
        ) < leaves.len(),
        leaves.len() == 1 ==> merkle_proof(leaves, index).len() == 0,
{
    lemma_height_is_ceil_log2(leaves.len());
}

/// The order of the leaves matters: the trees over two different values in
/// either order have the same root only if SHA-256 collides, on the two
/// leaves or on the two orders of their digests.
pub proof fn lemma_swapped_pair_collides(first: MerkleTree, second: MerkleTree)
    requires
        first.wf(),
        second.wf(),
        first@.len() == 2,
        second@.len() == 2,
        second@[0] == first@[1],
        second@[1] == first@[0],
        first@[0] != first@[1],
        merkle_root(first@) == merkle_root(second@),
    ensures
        collide(leaf_input(first@[0]), leaf_input(first@[1])) || collide(
            node_input(leaf_digest(first@[0]), leaf_digest(first@[1])),
            node_input(leaf_digest(first@[1]), leaf_digest(first@[0])),
        ),
{
    let a = first@[0];
    let b = first@[1];
    let digest_a = leaf_digest(a);
    let digest_b = leaf_digest(b);
    // Each root is the digest of the two leaf digests, in the order of the leaves.
    assert(tree_height(2) == 1) by {
        reveal_with_fuel(tree_height, 3);
    }
    assert(level_at(first@, 1) == next_level(level_at(first@, 0)));
    assert(level_at(second@, 1) == next_level(level_at(second@, 0)));
    assert(merkle_root(first@) == sha256(node_input(digest_a, digest_b)));
    assert(merkle_root(second@) == sha256(node_input(digest_b, digest_a)));
    if digest_a == digest_b {
        if leaf_input(a) == leaf_input(b) {
            lemma_leaf_input_injective(a, b);
        }
    } else {
        first.lemma_digest_lengths();
        assert(digest_a == level_at(first@, 0)[0] && digest_b == level_at(first@, 0)[1]);
        if node_input(digest_a, digest_b) == node_input(digest_b, digest_a) {
            lemma_node_input_injective(digest_a, digest_b, digest_b, digest_a);
        }
    }
}

/// Above the leaves, the levels over an odd number of leaves and over the
/// same leaves with the last one repeated are the same.
proof fn lemma_duplicated_last_leaf_same_levels(leaves: Seq<Seq<u8>>, height: nat)
    requires
        leaves.len() % 2 == 1,
        height >= 1,
    ensures
        level_at(leaves.push(leaves.last()), height) == level_at(leaves, height),
    decreases height,
{
    let longer = leaves.push(leaves.last());
    if height == 1 {
        // The leaf digests of the longer list are those of the shorter, padded.
        assert(level_at(longer, 0) =~= pad_level(level_at(leaves, 0)));
    } else {
        lemma_duplicated_last_leaf_same_levels(leaves, (height - 1) as nat);
    }
}

/// The price of padding by duplication: over an odd number of leaves, three
/// or more, a second copy of the last leaf at the end leaves the root as it
/// was. The root alone does not tell the two leaf lists apart.
pub proof fn lemma_duplicated_last_leaf_same_root(leaves: Seq<Seq<u8>>)
    requires
        leaves.len() >= 3,
        leaves.len() % 2 == 1,
    ensures
        merkle_root(leaves.push(leaves.last())) == merkle_root(leaves),
{
    let longer = leaves.push(leaves.last());
    assert(tree_height(longer.len()) == tree_height(leaves.len()));
    lemma_duplicated_last_leaf_same_levels(leaves, tree_height(leaves.len()));
}

/// Following the proof of a leaf for `count` steps gives the digest of the
/// leaf's ancestor `count` levels up.
pub proof fn lemma_path_reaches_ancestor(leaves: Seq<Seq<u8>>, index: int, count: nat)
    requires
        0 <= index < leaves.len(),
        count <= tree_height(leaves.len()),
    ensures
        digest_after(leaves[index], merkle_proof(leaves, index), count) == level_at(
            leaves,
            count,
        )[ancestor_index(index, count)],
    decreases count,
{
    if count > 0 {
        let below = (count - 1) as nat;
        lemma_path_reaches_ancestor(leaves, index, below);
        lemma_ancestor_in_range(leaves, index, below);
        lemma_level_shape(leaves, below);
        // The step taken is the one beside the ancestor reached so far.
        assert(merkle_proof(leaves, index)[below as int] == sibling_step(
            level_at(leaves, below),
            ancestor_index(index, below),
        ));
    }
}

/// The proof of a leaf leads from that leaf to the root of its tree.
pub proof fn lemma_path_leads_to_root(leaves: Seq<Seq<u8>>, index: int)
    requires
        0 <= index < leaves.len(),
    ensures
        recomputed_root(leaves[index], merkle_proof(leaves, index)) == merkle_root(leaves),
{
    let height = tree_height(leaves.len());
    lemma_path_reaches_ancestor(leaves, index, height);
    lemma_ancestor_in_range(leaves, index, height);
    lemma_level_shape(leaves, height);
}

/// Every leaf of a tree verifies against the tree's root with the proof
/// generated for its position.
pub proof fn lemma_generated_proof_verifies(tree: MerkleTree, index: int)
    requires
        tree.wf(),
        0 <= index < tree@.len(),
    ensures
        verifies(tree@[index], merkle_proof(tree@, index), merkle_root(tree@)),
{
    tree.lemma_digest_lengths();
    lemma_path_leads_to_root(tree@, index);
    let path = merkle_proof(tree@, index);
    assert forall|k: int| 0 <= k < path.len() implies (#[trigger] path[k]).0.len()
        == DIGEST_LEN by {
        // Each sibling is a node of the level it was taken from.
        lemma_ancestor_in_range(tree@, index, k as nat);
        lemma_level_shape(tree@, k as nat);
    }
}

/// A registry that holds the root of a tree accepts every leaf of the tree
/// with the proof generated for its position.
pub proof fn lemma_registered_tree_is_accepted(
    roots: Map<u64, Seq<u8>>,
    id: u64,
    tree: MerkleTree,
    index: int,
)
    requires
        tree.wf(),
        0 <= index < tree@.len(),
        roots.contains_key(id),
        roots[id] == merkle_root(tree@),
    ensures
        registry_accepts(roots, tree@[index], merkle_proof(tree@, index)),
{
    lemma_generated_proof_verifies(tree, index);
}

/// The two verifications hash different messages to one digest at `stage`.
pub open spec fn collide_at(
    leaf1: Seq<u8>,
    path1: Seq<(Seq<u8>, Side)>,
    leaf2: Seq<u8>,
    path2: Seq<(Seq<u8>, Side)>,
    stage: nat,
) -> bool {
    collide(hashed_at(leaf1, path1, stage), hashed_at(leaf2, path2, stage))
}

/// `path` with another sibling in the step at `position`.
pub open spec fn with_sibling(path: Seq<(Seq<u8>, Side)>, position: int, sibling: Seq<u8>) -> Seq<
    (Seq<u8>, Side),
> {
    path.update(position, (sibling, path[position].1))
}

/// `path` with the side of the step at `position` flipped.
pub open spec fn with_side_flipped(path: Seq<(Seq<u8>, Side)>, position: int) -> Seq<
    (Seq<u8>, Side),
> {
    path.update(position, (path[position].0, path[position].1.flipped()))
}

/// The running digest after `count` steps depends on those steps only.
proof fn lemma_digest_after_prefix(
    leaf: Seq<u8>,
    path1: Seq<(Seq<u8>, Side)>,
    path2: Seq<(Seq<u8>, Side)>,
    count: nat,
)
    requires
        forall|k: int| 0 <= k < count ==> path1[k] == path2[k],
    ensures
        digest_after(leaf, path1, count) == digest_after(leaf, path2, count),
    decreases count,
{
    if count > 0 {
        lemma_digest_after_prefix(leaf, path1, path2, (count - 1) as nat);
    }
}

/// For one step, different running digests give different messages.
proof fn lemma_step_input_keeps_current(
    current1: Seq<u8>,
    current2: Seq<u8>,
    step: (Seq<u8>, Side),
)
    requires
        step_input(current1, step) == step_input(current2, step),
    ensures
        current1 == current2,
{
    match step.1 {
        Side::Right => {
            // Messages of one length that end in the same sibling begin with
            // running digests of one length.
            assert(node_input(current1, step.0).len() == 1 + current1.len() + step.0.len());
            assert(node_input(current2, step.0).len() == 1 + current2.len() + step.0.len());
            lemma_node_input_injective(current1, step.0, current2, step.0);
        },
        Side::Left => {
            lemma_node_input_injective(step.0, current1, step.0, current2);
        },
    }
}

/// For one running digest and one side, different siblings give different
/// messages.
proof fn lemma_step_input_keeps_sibling(
    current: Seq<u8>,
    sibling1: Seq<u8>,
    sibling2: Seq<u8>,
    side: Side,
)
    requires
        step_input(current, (sibling1, side)) == step_input(current, (sibling2, side)),
    ensures
        sibling1 == sibling2,
{
    match side {
        Side::Right => {
            lemma_node_input_injective(current, sibling1, current, sibling2);
        },
        Side::Left => {
            // Messages of one length that end in the same running digest
            // begin with siblings of one length.
            assert(node_input(sibling1, current).len() == 1 + sibling1.len() + current.len());
            assert(node_input(sibling2, current).len() == 1 + sibling2.len() + current.len());
            lemma_node_input_injective(sibling1, current, sibling2, current);
        },
    }
}

/// Two verifications that hash different messages at stage `from`, share
/// every step from there on and still end in one root hash two different
/// messages to one digest at some stage from `from` on.
proof fn lemma_divergence_collides(
    leaf1: Seq<u8>,
    path1: Seq<(Seq<u8>, Side)>,
    leaf2: Seq<u8>,
    path2: Seq<(Seq<u8>, Side)>,
    from: nat,
)
    requires
        path1.len() == path2.len(),
        from <= path1.len(),
        forall|k: int| from <= k < path1.len() ==> path1[k] == path2[k],
        hashed_at(leaf1, path1, from) != hashed_at(leaf2, path2, from),
        recomputed_root(leaf1, path1) == recomputed_root(leaf2, path2),
    ensures
        exists|stage: nat|
            from <= stage <= path1.len() && #[trigger] collide_at(
                leaf1,
                path1,
                leaf2,
                path2,
                stage,
            ),
    decreases path1.len() - from,
{
    let digest1 = digest_after(leaf1, path1, from);
    let digest2 = digest_after(leaf2, path2, from);
    if digest1 == digest2 {
        // Different messages, one digest: the collision is here.
        assert(collide_at(leaf1, path1, leaf2, path2, from));
    } else {
        // Different digests under the same step are different messages at the
        // next stage, and the collision is further up.
        let next = from + 1;
        if hashed_at(leaf1, path1, next) == hashed_at(leaf2, path2, next) {
            lemma_step_input_keeps_current(digest1, digest2, path1[from as int]);
        }
        lemma_divergence_collides(leaf1, path1, leaf2, path2, next);
        let stage = choose|stage: nat|
            next <= stage <= path1.len() && #[trigger] collide_at(
                leaf1,
                path1,
                leaf2,
                path2,
                stage,
            );
        assert(from <= stage <= path1.len() && collide_at(leaf1, path1, leaf2, path2, stage));
    }
}

/// A leaf value other than the one a proof was made for is accepted with
/// that proof only if SHA-256 collides: at some stage the two verifications
/// hash different messages to the same digest.
pub proof fn lemma_tampered_leaf_collides(
    leaf: Seq<u8>,
    tampered: Seq<u8>,
    path: Seq<(Seq<u8>, Side)>,
    root: Seq<u8>,
)
    requires
        tampered != leaf,
        verifies(leaf, path, root),
        verifies(tampered, path, root),
    ensures
        exists|stage: nat|
            stage <= path.len() && #[trigger] collide_at(leaf, path, tampered, path, stage),
{
    if leaf_input(leaf) == leaf_input(tampered) {
        lemma_leaf_input_injective(leaf, tampered);
    }
    lemma_divergence_collides(leaf, path, tampered, path, 0);
}

/// A proof in which one sibling digest was changed is accepted for the same
/// leaf and root only if SHA-256 collides at some stage after that step.
pub proof fn lemma_tampered_sibling_collides(
    leaf: Seq<u8>,
    path: Seq<(Seq<u8>, Side)>,
    position: int,
    tampered: Seq<u8>,
    root: Seq<u8>,
)
    requires
        0 <= position < path.len(),
        tampered != path[position].0,
        verifies(leaf, path, root),
        verifies(leaf, with_sibling(path, position, tampered), root),
    ensures
        exists|stage: nat|
            position < stage <= path.len() && #[trigger] collide_at(
                leaf,
                path,
                leaf,
                with_sibling(path, position, tampered),
                stage,
            ),
{
    let changed = with_sibling(path, position, tampered);
    let from = (position + 1) as nat;
    lemma_digest_after_prefix(leaf, path, changed, position as nat);
    let current = digest_after(leaf, path, position as nat);
    if hashed_at(leaf, path, from) == hashed_at(leaf, changed, from) {
        lemma_step_input_keeps_sibling(current, path[position].0, tampered, path[position].1);
    }
    lemma_divergence_collides(leaf, path, leaf, changed, from);
}

/// A proof in which the side of one step was flipped is accepted for the same
/// leaf and root only if SHA-256 collides at some stage after that step. This
/// is said of the steps at which the flip changes the message that is
/// hashed: with digests of one length, those whose sibling differs from the
/// running digest.
pub proof fn lemma_flipped_side_collides(
    leaf: Seq<u8>,
    path: Seq<(Seq<u8>, Side)>,
    position: int,
    root: Seq<u8>,
)
    requires
        0 <= position < path.len(),
        node_input(digest_after(leaf, path, position as nat), path[position].0) != node_input(
            path[position].0,
            digest_after(leaf, path, position as nat),
        ),
        verifies(leaf, path, root),
        verifies(leaf, with_side_flipped(path, position), root),
    ensures
        exists|stage: nat|
            position < stage <= path.len() && #[trigger] collide_at(
                leaf,
                path,
                leaf,
                with_side_flipped(path, position),
                stage,
            ),
{
    let changed = with_side_flipped(path, position);
    let from = (position + 1) as nat;
    lemma_digest_after_prefix(leaf, path, changed, position as nat);
    lemma_divergence_collides(leaf, path, leaf, changed, from);
}

/// With the proof generated for a position of a tree, a value other than the
/// leaf at that position is accepted against the tree's root only if SHA-256
/// collides at some stage of the verification.
pub proof fn lemma_tree_rejects_tampered_leaf(tree: MerkleTree, index: int, tampered: Seq<u8>)
    requires
        tree.wf(),
        0 <= index < tree@.len(),
        tampered != tree@[index],
        verifies(tampered, merkle_proof(tree@, index), merkle_root(tree@)),
    ensures
        exists|stage: nat|
            stage <= tree_height(tree@.len()) && #[trigger] collide_at(
                tree@[index],
                merkle_proof(tree@, index),
                tampered,
                merkle_proof(tree@, index),
                stage,
            ),
{
    lemma_generated_proof_verifies(tree, index);
    lemma_tampered_leaf_collides(
        tree@[index],
        tampered,
        merkle_proof(tree@, index),
        merkle_root(tree@),
    );
}

/// The proof generated for a leaf of a tree, with one sibling digest changed,
/// is accepted for that leaf against the tree's root only if SHA-256 collides
/// at some stage after the changed step.
pub proof fn lemma_tree_rejects_tampered_sibling(
    tree: MerkleTree,
    index: int,
    position: int,
    tampered: Seq<u8>,
)
    requires
        tree.wf(),
        0 <= index < tree@.len(),
        0 <= position < tree_height(tree@.len()),
        tampered != merkle_proof(tree@, index)[position].0,
        verifies(
            tree@[index],
            with_sibling(merkle_proof(tree@, index), position, tampered),
            merkle_root(tree@),
        ),
    ensures
        exists|stage: nat|
            position < stage <= tree_height(tree@.len()) && #[trigger] collide_at(
                tree@[index],
                merkle_proof(tree@, index),
                tree@[index],
                with_sibling(merkle_proof(tree@, index), position, tampered),
                stage,
            ),
{
    lemma_generated_proof_verifies(tree, index);
    lemma_tampered_sibling_collides(
        tree@[index],
        merkle_proof(tree@, index),
        position,
        tampered,
        merkle_root(tree@),
    );
}

/// The proof generated for a leaf of a tree, with the side of one step
/// flipped, is accepted for that leaf against the tree's root only if SHA-256
/// collides at some stage after the flipped step. This is said of the steps
/// whose sibling differs from the node it stands beside: beside its own copy,
/// or a node of the same digest, either order hashes the same bytes.
pub proof fn lemma_tree_rejects_flipped_side(tree: MerkleTree, index: int, position: int)
    requires
        tree.wf(),
        0 <= index < tree@.len(),
        0 <= position < tree_height(tree@.len()),
        merkle_proof(tree@, index)[position].0 != level_at(
            tree@,
            position as nat,
        )[ancestor_index(index, position as nat)],
        verifies(
            tree@[index],
            with_side_flipped(merkle_proof(tree@, index), position),
            merkle_root(tree@),
        ),
    ensures
        exists|stage: nat|
            position < stage <= tree_height(tree@.len()) && #[trigger] collide_at(
                tree@[index],
                merkle_proof(tree@, index),
                tree@[index],
                with_side_flipped(merkle_proof(tree@, index), position),
                stage,
            ),
{
    let path = merkle_proof(tree@, index);
    let node = level_at(tree@, position as nat)[ancestor_index(index, position as nat)];
    let sibling = path[position].0;
    lemma_generated_proof_verifies(tree, index);
    lemma_path_reaches_ancestor(tree@, index, position as nat);
    lemma_ancestor_in_range(tree@, index, position as nat);
    tree.lemma_digest_lengths();
    if node_input(node, sibling) == node_input(sibling, node) {
        lemma_node_input_injective(node, sibling, sibling, node);
    }
    lemma_flipped_side_collides(tree@[index], path, position, merkle_root(tree@));
}

/// A verification of `leaf` with `path` and the building of the tree over
/// `leaves` hash different messages to one digest: the verification at
/// `stage`, the tree for the node at `position` of the level at `height`.
pub open spec fn forges(
    leaves: Seq<Seq<u8>>,
    leaf: Seq<u8>,
    path: Seq<(Seq<u8>, Side)>,
    stage: nat,
    height: nat,
    position: int,
) -> bool {
    &&& stage <= path.len()
    &&& height <= tree_height(leaves.len())
    &&& 0 <= position < level_at(leaves, height).len()
    &&& collide(hashed_at(leaf, path, stage), built_message(leaves, height, position))
}

/// A verification that has reached, at `stage`, the digest of a node of the
/// tree, as many steps below the end of the path as the node is below the
/// root, started from a leaf of the tree, or it forges.
proof fn lemma_descend(
    tree: MerkleTree,
    leaf: Seq<u8>,
    path: Seq<(Seq<u8>, Side)>,
    stage: nat,
    height: nat,
    position: int,
)
    requires
        tree.wf(),
        path_well_formed(path),
        stage <= path.len(),
        height <= tree_height(tree@.len()),
        0 <= position < level_at(tree@, height).len(),
        digest_after(leaf, path, stage) == level_at(tree@, height)[position],
    ensures
        (stage == height && exists|i: int| 0 <= i < tree@.len() && #[trigger] tree@[i] == leaf)
            || exists|at: nat, level: nat, node: int| #[trigger]
            forges(tree@, leaf, path, at, level, node),
    decreases stage,
{
    let leaves = tree@;
    let mine = hashed_at(leaf, path, stage);
    let theirs = built_message(leaves, height, position);
    lemma_node_is_digest_of_message(leaves, height, position);
    if mine != theirs {
        // Two messages, one digest.
        assert(forges(leaves, leaf, path, stage, height, position));
    } else if stage == 0 && height == 0 {
        // One leaf message: the leaf is the one at `position`.
        lemma_leaf_input_injective(leaf, leaves[position]);
    } else if stage == 0 {
        // A leaf message is no node message.
        let below = pad_level(level_at(leaves, (height - 1) as nat));
        lemma_leaf_input_is_no_node_input(leaf, below[2 * position], below[2 * position + 1]);
    } else if height == 0 {
        let current = digest_after(leaf, path, (stage - 1) as nat);
        let step = path[stage - 1];
        match step.1 {
            Side::Right => lemma_leaf_input_is_no_node_input(leaves[position], current, step.0),
            Side::Left => lemma_leaf_input_is_no_node_input(leaves[position], step.0, current),
        }
    } else {
        // One node message: the running digest of the stage before is one of
        // the two children of the node. They stand in the level below, the
        // right one beside the left or, where the level was padded, in the
        // same place.
        let below_height = (height - 1) as nat;
        let below = level_at(leaves, below_height);
        let left = pad_level(below)[2 * position];
        let right = pad_level(below)[2 * position + 1];
        let right_position = if 2 * position + 1 < below.len() {
            2 * position + 1
        } else {
            2 * position
        };
        lemma_next_level_len(below);
        tree.lemma_digest_lengths();
        assert(left == below[2 * position] && right == below[right_position]);
        let current = digest_after(leaf, path, (stage - 1) as nat);
        let step = path[stage - 1];
        match step.1 {
            Side::Right => {
                assert(mine.len() == 1 + current.len() + step.0.len());
                lemma_node_input_injective(current, step.0, left, right);
                lemma_descend(tree, leaf, path, (stage - 1) as nat, below_height, 2 * position);
            },
            Side::Left => {
                lemma_node_input_injective(step.0, current, left, right);
                lemma_descend(tree, leaf, path, (stage - 1) as nat, below_height, right_position);
            },
        }
    }
}

/// What verifies against the root of a tree is a leaf of that tree, with a
/// path as long as the tree is high, unless SHA-256 collides: unless the
/// verification and the building of the tree hash two different messages to
/// one digest. A path cut short, a path drawn out and an inner node offered
/// as a leaf all fall under this.
pub proof fn lemma_accepted_leaf_is_in_tree(
    tree: MerkleTree,
    leaf: Seq<u8>,
    path: Seq<(Seq<u8>, Side)>,
)
    requires
        tree.wf(),
        verifies(leaf, path, merkle_root(tree@)),
    ensures
        (path.len() == tree_height(tree@.len()) && exists|i: int|
            0 <= i < tree@.len() && #[trigger] tree@[i] == leaf) || exists|
            stage: nat,
            height: nat,
            position: int,
        | #[trigger] forges(tree@, leaf, path, stage, height, position),
{
    tree.lemma_digest_lengths();
    lemma_level_shape(tree@, tree_height(tree@.len()));
    lemma_descend(tree, leaf, path, path.len(), tree_height(tree@.len()), 0);
}

} // verus!
