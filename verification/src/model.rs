//! The tree as mathematics: the levels of digests over a sequence of leaf
//! values, the root, and the path of siblings from a leaf to the root.

use crate::inclusion::Side;
use crate::utils::{leaf_digest, leaf_input, node_digest, node_input, sha256};
use vstd::arithmetic::power2::{lemma_pow2_unfold, pow2};
use vstd::prelude::*;

verus! {

/// Level 0: the digests of the leaf values, in input order.
pub open spec fn leaf_level(leaves: Seq<Seq<u8>>) -> Seq<Seq<u8>> {
    Seq::new(leaves.len(), |i: int| leaf_digest(leaves[i]))
}

/// A level made even: one of odd length gets its last digest a second time.
pub open spec fn pad_level(level: Seq<Seq<u8>>) -> Seq<Seq<u8>> {
    if level.len() % 2 == 1 {
        level.push(level.last())
    } else {
        level
    }
}

/// The parents of a level of even length: one for each pair of neighbours.
pub open spec fn pair_level(level: Seq<Seq<u8>>) -> Seq<Seq<u8>> {
    Seq::new(level.len() / 2, |k: int| node_digest(level[2 * k], level[2 * k + 1]))
}

/// The level above `level`: pad, then pair.
pub open spec fn next_level(level: Seq<Seq<u8>>) -> Seq<Seq<u8>> {
    pair_level(pad_level(level))
}

/// The level `height` steps above the leaves.
pub open spec fn level_at(leaves: Seq<Seq<u8>>, height: nat) -> Seq<Seq<u8>>
    decreases height,
{
    if height == 0 {
        leaf_level(leaves)
    } else {
        next_level(level_at(leaves, (height - 1) as nat))
    }
}

/// Number of pairing rounds that bring `width` digests down to one.
pub open spec fn tree_height(width: nat) -> nat
    decreases width,
{
    if width <= 1 {
        0
    } else {
        1 + tree_height(((width + 1) / 2) as nat)
    }
}

/// The root over `leaves`: the one digest of the top level.
pub open spec fn merkle_root(leaves: Seq<Seq<u8>>) -> Seq<u8> {
    level_at(leaves, tree_height(leaves.len()))[0]
}

/// Position, `height` levels up, of the ancestor of the leaf at `index`.
pub open spec fn ancestor_index(index: int, height: nat) -> int
    decreases height,
{
    if height == 0 {
        index
    } else {
        ancestor_index(index, (height - 1) as nat) / 2
    }
}

/// The proof step for the node at `index` of `level`: the other member of its
/// pair in the padded level. An even index is the left member.
pub open spec fn sibling_step(level: Seq<Seq<u8>>, index: int) -> (Seq<u8>, Side) {
    let padded = pad_level(level);
    if index % 2 == 0 {
        (padded[index + 1], Side::Right)
    } else {
        (padded[index - 1], Side::Left)
    }
}

/// The inclusion proof of the leaf at `index`: one sibling for each level
/// below the root, bottom-up.
pub open spec fn merkle_proof(leaves: Seq<Seq<u8>>, index: int) -> Seq<(Seq<u8>, Side)> {
    Seq::new(
        tree_height(leaves.len()),
        |h: int| sibling_step(level_at(leaves, h as nat), ancestor_index(index, h as nat)),
    )
}

/// The message hashed for the node at `position` of the level at `height`
/// when the tree is built: a tagged leaf value at the bottom, a tagged pair of
/// children above.
pub open spec fn built_message(leaves: Seq<Seq<u8>>, height: nat, position: int) -> Seq<u8> {
    if height == 0 {
        leaf_input(leaves[position])
    } else {
        let below = pad_level(level_at(leaves, (height - 1) as nat));
        node_input(below[2 * position], below[2 * position + 1])
    }
}

/// Every node of every level is the SHA-256 digest of its message.
pub proof fn lemma_node_is_digest_of_message(leaves: Seq<Seq<u8>>, height: nat, position: int)
    requires
        0 <= position < level_at(leaves, height).len(),
    ensures
        level_at(leaves, height)[position] == sha256(built_message(leaves, height, position)),
{
}

/// Pairing halves a level, rounding up.
pub proof fn lemma_next_level_len(level: Seq<Seq<u8>>)
    ensures
        next_level(level).len() == (level.len() + 1) / 2,
{
}

/// Below the top every level has more than one digest, the top has exactly
/// one, and the rounds still to go shrink by one per level.
pub proof fn lemma_level_shape(leaves: Seq<Seq<u8>>, height: nat)
    requires
        leaves.len() >= 1,
        height <= tree_height(leaves.len()),
    ensures
        level_at(leaves, height).len() >= 1,
        tree_height(level_at(leaves, height).len()) + height == tree_height(leaves.len()),
        height < tree_height(leaves.len()) <==> level_at(leaves, height).len() > 1,
    decreases height,
{
    if height > 0 {
        let below = (height - 1) as nat;
        lemma_level_shape(leaves, below);
        lemma_next_level_len(level_at(leaves, below));
    }
}

/// The ancestors of a leaf stay inside their levels.
pub proof fn lemma_ancestor_in_range(leaves: Seq<Seq<u8>>, index: int, height: nat)
    requires
        0 <= index < leaves.len(),
        height <= tree_height(leaves.len()),
    ensures
        0 <= ancestor_index(index, height) < level_at(leaves, height).len(),
    decreases height,
{
    if height > 0 {
        let below = (height - 1) as nat;
        lemma_ancestor_in_range(leaves, index, below);
        lemma_next_level_len(level_at(leaves, below));
    }
}

/// The height is the logarithm of the width to base two, rounded up: the
/// least exponent whose power of two reaches the width.
pub proof fn lemma_height_is_ceil_log2(width: nat)
    requires
        width >= 1,
    ensures
        pow2(tree_height(width)) >= width,
        tree_height(width) > 0 ==> pow2((tree_height(width) - 1) as nat) < width,
    decreases width,
{
    if width <= 1 {
        assert(pow2(0) == 1) by {
            vstd::arithmetic::power2::lemma2_to64();
        }
    } else {
        let half = ((width + 1) / 2) as nat;
        lemma_height_is_ceil_log2(half);
        lemma_pow2_unfold(tree_height(width));
        if tree_height(half) > 0 {
            lemma_pow2_unfold(tree_height(half));
        } else {
            assert(pow2(0) == 1) by {
                vstd::arithmetic::power2::lemma2_to64();
            }
        }
    }
}

} // verus!
