//! The hasher: SHA-256 and the two domain-separated ways the tree applies it.

use sha2::{Digest, Sha256};
use vstd::prelude::*;

verus! {

/// Length in bytes of every digest.
pub const DIGEST_LEN: usize = 32;

/// Prefix of the bytes hashed for a leaf.
pub const LEAF_TAG: u8 = 0x00;

/// Prefix of the bytes hashed for an internal node.
pub const NODE_TAG: u8 = 0x01;

/// Longest message, in bytes, that SHA-256 is defined for: the length in bits
/// has to fit in 64 bits.
pub const MAX_HASH_INPUT_LEN: u64 = 0x1fff_ffff_ffff_ffff;

/// Longest leaf value that can be hashed: one byte of the message is the tag.
pub const MAX_LEAF_LEN: u64 = 0x1fff_ffff_ffff_fffe;

/// The SHA-256 digest of `data`: what `sha2::Sha256::digest` returns for it.
pub uninterp spec fn sha256(data: Seq<u8>) -> Seq<u8>;

/// Computes the SHA-256 digest of `data` by a call of `sha2::Sha256::digest`.
///
/// Not proved, but taken from the `sha2` crate: the result depends on the
/// bytes of `data` alone, and it is 32 bytes long, the output size of
/// `Sha256`. Messages of 2^61 bytes or more are left out, because the crate
/// multiplies the number of bytes by eight in a `u64` when it pads the
/// message.
#[verifier::external_body]
pub fn compute_sha256(data: &[u8]) -> (digest: Vec<u8>)
    requires
        data@.len() <= MAX_HASH_INPUT_LEN,
    ensures
        digest@ == sha256(data@),
        digest@.len() == DIGEST_LEN,
{
    Sha256::digest(data).to_vec()
}

/// The byte strings that `items` hold, in order.
pub open spec fn byte_strings(items: Seq<Vec<u8>>) -> Seq<Seq<u8>> {
    Seq::new(items.len(), |i: int| items[i]@)
}

/// The bytes hashed for a leaf: the leaf tag, then the value.
pub open spec fn leaf_input(value: Seq<u8>) -> Seq<u8> {
    seq![LEAF_TAG] + value
}

/// The bytes hashed for an internal node: the node tag, then the left and the
/// right child's digest.
pub open spec fn node_input(left: Seq<u8>, right: Seq<u8>) -> Seq<u8> {
    seq![NODE_TAG] + left + right
}

/// Digest of a leaf value.
pub open spec fn leaf_digest(value: Seq<u8>) -> Seq<u8> {
    sha256(leaf_input(value))
}

/// Digest of an internal node with the given children.
pub open spec fn node_digest(left: Seq<u8>, right: Seq<u8>) -> Seq<u8> {
    sha256(node_input(left, right))
}

/// Two different messages with the same SHA-256 digest.
pub open spec fn collide(first: Seq<u8>, second: Seq<u8>) -> bool {
    first != second && sha256(first) == sha256(second)
}

/// Different leaf values are hashed as different messages.
pub proof fn lemma_leaf_input_injective(first: Seq<u8>, second: Seq<u8>)
    requires
        leaf_input(first) == leaf_input(second),
    ensures
        first == second,
{
    // The value is the message without its tag.
    assert(first =~= leaf_input(first).skip(1));
    assert(second =~= leaf_input(second).skip(1));
}

/// Domain separation: no leaf is hashed as the message of a node.
pub proof fn lemma_leaf_input_is_no_node_input(value: Seq<u8>, left: Seq<u8>, right: Seq<u8>)
    ensures
        leaf_input(value) != node_input(left, right),
{
    assert(leaf_input(value)[0] == LEAF_TAG);
    assert(node_input(left, right)[0] == NODE_TAG);
}

/// With left children of one length, different pairs of children are hashed
/// as different messages.
pub proof fn lemma_node_input_injective(
    left1: Seq<u8>,
    right1: Seq<u8>,
    left2: Seq<u8>,
    right2: Seq<u8>,
)
    requires
        node_input(left1, right1) == node_input(left2, right2),
        left1.len() == left2.len(),
    ensures
        left1 == left2,
        right1 == right2,
{
    // The children are the two parts of the message behind its tag.
    let message = node_input(left1, right1);
    let middle = left1.len() + 1;
    assert(left1 =~= message.subrange(1, middle as int));
    assert(left2 =~= message.subrange(1, middle as int));
    assert(right1 =~= message.skip(middle as int));
    assert(right2 =~= message.skip(middle as int));
}

/// Hashes a leaf value under the leaf tag.
pub fn hash_leaf(value: &[u8]) -> (digest: Vec<u8>)
    requires
        value@.len() <= MAX_LEAF_LEN,
    ensures
        digest@ == leaf_digest(value@),
        digest@.len() == DIGEST_LEN,
{
    let mut input: Vec<u8> = Vec::new();
    input.push(LEAF_TAG);
    input.extend_from_slice(value);
    assert(input@ == leaf_input(value@));
    compute_sha256(input.as_slice())
}

/// Hashes two child digests under the node tag.
pub fn hash_node(left: &[u8], right: &[u8]) -> (digest: Vec<u8>)
    requires
        left@.len() == DIGEST_LEN,
        right@.len() == DIGEST_LEN,
    ensures
        digest@ == node_digest(left@, right@),
        digest@.len() == DIGEST_LEN,
{
    let mut input: Vec<u8> = Vec::new();
    input.push(NODE_TAG);
    input.extend_from_slice(left);
    input.extend_from_slice(right);
    assert(input@ == node_input(left@, right@));
    compute_sha256(input.as_slice())
}

/// Compares two byte strings.
pub fn bytes_eq(a: &[u8], b: &[u8]) -> (same: bool)
    ensures
        same == (a@ == b@),
{
    if a.len() != b.len() {
        return false;
    }
    let mut i: usize = 0;
    while i < a.len()
        invariant
            a@.len() == b@.len(),
            0 <= i <= a@.len(),
            forall|k: int| 0 <= k < i ==> a@[k] == b@[k],
        decreases a@.len() - i,
    {
        if a[i] != b[i] {
            return false;
        }
        i = i + 1;
    }
    assert(a@ =~= b@);
    true
}

} // verus!
