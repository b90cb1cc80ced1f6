use cross_chain_merkle_proof::utils::{
    bytes_eq, compute_sha256, hash_leaf, hash_node, DIGEST_LEN, LEAF_TAG, NODE_TAG,
};

fn hex(text: &str) -> Vec<u8> {
    let digits: Vec<u8> = text
        .bytes()
        .map(|c| match c {
            b'0'..=b'9' => c - b'0',
            b'a'..=b'f' => c - b'a' + 10,
            _ => panic!("not a hex digit"),
        })
        .collect();
    digits.chunks(2).map(|pair| pair[0] * 16 + pair[1]).collect()
}

#[test]
fn sha256_of_hello_world() {
    assert_eq!(
        compute_sha256(b"hello world"),
        hex("b94d27b9934d3e08a52e52d7da7dabfac484efe37a5380ee9088f7ace2efcde9")
    );
}

#[test]
fn sha256_of_nothing() {
    assert_eq!(
        compute_sha256(b""),
        hex("e3b0c44298fc1c149afbf4c8996fb92427ae41e4649b934ca495991b7852b855")
    );
}

#[test]
fn sha256_is_not_the_identity() {
    let data = vec![7u8; 32];
    let digest = compute_sha256(&data);
    assert_eq!(digest.len(), 32);
    assert_ne!(digest, data);
}

#[test]
fn sha256_output_has_digest_length() {
    for len in [0usize, 1, 31, 32, 33, 55, 56, 63, 64, 65, 1000] {
        assert_eq!(compute_sha256(&vec![0xabu8; len]).len(), DIGEST_LEN);
    }
}

#[test]
fn sha256_is_repeatable() {
    let data = b"the same bytes twice";
    assert_eq!(compute_sha256(data), compute_sha256(data));
}

#[test]
fn tags_are_distinct() {
    assert_eq!(LEAF_TAG, 0x00);
    assert_eq!(NODE_TAG, 0x01);
    assert_ne!(LEAF_TAG, NODE_TAG);
    assert_eq!(DIGEST_LEN, 32);
}

#[test]
fn leaf_hash_prefixes_the_leaf_tag() {
    assert_eq!(
        hash_leaf(b"abc"),
        hex("609f6e36d2405585188d5cfd761f407c7cc46a7d3f314c88270469dde315fcd1")
    );
    assert_eq!(hash_leaf(b"abc"), compute_sha256(b"\x00abc"));
}

#[test]
fn leaf_hash_of_empty_value() {
    assert_eq!(
        hash_leaf(b""),
        hex("6e340b9cffb37a989ca544e6bb780a2c78901d3fb33738768511a30617afa01d")
    );
}

#[test]
fn leaf_hash_of_zero_block() {
    assert_eq!(
        hash_leaf(&[0u8; 32]),
        hex("7f9c9e31ac8256ca2f258583df262dbc7d6f68f2a03043d5c99a4ae5a7396ce9")
    );
}

#[test]
fn node_hash_prefixes_the_node_tag() {
    let left = hash_leaf(&[0u8; 32]);
    let right = hash_leaf(&[1u8; 32]);
    assert_eq!(
        hash_node(&left, &right),
        hex("28fb81e496897e0ce886f08602392e9239b65c659041e5202163e58ad898f444")
    );
    let mut message = vec![0x01u8];
    message.extend_from_slice(&left);
    message.extend_from_slice(&right);
    assert_eq!(hash_node(&left, &right), compute_sha256(&message));
}

#[test]
fn node_hash_depends_on_the_order_of_the_children() {
    let left = hash_leaf(&[0u8; 32]);
    let right = hash_leaf(&[1u8; 32]);
    assert_eq!(
        hash_node(&right, &left),
        hex("205636d8eed10f55171104a8fe9acfb8b8e9f12edcbd52865df48dceb01e60d7")
    );
    assert_ne!(hash_node(&left, &right), hash_node(&right, &left));
}

#[test]
fn leaf_and_node_hashes_are_separated() {
    // A leaf whose value is the bytes of two digests is not hashed like the
    // node over those digests.
    let left = hash_leaf(b"l");
    let right = hash_leaf(b"r");
    let mut both = left.clone();
    both.extend_from_slice(&right);
    assert_ne!(hash_leaf(&both), hash_node(&left, &right));
}

#[test]
fn bytes_eq_compares_contents() {
    assert!(bytes_eq(b"", b""));
    assert!(bytes_eq(b"abc", b"abc"));
    assert!(!bytes_eq(b"abc", b"abd"));
    assert!(!bytes_eq(b"abc", b"ab"));
    assert!(!bytes_eq(b"ab", b"abc"));
    assert!(!bytes_eq(b"", b"a"));
}
