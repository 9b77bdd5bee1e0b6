use accumulator::hash::{
    hash_leaf, hash_node, leaf_preimage_bytes, node_preimage_bytes, Commitment, COMMITMENT_LEN,
    LEAF_TAG, MAX_PAYLOAD_LEN, NODE_TAG,
};

fn hex(bytes: &[u8]) -> String {
    let mut out = String::new();
    for b in bytes {
        out.push_str(&format!("{:02x}", b));
    }
    out
}

#[test]
fn leaf_commitment_of_a_known_payload() {
    assert_eq!(
        hex(hash_leaf(b"a").as_bytes()),
        "7234082e1dd0b5ec0acd71875d61c9f374af30c100bc4de7aa4eb3f15bbed686"
    );
    assert_eq!(
        hex(hash_leaf(b"b").as_bytes()),
        "b3d5dedf654e9fc853bdc5daf79330c5a1eaf2b910f2a36c72ef8ea999ccf953"
    );
}

#[test]
fn leaf_commitment_of_the_empty_payload() {
    assert_eq!(
        hex(hash_leaf(b"").as_bytes()),
        "03170a2e7597b7b7e3d84c05391d139a62b157e78786d8c082f29dcf4c111314"
    );
}

#[test]
fn node_commitment_of_two_known_children() {
    let left = hash_leaf(b"a");
    let right = hash_leaf(b"b");
    assert_eq!(
        hex(hash_node(&left, &right).as_bytes()),
        "ee616625a590167bc4b3dc703ab4f3f2ddecbee6b9d05fee9281f02046e6082e"
    );
}

#[test]
fn node_commitment_depends_on_the_order_of_its_children() {
    let a = hash_leaf(b"a");
    let b = hash_leaf(b"b");
    assert_ne!(hash_node(&a, &b), hash_node(&b, &a));
}

#[test]
fn leaf_and_node_commitments_are_kept_apart() {
    let a = hash_leaf(b"a");
    let b = hash_leaf(b"b");
    let mut joined = Vec::new();
    joined.extend_from_slice(a.as_bytes());
    joined.extend_from_slice(b.as_bytes());
    assert_ne!(hash_leaf(&joined), hash_node(&a, &b));
}

#[test]
fn commitment_is_not_its_input() {
    let payload = [7u8; 32];
    assert_ne!(hash_leaf(&payload).as_bytes(), &payload);
}

#[test]
fn hashing_agrees_with_blake2b_on_the_framed_input() {
    let payload = b"some payload";
    let framed = leaf_preimage_bytes(payload);
    let direct = blake2b_simd::Params::new().hash_length(32).hash(&framed);
    assert_eq!(hash_leaf(payload).as_bytes().as_slice(), direct.as_bytes());

    let left = hash_leaf(b"l");
    let right = hash_leaf(b"r");
    let framed = node_preimage_bytes(&left, &right);
    let direct = blake2b_simd::Params::new().hash_length(32).hash(&framed);
    assert_eq!(hash_node(&left, &right).as_bytes().as_slice(), direct.as_bytes());
}

#[test]
fn hashing_is_deterministic() {
    assert_eq!(hash_leaf(b"same"), hash_leaf(b"same"));
    let a = hash_leaf(b"a");
    let b = hash_leaf(b"b");
    assert_eq!(hash_node(&a, &b), hash_node(&a, &b));
}

#[test]
fn leaf_preimage_is_the_tag_then_the_payload() {
    assert_eq!(leaf_preimage_bytes(b"ab"), vec![LEAF_TAG, b'a', b'b']);
    assert_eq!(leaf_preimage_bytes(b""), vec![LEAF_TAG]);
    assert_eq!(LEAF_TAG, 0);
}

#[test]
fn node_preimage_is_the_tag_then_left_then_right() {
    let left = Commitment::from_bytes([1u8; 32]);
    let right = Commitment::from_bytes([2u8; 32]);
    let framed = node_preimage_bytes(&left, &right);
    assert_eq!(framed.len(), 65);
    assert_eq!(framed[0], NODE_TAG);
    assert_eq!(&framed[1..33], &[1u8; 32]);
    assert_eq!(&framed[33..65], &[2u8; 32]);
    assert_eq!(NODE_TAG, 1);
}

#[test]
fn zero_commitment_is_all_zero_bytes() {
    assert_eq!(Commitment::zero().as_bytes(), &[0u8; 32]);
    assert_eq!(COMMITMENT_LEN, 32);
}

#[test]
fn commitment_keeps_its_bytes() {
    let mut bytes = [0u8; 32];
    for (i, b) in bytes.iter_mut().enumerate() {
        *b = i as u8;
    }
    assert_eq!(Commitment::from_bytes(bytes).as_bytes(), &bytes);
}

#[test]
fn commitments_are_equal_when_their_bytes_are() {
    let a = Commitment::from_bytes([9u8; 32]);
    let b = Commitment::from_bytes([9u8; 32]);
    let mut other = [9u8; 32];
    other[31] = 8;
    assert!(a == b);
    assert!(a != Commitment::from_bytes(other));
    other = [9u8; 32];
    other[0] = 0;
    assert!(a != Commitment::from_bytes(other));
}

#[test]
fn commitment_prints_as_lower_case_hex() {
    assert_eq!(
        hash_leaf(b"a").to_hex(),
        "7234082e1dd0b5ec0acd71875d61c9f374af30c100bc4de7aa4eb3f15bbed686"
    );
    assert_eq!(Commitment::zero().to_hex(), "0".repeat(64));
    let mut bytes = [0u8; 32];
    bytes[0] = 0xab;
    bytes[1] = 0x0f;
    bytes[31] = 0xf0;
    let text = Commitment::from_bytes(bytes).to_hex();
    assert_eq!(text.len(), 64);
    assert!(text.starts_with("ab0f"));
    assert!(text.ends_with("f0"));
}

#[test]
fn payload_limit_is_one_mebibyte() {
    assert_eq!(MAX_PAYLOAD_LEN, 1024 * 1024);
}
