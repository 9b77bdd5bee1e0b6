//! The hash engine: BLAKE2b with a 32-byte digest, with one byte of domain
//! separation between leaves and inner nodes.

use vstd::prelude::*;
use vstd::string::StringExecFns;

verus! {

/// The number of bytes in a commitment.
pub const COMMITMENT_LEN: usize = 32;

/// The largest payload, in bytes, that can become a leaf.
pub const MAX_PAYLOAD_LEN: usize = 1_048_576;

/// The byte that is hashed in front of a leaf's payload.
pub const LEAF_TAG: u8 = 0;

/// The byte that is hashed in front of the two children of an inner node.
pub const NODE_TAG: u8 = 1;

/// The BLAKE2b digest of `input`, 32 bytes long, unkeyed and with the default
/// parameters otherwise.
pub uninterp spec fn blake2b_256(input: Seq<u8>) -> Seq<u8>;

/// A fixed-size commitment to a leaf or to a subtree.
#[derive(Clone, Copy, Debug)]
pub struct Commitment {
    bytes: [u8; 32],
}

impl View for Commitment {
    type V = Seq<u8>;

    closed spec fn view(&self) -> Seq<u8> {
        self.bytes@
    }
}

/// The commitment that stands for "nothing": 32 zero bytes.
pub open spec fn zero_commitment() -> Seq<u8> {
    Seq::new(32, |i: int| 0u8)
}

/// The lower-case hexadecimal digit for a value below 16.
pub open spec fn hex_digit(value: u8) -> char {
    seq![
        '0',
        '1',
        '2',
        '3',
        '4',
        '5',
        '6',
        '7',
        '8',
        '9',
        'a',
        'b',
        'c',
        'd',
        'e',
        'f',
    ][value as int]
}

/// Bytes written in hexadecimal: two lower-case digits for each byte, the
/// high half first.
pub open spec fn hex_of(bytes: Seq<u8>) -> Seq<char> {
    Seq::new(
        2 * bytes.len(),
        |i: int|
            if i % 2 == 0 {
                hex_digit(bytes[i / 2] / 16)
            } else {
                hex_digit(bytes[i / 2] % 16)
            },
    )
}

/// What is hashed for a leaf: the leaf tag, then the payload.
pub open spec fn leaf_preimage(payload: Seq<u8>) -> Seq<u8> {
    seq![LEAF_TAG] + payload
}

/// What is hashed for an inner node: the node tag, then the left child, then
/// the right child.
pub open spec fn node_preimage(left: Seq<u8>, right: Seq<u8>) -> Seq<u8> {
    seq![NODE_TAG] + left + right
}

/// The commitment of a leaf with the given payload.
pub open spec fn spec_hash_leaf(payload: Seq<u8>) -> Seq<u8> {
    blake2b_256(leaf_preimage(payload))
}

/// The commitment of the node above two children.
pub open spec fn spec_hash_node(left: Seq<u8>, right: Seq<u8>) -> Seq<u8> {
    blake2b_256(node_preimage(left, right))
}

/// Calls `blake2b_simd::Params::hash` on parameters that are the defaults of
/// `Params::new` but for a hash length of 32, and copies out the 32 bytes of
/// `Hash::as_bytes`. Trusted: that the bytes are the BLAKE2b-256 digest of
/// `input`, a function of `input` alone.
#[verifier::external_body]
fn blake2b_256_digest(input: &[u8]) -> (digest: [u8; 32])
    ensures
        digest@ == blake2b_256(input@),
{
    let hash = blake2b_simd::Params::new().hash_length(32).hash(input);
    let mut digest = [0u8; 32];
    digest.copy_from_slice(hash.as_bytes());
    digest
}

/// The text of one hexadecimal digit.
fn digit_text(value: u8) -> (text: &'static str)
    requires
        value < 16,
    ensures
        text@ == seq![hex_digit(value)],
{
    proof {
        reveal_strlit("0");
        reveal_strlit("1");
        reveal_strlit("2");
        reveal_strlit("3");
        reveal_strlit("4");
        reveal_strlit("5");
        reveal_strlit("6");
        reveal_strlit("7");
        reveal_strlit("8");
        reveal_strlit("9");
        reveal_strlit("a");
        reveal_strlit("b");
        reveal_strlit("c");
        reveal_strlit("d");
        reveal_strlit("e");
        reveal_strlit("f");
    }
    let text = match value {
        0 => "0",
        1 => "1",
        2 => "2",
        3 => "3",
        4 => "4",
        5 => "5",
        6 => "6",
        7 => "7",
        8 => "8",
        9 => "9",
        10 => "a",
        11 => "b",
        12 => "c",
        13 => "d",
        14 => "e",
        _ => "f",
    };
    assert(text@ =~= seq![hex_digit(value)]);
    text
}

impl Commitment {
    /// The commitment in hexadecimal: 64 lower-case digits.
    pub fn to_hex(&self) -> (text: String)
        ensures
            text@ == hex_of(self@),
    {
        let mut text = String::new();
        let mut i: usize = 0;
        while i < 32
            invariant
                i <= 32,
                text@.len() == 2 * i,
                forall|k: int| 0 <= k < 2 * i ==> text@[k] == hex_of(self@)[k],
            decreases 32 - i,
        {
            let byte = self.bytes[i];
            text.append(digit_text(byte / 16));
            text.append(digit_text(byte % 16));
            i += 1;
        }
        assert(text@ =~= hex_of(self@));
        text
    }

    /// The zero commitment.
    pub fn zero() -> (c: Commitment)
        ensures
            c@ == zero_commitment(),
    {
        let c = Commitment { bytes: [0u8; 32] };
        assert(c@ =~= zero_commitment());
        c
    }

    /// The commitment with the given bytes.
    pub fn from_bytes(bytes: [u8; 32]) -> (c: Commitment)
        ensures
            c@ == bytes@,
    {
        Commitment { bytes }
    }

    /// The bytes of the commitment.
    pub fn as_bytes(&self) -> (bytes: &[u8; 32])
        ensures
            bytes@ == self@,
    {
        &self.bytes
    }

    /// Commitments with the same bytes are the same commitment.
    pub proof fn lemma_view_injective(self, other: Commitment)
        requires
            self@ == other@,
        ensures
            self == other,
    {
        assert(self.bytes =~= other.bytes);
    }

    /// Every commitment is 32 bytes long.
    pub proof fn lemma_len(self)
        ensures
            self@.len() == 32,
    {
    }
}

impl PartialEq for Commitment {
    /// Two commitments are equal when they hold the same bytes.
    fn eq(&self, other: &Commitment) -> (same: bool) {
        let mut i: usize = 0;
        while i < 32
            invariant
                i <= 32,
                forall|j: int| 0 <= j < i ==> self.bytes@[j] == other.bytes@[j],
            decreases 32 - i,
        {
            if self.bytes[i] != other.bytes[i] {
                return false;
            }
            i += 1;
        }
        assert(self.bytes@ =~= other.bytes@);
        true
    }
}

impl Eq for Commitment {

}

impl vstd::std_specs::cmp::PartialEqSpecImpl for Commitment {
    open spec fn obeys_eq_spec() -> bool {
        true
    }

    open spec fn eq_spec(&self, other: &Commitment) -> bool {
        self@ == other@
    }
}

/// Frames a payload for hashing as a leaf.
pub fn leaf_preimage_bytes(payload: &[u8]) -> (bytes: Vec<u8>)
    ensures
        bytes@ == leaf_preimage(payload@),
{
    let mut bytes: Vec<u8> = Vec::new();
    bytes.push(LEAF_TAG);
    bytes.extend_from_slice(payload);
    assert(bytes@ =~= leaf_preimage(payload@));
    bytes
}

/// Frames two commitments for hashing as the node above them.
pub fn node_preimage_bytes(left: &Commitment, right: &Commitment) -> (bytes: Vec<u8>)
    ensures
        bytes@ == node_preimage(left@, right@),
{
    let mut bytes: Vec<u8> = Vec::new();
    bytes.push(NODE_TAG);
    bytes.extend_from_slice(left.bytes.as_slice());
    bytes.extend_from_slice(right.bytes.as_slice());
    assert(bytes@ =~= node_preimage(left@, right@));
    bytes
}

/// The commitment of a leaf.
pub fn hash_leaf(payload: &[u8]) -> (c: Commitment)
    ensures
        c@ == spec_hash_leaf(payload@),
{
    let preimage = leaf_preimage_bytes(payload);
    Commitment::from_bytes(blake2b_256_digest(preimage.as_slice()))
}

/// The commitment of the node whose children are `left` and `right`, in that
/// order.
pub fn hash_node(left: &Commitment, right: &Commitment) -> (c: Commitment)
    ensures
        c@ == spec_hash_node(left@, right@),
{
    let preimage = node_preimage_bytes(left, right);
    Commitment::from_bytes(blake2b_256_digest(preimage.as_slice()))
}

} // verus!
