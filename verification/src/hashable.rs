//! Digests and the byte encodings they are taken of.

use sha2::Digest;
use vstd::prelude::*;

verus! {

/// The length of a digest, in bytes.
pub const HASH_LEN: usize = 32;

/// The SHA-256 digest of a byte string.
pub uninterp spec fn sha256(bytes: Seq<u8>) -> Seq<u8>;

/// Calls `sha2::Sha256::digest`, which hashes the whole input in one pass
/// with the crate's SHA-256 implementation. Nothing is proved of that
/// implementation: the contract gives its result the name `sha256`, which
/// says that equal inputs have equal digests, and states the output size
/// that the crate fixes for `Sha256`, 32 bytes.
#[verifier::external_body]
pub(crate) fn digest(bytes: &Vec<u8>) -> (hash: crate::Hash)
    ensures
        hash@ == sha256(bytes@),
        hash@.len() == HASH_LEN,
{
    sha2::Sha256::digest(bytes).to_vec()
}

/// The eight bytes of `value`, most significant first.
pub open spec fn be_bytes(value: u64) -> Seq<u8> {
    Seq::new(8, |i: int| (value as int / pow256((7 - i) as nat) % 256) as u8)
}

/// 256 to the power `n`.
pub open spec fn pow256(n: nat) -> int
    decreases n,
{
    if n == 0 {
        1
    } else {
        256 * pow256((n - 1) as nat)
    }
}

/// Encodes `value` in eight bytes, most significant first.
pub fn u64_bytes(value: u64) -> (bytes: [u8; 8])
    ensures
        bytes@ == be_bytes(value),
{
    let bytes: [u8; 8] = [
        (value >> 56) as u8,
        ((value >> 48) & 0xff) as u8,
        ((value >> 40) & 0xff) as u8,
        ((value >> 32) & 0xff) as u8,
        ((value >> 24) & 0xff) as u8,
        ((value >> 16) & 0xff) as u8,
        ((value >> 8) & 0xff) as u8,
        (value & 0xff) as u8,
    ];
    proof {
        reveal_with_fuel(pow256, 8);
        assert(value >> 56 == value / 0x100_0000_0000_0000 && value >> 56 < 256) by (bit_vector);
        assert((value >> 48) & 0xff == value / 0x1_0000_0000_0000 % 256) by (bit_vector);
        assert((value >> 40) & 0xff == value / 0x100_0000_0000 % 256) by (bit_vector);
        assert((value >> 32) & 0xff == value / 0x1_0000_0000 % 256) by (bit_vector);
        assert((value >> 24) & 0xff == value / 0x100_0000 % 256) by (bit_vector);
        assert((value >> 16) & 0xff == value / 0x1_0000 % 256) by (bit_vector);
        assert((value >> 8) & 0xff == value / 0x100 % 256) by (bit_vector);
        assert(value & 0xff == value % 256) by (bit_vector);
    }
    bytes
}

} // verus!
