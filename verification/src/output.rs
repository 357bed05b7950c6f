//! Transaction outputs and their identity.

use crate::hashable::{be_bytes, digest, sha256, u64_bytes, HASH_LEN};
use vstd::prelude::*;
use vstd::string::StrSliceExecFns;
use vstd::utf8::encode_utf8;

verus! {

/// An amount payable to an address.
#[derive(Debug, Clone, PartialEq, Eq)]
pub struct Output {
    pub to_addr: crate::Address,
    pub value: u64,
}

impl Output {
    /// The bytes an output is identified by: the address in UTF-8, then the
    /// value in eight bytes, most significant first.
    pub open spec fn spec_bytes(&self) -> Seq<u8> {
        encode_utf8(self.to_addr@) + be_bytes(self.value)
    }

    /// The identity under which the output's spend status is tracked: the
    /// SHA-256 digest of its bytes.
    pub open spec fn spec_hash(&self) -> Seq<u8> {
        sha256(self.spec_bytes())
    }

    /// The bytes of the address followed by the fixed-width encoding of the
    /// value.
    pub fn bytes(&self) -> (bytes: Vec<u8>)
        ensures
            bytes@ == self.spec_bytes(),
    {
        let mut bytes = self.to_addr.as_str().as_bytes_vec();
        let encoded = u64_bytes(self.value);
        let mut i: usize = 0;
        while i < 8
            invariant
                i <= 8,
                encoded@ == be_bytes(self.value),
                bytes@ == encode_utf8(self.to_addr@) + be_bytes(self.value).take(i as int),
            decreases 8 - i,
        {
            bytes.push(encoded[i]);
            i += 1;
        }
        bytes
    }

    /// The digest of [`Output::bytes`].
    pub fn hash(&self) -> (hash: crate::Hash)
        ensures
            hash@ == self.spec_hash(),
            hash@.len() == HASH_LEN,
    {
        let bytes = self.bytes();
        digest(&bytes)
    }
}

} // verus!
