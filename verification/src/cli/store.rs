//! The content-addressed store that keeps a bundle's external items: each
//! item is a file of one directory named by the lowercase hexadecimal
//! SHA-256 of its bytes. Only such names are resolved, so no reference can
//! name a path outside the store. The file system itself is the host's.
use vstd::prelude::*;

use vstd::string::StringSliceAdditionalSpecFns;
use vstd::utf8::encode_utf8;

use crate::canonical::{content_reference, hex_bytes, sha256};
use crate::ids::is_lower_hex;

verus! {

/// A name the store resolves: exactly 64 lowercase hexadecimal digits.
pub open spec fn is_reference_bytes(r: Seq<u8>) -> bool {
    r.len() == 64 && forall|i: int| 0 <= i < 64 ==> is_lower_hex(#[trigger] r[i])
}

/// Resolves opaque references as files of one store directory.
#[derive(Debug, Clone, PartialEq, Eq)]
pub struct Store {
    pub dir: String,
}

/// Whether `r` names an item of the store.
pub fn is_reference(r: &str) -> (b: bool)
    ensures
        b == is_reference_bytes(r.spec_bytes()),
{
    let bytes = r.as_bytes();
    if bytes.len() != 64 {
        return false;
    }
    let mut i: usize = 0;
    while i < 64
        invariant
            bytes@ == r.spec_bytes(),
            bytes@.len() == 64,
            i <= 64,
            forall|k: int| 0 <= k < i ==> is_lower_hex(#[trigger] bytes@[k]),
        decreases 64 - i,
    {
        let c = bytes[i];
        if !((48u8 <= c && c <= 57u8) || (97u8 <= c && c <= 102u8)) {
            return false;
        }
        i = i + 1;
    }
    true
}

impl Store {
    /// The reference the store keeps `bytes` under: the lowercase
    /// hexadecimal SHA-256 of the bytes, a name the store resolves.
    pub fn reference_for(bytes: &[u8]) -> (r: String)
        ensures
            encode_utf8(r@) == hex_bytes(sha256(bytes@)),
            is_reference_bytes(encode_utf8(r@)),
    {
        content_reference(bytes)
    }
}

} // verus!
