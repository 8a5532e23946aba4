//! The fingerprint of a model file.

use sha2::Digest;
use vstd::prelude::*;

use crate::text::{hex, to_hex};

verus! {

/// The SHA-256 digest of some bytes.
pub uninterp spec fn sha256(data: Seq<u8>) -> Seq<u8>;

/// Calls `sha2::Sha256`: `new`, `update`, `finalize`. The digest is only
/// named; it is 32 bytes long.
#[verifier::external_body]
fn sha256_of(data: &[u8]) -> (r: Vec<u8>)
    ensures
        r@ == sha256(data@),
        r@.len() == 32,
{
    let mut hasher = sha2::Sha256::new();
    hasher.update(data);
    hasher.finalize().to_vec()
}

/// The SHA-256 digest in hexadecimal.
pub fn sha256_hex(data: &[u8]) -> (r: String)
    ensures
        r@ == hex(sha256(data@)),
        r@.len() == 64,
{
    let digest = sha256_of(data);
    to_hex(digest.as_slice())
}

} // verus!
