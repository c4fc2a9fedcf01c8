//! The content-identifier digest.
//!
//! A content identifier may be arbitrarily long; before it enters address
//! derivation it is reduced to a fixed 32-byte cryptographic digest, so the
//! derivation input stays bounded regardless of the identifier's length.

use vstd::prelude::*;
use sha2::Digest;

verus! {

/// The 32-byte digest that the hash function assigns to a character
/// sequence. The digest is a function of the characters alone.
pub uninterp spec fn sha256_of(s: Seq<char>) -> Seq<u8>;

/// Digests a content identifier to a fixed 32-byte value.
///
/// Relies on `sha2::Sha256` (through `sha2::Digest::digest`): the digest is
/// deterministic, depends on the input bytes alone, and is 32 bytes long.
#[verifier::external_body]
pub fn hash_ipfs(ipfs: &str) -> (r: [u8; 32])
    ensures
        r@ == sha256_of(ipfs@),
        r@.len() == 32,
{
    let out = sha2::Sha256::digest(ipfs.as_bytes());
    out.into()
}

} // verus!
