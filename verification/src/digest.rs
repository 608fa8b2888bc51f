//! SHA-256.

use sha2::Digest;
use vstd::prelude::*;

use crate::text::{hex, hex_length, to_hex};

verus! {

/// The SHA-256 of a byte string.
pub uninterp spec fn sha256(data: Seq<u8>) -> Seq<u8>;

/// Whether SHA-256 is defined of that many bytes: their number of bits fits 64 bits.
pub open spec fn is_hashable(len: nat) -> bool {
    len < 0x2000_0000_0000_0000
}

/// Calls `sha2::Sha256::digest`. The digest is a function of the bytes, and has
/// 32 bytes itself.
#[verifier::external_body]
pub(crate) fn digest(data: &[u8]) -> (digest: Vec<u8>)
    requires
        is_hashable(data@.len()),
    ensures
        digest@ == sha256(data@),
        digest@.len() == 32,
{
    sha2::Sha256::digest(data).to_vec()
}

/// The SHA-256 of `data` in lower-case hexadecimal.
pub fn sha256_hex(data: &[u8]) -> (text: String)
    requires
        is_hashable(data@.len()),
    ensures
        text@ == hex(sha256(data@)),
        text@.len() == 64,
{
    let digest = digest(data);
    proof {
        hex_length(digest@);
    }
    to_hex(digest.as_slice())
}

} // verus!
