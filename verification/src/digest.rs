//! Content digesting for imported files: a hexadecimal SHA-256 fingerprint
//! used to recognize files that were already imported.
use vstd::prelude::*;

use sha2::Digest;

use crate::textutil::{hex_chars, hex_encode};

verus! {

/// What SHA-256 returns for a byte sequence: a pure 32-byte digest.
pub uninterp spec fn sha256_of(bytes: Seq<u8>) -> Seq<u8>;

/// Relies on `sha2::Sha256` through `Digest::digest`: a pure function of
/// the input bytes with a 32-byte result.
#[verifier::external_body]
pub(crate) fn sha256(bytes: &[u8]) -> (r: Vec<u8>)
    ensures
        r@ == sha256_of(bytes@),
        r@.len() == 32,
{
    sha2::Sha256::digest(bytes).to_vec()
}

/// The fingerprint of a file's content: its SHA-256 digest rendered as 64
/// lower-case hexadecimal characters.
pub fn hash_bytes(bytes: &[u8]) -> (r: String)
    ensures
        r@ == hex_chars(sha256_of(bytes@)),
        r@.len() == 64,
{
    let digest = sha256(bytes);
    proof {
        crate::textutil::lemma_hex_chars_len(digest@);
    }
    hex_encode(digest.as_slice())
}

} // verus!
