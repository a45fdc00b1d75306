//! The content hash used for the input commitment: SHA-256 over raw bytes.

use sha2::Digest;
use vstd::prelude::*;

verus! {

/// The SHA-256 digest of a byte sequence.  Its value is a pure function of
/// the bytes alone; what that value is, is left to the outside
/// implementation, and no contract of this crate says more about it than
/// its length.
pub uninterp spec fn sha256_of(bytes: Seq<u8>) -> Seq<u8>;

/// Relies on sha2::Sha256::digest: returns the 32-byte SHA-256 digest of
/// the input, a function of the input bytes alone.
#[verifier::external_body]
pub(crate) fn sha256_digest(bytes: &Vec<u8>) -> (r: Vec<u8>)
    ensures
        r@ == sha256_of(bytes@),
        r@.len() == 32,
{
    sha2::Sha256::digest(bytes.as_slice()).to_vec()
}

} // verus!
