//! SHA-256, computed by the `sha2` crate.

use sha2::Digest;
use sha2::Sha256;
use vstd::prelude::*;

verus! {

/// The SHA-256 digest of `input`.
pub uninterp spec fn sha256(input: Seq<u8>) -> Seq<u8>;

/// Runs `sha2::Sha256` over `input`: `Digest::new`, one `Digest::update` with
/// the whole input, then `Digest::finalize`.
///
/// Not proved: that the bytes handed back are the SHA-256 digest of `input`,
/// a function of the input alone, and that there are 32 of them, the output
/// size that `sha2` fixes for `Sha256`.
#[verifier::external_body]
pub(crate) fn sha256_bytes(input: &[u8]) -> (out: Vec<u8>)
    ensures
        out@ == sha256(input@),
        out@.len() == 32,
{
    let mut hasher = Sha256::new();
    hasher.update(input);
    hasher.finalize().to_vec()
}

} // verus!
