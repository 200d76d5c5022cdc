//! SHA-256, as the `sha2` crate computes it.
use vstd::prelude::*;

use sha2::Digest;

verus! {

/// The SHA-256 digest of `data` (`sha2::Sha256`).
pub uninterp spec fn sha256_digest(data: Seq<u8>) -> Seq<u8>;

/// `Sha256::digest`: the 32-byte SHA-256 digest of `data`, which is a
/// function of `data` alone.
#[verifier::external_body]
pub(crate) fn sha256(data: &[u8]) -> (r: Vec<u8>)
    ensures
        r@ == sha256_digest(data@),
        r@.len() == 32,
{
    sha2::Sha256::digest(data).to_vec()
}

} // verus!
