//! The SHA3-256 hash function, provided by the `sha3` crate.

use vstd::prelude::*;

use sha3::Digest;

verus! {

/// The SHA3-256 digest of a byte sequence, as the `sha3` crate computes it.
pub uninterp spec fn sha3_256(data: Seq<u8>) -> Seq<u8>;

/// Calls `<sha3::Sha3_256 as Digest>::digest`, which creates a fresh hasher,
/// absorbs `data` and finalizes. Trusted: the result is the SHA3-256 digest
/// of `data` (a function of `data` alone), 32 bytes long.
#[verifier::external_body]
pub(crate) fn sha3_256_digest(data: &[u8]) -> (out: [u8; 32])
    ensures
        out@ == sha3_256(data@),
{
    sha3::Sha3_256::digest(data).into()
}

} // verus!
