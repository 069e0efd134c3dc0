//! SHA3-256 as the protocol's hash.

use vstd::prelude::*;

verus! {

/// The SHA3-256 digest of `data`, 32 bytes.
pub uninterp spec fn sha3_256_digest(data: Seq<u8>) -> Seq<u8>;

/// Calls `sha3::Sha3_256::digest`, which absorbs `data` into a fresh hasher
/// and squeezes the 32-byte digest. The digest depends on `data` alone.
#[verifier::external_body]
pub(crate) fn sha3_256(data: &[u8]) -> (digest: [u8; 32])
    ensures
        digest@ == sha3_256_digest(data@),
{
    <sha3::Sha3_256 as sha3::Digest>::digest(data).into()
}

} // verus!
