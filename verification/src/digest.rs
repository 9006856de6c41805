//! The two hash functions the operator relies on.

use vstd::prelude::*;

verus! {

/// The Keccak-256 digest of `data`.
pub uninterp spec fn keccak256_of(data: Seq<u8>) -> Seq<u8>;

/// The SHA-256 digest of `data`.
pub uninterp spec fn sha256_of(data: Seq<u8>) -> Seq<u8>;

/// Calls `alloy_primitives::utils::Keccak256`: a fresh hasher, one `update` with `data`, then
/// `finalize`. The contract claims that the 32 bytes are a function of `data` alone, which
/// [`keccak256_of`] names.
#[verifier::external_body]
pub(crate) fn keccak256(data: &[u8]) -> (digest: [u8; 32])
    ensures
        digest@ == keccak256_of(data@),
{
    let mut hasher = alloy_primitives::utils::Keccak256::new();
    hasher.update(data);
    hasher.finalize().0
}

/// Calls `sha2::Sha256::digest` (of the trait `sha2::Digest`). The contract claims that the 32
/// bytes are a function of `data` alone, which [`sha256_of`] names.
#[verifier::external_body]
pub(crate) fn sha256(data: &[u8]) -> (digest: [u8; 32])
    ensures
        digest@ == sha256_of(data@),
{
    <sha2::Sha256 as sha2::Digest>::digest(data).into()
}

} // verus!
