//! The hash function of the ledger.

use crate::types::H256;
use vstd::prelude::*;

verus! {

/// The Keccak-256 digest of `data`.
pub uninterp spec fn keccak256_digest(data: Seq<u8>) -> Seq<u8>;

/// `Keccak::v256` of `tiny_keccak`, fed `data` once and finalized: the
/// result is the Keccak-256 digest of `data`, which this library knows by
/// name only.
#[verifier::external_body]
fn keccak256_raw(data: &[u8]) -> (digest: [u8; 32])
    ensures
        digest@ == keccak256_digest(data@),
{
    let mut digest = [0u8; 32];
    let mut hasher = tiny_keccak::Keccak::v256();
    tiny_keccak::Hasher::update(&mut hasher, data);
    tiny_keccak::Hasher::finalize(hasher, &mut digest);
    digest
}

/// The Keccak-256 digest of `data`: 32 bytes that depend on `data` alone.
pub fn keccak256(data: &[u8]) -> (digest: H256)
    ensures
        digest@ == keccak256_digest(data@),
{
    H256(keccak256_raw(data))
}

} // verus!
