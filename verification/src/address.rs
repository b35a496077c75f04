//! From a public key to the address of its account.

use crate::error::WalletError;
use crate::hash::{keccak256, keccak256_digest};
use crate::types::Address;
use vstd::prelude::*;
use vstd::slice::slice_subrange;

verus! {

/// Number of bytes in an uncompressed public key: the tag, and two
/// coordinates of 32 bytes.
pub const PUBLIC_KEY_LEN: usize = 65;

/// The tag byte in front of an uncompressed point.
pub const UNCOMPRESSED_TAG: u8 = 0x04;

/// Whether `public_key` has the form of an uncompressed point.
pub open spec fn is_uncompressed(public_key: Seq<u8>) -> bool {
    public_key.len() == PUBLIC_KEY_LEN && public_key[0] == UNCOMPRESSED_TAG
}

/// The address of the account of `public_key`: the last 20 bytes of the
/// Keccak-256 digest of the two coordinates.
pub open spec fn address_of_key(public_key: Seq<u8>) -> Seq<u8> {
    keccak256_digest(public_key.skip(1)).skip(12)
}

/// The address of the account that the uncompressed public key
/// `public_key` controls. Fails with `InvalidPublicKey` where the key does
/// not have 65 bytes or does not begin with the tag of an uncompressed point.
pub fn address_of(public_key: &[u8]) -> (r: Result<Address, WalletError>)
    ensures
        r is Ok <==> is_uncompressed(public_key@),
        r is Ok ==> r.unwrap()@ == address_of_key(public_key@),
        r is Err ==> r == Err::<Address, WalletError>(WalletError::InvalidPublicKey),
{
    if public_key.len() != PUBLIC_KEY_LEN || public_key[0] != UNCOMPRESSED_TAG {
        return Err(WalletError::InvalidPublicKey);
    }
    let digest = keccak256(slice_subrange(public_key, 1, PUBLIC_KEY_LEN));
    assert(public_key@.subrange(1, PUBLIC_KEY_LEN as int) =~= public_key@.skip(1));
    let mut out: [u8; 20] = [0u8; 20];
    let mut i: usize = 0;
    while i < 20
        invariant
            i <= 20,
            forall|j: int| 0 <= j < i ==> out@[j] == digest.0@[12 + j],
        decreases 20 - i,
    {
        out[i] = digest.0[12 + i];
        i += 1;
    }
    assert(out@ =~= digest.0@.skip(12));
    Ok(Address(out))
}

} // verus!
