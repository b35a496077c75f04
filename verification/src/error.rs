//! The failures of key handling and signing.

use vstd::prelude::*;

verus! {

/// Why an operation on mnemonics, keys or signatures failed. Nothing is
/// retried behind the caller's back, and no secret is part of an error.
#[derive(Clone, Copy, Debug, PartialEq, Eq)]
pub enum WalletError {
    /// A word of the phrase is not in the word list.
    InvalidWordlist,
    /// The checksum that the phrase carries does not fit its other bits.
    InvalidChecksum,
    /// The phrase, or the entropy for a phrase, has a length that no
    /// mnemonic has.
    InvalidEntropyLength,
    /// The seed has fewer than 16 bytes.
    InvalidSeedLength,
    /// The scalar derived for this child is zero or not below the order of
    /// the curve. The caller may go on with the next index.
    InvalidChildKey,
    /// The index is not below 2 to the 31, or it is the last hardened index,
    /// for which there is no next one to go on with.
    InvalidChildIndex,
    /// The parent is already 255 levels below the master key.
    DepthExceeded,
    /// The text is not a serialized extended private key.
    InvalidEncoding,
    /// The public key is not 65 bytes that begin with the tag of an
    /// uncompressed point.
    InvalidPublicKey,
    /// The private key does not have 32 bytes.
    InvalidKeyLength,
    /// The private key is zero or not below the order of the curve.
    InvalidPrivateKey,
    /// No signature could be made.
    SigningFailed,
    /// No public key could be recovered from the signature.
    RecoveryFailed,
}

} // verus!
