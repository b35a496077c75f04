//! Wallet core for an account-based ledger: the canonical transaction
//! encoding, its signing hash, hierarchical key derivation from a mnemonic
//! phrase, address derivation and recoverable ECDSA signatures.
//!
//! The encoding and every rule around the cryptographic primitives are proved
//! against the contracts stated on each function. The primitives themselves
//! (Keccak-256, BIP-39, BIP-32, secp256k1) are called from the crates that
//! implement them; what is believed of each is written on its wrapper.

pub mod address;
pub mod bigendian;
pub mod decoding;
pub mod error;
pub mod hash;
pub mod hdkey;
pub mod laws;
pub mod mnemonic;
pub mod rlp;
pub mod scalar;
pub mod signer;
pub mod transaction;
pub mod types;
pub mod u256;
pub mod wallet;
