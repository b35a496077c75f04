//! Recoverable ECDSA signatures over secp256k1, and wallets that make them.
//!
//! The curve arithmetic and the deterministic choice of the nonce are those
//! of `k256`. This module checks the keys before they reach it and says what
//! is made of each outcome.

use crate::address::{address_of, address_of_key, is_uncompressed};
use crate::error::WalletError;
use crate::hash::keccak256_digest;
use crate::hdkey::{xpriv_from_base58, ExtendedPrivateKey, MIN_SERIALIZED_LEN};
use crate::rlp::{encode_list, encode_uint, push_list};
use crate::scalar::{is_valid_scalar, valid_scalar};
use crate::transaction::{encode_fields, encode_tx, push_uint, TxView, UnsignedEip1559Transaction};
use crate::types::{Address, H256};
use crate::u256::U256;
use k256::ecdsa::{RecoveryId, SigningKey, VerifyingKey};
use vstd::prelude::*;

verus! {

/// A signature with the number that tells which of the candidate public
/// keys made it.
#[derive(Clone, Copy, Debug, PartialEq, Eq)]
pub struct Signature {
    /// The first half of the signature.
    pub r: U256,
    /// The second half of the signature.
    pub s: U256,
    /// The recovery id.
    pub v: u64,
}

/// What a `Signature` holds.
pub struct SignatureView {
    pub r: Seq<u8>,
    pub s: Seq<u8>,
    pub v: u64,
}

impl View for Signature {
    type V = SignatureView;

    open spec fn view(&self) -> SignatureView {
        SignatureView { r: self.r.0@, s: self.s.0@, v: self.v }
    }
}

/// A private key that signs.
#[derive(Clone, Copy, Debug, PartialEq, Eq)]
pub struct Wallet {
    key: [u8; 32],
}

/// The uncompressed public key of a private key: 65 bytes.
pub uninterp spec fn secp256k1_public_key(key: Seq<u8>) -> Seq<u8>;

/// The deterministic signature of a private key over a digest: the two
/// halves and the recovery id, or nothing where none could be made.
pub uninterp spec fn ecdsa_signature(key: Seq<u8>, digest: Seq<u8>) -> Option<
    (Seq<u8>, Seq<u8>, u8),
>;

/// The uncompressed public key that made a signature over a digest, or
/// nothing where there is none.
pub uninterp spec fn ecdsa_recovered_key(digest: Seq<u8>, r: Seq<u8>, s: Seq<u8>, v: u8) -> Option<
    Seq<u8>,
>;

/// `SigningKey::verifying_key` and `VerifyingKey::to_encoded_point` of
/// `k256`, on a private key that was checked. Believed of them: the result
/// is the public key as an uncompressed point, 65 bytes that begin with the
/// tag `0x04`.
#[verifier::external_body]
fn public_key_raw(key: &[u8; 32]) -> (r: [u8; 65])
    requires
        valid_scalar(key@),
    ensures
        r@ == secp256k1_public_key(key@),
        is_uncompressed(r@),
{
    let signer = SigningKey::from_bytes(key.into()).unwrap();
    signer.verifying_key().to_encoded_point(false).as_bytes().try_into().unwrap()
}

/// `SigningKey::sign_prehash_recoverable` of `k256`, on a private key that
/// was checked. Believed of it: it gives a signature exactly where one could
/// be made, and the recovery id is at most 3.
#[verifier::external_body]
fn sign_raw(key: &[u8; 32], digest: &[u8; 32]) -> (r: Option<([u8; 32], [u8; 32], u8)>)
    requires
        valid_scalar(key@),
    ensures
        match r {
            Some((r, s, v)) => ecdsa_signature(key@, digest@) == Some((r@, s@, v)) && v <= 3,
            None => ecdsa_signature(key@, digest@) is None,
        },
{
    let signer = SigningKey::from_bytes(key.into()).unwrap();
    let (signature, id) = signer.sign_prehash_recoverable(digest).ok()?;
    let (r, s) = signature.split_bytes();
    Some((r.into(), s.into(), id.to_byte()))
}

/// `VerifyingKey::recover_from_prehash` of `k256`, on a signature that is
/// put together with `Signature::from_scalars` and `RecoveryId::from_byte`.
/// Believed of it: it gives a key exactly where one is recovered, as an
/// uncompressed point.
#[verifier::external_body]
fn recover_raw(digest: &[u8; 32], r: &[u8; 32], s: &[u8; 32], v: u8) -> (key: Option<[u8; 65]>)
    ensures
        match key {
            Some(k) => ecdsa_recovered_key(digest@, r@, s@, v) == Some(k@) && is_uncompressed(k@),
            None => ecdsa_recovered_key(digest@, r@, s@, v) is None,
        },
{
    let signature = k256::ecdsa::Signature::from_scalars(*r, *s).ok()?;
    let id = RecoveryId::from_byte(v)?;
    let key = VerifyingKey::recover_from_prehash(digest, &signature, id).ok()?;
    key.to_encoded_point(false).as_bytes().try_into().ok()
}

/// Copies 32 bytes into an array.
fn to_array(bytes: &[u8]) -> (r: [u8; 32])
    requires
        bytes@.len() == 32,
    ensures
        r@ == bytes@,
{
    let mut out: [u8; 32] = [0u8; 32];
    let mut i: usize = 0;
    while i < 32
        invariant
            i <= 32,
            bytes@.len() == 32,
            forall|j: int| 0 <= j < i ==> out@[j] == bytes@[j],
        decreases 32 - i,
    {
        out[i] = bytes[i];
        i += 1;
    }
    assert(out@ =~= bytes@);
    out
}

/// What is wrong with a private key, if anything: `InvalidKeyLength` where
/// it does not have 32 bytes, `InvalidPrivateKey` where it is zero or not
/// below the order of the curve.
pub open spec fn private_key_fault(private_key: Seq<u8>) -> Option<WalletError> {
    if private_key.len() != 32 {
        Some(WalletError::InvalidKeyLength)
    } else if !valid_scalar(private_key) {
        Some(WalletError::InvalidPrivateKey)
    } else {
        None
    }
}

/// What is made of the outcome of signing: the signature, or
/// `SigningFailed`.
pub open spec fn signature_of_outcome(outcome: Option<(Seq<u8>, Seq<u8>, u8)>) -> Result<
    SignatureView,
    WalletError,
> {
    match outcome {
        Some((r, s, v)) => Ok(SignatureView { r, s, v: v as u64 }),
        None => Err(WalletError::SigningFailed),
    }
}

/// The signature of `private_key` over `digest`.
pub open spec fn signature_by(private_key: Seq<u8>, digest: Seq<u8>) -> Result<
    SignatureView,
    WalletError,
> {
    match private_key_fault(private_key) {
        Some(e) => Err(e),
        None => signature_of_outcome(ecdsa_signature(private_key, digest)),
    }
}

/// The public key that made `signature` over `digest`.
pub open spec fn signer_of(digest: Seq<u8>, signature: SignatureView) -> Result<
    Seq<u8>,
    WalletError,
> {
    if signature.v > u8::MAX {
        Err(WalletError::RecoveryFailed)
    } else {
        match ecdsa_recovered_key(digest, signature.r, signature.s, signature.v as u8) {
            Some(key) => Ok(key),
            None => Err(WalletError::RecoveryFailed),
        }
    }
}

/// The encoding of a signed transaction: the list of the nine fields and,
/// behind them, the recovery id and the two halves of the signature as
/// numbers.
pub open spec fn encode_signed(tx: TxView, v: nat, r: nat, s: nat) -> Seq<u8> {
    encode_list(encode_fields(tx) + (encode_uint(v) + (encode_uint(r) + encode_uint(s))))
}

/// Checks a private key and hands it back as an array.
pub fn checked_private_key(private_key: &[u8]) -> (r: Result<[u8; 32], WalletError>)
    ensures
        match r {
            Ok(key) => private_key_fault(private_key@) is None && key@ == private_key@,
            Err(e) => private_key_fault(private_key@) == Some(e),
        },
{
    if private_key.len() != 32 {
        return Err(WalletError::InvalidKeyLength);
    }
    let key = to_array(private_key);
    if is_valid_scalar(&key) {
        Ok(key)
    } else {
        Err(WalletError::InvalidPrivateKey)
    }
}

/// The uncompressed public key of `private_key`: 65 bytes that begin with
/// the tag `0x04`.
pub fn public_key_of(private_key: &[u8]) -> (r: Result<[u8; 65], WalletError>)
    ensures
        match r {
            Ok(key) => private_key_fault(private_key@) is None && key@ == secp256k1_public_key(
                private_key@,
            ) && is_uncompressed(key@),
            Err(e) => private_key_fault(private_key@) == Some(e),
        },
{
    match checked_private_key(private_key) {
        Ok(key) => Ok(public_key_raw(&key)),
        Err(e) => Err(e),
    }
}

/// What is made of the outcome of signing: the signature, or
/// `SigningFailed` where none could be made.
pub fn accept_signature(outcome: Option<([u8; 32], [u8; 32], u8)>) -> (r: Result<
    Signature,
    WalletError,
>)
    ensures
        match r {
            Ok(sig) => outcome is Some && sig@ == (SignatureView {
                r: outcome.unwrap().0@,
                s: outcome.unwrap().1@,
                v: outcome.unwrap().2 as u64,
            }),
            Err(e) => outcome is None && e == WalletError::SigningFailed,
        },
{
    match outcome {
        Some((r, s, v)) => Ok(Signature { r: U256(r), s: U256(s), v: v as u64 }),
        None => Err(WalletError::SigningFailed),
    }
}

/// The deterministic signature of `private_key` over `digest`. Fails with
/// `InvalidKeyLength` where the key does not have 32 bytes, with
/// `InvalidPrivateKey` where it is zero or not below the order of the curve,
/// and with `SigningFailed` where no signature could be made.
pub fn sign(private_key: &[u8], digest: &[u8; 32]) -> (r: Result<Signature, WalletError>)
    ensures
        match r {
            Ok(sig) => signature_by(private_key@, digest@) == Ok::<SignatureView, WalletError>(
                sig@,
            ) && sig.v <= 3,
            Err(e) => signature_by(private_key@, digest@) == Err::<SignatureView, WalletError>(e),
        },
{
    match checked_private_key(private_key) {
        Ok(key) => accept_signature(sign_raw(&key, digest)),
        Err(e) => Err(e),
    }
}

/// The uncompressed public key that made `signature` over `digest`. Fails
/// with `RecoveryFailed` where there is none.
pub fn recover(digest: &[u8; 32], signature: &Signature) -> (r: Result<[u8; 65], WalletError>)
    ensures
        match r {
            Ok(key) => signer_of(digest@, signature@) == Ok::<Seq<u8>, WalletError>(key@)
                && is_uncompressed(key@),
            Err(e) => signer_of(digest@, signature@) == Err::<Seq<u8>, WalletError>(e),
        },
{
    if signature.v > 255 {
        return Err(WalletError::RecoveryFailed);
    }
    match recover_raw(digest, &signature.r.0, &signature.s.0, signature.v as u8) {
        Some(key) => Ok(key),
        None => Err(WalletError::RecoveryFailed),
    }
}

impl Wallet {
    /// Whether the key of the wallet is a number above zero and below the
    /// order of the curve. Every wallet that this library hands out is.
    pub closed spec fn wf(&self) -> bool {
        valid_scalar(self.key@)
    }

    /// The private key of the wallet.
    pub closed spec fn key(&self) -> Seq<u8> {
        self.key@
    }

    /// The wallet of `private_key`.
    pub fn from_bytes(private_key: &[u8]) -> (r: Result<Wallet, WalletError>)
        ensures
            match r {
                Ok(w) => private_key_fault(private_key@) is None && w.key() == private_key@
                    && w.wf(),
                Err(e) => private_key_fault(private_key@) == Some(e),
            },
    {
        match checked_private_key(private_key) {
            Ok(key) => Ok(Wallet { key }),
            Err(e) => Err(e),
        }
    }

    /// The wallet of an extended private key.
    pub fn from_extended_key(key: &ExtendedPrivateKey) -> (w: Wallet)
        requires
            key.wf(),
        ensures
            w.key() == key@.key,
            w.wf(),
    {
        Wallet { key: key.private_key() }
    }

    /// The private key of the wallet.
    pub fn private_key(&self) -> (r: [u8; 32])
        ensures
            r@ == self.key(),
    {
        self.key
    }

    /// The uncompressed public key of the wallet.
    pub fn public_key(&self) -> (r: [u8; 65])
        requires
            self.wf(),
        ensures
            r@ == secp256k1_public_key(self.key()),
            is_uncompressed(r@),
    {
        public_key_raw(&self.key)
    }

    /// The address of the account of the wallet.
    pub fn address(&self) -> (r: Address)
        requires
            self.wf(),
        ensures
            r@ == address_of_key(secp256k1_public_key(self.key())),
    {
        let public_key = self.public_key();
        match address_of(public_key.as_slice()) {
            Ok(address) => address,
            Err(_) => Address::zero(),
        }
    }

    /// The signature of the wallet over `digest`.
    pub fn sign_hash(&self, digest: &H256) -> (r: Result<Signature, WalletError>)
        requires
            self.wf(),
        ensures
            match r {
                Ok(sig) => signature_by(self.key(), digest@) == Ok::<SignatureView, WalletError>(
                    sig@,
                ) && sig.v <= 3,
                Err(e) => signature_by(self.key(), digest@) == Err::<SignatureView, WalletError>(
                    e,
                ),
            },
    {
        sign(self.key.as_slice(), &digest.0)
    }
}

/// The wallet of the extended private key that `text` spells. Fails with
/// `InvalidEncoding` where the text spells no key.
pub fn wallet_from_private_key(text: &str) -> (r: Result<Wallet, WalletError>)
    ensures
        match r {
            Ok(w) => text@.len() >= MIN_SERIALIZED_LEN && xpriv_from_base58(text@) is Some
                && w.key() == xpriv_from_base58(text@).unwrap().key && w.wf(),
            Err(e) => e == WalletError::InvalidEncoding && (text@.len() < MIN_SERIALIZED_LEN
                || xpriv_from_base58(text@) is None),
        },
{
    match ExtendedPrivateKey::deserialize(text) {
        Ok(key) => Ok(Wallet::from_extended_key(&key)),
        Err(e) => Err(e),
    }
}

/// The signature of `wallet` over the signing digest of `tx`: the digest of
/// its canonical encoding.
pub fn sign_tx_with_wallet(wallet: &Wallet, tx: &UnsignedEip1559Transaction) -> (r: Result<
    Signature,
    WalletError,
>)
    requires
        wallet.wf(),
    ensures
        match r {
            Ok(sig) => signature_by(wallet.key(), keccak256_digest(encode_tx(tx@))) == Ok::<
                SignatureView,
                WalletError,
            >(sig@) && sig.v <= 3,
            Err(e) => signature_by(wallet.key(), keccak256_digest(encode_tx(tx@))) == Err::<
                SignatureView,
                WalletError,
            >(e),
        },
{
    let digest = tx.sighash();
    wallet.sign_hash(&digest)
}

impl UnsignedEip1559Transaction {
    /// The encoding of the transaction with its signature: the nine fields
    /// and, behind them, the recovery id and the two halves of the
    /// signature.
    pub fn rlp_signed(&self, signature: &Signature) -> (out: Vec<u8>)
        ensures
            out@ == encode_signed(self@, signature.v as nat, signature.r@, signature.s@),
    {
        let mut body: Vec<u8> = Vec::new();
        self.rlp_append_fields(&mut body);
        push_uint(&mut body, &U256::from_u64(signature.v));
        push_uint(&mut body, &signature.r);
        push_uint(&mut body, &signature.s);
        assert(body@ =~= encode_fields(self@) + (encode_uint(signature.v as nat) + (encode_uint(
            signature.r@,
        ) + encode_uint(signature.s@))));
        let mut out: Vec<u8> = Vec::new();
        push_list(&mut out, body.as_slice());
        assert(out@ =~= encode_signed(self@, signature.v as nat, signature.r@, signature.s@));
        out
    }
}

} // verus!
