//! Mnemonic phrases: from fresh entropy to a phrase, and from a phrase to the
//! seed of a wallet.
//!
//! The word list, the checksum and the stretching of the phrase into a seed
//! are those of `coins_bip39`. Fresh entropy is drawn in one place only, for
//! a new phrase; everything else is a function of its arguments.

use crate::error::WalletError;
use coins_bip39::{English, Entropy, Mnemonic, MnemonicError};
use vstd::prelude::*;

verus! {

/// Bytes of entropy behind a phrase of twelve words.
pub const DEFAULT_ENTROPY_LEN: usize = 16;

/// What is wrong with a phrase, if anything: a word that is not in the
/// English word list, a checksum that does not fit, or a number of words
/// that no phrase has.
pub uninterp spec fn bip39_phrase_fault(phrase: Seq<char>) -> Option<WalletError>;

/// The seed of 64 bytes that a phrase and a passphrase are stretched into.
pub uninterp spec fn bip39_seed(phrase: Seq<char>, passphrase: Seq<char>) -> Seq<u8>;

/// The phrase that spells the entropy, with its checksum.
pub uninterp spec fn bip39_phrase(entropy: Seq<u8>) -> Seq<char>;

/// The numbers of bytes of entropy that a phrase can spell.
pub open spec fn valid_entropy_len(len: nat) -> bool {
    len == 16 || len == 20 || len == 24 || len == 28 || len == 32
}

/// `Mnemonic::<English>::new_from_phrase` of `coins_bip39`, for its verdict
/// only: which of its errors it gives for the phrase, if any.
#[verifier::external_body]
fn check_phrase(phrase: &str) -> (r: Option<WalletError>)
    ensures
        r == bip39_phrase_fault(phrase@),
{
    match Mnemonic::<English>::new_from_phrase(phrase) {
        Ok(_) => None,
        Err(MnemonicError::WordlistError(_)) => Some(WalletError::InvalidWordlist),
        Err(MnemonicError::InvalidPhrase(_)) => Some(WalletError::InvalidChecksum),
        Err(_) => Some(WalletError::InvalidEntropyLength),
    }
}

/// `Mnemonic::to_seed` of `coins_bip39`, on a phrase that was found
/// faultless: the seed, which this library knows by name only.
#[verifier::external_body]
fn seed_of_phrase(phrase: &str, passphrase: &str) -> (seed: [u8; 64])
    requires
        bip39_phrase_fault(phrase@) is None,
    ensures
        seed@ == bip39_seed(phrase@, passphrase@),
{
    let mnemonic = Mnemonic::<English>::new_from_phrase(phrase).unwrap();
    mnemonic.to_seed(Some(passphrase)).unwrap()
}

/// `Mnemonic::to_phrase` of `coins_bip39`, on entropy of one of the five
/// lengths: the phrase, which this library knows by name only.
#[verifier::external_body]
fn phrase_of_entropy(entropy: &[u8]) -> (phrase: String)
    requires
        valid_entropy_len(entropy@.len()),
    ensures
        phrase@ == bip39_phrase(entropy@),
{
    Mnemonic::<English>::new_from_entropy(Entropy::from_slice(entropy).unwrap()).to_phrase()
}

/// `rand::random` of `rand`: sixteen bytes from the generator of the thread.
/// Nothing is known of them.
#[verifier::external_body]
fn fresh_entropy() -> [u8; 16] {
    rand::random()
}

/// The seed of the wallet that `phrase` stands for, under `passphrase`.
/// The words of the phrase are separated by single spaces. Fails with
/// `InvalidWordlist` where a word is not in the word list, with
/// `InvalidChecksum` where the checksum does not fit, and with
/// `InvalidEntropyLength` where no phrase has this many words.
pub fn phrase_to_seed(phrase: &str, passphrase: &str) -> (r: Result<[u8; 64], WalletError>)
    ensures
        match r {
            Ok(seed) => bip39_phrase_fault(phrase@) is None && seed@ == bip39_seed(
                phrase@,
                passphrase@,
            ),
            Err(e) => bip39_phrase_fault(phrase@) == Some(e),
        },
{
    match check_phrase(phrase) {
        None => Ok(seed_of_phrase(phrase, passphrase)),
        Some(e) => Err(e),
    }
}

/// The phrase that spells `entropy`. Fails with `InvalidEntropyLength`
/// where the entropy does not have 16, 20, 24, 28 or 32 bytes.
pub fn mnemonic_from_entropy(entropy: &[u8]) -> (r: Result<String, WalletError>)
    ensures
        r is Ok <==> valid_entropy_len(entropy@.len()),
        r is Ok ==> r.unwrap()@ == bip39_phrase(entropy@),
        r is Err ==> r == Err::<String, WalletError>(WalletError::InvalidEntropyLength),
{
    let len: usize = entropy.len();
    if len == 16 || len == 20 || len == 24 || len == 28 || len == 32 {
        Ok(phrase_of_entropy(entropy))
    } else {
        Err(WalletError::InvalidEntropyLength)
    }
}

/// A new phrase of twelve words: the phrase of sixteen fresh bytes. This is
/// the one function of the library whose result is not decided by its
/// arguments.
pub fn generate_mnemonic() -> (phrase: String)
    ensures
        exists|entropy: Seq<u8>|
            entropy.len() == DEFAULT_ENTROPY_LEN && phrase@ == #[trigger] bip39_phrase(entropy),
{
    let entropy = fresh_entropy();
    phrase_of_entropy(entropy.as_slice())
}

} // verus!
