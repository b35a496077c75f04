//! From a mnemonic phrase to the key and the address of an account.

use crate::address::address_of_key;
use crate::error::WalletError;
use crate::hdkey::{default_path, default_path_to, derive_path, path_key, xpriv_base58};
use crate::mnemonic::{bip39_phrase_fault, bip39_seed, phrase_to_seed};
use crate::signer::{secp256k1_public_key, Wallet};
use crate::types::hex_text;
use vstd::prelude::*;

verus! {

/// The key of an account in its text form, and the address of the account.
#[derive(Clone, Debug, PartialEq, Eq)]
pub struct PrivateKey {
    /// The extended private key: base 58 with a checksum.
    pub private_key: String,
    /// The address: `0x` and 40 lower-case hexadecimal digits.
    pub address: String,
}

/// What a `PrivateKey` holds.
pub struct PrivateKeyView {
    pub private_key: Seq<char>,
    pub address: Seq<char>,
}

impl View for PrivateKey {
    type V = PrivateKeyView;

    open spec fn view(&self) -> PrivateKeyView {
        PrivateKeyView { private_key: self.private_key@, address: self.address@ }
    }
}

/// The account at `index` of the wallet that `phrase` stands for, without a
/// passphrase: the key at the end of the default path, and the address of
/// its public key.
pub open spec fn account_of(phrase: Seq<char>, index: u32) -> Result<PrivateKeyView, WalletError> {
    match bip39_phrase_fault(phrase) {
        Some(e) => Err(e),
        None => match path_key(bip39_seed(phrase, Seq::empty()), default_path_to(index)) {
            Ok(key) => Ok(
                PrivateKeyView {
                    private_key: xpriv_base58(key),
                    address: hex_text(address_of_key(secp256k1_public_key(key.key))),
                },
            ),
            Err(e) => Err(e),
        },
    }
}

/// The account at `index` of the wallet that `phrase` stands for: its
/// extended private key at `m/44'/60'/0'/0/index`, and its address. Fails
/// as the phrase or the derivation fails.
pub fn private_key_from_mnemonic(phrase: &str, index: u32) -> (r: Result<PrivateKey, WalletError>)
    ensures
        match r {
            Ok(account) => account_of(phrase@, index) == Ok::<PrivateKeyView, WalletError>(
                account@,
            ),
            Err(e) => account_of(phrase@, index) == Err::<PrivateKeyView, WalletError>(e),
        },
{
    proof {
        reveal_strlit("");
        assert(""@ =~= Seq::<char>::empty());
    }
    let seed = match phrase_to_seed(phrase, "") {
        Ok(seed) => seed,
        Err(e) => {
            return Err(e);
        },
    };
    let path = default_path(index);
    let key = match derive_path(seed.as_slice(), path.as_slice()) {
        Ok(key) => key,
        Err(e) => {
            return Err(e);
        },
    };
    let private_key = key.serialize();
    let address = Wallet::from_extended_key(&key).address().to_hex_string();
    Ok(PrivateKey { private_key, address })
}

} // verus!
