use ethers_wallet::address::address_of;
use ethers_wallet::error::WalletError;
use ethers_wallet::hash::keccak256;
use ethers_wallet::hdkey::{
    accept_child, default_path, derive_child, derive_descendant, derive_master, derive_path,
    ExtendedPrivateKey, PathStep,
};
use ethers_wallet::mnemonic::{generate_mnemonic, mnemonic_from_entropy, phrase_to_seed};
use ethers_wallet::scalar::{is_below, is_valid_scalar, ORDER};
use ethers_wallet::signer::{
    public_key_of, recover, sign, sign_tx_with_wallet, wallet_from_private_key, Signature, Wallet,
};
use ethers_wallet::transaction::{AccessList, UnsignedEip1559Transaction};
use ethers_wallet::types::Address;
use ethers_wallet::u256::U256;
use ethers_wallet::wallet::private_key_from_mnemonic;

const ABANDON: &str = "abandon abandon abandon abandon abandon abandon abandon abandon abandon abandon abandon about";
const JUNK: &str = "test test test test test test test test test test test junk";
const JUNK_KEY_0: &str = "ac0974bec39a17e36ba4a6b4d238ff944bacb478cbed5efcae784d7bf4f2ff80";
const JUNK_ADDRESS_0: &str = "0xf39fd6e51aad88f6f4ce6ab8827279cfffb92266";
const JUNK_ADDRESS_1: &str = "0x70997970c51812dc3a010c7d01b50e0d17dc79c8";

fn sample() -> UnsignedEip1559Transaction {
    UnsignedEip1559Transaction {
        chain_id: U256::from_u64(1),
        nonce: U256::from_u64(1),
        max_priority_fee_per_gas: U256::from_u64(1),
        max_fee_per_gas: U256::from_u64(1),
        gas: U256::from_u64(1),
        to: Address::from_str("dAC17F958D2ee523a2206206994597C13D831ec7").unwrap(),
        value: U256::from_u64(1),
        data: vec![0xa9, 0x05, 0x9c, 0xbb],
        access_list: AccessList(vec![]),
    }
}

#[test]
fn keccak_of_nothing() {
    assert_eq!(
        hex::encode(keccak256(&[]).0),
        "c5d2460186f7233c927e7db2dcc703c0e500b653ca82273b7bfad8045d85a470"
    );
}

#[test]
fn keccak_of_abc() {
    assert_eq!(
        hex::encode(keccak256(b"abc").0),
        "4e03657aea45a94fc7d47ba826c8d667c0d1e6e33a64a036ec44f58fa12d6c45"
    );
}

#[test]
fn seed_of_known_phrase() {
    let seed = phrase_to_seed(ABANDON, "TREZOR").unwrap();
    assert_eq!(
        hex::encode(seed),
        "c55257c360c07c72029aebc1b53c05ed0362ada38ead3e3e9efa3708e53495531f09a6987599d18264c1e1c92f2cf141630c7a3c4ab7c81b2f001698e7463b04"
    );
}

#[test]
fn phrase_with_unknown_word() {
    let phrase = "mnemonic zoo zoo zoo zoo zoo zoo zoo zoo zoo zoo zoo";
    assert_eq!(phrase_to_seed(phrase, ""), Err(WalletError::InvalidWordlist));
}

#[test]
fn phrase_with_wrong_checksum() {
    let phrase = "zoo zone zoo zone zoo zone zoo zone zoo zone zoo zone";
    assert_eq!(phrase_to_seed(phrase, ""), Err(WalletError::InvalidChecksum));
}

#[test]
fn phrase_with_thirteen_words() {
    let phrase = "abandon abandon abandon abandon abandon abandon abandon abandon abandon abandon abandon abandon about";
    assert_eq!(phrase_to_seed(phrase, ""), Err(WalletError::InvalidEntropyLength));
}

#[test]
fn phrase_of_zero_entropy() {
    assert_eq!(mnemonic_from_entropy(&[0u8; 16]), Ok(ABANDON.to_string()));
    assert_eq!(
        mnemonic_from_entropy(&[0xffu8; 16]),
        Ok("zoo zoo zoo zoo zoo zoo zoo zoo zoo zoo zoo wrong".to_string())
    );
}

#[test]
fn entropy_of_wrong_length() {
    assert_eq!(mnemonic_from_entropy(&[0u8; 17]), Err(WalletError::InvalidEntropyLength));
    assert_eq!(mnemonic_from_entropy(&[]), Err(WalletError::InvalidEntropyLength));
}

#[test]
fn generated_phrase_is_a_phrase() {
    let phrase = generate_mnemonic();
    assert_eq!(phrase.split(' ').count(), 12);
    assert!(phrase_to_seed(&phrase, "").is_ok());
}

#[test]
fn master_key_of_known_seed() {
    let seed = phrase_to_seed(ABANDON, "TREZOR").unwrap();
    let master = derive_master(&seed).unwrap();
    assert_eq!(master.depth(), 0);
    assert_eq!(master.child_index(), 0);
    assert_eq!(master.parent_fingerprint(), [0u8; 4]);
    assert_eq!(
        master.serialize(),
        "xprv9s21ZrQH143K3h3fDYiay8mocZ3afhfULfb5GX8kCBdno77K4HiA15Tg23wpbeF1pLfs1c5SPmYHrEpTuuRhxMwvKDwqdKiGJS9XFKzUsAF"
    );
}

#[test]
fn master_key_of_short_seed() {
    assert_eq!(derive_master(&[1u8; 15]), Err(WalletError::InvalidSeedLength));
    assert_eq!(derive_path(&[], &default_path(0)), Err(WalletError::InvalidSeedLength));
    assert!(derive_master(&[1u8; 16]).is_ok());
}

#[test]
fn serialized_key_reads_back() {
    let seed = phrase_to_seed(JUNK, "").unwrap();
    let key = derive_path(&seed, &default_path(3)).unwrap();
    assert_eq!(key.depth(), 5);
    assert_eq!(key.child_index(), 3);
    assert_eq!(ExtendedPrivateKey::deserialize(&key.serialize()), Ok(key));
}

#[test]
fn text_that_is_no_key() {
    assert_eq!(ExtendedPrivateKey::deserialize(""), Err(WalletError::InvalidEncoding));
    assert_eq!(ExtendedPrivateKey::deserialize("xprv"), Err(WalletError::InvalidEncoding));
    let long = "1".repeat(111);
    assert_eq!(ExtendedPrivateKey::deserialize(&long), Err(WalletError::InvalidEncoding));
    let wrong = "xprv9s21ZrQH143K3h3fDYiay8mocZ3afhfULfb5GX8kCBdno77K4HiA15Tg23wpbeF1pLfs1c5SPmYHrEpTuuRhxMwvKDwqdKiGJS9XFKzUsAG";
    assert_eq!(ExtendedPrivateKey::deserialize(wrong), Err(WalletError::InvalidEncoding));
}

#[test]
fn default_path_has_five_steps() {
    assert_eq!(
        default_path(7),
        vec![
            PathStep { index: 44, hardened: true },
            PathStep { index: 60, hardened: true },
            PathStep { index: 0, hardened: true },
            PathStep { index: 0, hardened: false },
            PathStep { index: 7, hardened: false },
        ]
    );
}

#[test]
fn derivation_is_deterministic() {
    let seed = phrase_to_seed(JUNK, "").unwrap();
    let first = derive_path(&seed, &default_path(0)).unwrap();
    let second = derive_path(&seed, &default_path(0)).unwrap();
    assert_eq!(first, second);
    assert_eq!(hex::encode(first.private_key()), JUNK_KEY_0);
}

#[test]
fn path_is_children_one_after_the_other() {
    let seed = phrase_to_seed(JUNK, "").unwrap();
    let master = derive_master(&seed).unwrap();
    let a = derive_child(&master, 44, true).unwrap();
    let b = derive_child(&a, 60, true).unwrap();
    assert_eq!(b.child_index(), 60 + 0x8000_0000);
    assert_eq!(b.depth(), 2);
    let path = [PathStep { index: 44, hardened: true }, PathStep { index: 60, hardened: true }];
    assert_eq!(derive_descendant(&master, &path), Ok(b));
    assert_eq!(derive_descendant(&master, &[]), Ok(master));
}

#[test]
fn child_index_out_of_range() {
    let seed = phrase_to_seed(JUNK, "").unwrap();
    let master = derive_master(&seed).unwrap();
    assert_eq!(derive_child(&master, 0x8000_0000, false), Err(WalletError::InvalidChildIndex));
    assert_eq!(derive_child(&master, 0x7fff_ffff, true), Err(WalletError::InvalidChildIndex));
    assert!(derive_child(&master, 0x7fff_ffff, false).is_ok());
    assert_eq!(
        derive_path(&seed, &[PathStep { index: u32::MAX, hardened: true }]),
        Err(WalletError::InvalidChildIndex)
    );
}

#[test]
fn depth_is_bounded() {
    let deep = ExtendedPrivateKey::new([1u8; 32], [2u8; 32], 255, [0u8; 4], 0).unwrap();
    assert_eq!(derive_child(&deep, 0, false), Err(WalletError::DepthExceeded));
}

#[test]
fn child_at_another_index_is_refused() {
    let seed = phrase_to_seed(JUNK, "").unwrap();
    let master = derive_master(&seed).unwrap();
    let child = derive_child(&master, 1, false).unwrap();
    assert_eq!(accept_child(1, Some(child)), Ok(child));
    assert_eq!(accept_child(0, Some(child)), Err(WalletError::InvalidChildKey));
    assert_eq!(accept_child(0, None), Err(WalletError::InvalidChildKey));
}

#[test]
fn key_that_is_no_scalar() {
    assert_eq!(ExtendedPrivateKey::new([0u8; 32], [0u8; 32], 0, [0u8; 4], 0), None);
    assert_eq!(ExtendedPrivateKey::new(ORDER, [0u8; 32], 0, [0u8; 4], 0), None);
    assert!(!is_valid_scalar(&[0xffu8; 32]));
    let mut below = ORDER;
    below[31] -= 1;
    assert!(is_valid_scalar(&below));
    assert!(is_below(&below, &ORDER));
    assert!(!is_below(&ORDER, &ORDER));
    assert!(!is_below(&ORDER, &below));
}

#[test]
fn account_of_known_phrase() {
    let account = private_key_from_mnemonic(JUNK, 0).unwrap();
    assert_eq!(account.address, JUNK_ADDRESS_0);
    assert!(account.private_key.starts_with("xprv"));
    let wallet = wallet_from_private_key(&account.private_key).unwrap();
    assert_eq!(hex::encode(wallet.private_key()), JUNK_KEY_0);
    assert_eq!(wallet.address().to_hex_string(), JUNK_ADDRESS_0);
    assert_eq!(private_key_from_mnemonic(JUNK, 1).unwrap().address, JUNK_ADDRESS_1);
}

#[test]
fn account_of_faulty_phrase() {
    assert_eq!(private_key_from_mnemonic("zoo", 0), Err(WalletError::InvalidEntropyLength));
    let phrase = "zoo zone zoo zone zoo zone zoo zone zoo zone zoo zone";
    assert_eq!(private_key_from_mnemonic(phrase, 0), Err(WalletError::InvalidChecksum));
    assert_eq!(private_key_from_mnemonic("", 0), Err(WalletError::InvalidWordlist));
    assert_eq!(private_key_from_mnemonic(JUNK, 0x8000_0000), Err(WalletError::InvalidChildIndex));
}

#[test]
fn wallet_from_text_that_is_no_key() {
    assert_eq!(wallet_from_private_key("not a key"), Err(WalletError::InvalidEncoding));
}

#[test]
fn address_of_known_key() {
    let key = hex::decode(JUNK_KEY_0).unwrap();
    let public_key = public_key_of(&key).unwrap();
    assert_eq!(public_key[0], 0x04);
    assert_eq!(address_of(&public_key).unwrap().to_hex_string(), JUNK_ADDRESS_0);
    assert_eq!(address_of(&public_key), address_of(&public_key));
}

#[test]
fn public_key_that_is_not_uncompressed() {
    let key = hex::decode(JUNK_KEY_0).unwrap();
    let mut public_key = public_key_of(&key).unwrap();
    assert_eq!(address_of(&public_key[..64]), Err(WalletError::InvalidPublicKey));
    public_key[0] = 0x02;
    assert_eq!(address_of(&public_key), Err(WalletError::InvalidPublicKey));
    assert_eq!(address_of(&[]), Err(WalletError::InvalidPublicKey));
}

#[test]
fn signature_recovers_to_the_signer() {
    let key = hex::decode(JUNK_KEY_0).unwrap();
    let digest = keccak256(b"hello").0;
    let signature = sign(&key, &digest).unwrap();
    assert!(signature.v <= 1);
    assert_eq!(recover(&digest, &signature), Ok(public_key_of(&key).unwrap()));
    assert_eq!(sign(&key, &digest), Ok(signature));
    let other = keccak256(b"world").0;
    assert_ne!(sign(&key, &other), Ok(signature));
    assert_ne!(recover(&other, &signature), Ok(public_key_of(&key).unwrap()));
}

#[test]
fn signing_with_a_faulty_key() {
    let digest = [7u8; 32];
    assert_eq!(sign(&[1u8; 31], &digest), Err(WalletError::InvalidKeyLength));
    assert_eq!(sign(&[1u8; 33], &digest), Err(WalletError::InvalidKeyLength));
    assert_eq!(sign(&[0u8; 32], &digest), Err(WalletError::InvalidPrivateKey));
    assert_eq!(sign(&ORDER, &digest), Err(WalletError::InvalidPrivateKey));
    assert_eq!(public_key_of(&[0u8; 32]), Err(WalletError::InvalidPrivateKey));
    assert_eq!(Wallet::from_bytes(&[]), Err(WalletError::InvalidKeyLength));
}

#[test]
fn recovery_that_fails() {
    let digest = [7u8; 32];
    let zero = Signature { r: U256::zero(), s: U256::zero(), v: 0 };
    assert_eq!(recover(&digest, &zero), Err(WalletError::RecoveryFailed));
    let key = hex::decode(JUNK_KEY_0).unwrap();
    let mut signature = sign(&key, &digest).unwrap();
    signature.v = 4;
    assert_eq!(recover(&digest, &signature), Err(WalletError::RecoveryFailed));
    signature.v = 256;
    assert_eq!(recover(&digest, &signature), Err(WalletError::RecoveryFailed));
}

#[test]
fn sighash_binds_every_field() {
    let tx = sample();
    let digest = tx.sighash();
    assert_eq!(digest, keccak256(&tx.rlp_bytes()));
    let mut changed = sample();
    changed.nonce = U256::from_u64(2);
    assert_ne!(changed.sighash(), digest);
    let mut changed = sample();
    changed.data.push(0);
    assert_ne!(changed.sighash(), digest);
    let mut changed = sample();
    changed.to = Address::zero();
    assert_ne!(changed.sighash(), digest);
}

#[test]
fn wallet_signs_a_transaction() {
    let key = hex::decode(JUNK_KEY_0).unwrap();
    let wallet = Wallet::from_bytes(&key).unwrap();
    let tx = sample();
    let signature = sign_tx_with_wallet(&wallet, &tx).unwrap();
    assert_eq!(recover(&tx.sighash().0, &signature), Ok(wallet.public_key()));
    assert_eq!(wallet.sign_hash(&tx.sighash()), Ok(signature));
    let unsigned = tx.rlp_bytes();
    let signed = tx.rlp_signed(&signature);
    assert!(signed.len() > unsigned.len());
    assert_eq!(unsigned[0] as usize, 0xc0 + unsigned.len() - 1);
    assert_eq!(signed[0], 0xf8);
    assert_eq!(signed[1] as usize, signed.len() - 2);
    let body = &unsigned[1..];
    assert_eq!(&signed[2..2 + body.len()], body);
    assert_eq!(signed[2 + body.len()], if signature.v == 0 { 0x80 } else { 0x01 });
    assert_eq!(signed[3 + body.len()], 0xa0);
    assert_eq!(&signed[4 + body.len()..36 + body.len()], &signature.r.0[..]);
}
