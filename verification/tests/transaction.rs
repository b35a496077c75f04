use ethers_wallet::rlp::DecodeError;
use ethers_wallet::transaction::{AccessList, AccessListItem, UnsignedEip1559Transaction};
use ethers_wallet::types::{Address, H256};
use ethers_wallet::u256::U256;

const DATA: &str = "a9059cbb000000000000000000000000fdae129ecc2c27d166a3131098bc05d143fa258e0000000000000000000000000000000000000000000000000000000002faf080";
const ENCODED: &str = "f862010101010194dac17f958d2ee523a2206206994597c13d831ec701b844a9059cbb000000000000000000000000fdae129ecc2c27d166a3131098bc05d143fa258e0000000000000000000000000000000000000000000000000000000002faf080c0";

fn sample() -> UnsignedEip1559Transaction {
    UnsignedEip1559Transaction {
        chain_id: U256::from_dec_str("1").unwrap(),
        gas: U256::from_dec_str("1").unwrap(),
        data: hex::decode(DATA).unwrap().to_vec(),
        nonce: U256::from_dec_str("1").unwrap(),
        to: Address::from_str("dAC17F958D2ee523a2206206994597C13D831ec7").unwrap(),
        value: U256::from_dec_str("1").unwrap(),
        access_list: AccessList(vec![]),
        max_fee_per_gas: U256::from_dec_str("1").unwrap(),
        max_priority_fee_per_gas: U256::from_dec_str("1").unwrap(),
    }
}

#[test]
fn rlp_encode() {
    let tx = sample();
    let enc = tx.rlp_bytes();
    let hexnum = hex::decode(ENCODED).unwrap();
    assert_eq!(enc, hexnum)
}

#[test]
fn rlp_decode() {
    let tx = sample();
    let hexnum = hex::decode(ENCODED).unwrap();
    let decoded_tx: UnsignedEip1559Transaction =
        UnsignedEip1559Transaction::decode(&hexnum.to_vec()).unwrap();
    assert_eq!(tx, decoded_tx)
}

#[test]
fn every_proper_prefix_is_truncated() {
    let hexnum = hex::decode(ENCODED).unwrap();
    for k in 0..hexnum.len() {
        assert_eq!(
            UnsignedEip1559Transaction::decode(&hexnum[..k]),
            Err(DecodeError::Truncated)
        );
    }
}

#[test]
fn trailing_bytes_are_refused() {
    let mut hexnum = hex::decode(ENCODED).unwrap();
    hexnum.push(0);
    assert_eq!(
        UnsignedEip1559Transaction::decode(&hexnum),
        Err(DecodeError::TrailingBytes)
    );
}

#[test]
fn access_list_round_trip() {
    let mut tx = sample();
    tx.access_list = AccessList(vec![
        AccessListItem { address: Address([7u8; 20]), storage_keys: vec![H256([1u8; 32]), H256([0u8; 32])] },
        AccessListItem { address: Address::zero(), storage_keys: vec![] },
    ]);
    tx.value = U256::from_dec_str("115792089237316195423570985008687907853269984665640564039457584007913129639935").unwrap();
    tx.nonce = U256::zero();
    let enc = tx.rlp_bytes();
    assert_eq!(UnsignedEip1559Transaction::decode(&enc), Ok(tx));
}

#[test]
fn default_transaction_is_all_zero() {
    let tx = UnsignedEip1559Transaction::default();
    assert_eq!(tx.chain_id, U256::zero());
    assert_eq!(tx.to, Address::zero());
    assert!(tx.data.is_empty());
    assert_eq!(
        hex::encode(tx.rlp_bytes()),
        "dd80808080809400000000000000000000000000000000000000008080c0"
    );
    assert_eq!(UnsignedEip1559Transaction::decode(&tx.rlp_bytes()), Ok(tx));
}
