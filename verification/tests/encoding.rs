use ethers_wallet::rlp::{be_bytes_of, decode_item, push_list, push_str, DecodeError, ItemSpan};
use ethers_wallet::transaction::{
    push_uint, AccessList, AccessListItem, UnsignedEip1559Transaction,
};
use ethers_wallet::types::{from_hex, to_hex, Address, HexError, H256};
use ethers_wallet::u256::{FromDecStrErr, U256};

fn string(payload: &[u8]) -> Vec<u8> {
    let mut out = Vec::new();
    push_str(&mut out, payload);
    out
}

fn list(payload: &[u8]) -> Vec<u8> {
    let mut out = Vec::new();
    push_list(&mut out, payload);
    out
}

fn number(n: u64) -> Vec<u8> {
    let mut out = Vec::new();
    push_uint(&mut out, &U256::from_u64(n));
    out
}

fn sample() -> UnsignedEip1559Transaction {
    UnsignedEip1559Transaction {
        chain_id: U256::from_u64(5),
        nonce: U256::zero(),
        max_priority_fee_per_gas: U256::from_u64(1_500_000_000),
        max_fee_per_gas: U256::from_u64(30_000_000_000),
        gas: U256::from_u64(21_000),
        to: Address([0x11; 20]),
        value: U256::from_u64(1_000_000_000_000_000_000),
        data: vec![0u8; 60],
        access_list: AccessList(vec![AccessListItem {
            address: Address([0x22; 20]),
            storage_keys: vec![H256([0x33; 32]), H256([0x44; 32])],
        }]),
    }
}

#[test]
fn strings_of_every_form() {
    assert_eq!(string(&[]), vec![0x80]);
    assert_eq!(string(&[0x00]), vec![0x00]);
    assert_eq!(string(&[0x7f]), vec![0x7f]);
    assert_eq!(string(&[0x80]), vec![0x81, 0x80]);
    assert_eq!(string(b"dog"), vec![0x83, b'd', b'o', b'g']);
    let long = vec![0xaa; 55];
    assert_eq!(string(&long)[0], 0xb7);
    assert_eq!(string(&long).len(), 56);
    let longer = vec![0xaa; 56];
    assert_eq!(&string(&longer)[..2], &[0xb8, 56]);
    let longest = vec![0xaa; 1024];
    assert_eq!(&string(&longest)[..3], &[0xb9, 0x04, 0x00]);
    assert_eq!(string(&longest).len(), 1027);
}

#[test]
fn lists_of_every_form() {
    assert_eq!(list(&[]), vec![0xc0]);
    assert_eq!(list(&[0x01, 0x02]), vec![0xc2, 0x01, 0x02]);
    assert_eq!(list(&vec![0x01; 55])[0], 0xf7);
    assert_eq!(&list(&vec![0x01; 56])[..2], &[0xf8, 56]);
    assert_eq!(&list(&vec![0x01; 256])[..3], &[0xf9, 0x01, 0x00]);
}

#[test]
fn numbers_are_minimal() {
    assert_eq!(number(0), vec![0x80]);
    assert_eq!(number(1), vec![0x01]);
    assert_eq!(number(127), vec![0x7f]);
    assert_eq!(number(128), vec![0x81, 0x80]);
    assert_eq!(number(1024), vec![0x82, 0x04, 0x00]);
    assert_eq!(be_bytes_of(0), Vec::<u8>::new());
    assert_eq!(be_bytes_of(0x0102_0304), vec![1, 2, 3, 4]);
    assert_eq!(be_bytes_of(u64::MAX), vec![0xff; 8]);
}

#[test]
fn items_are_taken_apart() {
    let buf = [0x83, b'd', b'o', b'g', 0xc0];
    assert_eq!(decode_item(&buf, 0, 5), Ok(ItemSpan { list: false, start: 1, end: 4 }));
    assert_eq!(decode_item(&buf, 4, 5), Ok(ItemSpan { list: true, start: 5, end: 5 }));
    assert_eq!(decode_item(&buf, 0, 3), Err(DecodeError::Truncated));
    assert_eq!(decode_item(&buf, 5, 5), Err(DecodeError::Truncated));
    assert_eq!(decode_item(&[0x05], 0, 1), Ok(ItemSpan { list: false, start: 0, end: 1 }));
}

#[test]
fn lengths_that_are_not_minimal() {
    assert_eq!(decode_item(&[0x81, 0x05], 0, 2), Err(DecodeError::Malformed));
    assert_eq!(decode_item(&[0x81, 0x80], 0, 2), Ok(ItemSpan { list: false, start: 1, end: 2 }));
    let mut short_as_long = vec![0xb8, 0x03];
    short_as_long.extend_from_slice(b"dog");
    assert_eq!(decode_item(&short_as_long, 0, 5), Err(DecodeError::Malformed));
    let mut leading_zero = vec![0xb9, 0x00, 0x38];
    leading_zero.extend_from_slice(&[0u8; 56]);
    assert_eq!(decode_item(&leading_zero, 0, leading_zero.len()), Err(DecodeError::Malformed));
    let mut list_as_long = vec![0xf8, 0x01, 0x01];
    assert_eq!(decode_item(&list_as_long, 0, 3), Err(DecodeError::Malformed));
    list_as_long.truncate(1);
    assert_eq!(decode_item(&list_as_long, 0, 1), Err(DecodeError::Truncated));
    assert_eq!(
        decode_item(&[0xbf, 0xff, 0xff, 0xff, 0xff, 0xff, 0xff, 0xff, 0xff], 0, 9),
        Err(DecodeError::Truncated)
    );
}

#[test]
fn encoding_agrees_with_rlp() {
    let tx = sample();
    let mut s = rlp::RlpStream::new_list(9);
    s.append(&5u64);
    s.append(&0u64);
    s.append(&1_500_000_000u64);
    s.append(&30_000_000_000u64);
    s.append(&21_000u64);
    s.append(&vec![0x11u8; 20]);
    s.append(&1_000_000_000_000_000_000u64);
    s.append(&vec![0u8; 60]);
    s.begin_list(1);
    s.begin_list(2);
    s.append(&vec![0x22u8; 20]);
    s.begin_list(2);
    s.append(&vec![0x33u8; 32]);
    s.append(&vec![0x44u8; 32]);
    assert_eq!(tx.rlp_bytes(), s.out().to_vec());
    assert_eq!(UnsignedEip1559Transaction::decode(&tx.rlp_bytes()), Ok(tx));
}

#[test]
fn decoding_agrees_with_rlp() {
    let encoded = sample().rlp_bytes();
    let r = rlp::Rlp::new(&encoded);
    assert_eq!(r.item_count(), Ok(9));
    assert_eq!(r.val_at::<u64>(4), Ok(21_000));
    assert_eq!(r.val_at::<Vec<u8>>(7), Ok(vec![0u8; 60]));
    assert_eq!(r.at(8).unwrap().at(0).unwrap().at(1).unwrap().item_count(), Ok(2));
}

#[test]
fn every_prefix_of_a_long_encoding_is_truncated() {
    let mut tx = sample();
    tx.data = vec![0x5a; 300];
    let encoded = tx.rlp_bytes();
    assert!(encoded.len() > 255);
    assert_eq!(UnsignedEip1559Transaction::decode(&encoded), Ok(tx));
    for k in 0..encoded.len() {
        assert_eq!(
            UnsignedEip1559Transaction::decode(&encoded[..k]),
            Err(DecodeError::Truncated)
        );
    }
}

fn fields_behind(first: Vec<u8>, last: Vec<u8>) -> Vec<u8> {
    let mut fields = first;
    for n in 1..5u64 {
        fields.extend(number(n));
    }
    fields.extend(string(&[0x11; 20]));
    fields.extend(number(6));
    fields.extend(string(&[]));
    fields.extend(last);
    list(&fields)
}

#[test]
fn fields_that_are_not_canonical() {
    assert!(UnsignedEip1559Transaction::decode(&fields_behind(number(5), list(&[]))).is_ok());
    assert_eq!(UnsignedEip1559Transaction::decode(&string(b"dog")), Err(DecodeError::Malformed));
    assert_eq!(UnsignedEip1559Transaction::decode(&list(&[])), Err(DecodeError::Malformed));
    let mut eight = Vec::new();
    for n in 0..8u64 {
        eight.extend(number(n));
    }
    assert_eq!(UnsignedEip1559Transaction::decode(&list(&eight)), Err(DecodeError::Malformed));
    let mut ten = list(&[]);
    ten.push(0x80);
    assert_eq!(
        UnsignedEip1559Transaction::decode(&fields_behind(number(5), ten)),
        Err(DecodeError::Malformed)
    );
    assert_eq!(
        UnsignedEip1559Transaction::decode(&fields_behind(vec![0x82, 0x00, 0x05], list(&[]))),
        Err(DecodeError::Malformed)
    );
    assert_eq!(
        UnsignedEip1559Transaction::decode(&fields_behind(vec![0x81, 0x05], list(&[]))),
        Err(DecodeError::Malformed)
    );
    assert_eq!(
        UnsignedEip1559Transaction::decode(&fields_behind(string(&[1u8; 33]), list(&[]))),
        Err(DecodeError::Malformed)
    );
    assert_eq!(
        UnsignedEip1559Transaction::decode(&fields_behind(list(&[]), list(&[]))),
        Err(DecodeError::Malformed)
    );
    assert_eq!(
        UnsignedEip1559Transaction::decode(&fields_behind(number(5), string(&[]))),
        Err(DecodeError::Malformed)
    );
    assert_eq!(
        UnsignedEip1559Transaction::decode(&fields_behind(number(5), list(&string(&[0x22; 20])))),
        Err(DecodeError::Malformed)
    );
    let good = sample().rlp_bytes();
    let mut two = good.clone();
    two.extend_from_slice(&good);
    assert_eq!(UnsignedEip1559Transaction::decode(&two), Err(DecodeError::TrailingBytes));
}

#[test]
fn short_address_is_refused() {
    let mut fields = Vec::new();
    for _ in 0..5 {
        fields.extend(number(1));
    }
    fields.extend(string(&[0x11; 19]));
    fields.extend(number(1));
    fields.extend(string(&[]));
    fields.extend(list(&[]));
    assert_eq!(UnsignedEip1559Transaction::decode(&list(&fields)), Err(DecodeError::Malformed));
}

#[test]
fn decimal_numbers() {
    assert_eq!(U256::from_dec_str("0"), Ok(U256::zero()));
    assert_eq!(U256::from_dec_str(""), Ok(U256::zero()));
    assert_eq!(U256::from_dec_str("0001"), Ok(U256::from_u64(1)));
    assert_eq!(U256::from_dec_str("18446744073709551615"), Ok(U256::from_u64(u64::MAX)));
    assert_eq!(
        U256::from_dec_str(
            "115792089237316195423570985008687907853269984665640564039457584007913129639935"
        ),
        Ok(U256([0xff; 32]))
    );
    assert_eq!(
        U256::from_dec_str(
            "115792089237316195423570985008687907853269984665640564039457584007913129639936"
        ),
        Err(FromDecStrErr::InvalidLength)
    );
    assert_eq!(U256::from_dec_str("12a"), Err(FromDecStrErr::InvalidCharacter));
    assert_eq!(U256::from_dec_str("-1"), Err(FromDecStrErr::InvalidCharacter));
    assert!(U256::zero().is_zero());
    assert!(!U256::from_u64(1).is_zero());
}

#[test]
fn numbers_and_bytes() {
    assert_eq!(U256::from_u64(0x0102).to_minimal_bytes(), vec![1, 2]);
    assert_eq!(U256::zero().to_minimal_bytes(), Vec::<u8>::new());
    assert_eq!(U256::from_big_endian(&[0, 0, 1, 2]), Some(U256::from_u64(0x0102)));
    assert_eq!(U256::from_big_endian(&[]), Some(U256::zero()));
    assert_eq!(U256::from_big_endian(&[1u8; 33]), None);
    assert_eq!(U256::from_u64(1).to_big_endian()[31], 1);
}

#[test]
fn addresses_as_text() {
    let address = Address::from_str("dAC17F958D2ee523a2206206994597C13D831ec7").unwrap();
    assert_eq!(address.to_hex_string(), "0xdac17f958d2ee523a2206206994597c13d831ec7");
    assert_eq!(Address::from_str("0xdac17f958d2ee523a2206206994597c13d831ec7"), Ok(address));
    assert_eq!(Address::from_str(&address.to_hex_string()), Ok(address));
    assert_eq!(Address::from_str("0xdac17f"), Err(HexError::InvalidLength));
    assert_eq!(Address::from_str(""), Err(HexError::InvalidLength));
    assert_eq!(
        Address::from_str("0xgac17f958d2ee523a2206206994597c13d831ec7"),
        Err(HexError::InvalidCharacter)
    );
    assert_eq!(Address::zero(), Address([0u8; 20]));
    assert_eq!(to_hex(&[0x00, 0xab, 0x09]), "0x00ab09");
    assert_eq!(to_hex(&[]), "0x");
}

#[test]
fn bytes_as_text() {
    assert_eq!(from_hex("0x00aB09"), Ok(vec![0x00, 0xab, 0x09]));
    assert_eq!(from_hex("ff"), Ok(vec![0xff]));
    assert_eq!(from_hex(""), Ok(vec![]));
    assert_eq!(from_hex("0x"), Ok(vec![]));
    assert_eq!(from_hex("0xf"), Err(HexError::InvalidLength));
    assert_eq!(from_hex("0xfg"), Err(HexError::InvalidCharacter));
    assert_eq!(from_hex(&to_hex(&[1, 2, 3])), Ok(vec![1, 2, 3]));
}
