//! What holds between encoding and decoding.

use crate::bigendian::{
    be_bytes, lemma_bytes_len, lemma_bytes_minimal, lemma_bytes_of_value,
    lemma_pow256_monotonic, lemma_value_bound, lemma_value_of_bytes, pow256,
};
use crate::decoding::{
    decode_access_item, decode_access_items, decode_fields, decode_keys, decode_tx, take_fixed,
    take_list, take_str, take_uint,
};
use crate::rlp::{
    encode_list, encode_str, encode_uint, lemma_encode_parsed, lemma_encoding_len,
    lemma_parse_encoded, lemma_parse_prefix, lemma_pow256_table, length_limit, DecodeError,
};
use crate::transaction::{
    encode_access_item, encode_access_items, encode_fields, encode_keys, encode_tx, valid_item,
    valid_tx, AccessItemView, TxView,
};
use vstd::prelude::*;

verus! {

/// A byte string that was written is taken off again, whatever follows it.
pub proof fn lemma_take_str_encoded(bytes: Seq<u8>, rest: Seq<u8>)
    requires
        bytes.len() < length_limit(),
    ensures
        take_str(encode_str(bytes) + rest) == Some((bytes, rest)),
{
    lemma_parse_encoded(false, bytes, rest);
}

/// A list that was written is taken off again, whatever follows it.
pub proof fn lemma_take_list_encoded(payload: Seq<u8>, rest: Seq<u8>)
    requires
        payload.len() < length_limit(),
    ensures
        take_list(encode_list(payload) + rest) == Some((payload, rest)),
{
    lemma_parse_encoded(true, payload, rest);
}

/// A number that was written is taken off again, whatever follows it.
pub proof fn lemma_take_uint_encoded(n: nat, rest: Seq<u8>)
    requires
        n < pow256(32),
    ensures
        take_uint(encode_uint(n) + rest) == Some((n, rest)),
{
    lemma_pow256_table();
    lemma_bytes_len(n, 32);
    lemma_bytes_minimal(n);
    lemma_value_of_bytes(n);
    lemma_take_str_encoded(be_bytes(n), rest);
}

/// Storage keys that were written are read back.
pub proof fn lemma_decode_keys_encoded(keys: Seq<Seq<u8>>)
    requires
        forall|i: int| 0 <= i < keys.len() ==> (#[trigger] keys[i]).len() == 32,
    ensures
        decode_keys(encode_keys(keys)) == Some(keys),
    decreases keys.len(),
{
    if keys.len() > 0 {
        let tail = keys.drop_first();
        lemma_pow256_table();
        assert(keys[0].len() == 32);
        assert forall|i: int| 0 <= i < tail.len() implies (#[trigger] tail[i]).len() == 32 by {
            assert(tail[i] == keys[i + 1]);
        }
        lemma_take_str_encoded(keys.first(), encode_keys(tail));
        lemma_encoding_len(false, keys.first());
        lemma_decode_keys_encoded(tail);
        assert(seq![keys.first()] + tail =~= keys);
    } else {
        assert(keys =~= Seq::<Seq<u8>>::empty());
    }
}

/// An entry of an access list that was written is read back.
pub proof fn lemma_decode_access_item_encoded(item: AccessItemView)
    requires
        valid_item(item),
        encode_keys(item.storage_keys).len() < length_limit(),
    ensures
        decode_access_item(encode_str(item.address) + encode_list(encode_keys(item.storage_keys)))
            == Some(item),
{
    let keys = encode_keys(item.storage_keys);
    lemma_pow256_table();
    lemma_take_str_encoded(item.address, encode_list(keys));
    lemma_take_list_encoded(keys, Seq::empty());
    assert(encode_list(keys) + Seq::<u8>::empty() =~= encode_list(keys));
    lemma_decode_keys_encoded(item.storage_keys);
}

/// The entries of an access list that were written are read back.
pub proof fn lemma_decode_access_items_encoded(items: Seq<AccessItemView>)
    requires
        forall|i: int| 0 <= i < items.len() ==> valid_item(#[trigger] items[i]),
        encode_access_items(items).len() < length_limit(),
    ensures
        decode_access_items(encode_access_items(items)) == Some(items),
    decreases items.len(),
{
    if items.len() > 0 {
        let first = items.first();
        let tail = items.drop_first();
        let entry = encode_str(first.address) + encode_list(encode_keys(first.storage_keys));
        assert(valid_item(items[0]));
        assert forall|i: int| 0 <= i < tail.len() implies valid_item(#[trigger] tail[i]) by {
            assert(tail[i] == items[i + 1]);
        }
        assert(encode_access_items(items) == encode_list(entry) + encode_access_items(tail));
        lemma_encoding_len(true, entry);
        lemma_encoding_len(false, first.address);
        lemma_encoding_len(true, encode_keys(first.storage_keys));
        lemma_take_list_encoded(entry, encode_access_items(tail));
        lemma_decode_access_item_encoded(first);
        lemma_decode_access_items_encoded(tail);
        assert(seq![first] + tail =~= items);
    } else {
        assert(items =~= Seq::<AccessItemView>::empty());
    }
}

/// The nine fields that were written are read back.
pub proof fn lemma_decode_fields_encoded(tx: TxView)
    requires
        valid_tx(tx),
    ensures
        decode_fields(encode_fields(tx)) == Some(tx),
{
    let access = encode_list(encode_access_items(tx.access_list));
    let f8 = encode_str(tx.data) + access;
    let f7 = encode_uint(tx.value) + f8;
    let f6 = encode_str(tx.to) + f7;
    let f5 = encode_uint(tx.gas) + f6;
    let f4 = encode_uint(tx.max_fee_per_gas) + f5;
    let f3 = encode_uint(tx.max_priority_fee_per_gas) + f4;
    let f2 = encode_uint(tx.nonce) + f3;
    lemma_pow256_table();
    lemma_encoding_len(false, be_bytes(tx.chain_id));
    lemma_encoding_len(false, be_bytes(tx.nonce));
    lemma_encoding_len(false, be_bytes(tx.max_priority_fee_per_gas));
    lemma_encoding_len(false, be_bytes(tx.max_fee_per_gas));
    lemma_encoding_len(false, be_bytes(tx.gas));
    lemma_encoding_len(false, tx.to);
    lemma_encoding_len(false, be_bytes(tx.value));
    lemma_encoding_len(false, tx.data);
    lemma_encoding_len(true, encode_access_items(tx.access_list));
    lemma_take_uint_encoded(tx.chain_id, f2);
    lemma_take_uint_encoded(tx.nonce, f3);
    lemma_take_uint_encoded(tx.max_priority_fee_per_gas, f4);
    lemma_take_uint_encoded(tx.max_fee_per_gas, f5);
    lemma_take_uint_encoded(tx.gas, f6);
    lemma_take_str_encoded(tx.to, f7);
    lemma_take_uint_encoded(tx.value, f8);
    lemma_take_str_encoded(tx.data, access);
    lemma_take_list_encoded(encode_access_items(tx.access_list), Seq::empty());
    assert(access + Seq::<u8>::empty() =~= access);
    lemma_decode_access_items_encoded(tx.access_list);
}

/// A byte string that was taken off stood there in its canonical encoding.
pub proof fn lemma_take_str_sound(b: Seq<u8>)
    requires
        take_str(b) is Some,
    ensures
        b == encode_str(take_str(b).unwrap().0) + take_str(b).unwrap().1,
        take_str(b).unwrap().0.len() < length_limit(),
        take_str(b).unwrap().1.len() < b.len(),
{
    lemma_encode_parsed(b);
}

/// A list that was taken off stood there in its canonical encoding.
pub proof fn lemma_take_list_sound(b: Seq<u8>)
    requires
        take_list(b) is Some,
    ensures
        b == encode_list(take_list(b).unwrap().0) + take_list(b).unwrap().1,
        take_list(b).unwrap().0.len() < length_limit(),
        take_list(b).unwrap().1.len() < b.len(),
{
    lemma_encode_parsed(b);
}

/// A number that was taken off stood there in its canonical encoding, and
/// is below 2 to the 256.
pub proof fn lemma_take_uint_sound(b: Seq<u8>)
    requires
        take_uint(b) is Some,
    ensures
        b == encode_uint(take_uint(b).unwrap().0) + take_uint(b).unwrap().1,
        take_uint(b).unwrap().0 < pow256(32),
        take_uint(b).unwrap().1.len() < b.len(),
{
    let spelled = take_str(b).unwrap().0;
    lemma_take_str_sound(b);
    lemma_bytes_of_value(spelled);
    lemma_value_bound(spelled);
    lemma_pow256_monotonic(spelled.len(), 32);
}

/// Storage keys that were read stood there in their canonical encoding.
pub proof fn lemma_decode_keys_sound(b: Seq<u8>)
    requires
        decode_keys(b) is Some,
    ensures
        b == encode_keys(decode_keys(b).unwrap()),
        forall|i: int|
            0 <= i < decode_keys(b).unwrap().len() ==> (#[trigger] decode_keys(b).unwrap()[i]).len()
                == 32,
    decreases b.len(),
{
    let keys = decode_keys(b).unwrap();
    if b.len() > 0 {
        let (key, rest) = take_fixed(b, 32).unwrap();
        let tail = decode_keys(rest).unwrap();
        lemma_take_str_sound(b);
        lemma_decode_keys_sound(rest);
        assert(keys == seq![key] + tail);
        assert(keys.first() == key);
        assert(keys.drop_first() =~= tail);
        assert forall|i: int| 0 <= i < keys.len() implies (#[trigger] keys[i]).len() == 32 by {
            if i > 0 {
                assert(keys[i] == tail[i - 1]);
            }
        }
    } else {
        assert(b =~= encode_keys(keys));
    }
}

/// An entry of an access list that was read stood there in its canonical
/// encoding.
pub proof fn lemma_decode_access_item_sound(b: Seq<u8>)
    requires
        decode_access_item(b) is Some,
    ensures
        encode_list(b) == encode_access_item(decode_access_item(b).unwrap()),
        valid_item(decode_access_item(b).unwrap()),
{
    let (address, after) = take_fixed(b, 20).unwrap();
    let (keys, end) = take_list(after).unwrap();
    lemma_take_str_sound(b);
    lemma_take_list_sound(after);
    lemma_decode_keys_sound(keys);
    assert(end =~= Seq::<u8>::empty());
    assert(b =~= encode_str(address) + encode_list(keys));
}

/// The entries of an access list that were read stood there in their
/// canonical encoding.
pub proof fn lemma_decode_access_items_sound(b: Seq<u8>)
    requires
        decode_access_items(b) is Some,
    ensures
        b == encode_access_items(decode_access_items(b).unwrap()),
        forall|i: int|
            0 <= i < decode_access_items(b).unwrap().len() ==> valid_item(
                #[trigger] decode_access_items(b).unwrap()[i],
            ),
    decreases b.len(),
{
    let items = decode_access_items(b).unwrap();
    if b.len() > 0 {
        let (entry, rest) = take_list(b).unwrap();
        let item = decode_access_item(entry).unwrap();
        let tail = decode_access_items(rest).unwrap();
        lemma_take_list_sound(b);
        lemma_decode_access_item_sound(entry);
        lemma_decode_access_items_sound(rest);
        assert(items == seq![item] + tail);
        assert(items.first() == item);
        assert(items.drop_first() =~= tail);
        assert forall|i: int| 0 <= i < items.len() implies valid_item(#[trigger] items[i]) by {
            if i > 0 {
                assert(items[i] == tail[i - 1]);
            }
        }
    } else {
        assert(b =~= encode_access_items(items));
    }
}

/// Nine fields that were read stood there in their canonical encoding.
pub proof fn lemma_decode_fields_sound(b: Seq<u8>)
    requires
        decode_fields(b) is Some,
        b.len() < length_limit(),
    ensures
        b == encode_fields(decode_fields(b).unwrap()),
        valid_tx(decode_fields(b).unwrap()),
{
    let b1 = take_uint(b).unwrap().1;
    let b2 = take_uint(b1).unwrap().1;
    let b3 = take_uint(b2).unwrap().1;
    let b4 = take_uint(b3).unwrap().1;
    let b5 = take_uint(b4).unwrap().1;
    let b6 = take_fixed(b5, 20).unwrap().1;
    let b7 = take_uint(b6).unwrap().1;
    let b8 = take_str(b7).unwrap().1;
    let (access, end) = take_list(b8).unwrap();
    lemma_take_uint_sound(b);
    lemma_take_uint_sound(b1);
    lemma_take_uint_sound(b2);
    lemma_take_uint_sound(b3);
    lemma_take_uint_sound(b4);
    lemma_take_str_sound(b5);
    lemma_take_uint_sound(b6);
    lemma_take_str_sound(b7);
    lemma_take_list_sound(b8);
    lemma_decode_access_items_sound(access);
    assert(end =~= Seq::<u8>::empty());
    assert(b8 =~= encode_list(access));
}

/// The decoder accepts canonical encodings only: input that decodes to a
/// transaction is the encoding of that transaction, byte for byte.
pub proof fn law_decode_accepts_only_canonical(b: Seq<u8>)
    requires
        decode_tx(b) is Ok,
    ensures
        encode_tx(decode_tx(b).unwrap()) == b,
        valid_tx(decode_tx(b).unwrap()),
{
    lemma_encode_parsed(b);
    let payload = take_list(b).unwrap().0;
    lemma_take_list_sound(b);
    lemma_decode_fields_sound(payload);
    assert(take_list(b).unwrap().1 =~= Seq::<u8>::empty());
    assert(b =~= encode_list(payload));
}

/// Decoding inverts encoding: the canonical encoding of a transaction
/// decodes to that transaction.
pub proof fn law_decode_inverts_encode(tx: TxView)
    requires
        valid_tx(tx),
    ensures
        decode_tx(encode_tx(tx)) == Ok::<TxView, DecodeError>(tx),
{
    lemma_parse_encoded(true, encode_fields(tx), Seq::empty());
    assert(encode_tx(tx) + Seq::<u8>::empty() =~= encode_tx(tx));
    lemma_decode_fields_encoded(tx);
}

/// Every proper prefix of the canonical encoding of a transaction is
/// refused as truncated.
pub proof fn law_prefix_is_truncated(tx: TxView, k: int)
    requires
        valid_tx(tx),
        0 <= k < encode_tx(tx).len(),
    ensures
        decode_tx(encode_tx(tx).take(k)) == Err::<TxView, DecodeError>(DecodeError::Truncated),
{
    lemma_parse_prefix(true, encode_fields(tx), k);
}

/// The encoding binds every field: two transactions with one encoding are
/// the same transaction, so a change to any field changes the bytes that are
/// hashed for signing.
pub proof fn law_encoding_is_injective(a: TxView, b: TxView)
    requires
        valid_tx(a),
        valid_tx(b),
        encode_tx(a) == encode_tx(b),
    ensures
        a == b,
{
    law_decode_inverts_encode(a);
    law_decode_inverts_encode(b);
}

} // verus!
