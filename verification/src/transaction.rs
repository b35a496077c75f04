//! The unsigned transaction with the two-part fee, and its canonical
//! encoding.
//!
//! A transaction is encoded as a list of its nine fields in their fixed
//! order. No field is ever left out: a number that is zero is the empty
//! string, and an empty access list is the empty list.

use crate::bigendian::{lemma_value_bound, pow256};
use crate::decoding::decode_tx;
use crate::hash::{keccak256, keccak256_digest};
use crate::laws::law_decode_inverts_encode;
use crate::rlp::{
    encode_list, encode_str, encode_uint, lemma_pow256_table, length_limit, push_list, push_str,
    DecodeError,
};
use crate::types::{Address, H256};
use crate::u256::U256;
use vstd::prelude::*;

verus! {

/// An address, and the storage keys under it that a transaction will touch.
#[derive(Clone, Debug, PartialEq, Eq)]
pub struct AccessListItem {
    /// The account.
    pub address: Address,
    /// The storage keys, in order.
    pub storage_keys: Vec<H256>,
}

/// The accounts and storage keys that a transaction declares in advance.
#[derive(Clone, Debug, PartialEq, Eq)]
pub struct AccessList(pub Vec<AccessListItem>);

/// A transaction before it is signed.
#[derive(Clone, Debug, PartialEq, Eq)]
pub struct UnsignedEip1559Transaction {
    /// The chain that the transaction is meant for.
    pub chain_id: U256,
    /// The number of transactions that the sender has sent before.
    pub nonce: U256,
    /// The most that the sender pays per unit of gas on top of the base fee.
    pub max_priority_fee_per_gas: U256,
    /// The most that the sender pays per unit of gas in all.
    pub max_fee_per_gas: U256,
    /// The most gas that the transaction may use.
    pub gas: U256,
    /// The recipient; twenty zero bytes where a contract is created.
    pub to: Address,
    /// The amount transferred.
    pub value: U256,
    /// The payload: the code of a new contract, or the call and its
    /// arguments.
    pub data: Vec<u8>,
    /// The access list; may be empty.
    pub access_list: AccessList,
}

/// What an `AccessListItem` holds.
pub struct AccessItemView {
    pub address: Seq<u8>,
    pub storage_keys: Seq<Seq<u8>>,
}

/// What an `UnsignedEip1559Transaction` holds.
pub struct TxView {
    pub chain_id: nat,
    pub nonce: nat,
    pub max_priority_fee_per_gas: nat,
    pub max_fee_per_gas: nat,
    pub gas: nat,
    pub to: Seq<u8>,
    pub value: nat,
    pub data: Seq<u8>,
    pub access_list: Seq<AccessItemView>,
}

/// The storage keys as byte strings.
pub open spec fn keys_view(keys: Seq<H256>) -> Seq<Seq<u8>> {
    Seq::new(keys.len(), |i: int| keys[i]@)
}

/// The items as what they hold.
pub open spec fn items_view(items: Seq<AccessListItem>) -> Seq<AccessItemView> {
    Seq::new(items.len(), |i: int| items[i]@)
}

impl View for AccessListItem {
    type V = AccessItemView;

    open spec fn view(&self) -> AccessItemView {
        AccessItemView { address: self.address@, storage_keys: keys_view(self.storage_keys@) }
    }
}

impl View for AccessList {
    type V = Seq<AccessItemView>;

    open spec fn view(&self) -> Seq<AccessItemView> {
        items_view(self.0@)
    }
}

impl View for UnsignedEip1559Transaction {
    type V = TxView;

    open spec fn view(&self) -> TxView {
        TxView {
            chain_id: self.chain_id@,
            nonce: self.nonce@,
            max_priority_fee_per_gas: self.max_priority_fee_per_gas@,
            max_fee_per_gas: self.max_fee_per_gas@,
            gas: self.gas@,
            to: self.to@,
            value: self.value@,
            data: self.data@,
            access_list: self.access_list@,
        }
    }
}

/// The encodings of the storage keys, one after the other.
pub open spec fn encode_keys(keys: Seq<Seq<u8>>) -> Seq<u8>
    decreases keys.len(),
{
    if keys.len() == 0 {
        Seq::empty()
    } else {
        encode_str(keys.first()) + encode_keys(keys.drop_first())
    }
}

/// The encoding of one entry of an access list: the list of its address and
/// of the list of its storage keys.
pub open spec fn encode_access_item(item: AccessItemView) -> Seq<u8> {
    encode_list(encode_str(item.address) + encode_list(encode_keys(item.storage_keys)))
}

/// The encodings of the entries of an access list, one after the other.
pub open spec fn encode_access_items(items: Seq<AccessItemView>) -> Seq<u8>
    decreases items.len(),
{
    if items.len() == 0 {
        Seq::empty()
    } else {
        encode_access_item(items.first()) + encode_access_items(items.drop_first())
    }
}

/// The encodings of the nine fields, in their fixed order.
pub open spec fn encode_fields(tx: TxView) -> Seq<u8> {
    encode_uint(tx.chain_id) + (encode_uint(tx.nonce) + (encode_uint(tx.max_priority_fee_per_gas)
        + (encode_uint(tx.max_fee_per_gas) + (encode_uint(tx.gas) + (encode_str(tx.to) + (
    encode_uint(tx.value) + (encode_str(tx.data) + encode_list(
        encode_access_items(tx.access_list),
    ))))))))
}

/// The canonical encoding of a transaction: the list of its nine fields.
pub open spec fn encode_tx(tx: TxView) -> Seq<u8> {
    encode_list(encode_fields(tx))
}

/// An entry whose address has 20 bytes and whose storage keys have 32 each.
pub open spec fn valid_item(item: AccessItemView) -> bool {
    &&& item.address.len() == 20
    &&& forall|i: int| 0 <= i < item.storage_keys.len() ==> (#[trigger] item.storage_keys[i]).len() == 32
}

/// What holds of every transaction that can be held in memory and encoded:
/// the numbers are below 2 to the 256, the addresses have 20 bytes and the
/// storage keys 32, and the encoded fields are short enough for a header.
pub open spec fn valid_tx(tx: TxView) -> bool {
    &&& tx.chain_id < pow256(32)
    &&& tx.nonce < pow256(32)
    &&& tx.max_priority_fee_per_gas < pow256(32)
    &&& tx.max_fee_per_gas < pow256(32)
    &&& tx.gas < pow256(32)
    &&& tx.to.len() == 20
    &&& tx.value < pow256(32)
    &&& forall|i: int| 0 <= i < tx.access_list.len() ==> valid_item(#[trigger] tx.access_list[i])
    &&& encode_fields(tx).len() < length_limit()
}

/// Encoding one more key appends its encoding.
pub proof fn lemma_encode_keys_push(keys: Seq<Seq<u8>>, key: Seq<u8>)
    ensures
        encode_keys(keys.push(key)) == encode_keys(keys) + encode_str(key),
    decreases keys.len(),
{
    let all = keys.push(key);
    if keys.len() == 0 {
        assert(all.drop_first() =~= Seq::<Seq<u8>>::empty());
        assert(encode_keys(all.drop_first()) =~= Seq::<u8>::empty());
        assert(all.first() == key);
        assert(encode_keys(all) =~= encode_keys(keys) + encode_str(key));
    } else {
        lemma_encode_keys_push(keys.drop_first(), key);
        assert(all.drop_first() =~= keys.drop_first().push(key));
        assert(encode_keys(all) =~= encode_keys(keys) + encode_str(key));
    }
}

/// Encoding one more entry appends its encoding.
pub proof fn lemma_encode_access_items_push(items: Seq<AccessItemView>, item: AccessItemView)
    ensures
        encode_access_items(items.push(item)) == encode_access_items(items) + encode_access_item(
            item,
        ),
    decreases items.len(),
{
    let all = items.push(item);
    if items.len() == 0 {
        assert(all.drop_first() =~= Seq::<AccessItemView>::empty());
        assert(encode_access_items(all.drop_first()) =~= Seq::<u8>::empty());
        assert(all.first() == item);
        assert(encode_access_items(all) =~= encode_access_items(items) + encode_access_item(item));
    } else {
        lemma_encode_access_items_push(items.drop_first(), item);
        assert(all.drop_first() =~= items.drop_first().push(item));
        assert(encode_access_items(all) =~= encode_access_items(items) + encode_access_item(item));
    }
}

/// Appends the encoding of the number `n`.
pub fn push_uint(out: &mut Vec<u8>, n: &U256)
    ensures
        final(out)@ == old(out)@ + encode_uint(n@),
{
    let spelled = n.to_minimal_bytes();
    push_str(out, spelled.as_slice());
}

impl AccessListItem {
    /// Appends the encoding of the entry.
    pub fn rlp_append(&self, out: &mut Vec<u8>)
        ensures
            final(out)@ == old(out)@ + encode_access_item(self@),
    {
        let mut keys: Vec<u8> = Vec::new();
        let mut i: usize = 0;
        assert(keys_view(self.storage_keys@).take(0) =~= Seq::<Seq<u8>>::empty());
        while i < self.storage_keys.len()
            invariant
                i <= self.storage_keys.len(),
                keys@ == encode_keys(keys_view(self.storage_keys@).take(i as int)),
            decreases self.storage_keys.len() - i,
        {
            proof {
                let all = keys_view(self.storage_keys@);
                lemma_encode_keys_push(all.take(i as int), all[i as int]);
                assert(all.take(i + 1) =~= all.take(i as int).push(all[i as int]));
            }
            push_str(&mut keys, self.storage_keys[i].0.as_slice());
            i += 1;
        }
        assert(keys_view(self.storage_keys@).take(i as int) =~= keys_view(self.storage_keys@));
        let mut body: Vec<u8> = Vec::new();
        push_str(&mut body, self.address.0.as_slice());
        push_list(&mut body, keys.as_slice());
        assert(body@ =~= encode_str(self@.address) + encode_list(
            encode_keys(self@.storage_keys),
        ));
        push_list(out, body.as_slice());
    }
}

impl AccessList {
    /// Appends the encoding of the access list.
    pub fn rlp_append(&self, out: &mut Vec<u8>)
        ensures
            final(out)@ == old(out)@ + encode_list(encode_access_items(self@)),
    {
        let mut body: Vec<u8> = Vec::new();
        let mut i: usize = 0;
        assert(self@.take(0) =~= Seq::<AccessItemView>::empty());
        while i < self.0.len()
            invariant
                i <= self.0.len(),
                body@ == encode_access_items(self@.take(i as int)),
            decreases self.0.len() - i,
        {
            proof {
                lemma_encode_access_items_push(self@.take(i as int), self@[i as int]);
                assert(self@.take(i + 1) =~= self@.take(i as int).push(self@[i as int]));
            }
            self.0[i].rlp_append(&mut body);
            i += 1;
        }
        assert(self@.take(i as int) =~= self@);
        push_list(out, body.as_slice());
    }
}

impl UnsignedEip1559Transaction {
    /// Appends the encodings of the nine fields, in their fixed order.
    pub fn rlp_append_fields(&self, out: &mut Vec<u8>)
        ensures
            final(out)@ == old(out)@ + encode_fields(self@),
    {
        push_uint(out, &self.chain_id);
        push_uint(out, &self.nonce);
        push_uint(out, &self.max_priority_fee_per_gas);
        push_uint(out, &self.max_fee_per_gas);
        push_uint(out, &self.gas);
        push_str(out, self.to.0.as_slice());
        push_uint(out, &self.value);
        push_str(out, self.data.as_slice());
        self.access_list.rlp_append(out);
        assert(out@ =~= old(out)@ + encode_fields(self@));
    }

    /// The canonical encoding of the transaction. Decoding it gives the
    /// transaction back.
    pub fn rlp_bytes(&self) -> (out: Vec<u8>)
        ensures
            out@ == encode_tx(self@),
            valid_tx(self@),
            decode_tx(out@) == Ok::<TxView, DecodeError>(self@),
    {
        let mut body: Vec<u8> = Vec::new();
        self.rlp_append_fields(&mut body);
        let mut out: Vec<u8> = Vec::new();
        push_list(&mut out, body.as_slice());
        proof {
            assert(body@ =~= encode_fields(self@));
            assert(out@ =~= encode_tx(self@));
            lemma_pow256_table();
            lemma_value_bound(self.chain_id.0@);
            lemma_value_bound(self.nonce.0@);
            lemma_value_bound(self.max_priority_fee_per_gas.0@);
            lemma_value_bound(self.max_fee_per_gas.0@);
            lemma_value_bound(self.gas.0@);
            lemma_value_bound(self.value.0@);
            assert forall|i: int| 0 <= i < self@.access_list.len() implies valid_item(
                #[trigger] self@.access_list[i],
            ) by {
                let item = self.access_list.0@[i];
                assert(self@.access_list[i] == item@);
                assert(item.address.0@.len() == 20);
                assert forall|j: int| 0 <= j < item@.storage_keys.len() implies (
                #[trigger] item@.storage_keys[j]).len() == 32 by {
                    assert(item.storage_keys@[j].0@.len() == 32);
                }
            }
            assert(self.to.0@.len() == 20);
            assert(encode_fields(self@).len() == body.len());
            law_decode_inverts_encode(self@);
        }
        out
    }
}

impl UnsignedEip1559Transaction {
    /// The digest that a signer signs: the Keccak-256 digest of the
    /// canonical encoding. It is taken over all nine fields, so a signature
    /// made for one transaction does not fit another.
    pub fn sighash(&self) -> (digest: H256)
        ensures
            digest@ == keccak256_digest(encode_tx(self@)),
    {
        let encoded = self.rlp_bytes();
        keccak256(encoded.as_slice())
    }
}

/// The view of the transaction in which every number is zero, the recipient
/// is twenty zero bytes, and the payload and the access list are empty.
pub open spec fn empty_tx() -> TxView {
    TxView {
        chain_id: 0,
        nonce: 0,
        max_priority_fee_per_gas: 0,
        max_fee_per_gas: 0,
        gas: 0,
        to: Seq::new(20, |i: int| 0u8),
        value: 0,
        data: Seq::empty(),
        access_list: Seq::empty(),
    }
}

impl Default for UnsignedEip1559Transaction {
    /// The transaction in which nothing is set: a field without a value is
    /// zero or empty, never missing.
    fn default() -> (tx: UnsignedEip1559Transaction)
        ensures
            tx@ == empty_tx(),
    {
        let tx = UnsignedEip1559Transaction {
            chain_id: U256::zero(),
            nonce: U256::zero(),
            max_priority_fee_per_gas: U256::zero(),
            max_fee_per_gas: U256::zero(),
            gas: U256::zero(),
            to: Address::zero(),
            value: U256::zero(),
            data: Vec::new(),
            access_list: AccessList(Vec::new()),
        };
        assert(tx@.access_list =~= Seq::<AccessItemView>::empty());
        tx
    }
}

} // verus!
