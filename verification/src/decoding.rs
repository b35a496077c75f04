//! Strict decoding of a transaction from its canonical encoding.
//!
//! The decoder accepts the canonical encoding of a transaction and nothing
//! else. It looks at the frame first: input that ends before the outer list
//! is complete is `Truncated`, input that goes on behind it has
//! `TrailingBytes`. What is wrong inside the frame is `Malformed`.

use crate::bigendian::{be_value, minimal};
use crate::rlp::{decode_item, parse_item, DecodeError, ItemSpan};
use crate::laws::{law_decode_accepts_only_canonical, law_decode_inverts_encode};
use crate::transaction::{
    encode_tx, items_view, keys_view, valid_tx, AccessItemView, AccessList, AccessListItem,
    TxView, UnsignedEip1559Transaction,
};
use crate::types::{Address, H256};
use crate::u256::U256;
use vstd::prelude::*;
use vstd::slice::slice_subrange;

verus! {

/// Takes a byte string off the front of `b`: its bytes, and what follows.
pub open spec fn take_str(b: Seq<u8>) -> Option<(Seq<u8>, Seq<u8>)> {
    match parse_item(b) {
        Ok(item) => if item.list {
            None
        } else {
            Some((item.payload, item.rest))
        },
        Err(_) => None,
    }
}

/// Takes a list off the front of `b`: its elements' encodings, and what
/// follows.
pub open spec fn take_list(b: Seq<u8>) -> Option<(Seq<u8>, Seq<u8>)> {
    match parse_item(b) {
        Ok(item) => if item.list {
            Some((item.payload, item.rest))
        } else {
            None
        },
        Err(_) => None,
    }
}

/// Takes a number of at most 256 bits off the front of `b`. A spelling with
/// a leading zero byte is not accepted.
pub open spec fn take_uint(b: Seq<u8>) -> Option<(nat, Seq<u8>)> {
    match take_str(b) {
        Some((spelled, rest)) => if minimal(spelled) && spelled.len() <= 32 {
            Some((be_value(spelled), rest))
        } else {
            None
        },
        None => None,
    }
}

/// Takes a byte string of exactly `len` bytes off the front of `b`.
pub open spec fn take_fixed(b: Seq<u8>, len: nat) -> Option<(Seq<u8>, Seq<u8>)> {
    match take_str(b) {
        Some((bytes, rest)) => if bytes.len() == len {
            Some((bytes, rest))
        } else {
            None
        },
        None => None,
    }
}

/// `head` in front of `tail`, where there is a tail.
pub open spec fn prepend<T>(head: Seq<T>, tail: Option<Seq<T>>) -> Option<Seq<T>> {
    match tail {
        Some(t) => Some(head + t),
        None => None,
    }
}

/// The storage keys that `b` encodes one after the other.
pub open spec fn decode_keys(b: Seq<u8>) -> Option<Seq<Seq<u8>>>
    decreases b.len(),
{
    if b.len() == 0 {
        Some(Seq::empty())
    } else {
        match take_fixed(b, 32) {
            Some((key, rest)) => if rest.len() < b.len() {
                prepend(seq![key], decode_keys(rest))
            } else {
                None
            },
            None => None,
        }
    }
}

/// The entry of an access list whose two elements `b` encodes.
pub open spec fn decode_access_item(b: Seq<u8>) -> Option<AccessItemView> {
    let address = take_fixed(b, 20);
    let keys = take_list(address.unwrap().1);
    let storage_keys = decode_keys(keys.unwrap().0);
    if address is Some && keys is Some && keys.unwrap().1.len() == 0 && storage_keys is Some {
        Some(
            AccessItemView { address: address.unwrap().0, storage_keys: storage_keys.unwrap() },
        )
    } else {
        None
    }
}

/// The entries of an access list that `b` encodes one after the other.
pub open spec fn decode_access_items(b: Seq<u8>) -> Option<Seq<AccessItemView>>
    decreases b.len(),
{
    if b.len() == 0 {
        Some(Seq::empty())
    } else {
        match take_list(b) {
            Some((entry, rest)) => match decode_access_item(entry) {
                Some(item) => if rest.len() < b.len() {
                    prepend(seq![item], decode_access_items(rest))
                } else {
                    None
                },
                None => None,
            },
            None => None,
        }
    }
}

/// The transaction whose nine fields `b` encodes one after the other, with
/// nothing behind them.
pub open spec fn decode_fields(b: Seq<u8>) -> Option<TxView> {
    let chain_id = take_uint(b);
    let nonce = take_uint(chain_id.unwrap().1);
    let max_priority_fee_per_gas = take_uint(nonce.unwrap().1);
    let max_fee_per_gas = take_uint(max_priority_fee_per_gas.unwrap().1);
    let gas = take_uint(max_fee_per_gas.unwrap().1);
    let to = take_fixed(gas.unwrap().1, 20);
    let value = take_uint(to.unwrap().1);
    let data = take_str(value.unwrap().1);
    let access = take_list(data.unwrap().1);
    let access_list = decode_access_items(access.unwrap().0);
    if chain_id is Some && nonce is Some && max_priority_fee_per_gas is Some && max_fee_per_gas
        is Some && gas is Some && to is Some && value is Some && data is Some && access is Some
        && access.unwrap().1.len() == 0 && access_list is Some {
        Some(
            TxView {
                chain_id: chain_id.unwrap().0,
                nonce: nonce.unwrap().0,
                max_priority_fee_per_gas: max_priority_fee_per_gas.unwrap().0,
                max_fee_per_gas: max_fee_per_gas.unwrap().0,
                gas: gas.unwrap().0,
                to: to.unwrap().0,
                value: value.unwrap().0,
                data: data.unwrap().0,
                access_list: access_list.unwrap(),
            },
        )
    } else {
        None
    }
}

/// The transaction that `b` is the canonical encoding of, or why it is none.
pub open spec fn decode_tx(b: Seq<u8>) -> Result<TxView, DecodeError> {
    match parse_item(b) {
        Err(e) => Err(e),
        Ok(item) => if item.rest.len() > 0 {
            Err(DecodeError::TrailingBytes)
        } else if !item.list {
            Err(DecodeError::Malformed)
        } else {
            match decode_fields(item.payload) {
                Some(tx) => Ok(tx),
                None => Err(DecodeError::Malformed),
            }
        },
    }
}

/// Takes a byte string off `buf[pos..limit]`.
fn read_str(buf: &[u8], pos: usize, limit: usize) -> (r: Option<ItemSpan>)
    requires
        pos <= limit <= buf.len(),
    ensures
        match r {
            Some(span) => pos <= span.start <= span.end <= limit && pos < span.end && take_str(
                buf@.subrange(pos as int, limit as int),
            ) == Some(
                (
                    buf@.subrange(span.start as int, span.end as int),
                    buf@.subrange(span.end as int, limit as int),
                ),
            ),
            None => take_str(buf@.subrange(pos as int, limit as int)) is None,
        },
{
    match decode_item(buf, pos, limit) {
        Ok(span) => if span.list {
            None
        } else {
            Some(span)
        },
        Err(_) => None,
    }
}

/// Takes a list off `buf[pos..limit]`.
fn read_list(buf: &[u8], pos: usize, limit: usize) -> (r: Option<ItemSpan>)
    requires
        pos <= limit <= buf.len(),
    ensures
        match r {
            Some(span) => pos <= span.start <= span.end <= limit && pos < span.end && take_list(
                buf@.subrange(pos as int, limit as int),
            ) == Some(
                (
                    buf@.subrange(span.start as int, span.end as int),
                    buf@.subrange(span.end as int, limit as int),
                ),
            ),
            None => take_list(buf@.subrange(pos as int, limit as int)) is None,
        },
{
    match decode_item(buf, pos, limit) {
        Ok(span) => if span.list {
            Some(span)
        } else {
            None
        },
        Err(_) => None,
    }
}

/// Takes a number off `buf[pos..limit]`; also says where the next field
/// begins.
fn read_uint(buf: &[u8], pos: usize, limit: usize) -> (r: Option<(U256, usize)>)
    requires
        pos <= limit <= buf.len(),
    ensures
        match r {
            Some((n, next)) => pos < next <= limit && take_uint(
                buf@.subrange(pos as int, limit as int),
            ) == Some((n@, buf@.subrange(next as int, limit as int))),
            None => take_uint(buf@.subrange(pos as int, limit as int)) is None,
        },
{
    match read_str(buf, pos, limit) {
        Some(span) => {
            let len: usize = span.end - span.start;
            let ghost spelled = buf@.subrange(span.start as int, span.end as int);
            if len > 32 {
                return None;
            }
            if len > 0 && buf[span.start] == 0 {
                assert(spelled[0] == 0);
                return None;
            }
            assert(len > 0 ==> spelled[0] == buf@[span.start as int]);
            match U256::from_big_endian(slice_subrange(buf, span.start, span.end)) {
                Some(n) => Some((n, span.end)),
                None => None,
            }
        },
        None => None,
    }
}

/// Takes an address off `buf[pos..limit]`.
fn read_address(buf: &[u8], pos: usize, limit: usize) -> (r: Option<(Address, usize)>)
    requires
        pos <= limit <= buf.len(),
    ensures
        match r {
            Some((a, next)) => pos < next <= limit && take_fixed(
                buf@.subrange(pos as int, limit as int),
                20,
            ) == Some((a@, buf@.subrange(next as int, limit as int))),
            None => take_fixed(buf@.subrange(pos as int, limit as int), 20) is None,
        },
{
    match read_str(buf, pos, limit) {
        Some(span) => {
            if span.end - span.start != 20 {
                return None;
            }
            let mut out: [u8; 20] = [0u8; 20];
            let mut i: usize = 0;
            while i < 20
                invariant
                    i <= 20,
                    span.start + 20 == span.end <= buf.len(),
                    forall|j: int| 0 <= j < i ==> out@[j] == buf@[span.start + j],
                decreases 20 - i,
            {
                out[i] = buf[span.start + i];
                i += 1;
            }
            assert(out@ =~= buf@.subrange(span.start as int, span.end as int));
            Some((Address(out), span.end))
        },
        None => None,
    }
}

/// Takes a storage key off `buf[pos..limit]`.
fn read_key(buf: &[u8], pos: usize, limit: usize) -> (r: Option<(H256, usize)>)
    requires
        pos <= limit <= buf.len(),
    ensures
        match r {
            Some((k, next)) => pos < next <= limit && take_fixed(
                buf@.subrange(pos as int, limit as int),
                32,
            ) == Some((k@, buf@.subrange(next as int, limit as int))),
            None => take_fixed(buf@.subrange(pos as int, limit as int), 32) is None,
        },
{
    match read_str(buf, pos, limit) {
        Some(span) => {
            if span.end - span.start != 32 {
                return None;
            }
            let mut out: [u8; 32] = [0u8; 32];
            let mut i: usize = 0;
            while i < 32
                invariant
                    i <= 32,
                    span.start + 32 == span.end <= buf.len(),
                    forall|j: int| 0 <= j < i ==> out@[j] == buf@[span.start + j],
                decreases 32 - i,
            {
                out[i] = buf[span.start + i];
                i += 1;
            }
            assert(out@ =~= buf@.subrange(span.start as int, span.end as int));
            Some((H256(out), span.end))
        },
        None => None,
    }
}

/// Reads the storage keys in `buf[pos..limit]`.
fn read_keys(buf: &[u8], pos: usize, limit: usize) -> (r: Option<Vec<H256>>)
    requires
        pos <= limit <= buf.len(),
    ensures
        match r {
            Some(keys) => decode_keys(buf@.subrange(pos as int, limit as int)) == Some(
                keys_view(keys@),
            ),
            None => decode_keys(buf@.subrange(pos as int, limit as int)) is None,
        },
{
    let mut keys: Vec<H256> = Vec::new();
    let mut at: usize = pos;
    assert(keys_view(keys@) + Seq::<Seq<u8>>::empty() =~= keys_view(keys@));
    while at < limit
        invariant
            pos <= at <= limit <= buf.len(),
            decode_keys(buf@.subrange(pos as int, limit as int)) == prepend(
                keys_view(keys@),
                decode_keys(buf@.subrange(at as int, limit as int)),
            ),
        decreases limit - at,
    {
        let ghost before = keys_view(keys@);
        match read_key(buf, at, limit) {
            Some((key, next)) => {
                keys.push(key);
                proof {
                    let tail = decode_keys(buf@.subrange(next as int, limit as int));
                    assert(keys_view(keys@) =~= before + seq![key@]);
                    if tail is Some {
                        assert(before + (seq![key@] + tail.unwrap()) =~= keys_view(keys@)
                            + tail.unwrap());
                    }
                }
                at = next;
            },
            None => {
                return None;
            },
        }
    }
    assert(keys_view(keys@) + Seq::<Seq<u8>>::empty() =~= keys_view(keys@));
    Some(keys)
}

/// Reads the entry of an access list whose elements are in
/// `buf[pos..limit]`.
fn read_access_item(buf: &[u8], pos: usize, limit: usize) -> (r: Option<AccessListItem>)
    requires
        pos <= limit <= buf.len(),
    ensures
        match r {
            Some(item) => decode_access_item(buf@.subrange(pos as int, limit as int)) == Some(
                item@,
            ),
            None => decode_access_item(buf@.subrange(pos as int, limit as int)) is None,
        },
{
    let (address, next) = match read_address(buf, pos, limit) {
        Some(found) => found,
        None => {
            return None;
        },
    };
    let span = match read_list(buf, next, limit) {
        Some(found) => found,
        None => {
            return None;
        },
    };
    if span.end != limit {
        return None;
    }
    match read_keys(buf, span.start, span.end) {
        Some(storage_keys) => Some(AccessListItem { address, storage_keys }),
        None => None,
    }
}

/// Reads the entries of an access list in `buf[pos..limit]`.
fn read_access_items(buf: &[u8], pos: usize, limit: usize) -> (r: Option<Vec<AccessListItem>>)
    requires
        pos <= limit <= buf.len(),
    ensures
        match r {
            Some(items) => decode_access_items(buf@.subrange(pos as int, limit as int)) == Some(
                items_view(items@),
            ),
            None => decode_access_items(buf@.subrange(pos as int, limit as int)) is None,
        },
{
    let mut items: Vec<AccessListItem> = Vec::new();
    let mut at: usize = pos;
    assert(items_view(items@) + Seq::<AccessItemView>::empty() =~= items_view(items@));
    while at < limit
        invariant
            pos <= at <= limit <= buf.len(),
            decode_access_items(buf@.subrange(pos as int, limit as int)) == prepend(
                items_view(items@),
                decode_access_items(buf@.subrange(at as int, limit as int)),
            ),
        decreases limit - at,
    {
        let ghost before = items_view(items@);
        let span = match read_list(buf, at, limit) {
            Some(found) => found,
            None => {
                return None;
            },
        };
        match read_access_item(buf, span.start, span.end) {
            Some(item) => {
                let ghost entry = item@;
                items.push(item);
                proof {
                    let tail = decode_access_items(buf@.subrange(span.end as int, limit as int));
                    assert(items_view(items@) =~= before + seq![entry]);
                    if tail is Some {
                        assert(before + (seq![entry] + tail.unwrap()) =~= items_view(items@)
                            + tail.unwrap());
                    }
                }
                at = span.end;
            },
            None => {
                return None;
            },
        }
    }
    assert(items_view(items@) + Seq::<AccessItemView>::empty() =~= items_view(items@));
    Some(items)
}

/// Reads the nine fields of a transaction in `buf[pos..limit]`.
fn read_fields(buf: &[u8], pos: usize, limit: usize) -> (r: Option<UnsignedEip1559Transaction>)
    requires
        pos <= limit <= buf.len(),
    ensures
        match r {
            Some(tx) => decode_fields(buf@.subrange(pos as int, limit as int)) == Some(tx@),
            None => decode_fields(buf@.subrange(pos as int, limit as int)) is None,
        },
{
    let (chain_id, at) = match read_uint(buf, pos, limit) {
        Some(found) => found,
        None => {
            return None;
        },
    };
    let (nonce, at) = match read_uint(buf, at, limit) {
        Some(found) => found,
        None => {
            return None;
        },
    };
    let (max_priority_fee_per_gas, at) = match read_uint(buf, at, limit) {
        Some(found) => found,
        None => {
            return None;
        },
    };
    let (max_fee_per_gas, at) = match read_uint(buf, at, limit) {
        Some(found) => found,
        None => {
            return None;
        },
    };
    let (gas, at) = match read_uint(buf, at, limit) {
        Some(found) => found,
        None => {
            return None;
        },
    };
    let (to, at) = match read_address(buf, at, limit) {
        Some(found) => found,
        None => {
            return None;
        },
    };
    let (value, at) = match read_uint(buf, at, limit) {
        Some(found) => found,
        None => {
            return None;
        },
    };
    let payload = match read_str(buf, at, limit) {
        Some(found) => found,
        None => {
            return None;
        },
    };
    let access = match read_list(buf, payload.end, limit) {
        Some(found) => found,
        None => {
            return None;
        },
    };
    if access.end != limit {
        return None;
    }
    let items = match read_access_items(buf, access.start, access.end) {
        Some(found) => found,
        None => {
            return None;
        },
    };
    let data = vstd::slice::slice_to_vec(slice_subrange(buf, payload.start, payload.end));
    Some(
        UnsignedEip1559Transaction {
            chain_id,
            nonce,
            max_priority_fee_per_gas,
            max_fee_per_gas,
            gas,
            to,
            value,
            data,
            access_list: AccessList(items),
        },
    )
}

impl UnsignedEip1559Transaction {
    /// Reads a transaction from its canonical encoding. Any other input is
    /// refused: `Truncated` where it ends before the outer list is complete,
    /// `TrailingBytes` where it goes on behind the outer list, `Malformed`
    /// where the outer header is not canonical or what it frames is not the
    /// canonical encoding of nine fields. So the input is accepted exactly
    /// where it is the encoding of a transaction, and that transaction is the
    /// result.
    pub fn decode(bytes: &[u8]) -> (r: Result<UnsignedEip1559Transaction, DecodeError>)
        ensures
            match r {
                Ok(tx) => decode_tx(bytes@) == Ok::<TxView, DecodeError>(tx@) && bytes@
                    == encode_tx(tx@),
                Err(e) => decode_tx(bytes@) == Err::<TxView, DecodeError>(e),
            },
            r is Ok <==> exists|tx: TxView| valid_tx(tx) && bytes@ == #[trigger] encode_tx(tx),
    {
        proof {
            if decode_tx(bytes@) is Ok {
                law_decode_accepts_only_canonical(bytes@);
            }
            if exists|tx: TxView| valid_tx(tx) && bytes@ == #[trigger] encode_tx(tx) {
                let tx = choose|tx: TxView| valid_tx(tx) && bytes@ == #[trigger] encode_tx(tx);
                law_decode_inverts_encode(tx);
            }
        }
        assert(bytes@.subrange(0, bytes@.len() as int) =~= bytes@);
        let span = match decode_item(bytes, 0, bytes.len()) {
            Ok(found) => found,
            Err(e) => {
                return Err(e);
            },
        };
        if span.end < bytes.len() {
            return Err(DecodeError::TrailingBytes);
        }
        if !span.list {
            return Err(DecodeError::Malformed);
        }
        match read_fields(bytes, span.start, span.end) {
            Some(tx) => Ok(tx),
            None => Err(DecodeError::Malformed),
        }
    }
}

} // verus!
