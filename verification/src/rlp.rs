//! The canonical recursive-length-prefix encoding: byte strings and lists,
//! each behind a header that gives its kind and its length.
//!
//! A byte string is either a single byte below `0x80`, which stands for
//! itself, or a header followed by the bytes. A list is a header followed by
//! the encodings of its elements. A header is one byte for a payload of up
//! to 55 bytes; for a longer payload it is one byte that gives the length of
//! the length, followed by the length in big-endian without leading zeros.

use crate::bigendian::{
    be_bytes, be_value, lemma_bytes_len, lemma_bytes_minimal, lemma_bytes_of_value,
    lemma_pow256_monotonic, lemma_value_bound, lemma_value_of_bytes, pow256,
};
use vstd::prelude::*;

verus! {

/// Header offset of byte strings.
pub const STRING_OFFSET: u8 = 0x80;

/// Header offset of lists.
pub const LIST_OFFSET: u8 = 0xc0;

/// Longest payload whose length fits into the header byte itself.
pub const SHORT_MAX: usize = 55;

/// Why a byte sequence is not the canonical encoding of a value.
#[derive(Clone, Copy, Debug, PartialEq, Eq)]
pub enum DecodeError {
    /// The input ends before the header or the payload that the header
    /// announces is complete.
    Truncated,
    /// The input is complete but not canonical: a length that is not in its
    /// shortest form, a field of the wrong kind or size, a list with too few
    /// or too many elements.
    Malformed,
    /// Bytes follow the encoded value.
    TrailingBytes,
}

/// The header of a payload of `len` bytes; `offset` tells strings from lists.
#[verifier::opaque]
pub open spec fn header(offset: u8, len: nat) -> Seq<u8> {
    if len <= SHORT_MAX {
        seq![(offset + len) as u8]
    } else {
        seq![(offset + SHORT_MAX + be_bytes(len).len()) as u8] + be_bytes(len)
    }
}

/// A byte below `0x80` on its own, which is encoded as itself.
pub open spec fn is_single(payload: Seq<u8>) -> bool {
    payload.len() == 1 && payload[0] < STRING_OFFSET
}

/// The encoding of the byte string `payload`.
#[verifier::opaque]
pub open spec fn encode_str(payload: Seq<u8>) -> Seq<u8> {
    if is_single(payload) {
        payload
    } else {
        header(STRING_OFFSET, payload.len()) + payload
    }
}

/// The encoding of the unsigned integer `n`: that of its shortest big-endian
/// spelling.
pub open spec fn encode_uint(n: nat) -> Seq<u8> {
    encode_str(be_bytes(n))
}

/// The encoding of the list whose elements' encodings, one after the other,
/// are `payload`.
pub open spec fn encode_list(payload: Seq<u8>) -> Seq<u8> {
    header(LIST_OFFSET, payload.len()) + payload
}

/// The encoding of an item of either kind.
pub open spec fn encode_item(list: bool, payload: Seq<u8>) -> Seq<u8> {
    if list {
        encode_list(payload)
    } else {
        encode_str(payload)
    }
}

/// Payloads of this length and above have no header: their length does not
/// fit into eight bytes.
pub open spec fn length_limit() -> nat {
    pow256(8)
}

/// The first item of a byte sequence, taken apart.
pub struct Item {
    /// Whether the item is a list.
    pub list: bool,
    /// What the header frames.
    pub payload: Seq<u8>,
    /// What follows the item.
    pub rest: Seq<u8>,
}

/// Reads an item whose length is spelled out behind the first byte, in
/// `width` bytes.
pub open spec fn parse_long(b: Seq<u8>, width: int, list: bool) -> Result<Item, DecodeError> {
    if b.len() < 1 + width {
        Err(DecodeError::Truncated)
    } else {
        let spelled = b.subrange(1, 1 + width);
        let len = be_value(spelled);
        if spelled[0] == 0 || len <= SHORT_MAX {
            Err(DecodeError::Malformed)
        } else if b.len() < 1 + width + len {
            Err(DecodeError::Truncated)
        } else {
            Ok(
                Item {
                    list,
                    payload: b.subrange(1 + width, 1 + width + len),
                    rest: b.skip(1 + width + len),
                },
            )
        }
    }
}

/// Reads an item whose length is part of the first byte.
pub open spec fn parse_short(b: Seq<u8>, len: int, list: bool) -> Result<Item, DecodeError> {
    if b.len() < 1 + len {
        Err(DecodeError::Truncated)
    } else if !list && len == 1 && b[1] < STRING_OFFSET {
        Err(DecodeError::Malformed)
    } else {
        Ok(Item { list, payload: b.subrange(1, 1 + len), rest: b.skip(1 + len) })
    }
}

/// Takes the first item off `b`. Fails with `Truncated` where `b` ends too
/// early, and with `Malformed` where the header is not the canonical one for
/// its payload.
#[verifier::opaque]
pub open spec fn parse_item(b: Seq<u8>) -> Result<Item, DecodeError> {
    if b.len() == 0 {
        Err(DecodeError::Truncated)
    } else if b[0] < STRING_OFFSET {
        Ok(Item { list: false, payload: b.take(1), rest: b.skip(1) })
    } else if b[0] <= STRING_OFFSET + SHORT_MAX {
        parse_short(b, b[0] - STRING_OFFSET, false)
    } else if b[0] < LIST_OFFSET {
        parse_long(b, b[0] - STRING_OFFSET - SHORT_MAX, false)
    } else if b[0] <= LIST_OFFSET + SHORT_MAX {
        parse_short(b, b[0] - LIST_OFFSET, true)
    } else {
        parse_long(b, b[0] - LIST_OFFSET - SHORT_MAX, true)
    }
}

/// The first powers of 256, up to the one that bounds a `u64`.
pub proof fn lemma_pow256_table()
    ensures
        pow256(0) == 1,
        pow256(1) == 0x100,
        pow256(2) == 0x1_0000,
        pow256(3) == 0x100_0000,
        pow256(4) == 0x1_0000_0000,
        pow256(5) == 0x100_0000_0000,
        pow256(6) == 0x1_0000_0000_0000,
        pow256(7) == 0x100_0000_0000_0000,
        pow256(8) == 0x1_0000_0000_0000_0000,
{
    assert(pow256(0) == 1);
    assert(pow256(1) == 0x100);
    assert(pow256(2) == 0x1_0000);
    assert(pow256(3) == 0x100_0000);
    assert(pow256(4) == 0x1_0000_0000);
    assert(pow256(5) == 0x100_0000_0000);
    assert(pow256(6) == 0x1_0000_0000_0000);
    assert(pow256(7) == 0x100_0000_0000_0000);
    assert(pow256(8) == 0x1_0000_0000_0000_0000);
}

/// What the spelled-out length of a long payload looks like.
pub proof fn lemma_long_length(len: nat)
    requires
        SHORT_MAX < len < length_limit(),
    ensures
        1 <= be_bytes(len).len() <= 8,
        be_bytes(len)[0] != 0,
        be_value(be_bytes(len)) == len,
{
    lemma_bytes_len(len, 8);
    lemma_bytes_minimal(len);
    lemma_value_of_bytes(len);
}

/// Reading what was written: the first item of an encoding followed by
/// anything is the encoded item, and what followed is left over.
pub proof fn lemma_parse_encoded(list: bool, payload: Seq<u8>, rest: Seq<u8>)
    requires
        payload.len() < length_limit(),
    ensures
        parse_item(encode_item(list, payload) + rest) == Ok::<Item, DecodeError>(
            Item { list, payload, rest },
        ),
{
    reveal(header);
    reveal(encode_str);
    reveal(parse_item);
    let b = encode_item(list, payload) + rest;
    let len = payload.len() as int;
    if !list && is_single(payload) {
        assert(b.take(1) =~= payload);
        assert(b.skip(1) =~= rest);
    } else if len <= SHORT_MAX {
        assert(b.subrange(1, 1 + len) =~= payload);
        assert(b.skip(1 + len) =~= rest);
        if !list && len == 1 {
            assert(b[1] == payload[0]);
        }
    } else {
        lemma_long_length(len as nat);
        let spelled = be_bytes(len as nat);
        let width = spelled.len() as int;
        assert(b.subrange(1, 1 + width) =~= spelled);
        assert(b.subrange(1 + width, 1 + width + len) =~= payload);
        assert(b.skip(1 + width + len) =~= rest);
    }
}

/// Writing what was read: a sequence whose first item can be taken off is
/// the canonical encoding of that item, followed by the rest.
pub proof fn lemma_encode_parsed(b: Seq<u8>)
    requires
        parse_item(b) is Ok,
    ensures
        b == encode_item(parse_item(b).unwrap().list, parse_item(b).unwrap().payload)
            + parse_item(b).unwrap().rest,
        parse_item(b).unwrap().payload.len() < length_limit(),
        parse_item(b).unwrap().rest.len() < b.len(),
{
    reveal(header);
    reveal(encode_str);
    reveal(parse_item);
    let it = parse_item(b).unwrap();
    let enc = encode_item(it.list, it.payload);
    lemma_pow256_table();
    if b[0] < STRING_OFFSET {
        assert(is_single(it.payload));
        assert(b =~= enc + it.rest);
    } else if b[0] <= STRING_OFFSET + SHORT_MAX || (LIST_OFFSET <= b[0] && b[0] <= LIST_OFFSET
        + SHORT_MAX) {
        assert(b =~= enc + it.rest);
    } else {
        let width = if it.list {
            b[0] - LIST_OFFSET - SHORT_MAX
        } else {
            b[0] - STRING_OFFSET - SHORT_MAX
        };
        let spelled = b.subrange(1, 1 + width);
        let len = be_value(spelled);
        lemma_bytes_of_value(spelled);
        lemma_value_bound(spelled);
        lemma_pow256_monotonic(spelled.len(), 8);
        assert(it.payload.len() == len);
        assert(be_bytes(len) == spelled);
        assert(b =~= enc + it.rest);
    }
}

/// A proper prefix of an encoding is reported as truncated.
pub proof fn lemma_parse_prefix(list: bool, payload: Seq<u8>, k: int)
    requires
        payload.len() < length_limit(),
        0 <= k < encode_item(list, payload).len(),
    ensures
        parse_item(encode_item(list, payload).take(k)) == Err::<Item, DecodeError>(
            DecodeError::Truncated,
        ),
{
    reveal(header);
    reveal(encode_str);
    reveal(parse_item);
    let enc = encode_item(list, payload);
    let b = enc.take(k);
    let len = payload.len();
    if k == 0 {
    } else if !list && is_single(payload) {
    } else if len <= SHORT_MAX {
        assert(b[0] == enc[0]);
    } else {
        lemma_long_length(len);
        let spelled = be_bytes(len);
        let width = spelled.len() as int;
        assert(b[0] == enc[0]);
        if k >= 1 + width {
            assert(b.subrange(1, 1 + width) =~= spelled);
        }
    }
}

/// An encoding is never empty, and never shorter than what it frames.
pub proof fn lemma_encoding_len(list: bool, payload: Seq<u8>)
    ensures
        encode_item(list, payload).len() >= 1,
        encode_item(list, payload).len() >= payload.len(),
        list ==> encode_item(list, payload).len() > payload.len(),
{
    reveal(header);
    reveal(encode_str);
}

/// Appends `src` to `out`.
pub fn append_bytes(out: &mut Vec<u8>, src: &[u8])
    ensures
        final(out)@ == old(out)@ + src@,
{
    let mut i: usize = 0;
    while i < src.len()
        invariant
            i <= src.len(),
            out@ == old(out)@ + src@.take(i as int),
        decreases src.len() - i,
    {
        out.push(src[i]);
        assert(src@.take(i + 1) =~= src@.take(i as int).push(src@[i as int]));
        i += 1;
    }
    assert(src@.take(src.len() as int) =~= src@);
}

/// The shortest big-endian spelling of `n`.
pub fn be_bytes_of(n: u64) -> (r: Vec<u8>)
    ensures
        r@ == be_bytes(n as nat),
        r.len() <= 8,
{
    let mut r: Vec<u8> = Vec::new();
    let mut m: u64 = n;
    while m > 0
        invariant
            be_bytes(n as nat) == be_bytes(m as nat) + r@,
        decreases m,
    {
        let low: u8 = (m % 256) as u8;
        let ghost tail = r@;
        assert(be_bytes(m as nat) == be_bytes((m / 256) as nat).push(low));
        r.insert(0, low);
        assert(be_bytes(m as nat) + tail =~= be_bytes((m / 256) as nat) + r@);
        m = m / 256;
    }
    proof {
        assert(be_bytes(0) + r@ =~= r@);
        lemma_pow256_table();
        lemma_bytes_len(n as nat, 8);
    }
    r
}

/// Appends the header of a payload of `len` bytes.
pub fn push_header(out: &mut Vec<u8>, offset: u8, len: usize)
    requires
        offset == STRING_OFFSET || offset == LIST_OFFSET,
    ensures
        final(out)@ == old(out)@ + header(offset, len as nat),
{
    reveal(header);
    if len <= SHORT_MAX {
        out.push(offset + len as u8);
        assert(out@ =~= old(out)@ + header(offset, len as nat));
    } else {
        let spelled = be_bytes_of(len as u64);
        proof {
            lemma_bytes_minimal(len as nat);
        }
        out.push(offset + SHORT_MAX as u8 + spelled.len() as u8);
        append_bytes(out, spelled.as_slice());
        assert(out@ =~= old(out)@ + header(offset, len as nat));
    }
}

/// Appends the encoding of the byte string `payload`.
pub fn push_str(out: &mut Vec<u8>, payload: &[u8])
    ensures
        final(out)@ == old(out)@ + encode_str(payload@),
{
    reveal(encode_str);
    if payload.len() == 1 && payload[0] < STRING_OFFSET {
        out.push(payload[0]);
        assert(out@ =~= old(out)@ + encode_str(payload@));
    } else {
        push_header(out, STRING_OFFSET, payload.len());
        append_bytes(out, payload);
        assert(out@ =~= old(out)@ + encode_str(payload@));
    }
}

/// Appends the encoding of the list whose elements are already encoded in
/// `payload`.
pub fn push_list(out: &mut Vec<u8>, payload: &[u8])
    ensures
        final(out)@ == old(out)@ + encode_list(payload@),
{
    push_header(out, LIST_OFFSET, payload.len());
    append_bytes(out, payload);
    assert(out@ =~= old(out)@ + encode_list(payload@));
}

/// Where the first item of a buffer lies.
#[derive(Clone, Copy, Debug, PartialEq, Eq)]
pub struct ItemSpan {
    /// Whether the item is a list.
    pub list: bool,
    /// Index of the first byte of the payload.
    pub start: usize,
    /// Index behind the last byte of the payload, where the next item begins.
    pub end: usize,
}

/// Reads the big-endian number in `buf[from..to]`, at most eight bytes.
fn read_length(buf: &[u8], from: usize, to: usize) -> (n: u64)
    requires
        from <= to <= buf.len(),
        to - from <= 8,
    ensures
        n == be_value(buf@.subrange(from as int, to as int)),
{
    let mut n: u64 = 0;
    let mut i: usize = from;
    while i < to
        invariant
            from <= i <= to <= buf.len(),
            to - from <= 8,
            n == be_value(buf@.subrange(from as int, i as int)),
        decreases to - i,
    {
        proof {
            let seen = buf@.subrange(from as int, i as int);
            lemma_pow256_table();
            lemma_value_bound(seen);
            lemma_pow256_monotonic(seen.len(), 7);
            assert(buf@.subrange(from as int, i + 1).drop_last() =~= seen);
        }
        n = n * 256 + buf[i] as u64;
        i += 1;
    }
    n
}

/// Takes the first item off `buf[pos..limit]`: says of what kind it is and
/// where its payload lies, or why there is no item.
pub fn decode_item(buf: &[u8], pos: usize, limit: usize) -> (r: Result<ItemSpan, DecodeError>)
    requires
        pos <= limit <= buf.len(),
    ensures
        match r {
            Ok(span) => pos <= span.start <= span.end <= limit && pos < span.end && parse_item(
                buf@.subrange(pos as int, limit as int),
            ) == Ok::<Item, DecodeError>(
                Item {
                    list: span.list,
                    payload: buf@.subrange(span.start as int, span.end as int),
                    rest: buf@.subrange(span.end as int, limit as int),
                },
            ),
            Err(e) => parse_item(buf@.subrange(pos as int, limit as int)) == Err::<
                Item,
                DecodeError,
            >(e),
        },
{
    reveal(parse_item);
    let ghost b = buf@.subrange(pos as int, limit as int);
    if pos == limit {
        return Err(DecodeError::Truncated);
    }
    let tag: u8 = buf[pos];
    let avail: usize = limit - pos - 1;
    assert(tag == b[0]);
    if tag < STRING_OFFSET {
        assert(b.take(1) =~= buf@.subrange(pos as int, pos + 1));
        assert(b.skip(1) =~= buf@.subrange(pos + 1, limit as int));
        return Ok(ItemSpan { list: false, start: pos, end: pos + 1 });
    }
    let list: bool = tag >= LIST_OFFSET;
    let offset: u8 = if list {
        LIST_OFFSET
    } else {
        STRING_OFFSET
    };
    let low: u8 = tag - offset;
    if low as usize <= SHORT_MAX {
        let len: usize = low as usize;
        if avail < len {
            return Err(DecodeError::Truncated);
        }
        if !list && len == 1 && buf[pos + 1] < STRING_OFFSET {
            assert(b[1] == buf@[pos + 1]);
            return Err(DecodeError::Malformed);
        }
        assert(len == 1 ==> b[1] == buf@[pos + 1]);
        assert(b.subrange(1, 1 + len) =~= buf@.subrange(pos + 1, pos + 1 + len));
        assert(b.skip(1 + len) =~= buf@.subrange(pos + 1 + len, limit as int));
        return Ok(ItemSpan { list, start: pos + 1, end: pos + 1 + len });
    }
    let width: usize = low as usize - SHORT_MAX;
    if avail < width {
        return Err(DecodeError::Truncated);
    }
    let first: usize = pos + 1;
    let len: u64 = read_length(buf, first, first + width);
    assert(b.subrange(1, 1 + width) =~= buf@.subrange(first as int, first + width));
    assert(b.subrange(1, 1 + width)[0] == buf@[first as int]);
    if buf[first] == 0 || len <= SHORT_MAX as u64 {
        return Err(DecodeError::Malformed);
    }
    if len > (avail - width) as u64 {
        return Err(DecodeError::Truncated);
    }
    let start: usize = first + width;
    let end: usize = start + len as usize;
    assert(b.subrange(1 + width, 1 + width + len) =~= buf@.subrange(start as int, end as int));
    assert(b.skip(1 + width + len) =~= buf@.subrange(end as int, limit as int));
    Ok(ItemSpan { list, start, end })
}

} // verus!
