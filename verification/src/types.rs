//! Addresses and 32-byte words, and their hexadecimal text form.

use vstd::prelude::*;
use vstd::string::*;

verus! {

/// Number of bytes in an address.
pub const ADDRESS_LEN: usize = 20;

/// Number of hexadecimal digits in an address.
pub const ADDRESS_HEX_LEN: usize = 40;

/// A 20-byte account address. Twenty zero bytes stand for "no recipient": a
/// transaction that creates a contract.
#[derive(Clone, Copy, Debug, PartialEq, Eq, Hash)]
pub struct Address(pub [u8; 20]);

/// A 32-byte word: a digest, or a storage key.
#[derive(Clone, Copy, Debug, PartialEq, Eq, Hash)]
pub struct H256(pub [u8; 32]);

/// Why a text does not spell the bytes that are asked for.
#[derive(Clone, Copy, Debug, PartialEq, Eq)]
pub enum HexError {
    /// Not the right number of hexadecimal digits: 40 for an address, an
    /// even number for bytes.
    InvalidLength,
    /// A character that is not a hexadecimal digit.
    InvalidCharacter,
}

impl View for Address {
    type V = Seq<u8>;

    open spec fn view(&self) -> Seq<u8> {
        self.0@
    }
}

impl View for H256 {
    type V = Seq<u8>;

    open spec fn view(&self) -> Seq<u8> {
        self.0@
    }
}

/// The value of the hexadecimal digit with ASCII code `c`, in either case.
pub open spec fn hex_digit(c: u8) -> Option<u8> {
    if 0x30 <= c <= 0x39 {
        Some((c - 0x30) as u8)
    } else if 0x61 <= c <= 0x66 {
        Some((c - 0x61 + 10) as u8)
    } else if 0x41 <= c <= 0x46 {
        Some((c - 0x41 + 10) as u8)
    } else {
        None
    }
}

/// The ASCII code of the lower-case hexadecimal digit of value `n`.
pub open spec fn hex_code(n: u8) -> u8 {
    if n < 10 {
        (0x30 + n) as u8
    } else {
        (0x61 + n - 10) as u8
    }
}

/// The text without a leading `0x`.
pub open spec fn strip_0x(s: Seq<u8>) -> Seq<u8> {
    if s.len() >= 2 && s[0] == 0x30 && s[1] == 0x78 {
        s.skip(2)
    } else {
        s
    }
}

/// Every character is a hexadecimal digit.
pub open spec fn all_hex(digits: Seq<u8>) -> bool {
    forall|i: int| 0 <= i < digits.len() ==> (#[trigger] hex_digit(digits[i])) is Some
}

/// The bytes that pairs of hexadecimal digits spell.
pub open spec fn hex_bytes(digits: Seq<u8>) -> Seq<u8> {
    Seq::new(
        digits.len() / 2,
        |i: int| (hex_digit(digits[2 * i]).unwrap() * 16 + hex_digit(digits[2 * i + 1]).unwrap()) as u8,
    )
}

/// The address that a text spells: 40 hexadecimal digits of either case,
/// with or without `0x` in front.
pub open spec fn parse_address(s: Seq<u8>) -> Result<Seq<u8>, HexError> {
    let digits = strip_0x(s);
    if digits.len() != ADDRESS_HEX_LEN {
        Err(HexError::InvalidLength)
    } else if !all_hex(digits) {
        Err(HexError::InvalidCharacter)
    } else {
        Ok(hex_bytes(digits))
    }
}

/// The bytes that a text spells: an even number of hexadecimal digits of
/// either case, with or without `0x` in front.
pub open spec fn parse_hex(s: Seq<u8>) -> Result<Seq<u8>, HexError> {
    let digits = strip_0x(s);
    if digits.len() % 2 != 0 {
        Err(HexError::InvalidLength)
    } else if !all_hex(digits) {
        Err(HexError::InvalidCharacter)
    } else {
        Ok(hex_bytes(digits))
    }
}

/// The text form of bytes: `0x`, then two lower-case hexadecimal digits for
/// each byte.
pub open spec fn hex_text(bytes: Seq<u8>) -> Seq<char> {
    seq!['0', 'x'] + hex_digits(bytes)
}

/// Two lower-case hexadecimal digits for each byte.
pub open spec fn hex_digits(bytes: Seq<u8>) -> Seq<char> {
    Seq::new(2 * bytes.len(), |i: int| hex_digit_at(bytes, i))
}

/// The hexadecimal digit at place `i` of the text form of `bytes`.
pub open spec fn hex_digit_at(bytes: Seq<u8>, i: int) -> char {
    if i % 2 == 0 {
        hex_code(bytes[i / 2] / 16) as char
    } else {
        hex_code(bytes[i / 2] % 16) as char
    }
}

/// `String::push` of std, for an ASCII code: appends that one character.
#[verifier::external_body]
fn push_ascii(s: &mut String, code: u8)
    requires
        code < 128,
    ensures
        final(s)@ == old(s)@.push(code as char),
{
    s.push(code as char);
}

/// Reads one hexadecimal digit.
fn hex_digit_of(c: u8) -> (r: Option<u8>)
    ensures
        r == hex_digit(c),
        r is Some ==> r.unwrap() < 16,
{
    if 0x30 <= c && c <= 0x39 {
        Some(c - 0x30)
    } else if 0x61 <= c && c <= 0x66 {
        Some(c - 0x61 + 10)
    } else if 0x41 <= c && c <= 0x46 {
        Some(c - 0x41 + 10)
    } else {
        None
    }
}

/// Writes one hexadecimal digit.
fn hex_code_of(n: u8) -> (r: u8)
    requires
        n < 16,
    ensures
        r == hex_code(n),
        r < 128,
{
    if n < 10 {
        0x30 + n
    } else {
        0x61 + n - 10
    }
}

/// The text form of `bytes`.
pub fn to_hex(bytes: &[u8]) -> (r: String)
    ensures
        r@ == hex_text(bytes@),
{
    let mut r = String::new();
    push_ascii(&mut r, 0x30);
    push_ascii(&mut r, 0x78);
    let mut i: usize = 0;
    assert(r@ =~= hex_text(bytes@.take(0)));
    while i < bytes.len()
        invariant
            i <= bytes.len(),
            r@ == hex_text(bytes@.take(i as int)),
        decreases bytes.len() - i,
    {
        let b: u8 = bytes[i];
        push_ascii(&mut r, hex_code_of(b / 16));
        push_ascii(&mut r, hex_code_of(b % 16));
        proof {
            let before = bytes@.take(i as int);
            let after = bytes@.take(i + 1);
            let k = 2 * i as int;
            assert(k % 2 == 0 && k / 2 == i && (k + 1) % 2 == 1 && (k + 1) / 2 == i);
            assert forall|j: int| 0 <= j < k implies hex_digit_at(after, j) == hex_digit_at(
                before,
                j,
            ) by {
                assert(after[j / 2] == before[j / 2]);
            }
            assert(hex_digit_at(after, k) == hex_code(b / 16) as char);
            assert(hex_digit_at(after, k + 1) == hex_code(b % 16) as char);
            assert(r@ =~= hex_text(after));
        }
        i += 1;
    }
    assert(bytes@.take(bytes.len() as int) =~= bytes@);
    r
}

/// Reads bytes from an even number of hexadecimal digits of either case,
/// with or without `0x` in front.
pub fn from_hex(s: &str) -> (r: Result<Vec<u8>, HexError>)
    ensures
        match r {
            Ok(bytes) => parse_hex(s.spec_bytes()) == Ok::<Seq<u8>, HexError>(bytes@),
            Err(e) => parse_hex(s.spec_bytes()) == Err::<Seq<u8>, HexError>(e),
        },
{
    let text = s.as_bytes();
    let skip: usize = if text.len() >= 2 && text[0] == 0x30 && text[1] == 0x78 {
        2
    } else {
        0
    };
    let ghost digits = strip_0x(text@);
    assert(digits =~= text@.skip(skip as int));
    let count: usize = text.len() - skip;
    if count % 2 != 0 {
        return Err(HexError::InvalidLength);
    }
    let mut out: Vec<u8> = Vec::new();
    let mut i: usize = 0;
    while i < count / 2
        invariant
            i <= count / 2,
            skip <= 2,
            count % 2 == 0,
            text@ == s.spec_bytes(),
            text@.len() == skip + count,
            digits == text@.skip(skip as int),
            digits == strip_0x(text@),
            out@.len() == i,
            forall|j: int| 0 <= j < 2 * i ==> (#[trigger] hex_digit(digits[j])) is Some,
            forall|j: int| 0 <= j < i ==> out@[j] == #[trigger] hex_bytes(digits)[j],
        decreases count / 2 - i,
    {
        let high = hex_digit_of(text[skip + 2 * i]);
        let low = hex_digit_of(text[skip + 2 * i + 1]);
        match (high, low) {
            (Some(h), Some(l)) => {
                out.push(h * 16 + l);
            },
            _ => {
                assert(hex_digit(digits[2 * i]) is None || hex_digit(digits[2 * i + 1])
                    is None);
                return Err(HexError::InvalidCharacter);
            },
        }
        i += 1;
    }
    assert(out@ =~= hex_bytes(digits));
    Ok(out)
}

impl Address {
    /// The address of twenty zero bytes.
    pub fn zero() -> (r: Address)
        ensures
            r@ == Seq::new(20, |i: int| 0u8),
    {
        let r = Address([0u8; 20]);
        assert(r@ =~= Seq::new(20, |i: int| 0u8));
        r
    }

    /// Reads an address from 40 hexadecimal digits of either case, with or
    /// without `0x` in front.
    pub fn from_str(s: &str) -> (r: Result<Address, HexError>)
        ensures
            match r {
                Ok(a) => parse_address(s.spec_bytes()) == Ok::<Seq<u8>, HexError>(a@),
                Err(e) => parse_address(s.spec_bytes()) == Err::<Seq<u8>, HexError>(e),
            },
    {
        let text = s.as_bytes();
        let skip: usize = if text.len() >= 2 && text[0] == 0x30 && text[1] == 0x78 {
            2
        } else {
            0
        };
        let ghost digits = strip_0x(text@);
        assert(digits =~= text@.skip(skip as int));
        if text.len() - skip != ADDRESS_HEX_LEN {
            return Err(HexError::InvalidLength);
        }
        let mut out: [u8; 20] = [0u8; 20];
        let mut i: usize = 0;
        while i < ADDRESS_LEN
            invariant
                i <= ADDRESS_LEN,
                skip <= 2,
                text@ == s.spec_bytes(),
                digits == strip_0x(text@),
                text@.len() == skip + ADDRESS_HEX_LEN,
                digits == text@.skip(skip as int),
                forall|j: int| 0 <= j < 2 * i ==> (#[trigger] hex_digit(digits[j])) is Some,
                forall|j: int| 0 <= j < i ==> out@[j] == #[trigger] hex_bytes(digits)[j],
            decreases ADDRESS_LEN - i,
        {
            let high = hex_digit_of(text[skip + 2 * i]);
            let low = hex_digit_of(text[skip + 2 * i + 1]);
            match (high, low) {
                (Some(h), Some(l)) => {
                    out[i] = h * 16 + l;
                },
                _ => {
                    assert(hex_digit(digits[2 * i]) is None || hex_digit(digits[2 * i + 1])
                        is None);
                    return Err(HexError::InvalidCharacter);
                },
            }
            i += 1;
        }
        assert(out@ =~= hex_bytes(digits));
        Ok(Address(out))
    }

    /// The address as text: `0x` and 40 lower-case hexadecimal digits.
    pub fn to_hex_string(&self) -> (r: String)
        ensures
            r@ == hex_text(self@),
    {
        to_hex(self.0.as_slice())
    }
}

} // verus!
