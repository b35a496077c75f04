//! Unsigned integers of 256 bits.

use crate::bigendian::{
    be_bytes, be_value, lemma_bytes_of_value, lemma_minimal_positive, lemma_value_bound,
    lemma_value_concat, lemma_value_injective, lemma_value_leading_zeros, lemma_value_of_bytes,
    lemma_value_single, lemma_value_zeros, pow256, zeros,
};
use vstd::prelude::*;
use vstd::string::*;

verus! {

/// ASCII code of the digit zero.
pub const DIGIT_ZERO: u8 = 0x30;

/// ASCII code of the digit nine.
pub const DIGIT_NINE: u8 = 0x39;

/// An unsigned integer below 2 to the 256, held as 32 bytes, most
/// significant first.
#[derive(Clone, Copy, Debug, PartialEq, Eq, Hash)]
pub struct U256(pub [u8; 32]);

/// Why a decimal string is not a `U256`.
#[derive(Clone, Copy, Debug, PartialEq, Eq)]
pub enum FromDecStrErr {
    /// A character that is not a decimal digit.
    InvalidCharacter,
    /// The number does not fit into 256 bits.
    InvalidLength,
}

impl View for U256 {
    type V = nat;

    open spec fn view(&self) -> nat {
        be_value(self.0@)
    }
}

/// The number that the decimal digits `s` spell, read from the left: the
/// first character that is no digit, or the first digit with which the number
/// leaves the range, decides the error. The empty string spells zero.
pub open spec fn dec_value(s: Seq<u8>) -> Result<nat, FromDecStrErr>
    decreases s.len(),
{
    if s.len() == 0 {
        Ok(0)
    } else {
        match dec_value(s.drop_last()) {
            Err(e) => Err(e),
            Ok(v) => if s.last() < DIGIT_ZERO || s.last() > DIGIT_NINE {
                Err(FromDecStrErr::InvalidCharacter)
            } else if v * 10 + (s.last() - DIGIT_ZERO) >= pow256(32) {
                Err(FromDecStrErr::InvalidLength)
            } else {
                Ok((v * 10 + (s.last() - DIGIT_ZERO)) as nat)
            },
        }
    }
}

/// An error found in a prefix of a decimal string is the error of the whole
/// string.
pub proof fn lemma_dec_error_extends(s: Seq<u8>, k: int)
    requires
        0 <= k <= s.len(),
        dec_value(s.take(k)) is Err,
    ensures
        dec_value(s) == dec_value(s.take(k)),
    decreases s.len() - k,
{
    if k < s.len() {
        assert(s.take(k + 1).drop_last() =~= s.take(k));
        lemma_dec_error_extends(s, k + 1);
    } else {
        assert(s.take(k) =~= s);
    }
}

/// Two values that stand for one number are the same value.
pub proof fn lemma_view_injective(a: U256, b: U256)
    requires
        a@ == b@,
    ensures
        a == b,
{
    lemma_value_injective(a.0@, b.0@);
    assert(a.0 =~= b.0);
}

impl U256 {
    /// Zero.
    pub fn zero() -> (r: U256)
        ensures
            r@ == 0,
    {
        let r = U256([0u8; 32]);
        proof {
            assert(r.0@ =~= zeros(32));
            lemma_value_zeros(32);
        }
        r
    }

    /// Whether this is zero.
    pub fn is_zero(&self) -> (r: bool)
        ensures
            r == (self@ == 0),
    {
        let k = self.leading_zeros();
        proof {
            if k < 32 {
                lemma_minimal_positive(self.0@.skip(k as int));
            }
        }
        k == 32
    }

    /// The number of zero bytes in front of the first byte that is not zero.
    fn leading_zeros(&self) -> (k: usize)
        ensures
            k <= 32,
            self.0@ == zeros(k as nat) + self.0@.skip(k as int),
            k < 32 ==> self.0@[k as int] != 0,
            self@ == be_value(self.0@.skip(k as int)),
    {
        let mut k: usize = 0;
        while k < 32 && self.0[k] == 0
            invariant
                k <= 32,
                forall|j: int| 0 <= j < k ==> self.0@[j] == 0,
            decreases 32 - k,
        {
            k += 1;
        }
        proof {
            assert(self.0@ =~= zeros(k as nat) + self.0@.skip(k as int));
            lemma_value_leading_zeros(k as nat, self.0@.skip(k as int));
        }
        k
    }

    /// The value of `n`.
    pub fn from_u64(n: u64) -> (r: U256)
        ensures
            r@ == n,
    {
        let spelled = crate::rlp::be_bytes_of(n);
        proof {
            lemma_value_of_bytes(n as nat);
        }
        match U256::from_big_endian(spelled.as_slice()) {
            Some(r) => r,
            None => U256::zero(),
        }
    }

    /// The number that `bytes` spell, most significant byte first; `None`
    /// where there are more than 32 of them.
    pub fn from_big_endian(bytes: &[u8]) -> (r: Option<U256>)
        ensures
            r is Some <==> bytes@.len() <= 32,
            r is Some ==> r.unwrap()@ == be_value(bytes@),
    {
        let len: usize = bytes.len();
        if len > 32 {
            return None;
        }
        let pad: usize = 32 - len;
        let mut out: [u8; 32] = [0u8; 32];
        let mut i: usize = 0;
        while i < len
            invariant
                len == bytes@.len(),
                pad + len == 32,
                i <= len,
                forall|j: int| 0 <= j < pad ==> out@[j] == 0,
                forall|j: int| 0 <= j < i ==> out@[pad + j] == bytes@[j],
            decreases len - i,
        {
            out[pad + i] = bytes[i];
            i += 1;
        }
        proof {
            assert(out@ =~= zeros(pad as nat) + bytes@);
            lemma_value_leading_zeros(pad as nat, bytes@);
        }
        Some(U256(out))
    }

    /// The 32 bytes of the number, most significant first.
    pub fn to_big_endian(&self) -> (r: [u8; 32])
        ensures
            r@.len() == 32,
            be_value(r@) == self@,
    {
        self.0
    }

    /// The shortest big-endian spelling of the number: no leading zero byte,
    /// and no byte at all for zero.
    pub fn to_minimal_bytes(&self) -> (r: Vec<u8>)
        ensures
            r@ == be_bytes(self@),
            r@.len() <= 32,
    {
        let k = self.leading_zeros();
        let mut r: Vec<u8> = Vec::new();
        let mut i: usize = k;
        while i < 32
            invariant
                k <= i <= 32,
                r@ == self.0@.subrange(k as int, i as int),
            decreases 32 - i,
        {
            r.push(self.0[i]);
            assert(self.0@.subrange(k as int, i + 1) =~= self.0@.subrange(k as int, i as int).push(
                self.0@[i as int],
            ));
            i += 1;
        }
        proof {
            assert(self.0@.subrange(k as int, 32) =~= self.0@.skip(k as int));
            lemma_bytes_of_value(self.0@.skip(k as int));
        }
        r
    }

    /// Ten times the number, plus the digit `d`; `None` where that leaves
    /// the range.
    fn times_ten_plus(&self, d: u8) -> (r: Option<U256>)
        requires
            d <= 9,
        ensures
            r is Some <==> self@ * 10 + d < pow256(32),
            r is Some ==> r.unwrap()@ == self@ * 10 + d,
    {
        let mut out: [u8; 32] = self.0;
        let mut carry: u16 = d as u16;
        let mut i: usize = 32;
        proof {
            assert(self.0@.skip(32) =~= Seq::<u8>::empty());
            assert(out@.skip(32) =~= Seq::<u8>::empty());
            assert(pow256(0) == 1);
            lemma_value_single(0);
            assert(carry * pow256(0) == d);
        }
        while i > 0
            invariant
                i <= 32,
                carry <= 9,
                forall|j: int| 0 <= j < i ==> out@[j] == self.0@[j],
                be_value(out@.skip(i as int)) + carry * pow256((32 - i) as nat) == be_value(
                    self.0@.skip(i as int),
                ) * 10 + d,
            decreases i,
        {
            let ghost before = out@;
            let ghost c = carry;
            i -= 1;
            let t: u16 = out[i] as u16 * 10 + carry;
            out[i] = (t % 256) as u8;
            carry = t / 256;
            proof {
                let width = (31 - i) as nat;
                let p = pow256(width);
                let a = self.0@[i as int];
                let old_tail = self.0@.skip(i + 1);
                let new_tail = out@.skip(i + 1);
                assert(new_tail =~= before.skip(i + 1));
                assert(self.0@.skip(i as int) =~= seq![a] + old_tail);
                assert(out@.skip(i as int) =~= seq![(t % 256) as u8] + new_tail);
                lemma_value_concat(seq![a], old_tail);
                lemma_value_concat(seq![(t % 256) as u8], new_tail);
                lemma_value_single(a);
                lemma_value_single((t % 256) as u8);
                assert(pow256(width + 1) == 256 * p);
                let vt = be_value(new_tail);
                let vs = be_value(old_tail);
                assert(vt + c * p == vs * 10 + d);
                assert(t == a * 10 + c);
                assert((t % 256) * p + vt + (t / 256) * (256 * p) == (a * p + vs) * 10 + d)
                    by (nonlinear_arith)
                    requires
                        vt + c * p == vs * 10 + d,
                        t == a * 10 + c,
                ;
            }
        }
        proof {
            assert(out@.skip(0) =~= out@);
            assert(self.0@.skip(0) =~= self.0@);
            lemma_value_bound(out@);
            assert(carry > 0 ==> carry * pow256(32) >= pow256(32)) by (nonlinear_arith)
                requires
                    pow256(32) >= 0,
            ;
        }
        if carry == 0 {
            Some(U256(out))
        } else {
            None
        }
    }

    /// Reads a number in decimal digits. The empty string reads as zero.
    pub fn from_dec_str(s: &str) -> (r: Result<U256, FromDecStrErr>)
        ensures
            match r {
                Ok(v) => dec_value(s.spec_bytes()) == Ok::<nat, FromDecStrErr>(v@),
                Err(e) => dec_value(s.spec_bytes()) == Err::<nat, FromDecStrErr>(e),
            },
    {
        let bytes = s.as_bytes();
        let mut acc = U256::zero();
        let mut i: usize = 0;
        assert(bytes@.take(0) =~= Seq::<u8>::empty());
        while i < bytes.len()
            invariant
                i <= bytes.len(),
                bytes@ == s.spec_bytes(),
                dec_value(bytes@.take(i as int)) == Ok::<nat, FromDecStrErr>(acc@),
            decreases bytes.len() - i,
        {
            let c: u8 = bytes[i];
            proof {
                assert(bytes@.take(i + 1).drop_last() =~= bytes@.take(i as int));
                assert(bytes@.take(i + 1).last() == c);
            }
            if c < DIGIT_ZERO || c > DIGIT_NINE {
                proof {
                    lemma_dec_error_extends(bytes@, i + 1);
                }
                return Err(FromDecStrErr::InvalidCharacter);
            }
            match acc.times_ten_plus(c - DIGIT_ZERO) {
                Some(next) => {
                    acc = next;
                },
                None => {
                    proof {
                        lemma_dec_error_extends(bytes@, i + 1);
                    }
                    return Err(FromDecStrErr::InvalidLength);
                },
            }
            i += 1;
        }
        assert(bytes@.take(bytes.len() as int) =~= bytes@);
        Ok(acc)
    }
}

} // verus!
