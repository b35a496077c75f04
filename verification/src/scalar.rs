//! Private keys as numbers: a private key is a number above zero and below
//! the order of the curve secp256k1, spelled in 32 bytes.

use crate::bigendian::{
    be_value, lemma_value_bound, lemma_value_concat, lemma_value_zeros, pow256, zeros,
};
use vstd::prelude::*;

verus! {

/// The order of secp256k1, most significant byte first:
/// `FFFFFFFF FFFFFFFF FFFFFFFF FFFFFFFE BAAEDCE6 AF48A03B BFD25E8C D0364141`.
pub const ORDER: [u8; 32] = [
    0xff, 0xff, 0xff, 0xff, 0xff, 0xff, 0xff, 0xff, 0xff, 0xff, 0xff, 0xff, 0xff, 0xff, 0xff, 0xfe,
    0xba, 0xae, 0xdc, 0xe6, 0xaf, 0x48, 0xa0, 0x3b, 0xbf, 0xd2, 0x5e, 0x8c, 0xd0, 0x36, 0x41, 0x41,
];

/// The order of the curve as a number.
pub open spec fn curve_order() -> nat {
    be_value(ORDER@)
}

/// Whether 32 bytes spell a private key: a number that is not zero and is
/// below the order of the curve.
pub open spec fn valid_scalar(key: Seq<u8>) -> bool {
    key.len() == 32 && 0 < be_value(key) < curve_order()
}

/// Of two strings of one length, the one with the smaller byte at the first
/// place where they differ spells the smaller number.
pub proof fn lemma_first_difference_decides(a: Seq<u8>, b: Seq<u8>, i: int)
    requires
        a.len() == b.len(),
        0 <= i < a.len(),
        a.take(i) == b.take(i),
        a[i] < b[i],
    ensures
        be_value(a) < be_value(b),
{
    let rest = (a.len() - i - 1) as nat;
    let p = pow256(rest);
    let a_high = be_value(a.take(i + 1));
    let b_high = be_value(b.take(i + 1));
    assert(a =~= a.take(i + 1) + a.skip(i + 1));
    assert(b =~= b.take(i + 1) + b.skip(i + 1));
    lemma_value_concat(a.take(i + 1), a.skip(i + 1));
    lemma_value_concat(b.take(i + 1), b.skip(i + 1));
    assert(a.take(i + 1).drop_last() =~= a.take(i));
    assert(b.take(i + 1).drop_last() =~= b.take(i));
    assert(a_high + 1 <= b_high);
    lemma_value_bound(a.skip(i + 1));
    assert(a_high * p + p <= b_high * p) by (nonlinear_arith)
        requires
            a_high + 1 <= b_high,
            p >= 0,
    ;
}

/// Whether the number that `a` spells is below the number that `b` spells.
pub fn is_below(a: &[u8; 32], b: &[u8; 32]) -> (r: bool)
    ensures
        r == (be_value(a@) < be_value(b@)),
{
    let mut i: usize = 0;
    while i < 32 && a[i] == b[i]
        invariant
            i <= 32,
            a@.take(i as int) == b@.take(i as int),
        decreases 32 - i,
    {
        assert(a@.take(i + 1) =~= a@.take(i as int).push(a@[i as int]));
        assert(b@.take(i + 1) =~= b@.take(i as int).push(b@[i as int]));
        i += 1;
    }
    if i == 32 {
        assert(a@.take(32) =~= a@);
        assert(b@.take(32) =~= b@);
        false
    } else if a[i] < b[i] {
        proof {
            lemma_first_difference_decides(a@, b@, i as int);
        }
        true
    } else {
        proof {
            lemma_first_difference_decides(b@, a@, i as int);
        }
        false
    }
}

/// Whether `key` spells a private key.
pub fn is_valid_scalar(key: &[u8; 32]) -> (r: bool)
    ensures
        r == valid_scalar(key@),
{
    let zero: [u8; 32] = [0u8; 32];
    proof {
        assert(zero@ =~= zeros(32));
        lemma_value_zeros(32);
    }
    is_below(&zero, key) && is_below(key, &ORDER)
}

} // verus!
