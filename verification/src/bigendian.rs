//! Natural numbers as big-endian byte strings.

use vstd::prelude::*;

verus! {

/// The number that `b` spells in base 256, most significant byte first.
pub open spec fn be_value(b: Seq<u8>) -> nat
    decreases b.len(),
{
    if b.len() == 0 {
        0
    } else {
        be_value(b.drop_last()) * 256 + b.last() as nat
    }
}

/// The shortest big-endian spelling of `n`: no leading zero byte, and no byte
/// at all for zero.
pub open spec fn be_bytes(n: nat) -> Seq<u8>
    decreases n,
{
    if n == 0 {
        Seq::empty()
    } else {
        be_bytes(n / 256).push((n % 256) as u8)
    }
}

/// `b` has no leading zero byte.
pub open spec fn minimal(b: Seq<u8>) -> bool {
    b.len() == 0 || b[0] != 0
}

/// 256 to the power `k`.
pub open spec fn pow256(k: nat) -> nat
    decreases k,
{
    if k == 0 {
        1
    } else {
        256 * pow256((k - 1) as nat)
    }
}

/// `k` zero bytes.
pub open spec fn zeros(k: nat) -> Seq<u8> {
    Seq::new(k, |i: int| 0u8)
}

pub proof fn lemma_pow256_positive(k: nat)
    ensures
        pow256(k) > 0,
    decreases k,
{
    if k > 0 {
        lemma_pow256_positive((k - 1) as nat);
    }
}

pub proof fn lemma_pow256_monotonic(a: nat, b: nat)
    requires
        a <= b,
    ensures
        pow256(a) <= pow256(b),
    decreases b,
{
    lemma_pow256_positive(a);
    if a < b {
        lemma_pow256_monotonic(a, (b - 1) as nat);
    }
}

/// Spelling a number and reading it back gives the number.
pub proof fn lemma_value_of_bytes(n: nat)
    ensures
        be_value(be_bytes(n)) == n,
    decreases n,
{
    if n > 0 {
        lemma_value_of_bytes(n / 256);
        assert(be_bytes(n).drop_last() =~= be_bytes(n / 256));
    }
}

/// The shortest spelling has no leading zero byte.
pub proof fn lemma_bytes_minimal(n: nat)
    ensures
        minimal(be_bytes(n)),
        n > 0 ==> be_bytes(n).len() > 0,
    decreases n,
{
    if n >= 256 {
        lemma_bytes_minimal(n / 256);
        assert(be_bytes(n)[0] == be_bytes(n / 256)[0]);
    } else if n > 0 {
        assert(be_bytes(n / 256).len() == 0);
    }
}

/// A string without a leading zero byte spells a positive number, unless it
/// is empty.
pub proof fn lemma_minimal_positive(b: Seq<u8>)
    requires
        minimal(b),
        b.len() > 0,
    ensures
        be_value(b) > 0,
    decreases b.len(),
{
    if b.len() > 1 {
        assert(b.drop_last()[0] == b[0]);
        lemma_minimal_positive(b.drop_last());
    } else {
        assert(b.drop_last().len() == 0);
        assert(b.last() == b[0]);
    }
}

/// A string without a leading zero byte is the shortest spelling of its
/// number.
pub proof fn lemma_bytes_of_value(b: Seq<u8>)
    requires
        minimal(b),
    ensures
        be_bytes(be_value(b)) == b,
    decreases b.len(),
{
    if b.len() > 0 {
        let init = b.drop_last();
        let v = be_value(b);
        lemma_minimal_positive(b);
        if init.len() > 0 {
            assert(init[0] == b[0]);
        }
        lemma_bytes_of_value(init);
        assert(v / 256 == be_value(init) && v % 256 == b.last() as nat) by {
            assert(v == be_value(init) * 256 + b.last() as nat);
        }
        assert(be_bytes(v) =~= b);
    }
}

/// A string of `k` bytes spells a number below 256 to the `k`.
pub proof fn lemma_value_bound(b: Seq<u8>)
    ensures
        be_value(b) < pow256(b.len()),
    decreases b.len(),
{
    if b.len() > 0 {
        lemma_value_bound(b.drop_last());
    }
}

/// A string of `k` bytes that starts with a nonzero byte spells a number of
/// at least 256 to the `k - 1`.
pub proof fn lemma_value_lower_bound(b: Seq<u8>)
    requires
        b.len() > 0,
        b[0] != 0,
    ensures
        be_value(b) >= pow256((b.len() - 1) as nat),
    decreases b.len(),
{
    if b.len() > 1 {
        assert(b.drop_last()[0] == b[0]);
        lemma_value_lower_bound(b.drop_last());
    } else {
        assert(b.drop_last().len() == 0);
        assert(b.last() == b[0]);
    }
}

/// The shortest spelling of a number below 256 to the `k` has at most `k`
/// bytes.
pub proof fn lemma_bytes_len(n: nat, k: nat)
    requires
        n < pow256(k),
    ensures
        be_bytes(n).len() <= k,
{
    let b = be_bytes(n);
    lemma_bytes_minimal(n);
    lemma_value_of_bytes(n);
    if b.len() > k {
        lemma_value_lower_bound(b);
        lemma_pow256_monotonic(k, (b.len() - 1) as nat);
    }
}

/// Appending a byte multiplies by 256 and adds the byte; prepending a string
/// shifts it by the length of what follows.
pub proof fn lemma_value_concat(a: Seq<u8>, b: Seq<u8>)
    ensures
        be_value(a + b) == be_value(a) * pow256(b.len()) + be_value(b),
    decreases b.len(),
{
    if b.len() == 0 {
        assert(a + b =~= a);
        assert(pow256(0) == 1);
    } else {
        lemma_value_concat(a, b.drop_last());
        assert((a + b).drop_last() =~= a + b.drop_last());
        assert((a + b).last() == b.last());
        let p = pow256((b.len() - 1) as nat);
        let va = be_value(a);
        let vb = be_value(b.drop_last());
        assert(pow256(b.len()) == 256 * p);
        assert(be_value(a + b) == (va * p + vb) * 256 + b.last() as nat);
        assert((va * p + vb) * 256 == va * (256 * p) + vb * 256) by (nonlinear_arith);
    }
}

/// A single byte spells its own value.
pub proof fn lemma_value_single(a: u8)
    ensures
        be_value(seq![a]) == a,
        be_value(Seq::<u8>::empty()) == 0,
{
    assert(seq![a].drop_last() =~= Seq::<u8>::empty());
    assert(be_value(seq![a].drop_last()) == 0);
}

/// Zero bytes spell zero.
pub proof fn lemma_value_zeros(k: nat)
    ensures
        be_value(zeros(k)) == 0,
    decreases k,
{
    if k > 0 {
        lemma_value_zeros((k - 1) as nat);
        assert(zeros(k).drop_last() =~= zeros((k - 1) as nat));
    }
}

/// Leading zero bytes do not change the number.
pub proof fn lemma_value_leading_zeros(k: nat, b: Seq<u8>)
    ensures
        be_value(zeros(k) + b) == be_value(b),
{
    lemma_value_concat(zeros(k), b);
    lemma_value_zeros(k);
}

/// Two strings of one length that spell one number are the same string.
pub proof fn lemma_value_injective(a: Seq<u8>, b: Seq<u8>)
    requires
        a.len() == b.len(),
        be_value(a) == be_value(b),
    ensures
        a == b,
    decreases a.len(),
{
    if a.len() > 0 {
        lemma_value_injective(a.drop_last(), b.drop_last());
        assert(a =~= a.drop_last().push(a.last()));
        assert(b =~= b.drop_last().push(b.last()));
    } else {
        assert(a =~= b);
    }
}

} // verus!
