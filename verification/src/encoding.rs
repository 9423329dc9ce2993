//! Big-endian byte strings as natural numbers.
//!
//! Integers travel as unsigned big-endian byte strings of minimal length: no
//! leading zero byte, and zero itself is the empty string.

use vstd::prelude::*;
use vstd::arithmetic::power::{pow, lemma_pow_positive};

verus! {

/// The natural number that a big-endian byte string denotes. Leading zero
/// bytes do not change it, and the empty string denotes zero.
pub open spec fn be_value(bytes: Seq<u8>) -> nat
    decreases bytes.len(),
{
    if bytes.len() == 0 {
        0
    } else {
        be_value(bytes.drop_last()) * 256 + bytes.last() as nat
    }
}

/// A byte string of minimal length: it does not start with a zero byte.
pub open spec fn canonical(bytes: Seq<u8>) -> bool {
    bytes.len() == 0 || bytes[0] != 0
}

/// The minimal big-endian byte string of `v`.
pub open spec fn encode(v: nat) -> Seq<u8>
    decreases v,
{
    if v == 0 {
        Seq::empty()
    } else {
        encode(v / 256).push((v % 256) as u8)
    }
}

/// Decoding is the value of the byte string.
pub open spec fn decode(bytes: Seq<u8>) -> nat {
    be_value(bytes)
}

/// Decoding what was encoded gives the number back, and zero is encoded as
/// the empty byte string.
pub proof fn lemma_decode_encode(v: nat)
    ensures
        decode(encode(v)) == v,
        encode(0) == Seq::<u8>::empty(),
    decreases v,
{
    if v != 0 {
        lemma_decode_encode(v / 256);
        assert(encode(v).drop_last() == encode(v / 256));
    }
}

/// An encoding never starts with a zero byte.
pub proof fn lemma_encode_canonical(v: nat)
    ensures
        canonical(encode(v)),
    decreases v,
{
    if v != 0 {
        lemma_encode_canonical(v / 256);
        if v / 256 != 0 {
            assert(encode(v / 256).len() > 0);
            assert(encode(v)[0] == encode(v / 256)[0]);
        }
    }
}

/// A byte string that starts with a non-zero byte denotes a positive number.
pub proof fn lemma_canonical_positive(bytes: Seq<u8>)
    requires
        bytes.len() > 0,
        bytes[0] != 0,
    ensures
        be_value(bytes) > 0,
    decreases bytes.len(),
{
    if bytes.len() > 1 {
        lemma_canonical_positive(bytes.drop_last());
    } else {
        assert(bytes.drop_last().len() == 0);
    }
}

/// A minimal byte string is the encoding of its own value, so two minimal
/// byte strings of one value are equal.
pub proof fn lemma_encode_decode(bytes: Seq<u8>)
    requires
        canonical(bytes),
    ensures
        encode(decode(bytes)) == bytes,
    decreases bytes.len(),
{
    if bytes.len() > 0 {
        let head = bytes.drop_last();
        let v = be_value(bytes);
        lemma_canonical_positive(bytes);
        assert(v / 256 == be_value(head) && v % 256 == bytes.last() as nat);
        if head.len() > 0 {
            assert(head[0] == bytes[0]);
        }
        lemma_encode_decode(head);
        assert(encode(v) == encode(v / 256).push((v % 256) as u8));
        assert(head.push(bytes.last()) == bytes);
    }
}

/// A zero byte in front does not change the value.
pub proof fn lemma_leading_zero(bytes: Seq<u8>)
    requires
        bytes.len() > 0,
        bytes[0] == 0,
    ensures
        be_value(bytes) == be_value(bytes.drop_first()),
    decreases bytes.len(),
{
    if bytes.len() == 1 {
        assert(be_value(bytes.drop_last()) == 0);
        assert(be_value(bytes.drop_first()) == 0);
    } else {
        lemma_leading_zero(bytes.drop_last());
        assert(bytes.drop_last().drop_first() == bytes.drop_first().drop_last());
        assert(bytes.drop_first().last() == bytes.last());
    }
}

/// A byte string of `n` bytes denotes a number below `256^n`.
pub proof fn lemma_value_upper_bound(bytes: Seq<u8>)
    ensures
        be_value(bytes) < pow(256, bytes.len()),
    decreases bytes.len(),
{
    reveal(pow);
    if bytes.len() > 0 {
        lemma_value_upper_bound(bytes.drop_last());
    }
}

/// A byte string of `n` bytes that starts with a non-zero byte denotes a
/// number of at least `256^(n-1)`.
pub proof fn lemma_value_lower_bound(bytes: Seq<u8>)
    requires
        bytes.len() > 0,
        bytes[0] != 0,
    ensures
        be_value(bytes) >= pow(256, (bytes.len() - 1) as nat),
    decreases bytes.len(),
{
    reveal(pow);
    if bytes.len() == 1 {
        assert(be_value(bytes.drop_last()) == 0);
    } else {
        lemma_value_lower_bound(bytes.drop_last());
    }
}

/// Of two byte strings, the one that is shorter than a minimal one denotes
/// the smaller number.
pub proof fn lemma_shorter_is_smaller(a: Seq<u8>, b: Seq<u8>)
    requires
        canonical(b),
        a.len() < b.len(),
    ensures
        be_value(a) < be_value(b),
{
    lemma_value_upper_bound(a);
    lemma_value_lower_bound(b);
    lemma_pow_monotonic(a.len(), (b.len() - 1) as nat);
}

/// Powers of 256 do not decrease with the exponent.
proof fn lemma_pow_monotonic(m: nat, n: nat)
    requires
        m <= n,
    ensures
        pow(256, m) <= pow(256, n),
    decreases n - m,
{
    reveal(pow);
    if m < n {
        lemma_pow_monotonic(m, (n - 1) as nat);
        lemma_pow_positive(256, (n - 1) as nat);
    }
}

/// A byte string of at most 8 bytes denotes a number that fits a `u64`.
pub proof fn lemma_fits_word(bytes: Seq<u8>)
    requires
        bytes.len() <= 8,
    ensures
        be_value(bytes) <= u64::MAX,
{
    lemma_value_upper_bound(bytes);
    lemma_pow_monotonic(bytes.len(), 8);
    assert(pow(256, 8) == 0x1_0000_0000_0000_0000) by {
        reveal_with_fuel(pow, 9);
    }
}

/// A minimal byte string of more than 8 bytes denotes a number that does not
/// fit a `u64`.
pub proof fn lemma_exceeds_word(bytes: Seq<u8>)
    requires
        bytes.len() > 8,
        bytes[0] != 0,
    ensures
        be_value(bytes) > u64::MAX,
{
    lemma_value_lower_bound(bytes);
    lemma_pow_monotonic(8, (bytes.len() - 1) as nat);
    assert(pow(256, 8) == 0x1_0000_0000_0000_0000) by {
        reveal_with_fuel(pow, 9);
    }
}

/// Two byte strings of one length are ordered by the first byte in which
/// they differ.
pub proof fn lemma_first_difference(a: Seq<u8>, b: Seq<u8>, i: int)
    requires
        a.len() == b.len(),
        0 <= i < a.len(),
        forall|j: int| 0 <= j < i ==> a[j] == b[j],
        a[i] < b[i],
    ensures
        be_value(a) < be_value(b),
    decreases a.len(),
{
    let a0 = a.drop_last();
    let b0 = b.drop_last();
    if i == a.len() - 1 {
        assert(a0 == b0);
    } else {
        lemma_first_difference(a0, b0, i);
    }
}

/// Removes the leading zero bytes: the result is the minimal byte string of
/// the same value.
pub fn strip_leading_zeros(bytes: &[u8]) -> (out: Vec<u8>)
    ensures
        out@ == encode(be_value(bytes@)),
        canonical(out@),
        be_value(out@) == be_value(bytes@),
{
    let mut start: usize = 0;
    assert(bytes@.subrange(0, bytes@.len() as int) == bytes@);
    while start < bytes.len() && bytes[start] == 0
        invariant
            start <= bytes.len(),
            be_value(bytes@.subrange(start as int, bytes@.len() as int)) == be_value(bytes@),
        decreases bytes.len() - start,
    {
        proof {
            let rest = bytes@.subrange(start as int, bytes@.len() as int);
            lemma_leading_zero(rest);
            assert(rest.drop_first() == bytes@.subrange(start + 1, bytes@.len() as int));
        }
        start = start + 1;
    }
    let mut out: Vec<u8> = Vec::new();
    let mut i: usize = start;
    while i < bytes.len()
        invariant
            start <= i <= bytes.len(),
            out@ == bytes@.subrange(start as int, i as int),
        decreases bytes.len() - i,
    {
        out.push(bytes[i]);
        i = i + 1;
    }
    proof {
        assert(out@ == bytes@.subrange(start as int, bytes@.len() as int));
        lemma_encode_decode(out@);
    }
    out
}

/// The minimal byte string of a `u64`.
pub fn encode_u64(v: u64) -> (out: Vec<u8>)
    ensures
        out@ == encode(v as nat),
    decreases v,
{
    if v == 0 {
        Vec::new()
    } else {
        let mut out = encode_u64(v / 256);
        out.push((v % 256) as u8);
        out
    }
}

} // verus!
