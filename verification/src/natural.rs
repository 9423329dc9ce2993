//! Natural numbers of arbitrary size.

use vstd::prelude::*;
use vstd::arithmetic::power::pow;
use crate::bigint::{
    add_bytes, div_bytes, modpow_bytes, mul_bytes, probable_prime_bytes, random_range_bytes,
    rem_bytes, sub_bytes,
};
use crate::encoding::{
    be_value, canonical, encode, encode_u64, lemma_decode_encode, lemma_encode_canonical,
    lemma_encode_decode, lemma_exceeds_word, lemma_first_difference, lemma_fits_word,
    lemma_shorter_is_smaller, strip_leading_zeros,
};

verus! {

/// A natural number, held as its minimal big-endian byte string.
#[derive(Debug)]
pub struct Natural {
    bytes: Vec<u8>,
}

impl View for Natural {
    type V = nat;

    closed spec fn view(&self) -> nat {
        be_value(self.bytes@)
    }
}

/// Whether two byte strings are the same.
fn same_bytes(a: &Vec<u8>, b: &Vec<u8>) -> (r: bool)
    ensures
        r == (a@ == b@),
{
    if a.len() != b.len() {
        return false;
    }
    let mut i: usize = 0;
    while i < a.len()
        invariant
            a.len() == b.len(),
            i <= a.len(),
            forall|j: int| 0 <= j < i ==> a@[j] == b@[j],
        decreases a.len() - i,
    {
        if a[i] != b[i] {
            return false;
        }
        i = i + 1;
    }
    assert(a@ =~= b@);
    true
}

impl Clone for Natural {
    /// A copy of the number.
    fn clone(&self) -> (n: Natural)
        ensures
            n@ == self@,
    {
        proof {
            use_type_invariant(self);
        }
        Natural { bytes: self.bytes.clone() }
    }
}

impl Natural {
    #[verifier::type_invariant]
    spec fn minimal(self) -> bool {
        canonical(self.bytes@)
    }

    /// Decodes a big-endian byte string. Every byte string denotes a number:
    /// leading zero bytes are accepted and the empty string is zero.
    pub fn from_bytes(bytes: &[u8]) -> (n: Natural)
        ensures
            n@ == be_value(bytes@),
    {
        Natural { bytes: strip_leading_zeros(bytes) }
    }

    /// Encodes the number as its minimal big-endian byte string; zero is the
    /// empty string.
    pub fn to_bytes(&self) -> (out: Vec<u8>)
        ensures
            out@ == encode(self@),
            be_value(out@) == self@,
    {
        proof {
            use_type_invariant(self);
            lemma_encode_decode(self.bytes@);
        }
        self.bytes.clone()
    }

    /// The number `v`.
    pub fn from_u64(v: u64) -> (n: Natural)
        ensures
            n@ == v,
    {
        let bytes = encode_u64(v);
        proof {
            lemma_decode_encode(v as nat);
            lemma_encode_canonical(v as nat);
        }
        Natural { bytes }
    }

    /// The number as a `u64`, or `None` when it does not fit.
    pub fn to_u64(&self) -> (value: Option<u64>)
        ensures
            self@ <= u64::MAX ==> value == Some(self@ as u64),
            self@ > u64::MAX ==> value is None,
    {
        proof {
            use_type_invariant(self);
        }
        if self.bytes.len() > 8 {
            proof {
                lemma_exceeds_word(self.bytes@);
            }
            return None;
        }
        proof {
            lemma_fits_word(self.bytes@);
        }
        let mut acc: u64 = 0;
        let mut i: usize = 0;
        while i < self.bytes.len()
            invariant
                i <= self.bytes.len() <= 8,
                acc == be_value(self.bytes@.subrange(0, i as int)),
            decreases self.bytes.len() - i,
        {
            proof {
                let next = self.bytes@.subrange(0, i + 1);
                assert(next.drop_last() == self.bytes@.subrange(0, i as int));
                lemma_fits_word(next);
            }
            acc = acc * 256 + self.bytes[i] as u64;
            i = i + 1;
        }
        assert(self.bytes@.subrange(0, self.bytes.len() as int) == self.bytes@);
        Some(acc)
    }

    /// Whether the number is zero.
    pub fn is_zero(&self) -> (r: bool)
        ensures
            r == (self@ == 0),
    {
        proof {
            use_type_invariant(self);
            lemma_encode_decode(self.bytes@);
        }
        self.bytes.len() == 0
    }

    /// Whether the two numbers are equal.
    pub fn equals(&self, other: &Natural) -> (r: bool)
        ensures
            r == (self@ == other@),
    {
        proof {
            use_type_invariant(self);
            use_type_invariant(other);
            lemma_encode_decode(self.bytes@);
            lemma_encode_decode(other.bytes@);
        }
        same_bytes(&self.bytes, &other.bytes)
    }

    /// Whether this number is the smaller of the two.
    pub fn less_than(&self, other: &Natural) -> (r: bool)
        ensures
            r == (self@ < other@),
    {
        proof {
            use_type_invariant(self);
            use_type_invariant(other);
        }
        if self.bytes.len() < other.bytes.len() {
            proof {
                lemma_shorter_is_smaller(self.bytes@, other.bytes@);
            }
            return true;
        }
        if self.bytes.len() > other.bytes.len() {
            proof {
                lemma_shorter_is_smaller(other.bytes@, self.bytes@);
            }
            return false;
        }
        let mut i: usize = 0;
        while i < self.bytes.len()
            invariant
                self.bytes.len() == other.bytes.len(),
                i <= self.bytes.len(),
                forall|j: int| 0 <= j < i ==> self.bytes@[j] == other.bytes@[j],
            decreases self.bytes.len() - i,
        {
            if self.bytes[i] < other.bytes[i] {
                proof {
                    lemma_first_difference(self.bytes@, other.bytes@, i as int);
                }
                return true;
            }
            if self.bytes[i] > other.bytes[i] {
                proof {
                    lemma_first_difference(other.bytes@, self.bytes@, i as int);
                }
                return false;
            }
            i = i + 1;
        }
        assert(self.bytes@ == other.bytes@);
        false
    }

    /// The sum of the two numbers.
    pub fn add(&self, other: &Natural) -> (sum: Natural)
        ensures
            sum@ == self@ + other@,
    {
        let raw = add_bytes(self.bytes.as_slice(), other.bytes.as_slice());
        Natural::from_bytes(raw.as_slice())
    }

    /// The product of the two numbers.
    pub fn mul(&self, other: &Natural) -> (product: Natural)
        ensures
            product@ == self@ * other@,
    {
        let raw = mul_bytes(self.bytes.as_slice(), other.bytes.as_slice());
        Natural::from_bytes(raw.as_slice())
    }

    /// The difference `self - other`, or `None` when `other` is the larger
    /// number.
    pub fn checked_sub(&self, other: &Natural) -> (difference: Option<Natural>)
        ensures
            self@ < other@ ==> difference is None,
            self@ >= other@ ==> difference is Some && difference->0@ == self@ - other@,
    {
        if self.less_than(other) {
            None
        } else {
            let raw = sub_bytes(self.bytes.as_slice(), other.bytes.as_slice());
            Some(Natural::from_bytes(raw.as_slice()))
        }
    }

    /// The quotient `self / other` rounded down, or `None` when `other` is
    /// zero.
    pub fn checked_div(&self, other: &Natural) -> (quotient: Option<Natural>)
        ensures
            other@ == 0 ==> quotient is None,
            other@ != 0 ==> quotient is Some && quotient->0@ == self@ / other@,
    {
        if other.is_zero() {
            None
        } else {
            let raw = div_bytes(self.bytes.as_slice(), other.bytes.as_slice());
            Some(Natural::from_bytes(raw.as_slice()))
        }
    }

    /// The remainder `self mod modulus`, or `None` when `modulus` is zero.
    pub fn checked_rem(&self, modulus: &Natural) -> (remainder: Option<Natural>)
        ensures
            modulus@ == 0 ==> remainder is None,
            modulus@ != 0 ==> remainder is Some && remainder->0@ == self@ % modulus@,
    {
        if modulus.is_zero() {
            None
        } else {
            let raw = rem_bytes(self.bytes.as_slice(), modulus.bytes.as_slice());
            Some(Natural::from_bytes(raw.as_slice()))
        }
    }

    /// Modular exponentiation `self ^ exponent mod modulus`, or `None` when
    /// `modulus` is zero.
    pub fn mod_pow(&self, exponent: &Natural, modulus: &Natural) -> (power: Option<Natural>)
        ensures
            modulus@ == 0 ==> power is None,
            modulus@ != 0 ==> power is Some && power->0@ == pow(self@ as int, exponent@) % (
            modulus@ as int),
    {
        if modulus.is_zero() {
            None
        } else {
            let raw = modpow_bytes(
                self.bytes.as_slice(),
                exponent.bytes.as_slice(),
                modulus.bytes.as_slice(),
            );
            Some(Natural::from_bytes(raw.as_slice()))
        }
    }

    /// Asks a probabilistic primality test about the number. Below 4 the
    /// answer is exact. From 4 on the answer is that of the test, which draws
    /// random bases: a prime is accepted with high probability and a
    /// composite rejected with high probability, and neither is certain;
    /// an even number is always rejected.
    pub fn is_probable_prime(&self) -> (r: bool)
        ensures
            self@ < 4 ==> r == (self@ == 2 || self@ == 3),
            self@ >= 4 && self@ % 2 == 0 ==> !r,
    {
        let four = Natural::from_u64(4);
        if self.less_than(&four) {
            self.equals(&Natural::from_u64(2)) || self.equals(&Natural::from_u64(3))
        } else {
            probable_prime_bytes(self.bytes.as_slice())
        }
    }

    /// A random number from `low` (inclusive) up to `high` (exclusive), or
    /// `None` when the range is empty. Which number of the range comes back
    /// is left open.
    pub fn random_in_range(low: &Natural, high: &Natural) -> (sample: Option<Natural>)
        ensures
            low@ >= high@ ==> sample is None,
            low@ < high@ ==> sample is Some && low@ <= sample->0@ < high@,
    {
        if low.less_than(high) {
            let raw = random_range_bytes(low.bytes.as_slice(), high.bytes.as_slice());
            Some(Natural::from_bytes(raw.as_slice()))
        } else {
            None
        }
    }
}

} // verus!
