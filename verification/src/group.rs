//! The group in which the protocol works: a safe prime `p = 2q + 1` and two
//! generators `g` and `h`.

use vstd::prelude::*;
use vstd::arithmetic::div_mod::lemma_mod_mod;
use vstd::arithmetic::power::{pow, lemma_pow_positive};
use crate::algebra::mod_exp;
use crate::error::ProtocolError;
use crate::natural::Natural;

verus! {

/// The four numbers of a group, as mathematical values.
pub struct GroupView {
    pub p: nat,
    pub q: nat,
    pub g: nat,
    pub h: nat,
}

/// The ranges in which the four numbers are meaningful: a modulus of at least
/// 2, and an order and two generators that are positive and below it.
pub open spec fn in_range(v: GroupView) -> bool {
    &&& v.p >= 2
    &&& 1 <= v.q < v.p
    &&& 1 <= v.g < v.p
    &&& 1 <= v.h < v.p
}

/// `n` is a prime number.
pub open spec fn is_prime(n: nat) -> bool {
    n >= 2 && forall|d: nat| 1 < d < n ==> #[trigger] (n % d) != 0
}

/// The test by which the search for a generator accepts a candidate `g`:
/// `g^((p-1)/q) mod p` is not 1.
pub open spec fn generator_accepted(g: nat, p: nat, q: nat) -> bool {
    p > 0 && q > 0 && mod_exp(g, ((p - 1) / (q as int)) as nat, p) != 1
}

/// Both generators lie in the subgroup of order `q`: `g^q mod p = 1` and
/// `h^q mod p = 1`. This is what makes an honest prover's answer verify.
pub open spec fn subgroup_generators(v: GroupView) -> bool {
    mod_exp(v.g, v.q, v.p) == 1 && mod_exp(v.h, v.q, v.p) == 1
}

/// A group as the protocol is meant to use it: `p` and `q` are prime,
/// `p = 2q + 1`, and `g` and `h` are elements other than 1 of the subgroup of
/// order `q`.
pub open spec fn valid_group(v: GroupView) -> bool {
    &&& is_prime(v.p)
    &&& is_prime(v.q)
    &&& v.p == 2 * v.q + 1
    &&& subgroup_generators(v)
    &&& v.g != 1
    &&& v.h != 1
}

/// What holds of every group that `generate_parameters` returns for
/// `bit_length`: `p` is odd with exactly `bit_length` bits, `q = (p-1)/2` is
/// odd, and each generator lies in `[2, p)`, passed the acceptance test and
/// lies in the subgroup of order `q`.
pub open spec fn freshly_generated(v: GroupView, bit_length: nat) -> bool {
    &&& bit_length >= 3
    &&& v.p == 2 * v.q + 1
    &&& v.q % 2 == 1
    &&& pow(2, (bit_length - 1) as nat) < v.p < pow(2, bit_length)
    &&& 2 <= v.g < v.p
    &&& 2 <= v.h < v.p
    &&& generator_accepted(v.g, v.p, v.q)
    &&& generator_accepted(v.h, v.p, v.q)
    &&& subgroup_generators(v)
}

/// A generated group is a group as the protocol is meant to use it, provided
/// that the primality test was right about `p` and `q`. That it was is
/// likely and is not promised: the test is probabilistic.
pub proof fn lemma_generated_group_validity(v: GroupView, bit_length: nat)
    requires
        freshly_generated(v, bit_length),
        is_prime(v.p),
        is_prime(v.q),
    ensures
        valid_group(v),
        in_range(v),
{
}

/// For a modulus `p = 2q + 1` the acceptance test asks whether the square of
/// `g` is 1 modulo `p`: it rejects the elements of order 1 and 2 and no
/// others.
pub proof fn lemma_acceptance_is_square_test(g: nat, p: nat, q: nat)
    requires
        q > 0,
        p == 2 * q + 1,
    ensures
        generator_accepted(g, p, q) <==> (g * g) % p != 1,
{
    assert((p - 1) / (q as int) == 2) by (nonlinear_arith)
        requires
            q > 0,
            p - 1 == 2 * q,
    ;
    vstd::arithmetic::power::lemma_square_is_pow2(g as int);
}

/// The smallest modulus size, in bits, for which a group is searched.
pub const MIN_BIT_LENGTH: usize = 3;

/// The modulus size, in bits, that a server uses.
pub const DEFAULT_BIT_LENGTH: usize = 256;

/// How many candidates the search for a safe prime tries before it gives up.
pub const PRIME_SEARCH_LIMIT: u64 = 1_000_000_000;

/// How many candidates the search for a generator tries before it gives up.
pub const GENERATOR_SEARCH_LIMIT: u64 = 1_000;

/// The four numbers of a group as they travel: minimal big-endian byte
/// strings.
#[derive(Debug)]
pub struct EncodedParameters {
    pub p: Vec<u8>,
    pub q: Vec<u8>,
    pub g: Vec<u8>,
    pub h: Vec<u8>,
}

/// The parameters of a group. They do not change once made.
#[derive(Debug)]
pub struct GroupParameters {
    p: Natural,
    q: Natural,
    g: Natural,
    h: Natural,
}

impl View for GroupParameters {
    type V = GroupView;

    closed spec fn view(&self) -> GroupView {
        GroupView { p: self.p@, q: self.q@, g: self.g@, h: self.h@ }
    }
}

impl Clone for GroupParameters {
    /// A copy of the parameters.
    fn clone(&self) -> (copy: GroupParameters)
        ensures
            copy@ == self@,
    {
        proof {
            use_type_invariant(self);
        }
        GroupParameters {
            p: self.p.clone(),
            q: self.q.clone(),
            g: self.g.clone(),
            h: self.h.clone(),
        }
    }
}

impl GroupParameters {
    #[verifier::type_invariant]
    spec fn valid_ranges(self) -> bool {
        in_range(self@)
    }

    /// Makes the parameters of a group from its four numbers, which must be
    /// in range.
    pub fn new(p: Natural, q: Natural, g: Natural, h: Natural) -> (result: Result<
        GroupParameters,
        ProtocolError,
    >)
        ensures
            in_range(GroupView { p: p@, q: q@, g: g@, h: h@ }) ==> result is Ok && result->Ok_0@
                == (GroupView { p: p@, q: q@, g: g@, h: h@ }),
            !in_range(GroupView { p: p@, q: q@, g: g@, h: h@ }) ==> result == Err::<
                GroupParameters,
                ProtocolError,
            >(ProtocolError::MalformedInput),
    {
        let one = Natural::from_u64(1);
        let ok = one.less_than(&p) && !q.is_zero() && q.less_than(&p) && !g.is_zero()
            && g.less_than(&p) && !h.is_zero() && h.less_than(&p);
        if ok {
            Ok(GroupParameters { p, q, g, h })
        } else {
            Err(ProtocolError::MalformedInput)
        }
    }

    /// Decodes the four numbers of a group from big-endian byte strings and
    /// checks their ranges.
    pub fn from_bytes(p: &[u8], q: &[u8], g: &[u8], h: &[u8]) -> (result: Result<
        GroupParameters,
        ProtocolError,
    >)
        ensures
            in_range(decoded_group(p@, q@, g@, h@)) ==> result is Ok && result->Ok_0@
                == decoded_group(p@, q@, g@, h@),
            !in_range(decoded_group(p@, q@, g@, h@)) ==> result == Err::<
                GroupParameters,
                ProtocolError,
            >(ProtocolError::MalformedInput),
    {
        GroupParameters::new(
            Natural::from_bytes(p),
            Natural::from_bytes(q),
            Natural::from_bytes(g),
            Natural::from_bytes(h),
        )
    }

    /// Encodes the four numbers as minimal big-endian byte strings.
    pub fn to_bytes(&self) -> (encoded: EncodedParameters)
        ensures
            encoded.p@ == crate::encoding::encode(self@.p),
            encoded.q@ == crate::encoding::encode(self@.q),
            encoded.g@ == crate::encoding::encode(self@.g),
            encoded.h@ == crate::encoding::encode(self@.h),
            decoded_group(encoded.p@, encoded.q@, encoded.g@, encoded.h@) == self@,
    {
        EncodedParameters {
            p: self.p.to_bytes(),
            q: self.q.to_bytes(),
            g: self.g.to_bytes(),
            h: self.h.to_bytes(),
        }
    }

    /// The modulus. Every value of this type keeps its numbers in range.
    pub fn p(&self) -> (p: &Natural)
        ensures
            p@ == self@.p,
            in_range(self@),
    {
        proof {
            use_type_invariant(self);
        }
        &self.p
    }

    /// The order of the subgroup.
    pub fn q(&self) -> (q: &Natural)
        ensures
            q@ == self@.q,
            in_range(self@),
    {
        proof {
            use_type_invariant(self);
        }
        &self.q
    }

    /// The first generator.
    pub fn g(&self) -> (g: &Natural)
        ensures
            g@ == self@.g,
            in_range(self@),
    {
        proof {
            use_type_invariant(self);
        }
        &self.g
    }

    /// The second generator.
    pub fn h(&self) -> (h: &Natural)
        ensures
            h@ == self@.h,
            in_range(self@),
    {
        proof {
            use_type_invariant(self);
        }
        &self.h
    }

    /// Whether both generators lie in the subgroup of order `q`.
    pub fn has_subgroup_generators(&self) -> (r: bool)
        ensures
            r == subgroup_generators(self@),
    {
        proof {
            use_type_invariant(self);
        }
        lies_in_subgroup(&self.g, &self.p, &self.q) && lies_in_subgroup(&self.h, &self.p, &self.q)
    }
}

/// The group that four byte strings denote.
pub open spec fn decoded_group(p: Seq<u8>, q: Seq<u8>, g: Seq<u8>, h: Seq<u8>) -> GroupView {
    GroupView {
        p: crate::encoding::be_value(p),
        q: crate::encoding::be_value(q),
        g: crate::encoding::be_value(g),
        h: crate::encoding::be_value(h),
    }
}

/// The number `2^exponent`.
pub fn power_of_two(exponent: usize) -> (n: Natural)
    ensures
        n@ == pow(2, exponent as nat),
{
    let mut n = Natural::from_u64(1);
    let mut i: usize = 0;
    proof {
        reveal(pow);
    }
    while i < exponent
        invariant
            i <= exponent,
            n@ == pow(2, i as nat),
        decreases exponent - i,
    {
        n = n.add(&n);
        i = i + 1;
        proof {
            reveal(pow);
        }
    }
    n
}

/// Turns a random sample into a candidate pair for a safe prime: `q` is the
/// sample made odd, and `p = 2q + 1`.
pub fn safe_prime_candidate(sample: &Natural) -> (pair: (Natural, Natural))
    ensures
        pair.0@ == (if sample@ % 2 == 1 {
            sample@
        } else {
            sample@ + 1
        }),
        pair.1@ == 2 * pair.0@ + 1,
{
    let one = Natural::from_u64(1);
    let two = Natural::from_u64(2);
    let parity = sample.checked_rem(&two).unwrap();
    let q = if parity.is_zero() {
        sample.add(&one)
    } else {
        sample.clone()
    };
    let p = q.add(&q).add(&one);
    (q, p)
}

/// The modulus size, in bits, from which candidates are larger than every
/// prime of the sieve.
pub const SIEVE_MIN_BIT_LENGTH: usize = 8;

/// The product of the odd primes below 50.
pub const SIEVE_MODULUS: u64 = 307444891294245705;

/// The odd prime `r` divides `q` or `2q + 1`.
pub open spec fn divides_candidate(r: nat, q: nat) -> bool {
    q % r == 0 || (2 * q + 1) % r == 0
}

/// An odd prime below 50 divides `q` or `2q + 1`.
pub open spec fn sieved_out(q: nat) -> bool {
    ||| divides_candidate(3, q)
    ||| divides_candidate(5, q)
    ||| divides_candidate(7, q)
    ||| divides_candidate(11, q)
    ||| divides_candidate(13, q)
    ||| divides_candidate(17, q)
    ||| divides_candidate(19, q)
    ||| divides_candidate(23, q)
    ||| divides_candidate(29, q)
    ||| divides_candidate(31, q)
    ||| divides_candidate(37, q)
    ||| divides_candidate(41, q)
    ||| divides_candidate(43, q)
    ||| divides_candidate(47, q)
}

/// The sieve discards no safe prime: where an odd prime below 50 divides `q`
/// or `2q + 1`, and `q` is larger than all of them, `q` and `2q + 1` are not
/// both prime.
pub proof fn lemma_sieve_keeps_safe_primes(q: nat)
    requires
        sieved_out(q),
        q > 47,
    ensures
        !(is_prime(q) && is_prime(2 * q + 1)),
{
    if is_prime(q) && is_prime(2 * q + 1) {
        let p = 2 * q + 1;
        assert(q % 3 != 0 && p % 3 != 0);
        assert(q % 5 != 0 && p % 5 != 0);
        assert(q % 7 != 0 && p % 7 != 0);
        assert(q % 11 != 0 && p % 11 != 0);
        assert(q % 13 != 0 && p % 13 != 0);
        assert(q % 17 != 0 && p % 17 != 0);
        assert(q % 19 != 0 && p % 19 != 0);
        assert(q % 23 != 0 && p % 23 != 0);
        assert(q % 29 != 0 && p % 29 != 0);
        assert(q % 31 != 0 && p % 31 != 0);
        assert(q % 37 != 0 && p % 37 != 0);
        assert(q % 41 != 0 && p % 41 != 0);
        assert(q % 43 != 0 && p % 43 != 0);
        assert(q % 47 != 0 && p % 47 != 0);
    }
}

/// Reducing modulo the product of the sieve's primes keeps the remainder of
/// each of them.
proof fn lemma_sieve_residue(x: nat)
    ensures
        (x % (SIEVE_MODULUS as nat)) % 3 == x % 3,
        (x % (SIEVE_MODULUS as nat)) % 5 == x % 5,
        (x % (SIEVE_MODULUS as nat)) % 7 == x % 7,
        (x % (SIEVE_MODULUS as nat)) % 11 == x % 11,
        (x % (SIEVE_MODULUS as nat)) % 13 == x % 13,
        (x % (SIEVE_MODULUS as nat)) % 17 == x % 17,
        (x % (SIEVE_MODULUS as nat)) % 19 == x % 19,
        (x % (SIEVE_MODULUS as nat)) % 23 == x % 23,
        (x % (SIEVE_MODULUS as nat)) % 29 == x % 29,
        (x % (SIEVE_MODULUS as nat)) % 31 == x % 31,
        (x % (SIEVE_MODULUS as nat)) % 37 == x % 37,
        (x % (SIEVE_MODULUS as nat)) % 41 == x % 41,
        (x % (SIEVE_MODULUS as nat)) % 43 == x % 43,
        (x % (SIEVE_MODULUS as nat)) % 47 == x % 47,
{
    lemma_mod_mod(x as int, 3, 102481630431415235);
    lemma_mod_mod(x as int, 5, 61488978258849141);
    lemma_mod_mod(x as int, 7, 43920698756320815);
    lemma_mod_mod(x as int, 11, 27949535572204155);
    lemma_mod_mod(x as int, 13, 23649607022634285);
    lemma_mod_mod(x as int, 17, 18084993605543865);
    lemma_mod_mod(x as int, 19, 16181310068118195);
    lemma_mod_mod(x as int, 23, 13367169186706335);
    lemma_mod_mod(x as int, 29, 10601547975663645);
    lemma_mod_mod(x as int, 31, 9917577138524055);
    lemma_mod_mod(x as int, 37, 8309321386330965);
    lemma_mod_mod(x as int, 41, 7498655885225505);
    lemma_mod_mod(x as int, 43, 7149881192889435);
    lemma_mod_mod(x as int, 47, 6541380665835015);
}

/// Whether one of two residues is a multiple of `r`.
fn hits(rq: u64, rp: u64, r: u64) -> (hit: bool)
    requires
        r > 0,
    ensures
        hit == (rq % r == 0 || rp % r == 0),
{
    rq % r == 0 || rp % r == 0
}

/// Whether an odd prime below 50 divides `q` or `p = 2q + 1`. Both numbers
/// are reduced once modulo the product of these primes; the rest is
/// arithmetic on machine words.
pub fn fails_sieve(q: &Natural) -> (failed: bool)
    ensures
        failed == sieved_out(q@),
{
    let modulus = Natural::from_u64(SIEVE_MODULUS);
    let one = Natural::from_u64(1);
    let p = q.add(q).add(&one);
    let rq = q.checked_rem(&modulus).unwrap().to_u64().unwrap();
    let rp = p.checked_rem(&modulus).unwrap().to_u64().unwrap();
    proof {
        lemma_sieve_residue(q@);
        lemma_sieve_residue(p@);
    }
    hits(rq, rp, 3) || hits(rq, rp, 5) || hits(rq, rp, 7) || hits(rq, rp, 11) || hits(rq, rp, 13) || hits(rq, rp, 17) || hits(rq, rp, 19) || hits(rq, rp, 23) || hits(rq, rp, 29) || hits(rq, rp, 31) || hits(rq, rp, 37) || hits(rq, rp, 41) || hits(rq, rp, 43) || hits(rq, rp, 47)
}

/// Searches for a safe prime of `bit_length` bits. Each attempt draws an odd
/// `q` of `bit_length - 1` bits, sets `p = 2q + 1` and asks a probabilistic
/// test whether `q` and `p` are prime; the first `p` for which it says so
/// twice is returned. From 8 bits on, a candidate that the sieve of small
/// primes discards is not put to the test, which is the costly part. Fewer
/// than 3 bits are refused as malformed, and the search ends with
/// `SearchExhausted` when its attempts run out.
///
/// The test is probabilistic, so that `p` and `q` are prime is likely and is
/// not promised.
pub fn generate_safe_prime(bit_length: usize) -> (result: Result<Natural, ProtocolError>)
    ensures
        bit_length < MIN_BIT_LENGTH ==> result == Err::<Natural, ProtocolError>(
            ProtocolError::MalformedInput,
        ),
        bit_length >= MIN_BIT_LENGTH ==> match result {
            Ok(p) => {
                &&& p@ % 4 == 3
                &&& pow(2, (bit_length - 1) as nat) < p@ < pow(2, bit_length as nat)
            },
            Err(e) => e == ProtocolError::SearchExhausted,
        },
{
    if bit_length < MIN_BIT_LENGTH {
        return Err(ProtocolError::MalformedInput);
    }
    let low = power_of_two(bit_length - 2);
    let high = power_of_two(bit_length - 1);
    proof {
        reveal(pow);
        lemma_pow_positive(2, (bit_length - 2) as nat);
        lemma_pow_positive(2, (bit_length - 3) as nat);
        assert(pow(2, bit_length as nat) == 2 * pow(2, (bit_length - 1) as nat));
        assert(pow(2, (bit_length - 1) as nat) == 2 * pow(2, (bit_length - 2) as nat));
        assert(pow(2, (bit_length - 2) as nat) == 2 * pow(2, (bit_length - 3) as nat));
    }
    let mut attempts: u64 = 0;
    while attempts < PRIME_SEARCH_LIMIT
        invariant
            bit_length >= MIN_BIT_LENGTH,
            low@ == pow(2, (bit_length - 2) as nat),
            high@ == pow(2, (bit_length - 1) as nat),
            high@ == 2 * low@,
            low@ >= 2,
            pow(2, bit_length as nat) == 2 * high@,
        decreases PRIME_SEARCH_LIMIT - attempts,
    {
        let sample = Natural::random_in_range(&low, &high).unwrap();
        let (q, p) = safe_prime_candidate(&sample);
        let discarded = bit_length >= SIEVE_MIN_BIT_LENGTH && fails_sieve(&q);
        if !discarded && q.is_probable_prime() && p.is_probable_prime() {
            return Ok(p);
        }
        attempts = attempts + 1;
    }
    Err(ProtocolError::SearchExhausted)
}

/// Whether the search for a generator accepts `g`: `g^((p-1)/q) mod p` is not
/// 1. Elements of order 1 and 2 fail this test.
pub fn accepts_generator(g: &Natural, p: &Natural, q: &Natural) -> (accepted: bool)
    ensures
        accepted == generator_accepted(g@, p@, q@),
{
    if p.is_zero() || q.is_zero() {
        return false;
    }
    let one = Natural::from_u64(1);
    let exponent = p.checked_sub(&one).unwrap().checked_div(q).unwrap();
    let power = g.mod_pow(&exponent, p).unwrap();
    !power.equals(&one)
}

/// Whether `g` lies in the subgroup of order `q`: `g^q mod p` is 1.
pub fn lies_in_subgroup(g: &Natural, p: &Natural, q: &Natural) -> (inside: bool)
    ensures
        inside == (p@ > 0 && mod_exp(g@, q@, p@) == 1),
{
    if p.is_zero() {
        return false;
    }
    let one = Natural::from_u64(1);
    g.mod_pow(q, p).unwrap().equals(&one)
}

/// Searches for a generator of the subgroup of order `q`: draws `g` from
/// `[2, p)` until one passes `accepts_generator` and has `g^q mod p = 1`. A
/// `p` of at most 2 or a `q` of zero leaves nothing to search and is refused
/// as malformed; the search ends with `SearchExhausted` when its attempts
/// run out.
pub fn find_generator(p: &Natural, q: &Natural) -> (result: Result<Natural, ProtocolError>)
    ensures
        p@ <= 2 || q@ == 0 ==> result == Err::<Natural, ProtocolError>(
            ProtocolError::MalformedInput,
        ),
        p@ > 2 && q@ > 0 ==> match result {
            Ok(g) => {
                &&& 2 <= g@ < p@
                &&& generator_accepted(g@, p@, q@)
                &&& mod_exp(g@, q@, p@) == 1
            },
            Err(e) => e == ProtocolError::SearchExhausted,
        },
{
    let two = Natural::from_u64(2);
    if !two.less_than(p) || q.is_zero() {
        return Err(ProtocolError::MalformedInput);
    }
    let mut attempts: u64 = 0;
    while attempts < GENERATOR_SEARCH_LIMIT
        invariant
            two@ == 2,
            p@ > 2,
        decreases GENERATOR_SEARCH_LIMIT - attempts,
    {
        let g = Natural::random_in_range(&two, p).unwrap();
        if accepts_generator(&g, p, q) && lies_in_subgroup(&g, p, q) {
            return Ok(g);
        }
        attempts = attempts + 1;
    }
    Err(ProtocolError::SearchExhausted)
}

/// Makes a group whose modulus has `bit_length` bits: a safe prime `p`, the
/// order `q = (p - 1) / 2`, and two generators found independently of each
/// other.
///
/// Fewer than 3 bits are refused as malformed. Otherwise the result is a
/// group of which `freshly_generated` holds, or `SearchExhausted` when one of
/// the searches ran out of attempts; which of the two depends on the random
/// numbers drawn.
pub fn generate_parameters(bit_length: usize) -> (result: Result<GroupParameters, ProtocolError>)
    ensures
        bit_length < MIN_BIT_LENGTH ==> result == Err::<GroupParameters, ProtocolError>(
            ProtocolError::MalformedInput,
        ),
        bit_length >= MIN_BIT_LENGTH ==> match result {
            Ok(parameters) => freshly_generated(parameters@, bit_length as nat),
            Err(e) => e == ProtocolError::SearchExhausted,
        },
{
    if bit_length < MIN_BIT_LENGTH {
        return Err(ProtocolError::MalformedInput);
    }
    let p = match generate_safe_prime(bit_length) {
        Ok(p) => p,
        Err(e) => {
            return Err(e);
        },
    };
    proof {
        reveal(pow);
        lemma_pow_positive(2, (bit_length - 2) as nat);
        assert(pow(2, (bit_length - 1) as nat) == 2 * pow(2, (bit_length - 2) as nat));
    }
    let one = Natural::from_u64(1);
    let two = Natural::from_u64(2);
    let q = p.checked_sub(&one).unwrap().checked_div(&two).unwrap();
    let g = match find_generator(&p, &q) {
        Ok(g) => g,
        Err(e) => {
            return Err(e);
        },
    };
    let h = match find_generator(&p, &q) {
        Ok(h) => h,
        Err(e) => {
            return Err(e);
        },
    };
    Ok(GroupParameters { p, q, g, h })
}

} // verus!
