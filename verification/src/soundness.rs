//! A guessed answer is rarely right: of the answers below `q`, at most one
//! satisfies a verification equation.

use vstd::prelude::*;
use vstd::arithmetic::div_mod::{
    lemma_fundamental_div_mod, lemma_mod_bound, lemma_mod_multiples_vanish,
    lemma_mul_mod_noop_general, lemma_small_mod,
};
use vstd::arithmetic::power::{lemma_pow0, lemma_pow1, lemma_pow_adds, pow};
use crate::algebra::{
    lemma_exponent_period, lemma_recomputed_is_power, mod_exp, proof_accepted, recomputed,
};
use crate::group::is_prime;

verus! {

/// Two exponents that both take `g` to 1 modulo `p` have a common divisor
/// that does so too.
proof fn lemma_common_exponent(g: nat, p: nat, a: nat, b: nat) -> (t: nat)
    requires
        p > 0,
        a > 0,
        mod_exp(g, a, p) == 1,
        mod_exp(g, b, p) == 1,
    ensures
        t > 0,
        a % t == 0,
        b % t == 0,
        mod_exp(g, t, p) == 1,
    decreases b,
{
    if b == 0 {
        a
    } else {
        let r = a % b;
        let k: int = a as int / b as int;
        lemma_fundamental_div_mod(a as int, b as int);
        lemma_mod_bound(a as int, b as int);
        assert(k >= 0) by (nonlinear_arith)
            requires
                a == b * k + r,
                0 <= r < b,
                a > 0,
        ;
        lemma_exponent_period(g, b, p, r, k as nat);
        assert(r + b * (k as nat) == a);
        let t = lemma_common_exponent(g, p, b, r);
        // t divides b and r, so it divides a = b*k + r
        let m: int = b as int / t as int;
        lemma_fundamental_div_mod(b as int, t as int);
        assert(b * k == t * (m * k)) by (nonlinear_arith)
            requires
                b == t * m,
        ;
        lemma_mod_multiples_vanish(m * k, r as int, t as int);
        assert(a == t * (m * k) + r);
        t
    }
}

/// Multiplying two numbers that are equal modulo `p` by the same number
/// keeps them equal modulo `p`.
proof fn lemma_scale_congruence(x: int, y: int, z: int, p: int)
    requires
        p > 0,
        x % p == y % p,
    ensures
        (x * z) % p == (y * z) % p,
{
    lemma_mul_mod_noop_general(x, z, p);
    lemma_mul_mod_noop_general(y, z, p);
}

/// Where `g^q mod p = 1` for a prime `q` and `g` is not 1 modulo `p`, two
/// exponents below `q` that give the same power of `g`, each with one fixed
/// exponent added, are equal.
proof fn lemma_exponents_agree(g: nat, p: nat, q: nat, a: nat, s1: nat, s2: nat)
    requires
        p > 0,
        is_prime(q),
        mod_exp(g, q, p) == 1,
        g % p != 1,
        s1 <= s2 < q,
        mod_exp(g, s1 + a, p) == mod_exp(g, s2 + a, p),
    ensures
        s1 == s2,
{
    if s1 < s2 {
        let gi = g as int;
        let pi = p as int;
        let d = (s2 - s1) as nat;
        let low = s1 + a;
        // an exponent that fills `low` up to a multiple of q
        let e = (q * low - low) as nat;
        assert(q * low >= low) by (nonlinear_arith)
            requires
                q >= 1,
        ;
        lemma_scale_congruence(pow(gi, low), pow(gi, low + d), pow(gi, e), pi);
        lemma_pow_adds(gi, low, e);
        lemma_pow_adds(gi, low + d, e);
        assert(low + e == 0 + q * low);
        assert(low + d + e == d + q * low);
        lemma_exponent_period(g, q, p, 0, low);
        lemma_exponent_period(g, q, p, d, low);
        lemma_pow0(gi);
        assert(mod_exp(g, q, p) < p) by {
            lemma_mod_bound(pow(gi, q), pi);
        }
        lemma_small_mod(1, p);
        assert(mod_exp(g, d, p) == 1);
        // so some common divisor of q and d takes g to 1, and it can only be 1
        let t = lemma_common_exponent(g, p, q, d);
        if t > d {
            lemma_small_mod(d, t);
        }
        assert(t == 1);
        lemma_pow1(gi);
        assert(false);
    }
}

/// Of the answers below `q`, at most one satisfies a verification equation.
/// This holds where `q` is prime, `g^q mod p = 1`, `g` is not 1 modulo `p`,
/// and the public value is a power of `g`, as the value of a user who
/// registered from a secret is.
pub proof fn lemma_one_answer_per_equation(
    p: nat,
    q: nat,
    g: nat,
    x: nat,
    r: nat,
    c: nat,
    s1: nat,
    s2: nat,
)
    requires
        p > 0,
        is_prime(q),
        mod_exp(g, q, p) == 1,
        g % p != 1,
        s1 < q,
        s2 < q,
        recomputed(g, mod_exp(g, x, p), s1, c, p) == r,
        recomputed(g, mod_exp(g, x, p), s2, c, p) == r,
    ensures
        s1 == s2,
{
    lemma_recomputed_is_power(g, x, s1, c, p);
    lemma_recomputed_is_power(g, x, s2, c, p);
    if s1 <= s2 {
        lemma_exponents_agree(g, p, q, x * c, s1, s2);
    } else {
        lemma_exponents_agree(g, p, q, x * c, s2, s1);
    }
}

/// Soundness against guessing: for fixed commitments and a fixed challenge,
/// at most one answer below `q` is accepted, so a guess among the `q`
/// answers succeeds for at most one of them. This holds where `q` is prime,
/// `g^q mod p = 1`, `g` is not 1 modulo `p`, and `y1` is a power of `g`.
pub proof fn lemma_at_most_one_answer_accepted(
    p: nat,
    q: nat,
    g: nat,
    h: nat,
    x: nat,
    y2: nat,
    r1: nat,
    r2: nat,
    c: nat,
    s1: nat,
    s2: nat,
)
    requires
        p > 0,
        is_prime(q),
        mod_exp(g, q, p) == 1,
        g % p != 1,
        s1 < q,
        s2 < q,
        proof_accepted(p, g, h, mod_exp(g, x, p), y2, r1, r2, c, s1),
        proof_accepted(p, g, h, mod_exp(g, x, p), y2, r1, r2, c, s2),
    ensures
        s1 == s2,
{
    lemma_one_answer_per_equation(p, q, g, x, r1, c, s1, s2);
}

} // verus!
