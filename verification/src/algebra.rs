//! The equations of the Chaum-Pedersen exchange.
//!
//! The prover holds a secret `x` and has published `y1 = g^x mod p` and
//! `y2 = h^x mod p`. For one proof it draws a nonce `k`, sends the commitments
//! `r1 = g^k mod p` and `r2 = h^k mod p`, receives a challenge `c` and answers
//! with `s = (k - c*x) mod q`. The verifier accepts when `g^s * y1^c` and
//! `h^s * y2^c`, reduced modulo `p`, give `r1` and `r2` back.

use vstd::prelude::*;
use vstd::arithmetic::power::{pow, lemma_pow_adds, lemma_pow_multiplies, lemma_pow_mod_noop, lemma1_pow};
use vstd::arithmetic::div_mod::{
    lemma_fundamental_div_mod, lemma_mul_mod_noop_general, lemma_small_mod, lemma_sub_mod_noop,
    lemma_mod_bound,
};
use crate::natural::Natural;

verus! {

/// `base ^ exponent mod modulus`.
pub open spec fn mod_exp(base: nat, exponent: nat, modulus: nat) -> nat {
    (pow(base as int, exponent) % (modulus as int)) as nat
}

/// The prover's answer `(k - c*x) mod q`, which lies in `[0, q)`.
pub open spec fn response(k: nat, c: nat, x: nat, q: nat) -> nat {
    ((k - c * x) % (q as int)) as nat
}

/// What the verifier computes for one generator: `(g^s mod p * y^c mod p) mod p`.
pub open spec fn recomputed(generator: nat, public: nat, s: nat, c: nat, p: nat) -> nat {
    (mod_exp(generator, s, p) * mod_exp(public, c, p)) % p
}

/// The verifier's decision: both recomputed values equal the commitments.
pub open spec fn proof_accepted(
    p: nat,
    g: nat,
    h: nat,
    y1: nat,
    y2: nat,
    r1: nat,
    r2: nat,
    c: nat,
    s: nat,
) -> bool {
    recomputed(g, y1, s, c, p) == r1 && recomputed(h, y2, s, c, p) == r2
}

/// Where `g^q` is 1 modulo `p`, adding a multiple of `q` to an exponent of
/// `g` does not change the power modulo `p`.
pub proof fn lemma_exponent_period(g: nat, q: nat, p: nat, a: nat, t: nat)
    requires
        p > 0,
        mod_exp(g, q, p) == 1,
    ensures
        mod_exp(g, a + q * t, p) == mod_exp(g, a, p),
{
    let gi = g as int;
    let pi = p as int;
    lemma_pow_adds(gi, a, q * t);
    lemma_pow_multiplies(gi, q, t);
    lemma_pow_mod_noop(pow(gi, q), t, pi);
    lemma1_pow(t);
    assert(pow(gi, q * t) % pi == 1int % pi);
    lemma_mul_mod_noop_general(pow(gi, a), pow(gi, q * t), pi);
    assert(1int % pi == 1) by {
        lemma_mod_bound(pow(gi, q), pi);
        lemma_small_mod(1, p);
    }
    assert((pow(gi, a) % pi) * 1 == pow(gi, a) % pi);
    lemma_mod_bound(pow(gi, a), pi);
    lemma_small_mod((pow(gi, a) % pi) as nat, p);
}

/// For a public value `g^x mod p`, what the verifier computes from an answer
/// `s` and a challenge `c` is `g^(s + x*c) mod p`.
pub proof fn lemma_recomputed_is_power(g: nat, x: nat, s: nat, c: nat, p: nat)
    requires
        p > 0,
    ensures
        recomputed(g, mod_exp(g, x, p), s, c, p) == mod_exp(g, s + x * c, p),
{
    let gi = g as int;
    let pi = p as int;
    lemma_pow_mod_noop(pow(gi, x), c, pi);
    lemma_pow_multiplies(gi, x, c);
    lemma_mul_mod_noop_general(pow(gi, s), pow(pow(gi, x) % pi, c), pi);
    lemma_mul_mod_noop_general(pow(gi, s), pow(gi, x * c), pi);
    lemma_pow_adds(gi, s, x * c);
    lemma_mod_bound(pow(gi, x), pi);
    lemma_mod_bound(pow(gi, s), pi);
    lemma_mod_bound(pow(pow(gi, x) % pi, c), pi);
}

/// One of the two verification equations holds for an honest prover.
proof fn lemma_equation_holds(g: nat, q: nat, p: nat, x: nat, k: nat, c: nat)
    requires
        p > 0,
        q > 0,
        mod_exp(g, q, p) == 1,
    ensures
        recomputed(g, mod_exp(g, x, p), response(k, c, x, q), c, p) == mod_exp(g, k, p),
{
    let gi = g as int;
    let pi = p as int;
    let qi = q as int;
    let s = response(k, c, x, q);
    let d = (k - c * x) / qi;
    lemma_fundamental_div_mod(k - c * x, qi);
    lemma_mod_bound(k - c * x, qi);
    assert(c * x >= 0) by (nonlinear_arith);
    let e: nat = (s + x * c) as nat;
    assert(x * c == c * x) by (nonlinear_arith);
    lemma_recomputed_is_power(g, x, s, c, p);
    // The exponents s + x*c and k differ by a multiple of q.
    if d >= 0 {
        let t = d as nat;
        assert(k == e + q * t);
        lemma_exponent_period(g, q, p, e, t);
    } else {
        let t = (-d) as nat;
        assert(qi * d == -(qi * (-d))) by (nonlinear_arith);
        assert(e == k + q * t);
        lemma_exponent_period(g, q, p, k, t);
    }
}

/// Completeness: in a group whose generators `g` and `h` satisfy
/// `g^q mod p = 1` and `h^q mod p = 1`, a prover that knows `x` is accepted,
/// whatever nonce `k` it drew and whatever challenge `c` it received.
pub proof fn lemma_honest_prover_accepted(
    p: nat,
    q: nat,
    g: nat,
    h: nat,
    x: nat,
    k: nat,
    c: nat,
)
    requires
        p > 0,
        q > 0,
        mod_exp(g, q, p) == 1,
        mod_exp(h, q, p) == 1,
    ensures
        proof_accepted(
            p,
            g,
            h,
            mod_exp(g, x, p),
            mod_exp(h, x, p),
            mod_exp(g, k, p),
            mod_exp(h, k, p),
            c,
            response(k, c, x, q),
        ),
{
    lemma_equation_holds(g, q, p, x, k, c);
    lemma_equation_holds(h, q, p, x, k, c);
}

/// The answer of the prover lies below `q`.
pub proof fn lemma_response_in_range(k: nat, c: nat, x: nat, q: nat)
    requires
        q > 0,
    ensures
        response(k, c, x, q) < q,
{
    lemma_mod_bound(k - c * x, q as int);
}

/// Computes the prover's answer `(k - c*x) mod q`: the product is reduced
/// modulo `q`, and `q` is added once where the difference would be negative.
/// `None` when `q` is zero.
pub fn compute_response(k: &Natural, c: &Natural, x: &Natural, q: &Natural) -> (s: Option<Natural>)
    ensures
        q@ == 0 ==> s is None,
        q@ != 0 ==> s is Some && s->0@ == response(k@, c@, x@, q@),
{
    if q.is_zero() {
        return None;
    }
    let product = c.mul(x);
    let reduced = product.checked_rem(q).unwrap();
    let nonce = k.checked_rem(q).unwrap();
    proof {
        let qi = q@ as int;
        lemma_sub_mod_noop(k@ as int, (c@ * x@) as int, qi);
        lemma_mod_bound(k@ as int, qi);
        lemma_mod_bound((c@ * x@) as int, qi);
        let diff = nonce@ - reduced@;
        if diff >= 0 {
            lemma_small_mod(diff as nat, q@);
        } else {
            lemma_fundamental_div_mod(diff, qi);
            lemma_mod_bound(diff, qi);
            let d = diff / qi;
            assert(d == -1) by (nonlinear_arith)
                requires
                    diff == qi * d + diff % qi,
                    0 <= diff % qi < qi,
                    -qi < diff < 0,
            ;
        }
    }
    if nonce.less_than(&reduced) {
        let lifted = nonce.add(q);
        Some(lifted.checked_sub(&reduced).unwrap())
    } else {
        Some(nonce.checked_sub(&reduced).unwrap())
    }
}

/// Computes one side of the verification, `(g^s mod p * y^c mod p) mod p`.
/// `None` when `p` is zero.
pub fn recompute_commitment(
    generator: &Natural,
    public: &Natural,
    s: &Natural,
    c: &Natural,
    p: &Natural,
) -> (value: Option<Natural>)
    ensures
        p@ == 0 ==> value is None,
        p@ != 0 ==> value is Some && value->0@ == recomputed(generator@, public@, s@, c@, p@),
{
    if p.is_zero() {
        return None;
    }
    let left = generator.mod_pow(s, p).unwrap();
    let right = public.mod_pow(c, p).unwrap();
    proof {
        lemma_mod_bound(pow(generator@ as int, s@), p@ as int);
        lemma_mod_bound(pow(public@ as int, c@), p@ as int);
    }
    left.mul(&right).checked_rem(p)
}

} // verus!
