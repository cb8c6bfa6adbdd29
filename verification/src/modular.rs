//! Modular exponentiation as a mathematical function, and the facts about
//! it that the proof engine rests on.

use vstd::arithmetic::div_mod::*;
use vstd::arithmetic::mul::*;
use vstd::arithmetic::power::*;
use vstd::prelude::*;

verus! {

/// `base ^ exp` reduced modulo `modulus`.
pub open spec fn mod_exp(base: nat, exp: nat, modulus: nat) -> nat {
    (pow(base as int, exp) % (modulus as int)) as nat
}

/// `base` has order `q` modulo `p`: `q` is the least positive exponent that
/// takes it to the identity.
pub open spec fn has_order(base: nat, q: nat, p: nat) -> bool {
    &&& q >= 1
    &&& mod_exp(base, q, p) == 1
    &&& forall|j: nat| 0 < j < q ==> #[trigger] mod_exp(base, j, p) != 1
}

/// Multiples of `q` in the exponent vanish when `base ^ q` is the identity.
pub proof fn lemma_exponent_period(base: nat, q: nat, p: nat, e: nat, t: nat)
    requires
        p >= 2,
        mod_exp(base, q, p) == 1,
    ensures
        mod_exp(base, e + q * t, p) == mod_exp(base, e, p),
{
    let b = base as int;
    let m = p as int;
    lemma_pow_adds(b, e, q * t);
    lemma_pow_multiplies(b, q, t);
    lemma_pow_mod_noop(pow(b, q), t, m);
    lemma1_pow(t);
    lemma_small_mod(1, p);
    assert(pow(b, q * t) % m == 1);
    lemma_mul_mod_noop_right(pow(b, e), pow(b, q * t), m);
    assert(pow(b, e) * 1 == pow(b, e));
}

/// A power of `base` can be cancelled from both sides of a congruence
/// modulo `p` when `base ^ q` is the identity.
pub proof fn lemma_cancel_power(base: nat, q: nat, p: nat, s: nat, a: int, b: int)
    requires
        p >= 2,
        q >= 1,
        mod_exp(base, q, p) == 1,
        (pow(base as int, s) * a) % (p as int) == (pow(base as int, s) * b) % (p as int),
    ensures
        a % (p as int) == b % (p as int),
{
    let g = pow(base as int, s);
    let m = p as int;
    let inv_exp: nat = (s * (q - 1)) as nat;
    let inv = pow(base as int, inv_exp);
    assert(inv * g % m == 1) by {
        lemma_pow_adds(base as int, inv_exp, s);
        assert(inv_exp + s == q * s) by (nonlinear_arith)
            requires
                inv_exp == s * (q - 1),
                q >= 1,
        ;
        lemma_exponent_period(base, q, p, 0, s);
        lemma_pow0(base as int);
        lemma_small_mod(1, p);
    }
    assert(forall|x: int| #[trigger] (inv * (g * x)) % m == x % m) by {
        assert forall|x: int| #[trigger] (inv * (g * x)) % m == x % m by {
            lemma_mul_is_associative(inv, g, x);
            lemma_mul_mod_noop_left(inv * g, x, m);
            assert(1 * x == x);
        }
    }
    lemma_mul_mod_noop_right(inv, g * a, m);
    lemma_mul_mod_noop_right(inv, g * b, m);
    assert((inv * (g * a)) % m == a % m);
    assert((inv * (g * b)) % m == b % m);
}

/// `n` is a prime number.
pub open spec fn is_prime(n: nat) -> bool {
    n >= 2 && forall|d: nat| 1 < d < n ==> #[trigger] (n % d) != 0
}

/// Whether `e` is a positive exponent that takes `base` to the identity.
pub open spec fn returns_to_identity(base: nat, p: nat, e: nat) -> bool {
    e > 0 && mod_exp(base, e, p) == 1
}

/// If some positive exponent up to `bound` takes `base` to the identity,
/// there is a least one.
pub proof fn lemma_least_exponent(base: nat, p: nat, bound: nat) -> (least: nat)
    requires
        returns_to_identity(base, p, bound),
    ensures
        least <= bound,
        returns_to_identity(base, p, least),
        forall|e: nat| e < least ==> !#[trigger] returns_to_identity(base, p, e),
    decreases bound,
{
    if exists|e: nat| e < bound && #[trigger] returns_to_identity(base, p, e) {
        let e = choose|e: nat| e < bound && #[trigger] returns_to_identity(base, p, e);
        lemma_least_exponent(base, p, e)
    } else {
        bound
    }
}

/// In a group of prime order every element but the identity has that
/// order: if `base ^ q` is the identity for a prime `q`, and `base` itself
/// is not, then no smaller positive power of `base` is.
pub proof fn lemma_prime_order(base: nat, q: nat, p: nat)
    requires
        p >= 2,
        is_prime(q),
        mod_exp(base, q, p) == 1,
        base % p != 1,
    ensures
        has_order(base, q, p),
{
    assert forall|j: nat| 0 < j < q implies #[trigger] mod_exp(base, j, p) != 1 by {
        if mod_exp(base, j, p) == 1 {
            assert(returns_to_identity(base, p, j));
            let d = lemma_least_exponent(base, p, j);
            let m: nat = q / d;
            let r: nat = q % d;
            lemma_fundamental_div_mod(q as int, d as int);
            lemma_exponent_period(base, d, p, r, m);
            assert(r + d * m == q);
            assert(r == 0) by {
                if r > 0 {
                    lemma_mod_bound(q as int, d as int);
                    assert(returns_to_identity(base, p, r));
                }
            }
            assert(d == 1) by {
                if d > 1 {
                    assert(q % d != 0);
                }
            }
            lemma_pow1(base as int);
        }
    }
}

} // verus!
