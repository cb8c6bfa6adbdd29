//! The proof engine: commitment pairs, responses and their verification.

use crate::bignat::BigNat;
use crate::error::AuthError;
use crate::modular::is_prime;
use crate::modular::mod_exp;
use crate::primality::probable_prime;
use crate::primality::COMPLETE_BELOW;
use vstd::arithmetic::div_mod::*;
use vstd::arithmetic::mul::*;
use vstd::arithmetic::power::*;
use vstd::prelude::*;

verus! {

/// The mathematical content of a set of group parameters.
pub struct Group {
    /// The modulus.
    pub p: nat,
    /// The order of the subgroup that both generators span.
    pub q: nat,
    /// The first generator.
    pub alpha: nat,
    /// The second generator.
    pub beta: nat,
}

/// What the generators owe to the modulus and the order: both are proper
/// residues modulo `p`, neither is the identity, and raising either to the
/// power `q` gives the identity.
pub open spec fn generators_fit(g: Group) -> bool {
    &&& g.p >= 2
    &&& g.q >= 2
    &&& 1 < g.alpha < g.p
    &&& 1 < g.beta < g.p
    &&& mod_exp(g.alpha, g.q, g.p) == 1
    &&& mod_exp(g.beta, g.q, g.p) == 1
}

/// Valid group parameters: the modulus and the order are prime, and the
/// generators fit them.  Both generators then have order `q`.
pub open spec fn valid_group(g: Group) -> bool {
    is_prime(g.p) && is_prime(g.q) && generators_fit(g)
}

/// What is tested of group parameters before they are kept: the modulus
/// and the order pass the primality test, and the generators fit them.
pub open spec fn checked_group(g: Group) -> bool {
    probable_prime(g.p) && probable_prime(g.q) && generators_fit(g)
}

/// The pair `(alpha^exp mod p, beta^exp mod p)` that commits to `exp`.
pub open spec fn commitment(g: Group, exp: nat) -> (nat, nat) {
    (mod_exp(g.alpha, exp, g.p), mod_exp(g.beta, exp, g.p))
}

/// The response `k - c * x` reduced into `[0, q)`.
pub open spec fn response(g: Group, k: nat, c: nat, x: nat) -> nat {
    ((k - c * x) % (g.q as int)) as nat
}

/// Whether `r` is congruent to `gen^s * y^c` modulo `p`.
pub open spec fn coordinate_holds(gen: nat, p: nat, r: nat, y: nat, c: nat, s: nat) -> bool {
    r % p == ((pow(gen as int, s) * pow(y as int, c)) % (p as int)) as nat
}

/// Whether the response `s` to the challenge `c` is accepted for the
/// commitment `(r1, r2)` and the registered pair `(y1, y2)`: both
/// coordinates have to hold.
pub open spec fn accepts(g: Group, r1: nat, r2: nat, y1: nat, y2: nat, c: nat, s: nat) -> bool {
    coordinate_holds(g.alpha, g.p, r1, y1, c, s) && coordinate_holds(g.beta, g.p, r2, y2, c, s)
}

/// Group parameters that passed `checked_group`, together with the
/// operations of the protocol over them.
pub struct ZKP {
    alpha: BigNat,
    beta: BigNat,
    p: BigNat,
    q: BigNat,
}

impl View for ZKP {
    type V = Group;

    closed spec fn view(&self) -> Group {
        Group { p: self.p@, q: self.q@, alpha: self.alpha@, beta: self.beta@ }
    }
}

impl ZKP {
    /// The parameters that a `ZKP` holds have passed every test.
    #[verifier::type_invariant]
    pub open spec fn well_formed(self) -> bool {
        checked_group(self@)
    }

    /// Tests the parameters and keeps them.
    ///
    /// Valid parameters are always kept.  Parameters are refused when the
    /// generators do not fit, and when the modulus or the order fails the
    /// primality test: that is every composite number up to
    /// `COMPLETE_BELOW`, and every larger one that has a factor up to
    /// `TRIAL_LIMIT` or fails the strong test to one of the first twelve
    /// primes.
    pub fn new(alpha: &BigNat, beta: &BigNat, p: &BigNat, q: &BigNat) -> (out: Result<
        ZKP,
        AuthError,
    >)
        ensures
            valid_group(Group { p: p@, q: q@, alpha: alpha@, beta: beta@ }) ==> out is Ok,
            out is Ok ==> out->Ok_0@ == (Group { p: p@, q: q@, alpha: alpha@, beta: beta@ })
                && checked_group(out->Ok_0@),
            out is Err ==> out->Err_0 == AuthError::InvalidParameters,
            !is_prime(p@) && p@ <= COMPLETE_BELOW ==> out is Err,
            !is_prime(q@) && q@ <= COMPLETE_BELOW ==> out is Err,
    {
        let one = BigNat::from(1u32);
        let two = BigNat::from(2u32);
        if !p.ge(&two) || !q.ge(&two) {
            return Err(AuthError::InvalidParameters);
        }
        if !alpha.ge(&two) || alpha.ge(p) || !beta.ge(&two) || beta.ge(p) {
            return Err(AuthError::InvalidParameters);
        }
        let alpha_q = alpha.modpow(q, p);
        let beta_q = beta.modpow(q, p);
        if alpha_q != one || beta_q != one {
            return Err(AuthError::InvalidParameters);
        }
        if !q.is_probable_prime() || !p.is_probable_prime() {
            return Err(AuthError::InvalidParameters);
        }
        Ok(ZKP { alpha: alpha.clone(), beta: beta.clone(), p: p.clone(), q: q.clone() })
    }

    /// The first generator.
    pub fn alpha(&self) -> (out: &BigNat)
        ensures
            out@ == self@.alpha,
    {
        &self.alpha
    }

    /// The second generator.
    pub fn beta(&self) -> (out: &BigNat)
        ensures
            out@ == self@.beta,
    {
        &self.beta
    }

    /// The modulus.
    pub fn p(&self) -> (out: &BigNat)
        ensures
            out@ == self@.p,
    {
        &self.p
    }

    /// The order of the subgroup.
    pub fn q(&self) -> (out: &BigNat)
        ensures
            out@ == self@.q,
    {
        &self.q
    }

    /// output = (alpha^exp mod p, beta^exp mod p)
    pub fn compute_pair(&self, exp: &BigNat) -> (out: (BigNat, BigNat))
        ensures
            (out.0@, out.1@) == commitment(self@, exp@),
            out.0@ < self@.p,
            out.1@ < self@.p,
    {
        proof {
            use_type_invariant(self);
        }
        let g1 = self.alpha.modpow(exp, &self.p);
        let g2 = self.beta.modpow(exp, &self.p);
        proof {
            lemma_mod_bound(pow(self.alpha@ as int, exp@), self.p@ as int);
            lemma_mod_bound(pow(self.beta@ as int, exp@), self.p@ as int);
        }
        (g1, g2)
    }

    /// output = s = k - c * x mod q
    pub fn solve(&self, k: &BigNat, c: &BigNat, x: &BigNat) -> (out: BigNat)
        ensures
            out@ == response(self@, k@, c@, x@),
            out@ < self@.q,
    {
        proof {
            use_type_invariant(self);
        }
        let one = BigNat::from(1u32);
        let cx = c.mul(x);
        if k.ge(&cx) {
            let diff = k.sub(&cx);
            proof {
                lemma_pow1(diff@ as int);
            }
            diff.modpow(&one, &self.q)
        } else {
            let diff = cx.sub(k);
            let rem = diff.modpow(&one, &self.q);
            proof {
                lemma_pow1(diff@ as int);
                lemma_fundamental_div_mod(diff@ as int, self.q@ as int);
                let d = diff@ as int;
                let q = self.q@ as int;
                if rem@ == 0 {
                    lemma_mul_unary_negation(q, d / q);
                    lemma_fundamental_div_mod_converse(-d, q, -(d / q), 0);
                } else {
                    assert(-d == q * (-(d / q) - 1) + (q - rem@)) by {
                        lemma_mul_is_distributive_sub(q, -(d / q), 1);
                        lemma_mul_unary_negation(q, d / q);
                    }
                    lemma_fundamental_div_mod_converse(-d, q, -(d / q) - 1, q - rem@);
                }
            }
            if rem.is_zero() {
                rem
            } else {
                self.q.sub(&rem)
            }
        }
    }

    /// cond1: r1 = alpha^s * y1^c
    /// cond2: r2 = beta^s * y2^c
    ///
    /// Both sides are compared as residues modulo `p`, and both conditions
    /// have to hold.
    pub fn verify(
        &self,
        r1: &BigNat,
        r2: &BigNat,
        y1: &BigNat,
        y2: &BigNat,
        c: &BigNat,
        s: &BigNat,
    ) -> (out: bool)
        ensures
            out == accepts(self@, r1@, r2@, y1@, y2@, c@, s@),
    {
        proof {
            use_type_invariant(self);
        }
        let cond1 = Self::check_coordinate(&self.alpha, &self.p, r1, y1, c, s);
        let cond2 = Self::check_coordinate(&self.beta, &self.p, r2, y2, c, s);
        cond1 && cond2
    }

    fn check_coordinate(
        gen: &BigNat,
        p: &BigNat,
        r: &BigNat,
        y: &BigNat,
        c: &BigNat,
        s: &BigNat,
    ) -> (out: bool)
        requires
            p@ > 0,
        ensures
            out == coordinate_holds(gen@, p@, r@, y@, c@, s@),
    {
        let one = BigNat::from(1u32);
        let lhs = r.modpow(&one, p);
        let rhs = gen.modpow(s, p).mul(&y.modpow(c, p)).modpow(&one, p);
        proof {
            lemma_pow1(r@ as int);
            let a = pow(gen@ as int, s@);
            let b = pow(y@ as int, c@);
            let m = p@ as int;
            lemma_pow1((a % m) * (b % m));
            lemma_mul_mod_noop(a, b, m);
        }
        lhs == rhs
    }
}

} // verus!
