//! The primality test that group parameters have to pass: trial division by
//! every number up to `TRIAL_LIMIT`, and the strong test of Miller and Rabin
//! to the first twelve primes as bases.
//!
//! No prime fails the test.  A composite number fails it when it has a
//! factor up to `TRIAL_LIMIT`, which every composite number up to
//! `COMPLETE_BELOW` has; a larger one without such a factor fails it unless
//! it is a strong pseudoprime to all twelve bases.

use crate::bignat::BigNat;
use crate::fermat::lemma_euclid;
use crate::fermat::lemma_fermat_little;
use crate::modular::is_prime;
use crate::modular::mod_exp;
use vstd::arithmetic::div_mod::*;
use vstd::arithmetic::power::*;
use vstd::prelude::*;

verus! {

/// The largest number that is tried as a divisor.
pub const TRIAL_LIMIT: u32 = 65535;

/// The square of `TRIAL_LIMIT`: up to here the test is exact.
pub const COMPLETE_BELOW: u64 = 4294836225;

/// No number from 2 to `TRIAL_LIMIT`, short of `n` itself, divides `n`.
pub open spec fn no_small_factor(n: nat) -> bool {
    forall|d: nat| 2 <= d <= TRIAL_LIMIT && d < n ==> #[trigger] (n % d) != 0
}

/// Whether `a^e` is 1 modulo `n` and, going down from `e` by halving for as
/// long as the exponent is even, the first power that is not 1 is `n - 1`.
pub open spec fn roots_hold(n: nat, a: nat, e: nat) -> bool
    decreases e,
{
    if mod_exp(a, e, n) != 1 {
        false
    } else if e % 2 == 1 || e == 0 {
        true
    } else {
        mod_exp(a, e / 2, n) == n - 1 || roots_hold(n, a, e / 2)
    }
}

/// The strong test of `n` to the base `a`: unless `n` divides `a`,
/// `a^(n - 1)` is 1 modulo `n`, and no square root of 1 other than 1 and
/// `n - 1` shows up on the way there.
pub open spec fn strong_holds(n: nat, a: nat) -> bool {
    a % n != 0 ==> roots_hold(n, a, (n - 1) as nat)
}

/// The strong test to each of the first twelve primes.
pub open spec fn strong_holds_to_all(n: nat) -> bool {
    &&& strong_holds(n, 2)
    &&& strong_holds(n, 3)
    &&& strong_holds(n, 5)
    &&& strong_holds(n, 7)
    &&& strong_holds(n, 11)
    &&& strong_holds(n, 13)
    &&& strong_holds(n, 17)
    &&& strong_holds(n, 19)
    &&& strong_holds(n, 23)
    &&& strong_holds(n, 29)
    &&& strong_holds(n, 31)
    &&& strong_holds(n, 37)
}

/// What the test accepts.
pub open spec fn probable_prime(n: nat) -> bool {
    n >= 2 && no_small_factor(n) && strong_holds_to_all(n)
}

/// Modulo a prime, 1 has the square roots 1 and `p - 1` only: wherever a
/// power of `a` is 1, the chain of its roots holds.
pub proof fn lemma_prime_roots_hold(p: nat, a: nat, e: nat)
    requires
        is_prime(p),
        mod_exp(a, e, p) == 1,
    ensures
        roots_hold(p, a, e),
    decreases e,
{
    if e % 2 == 0 && e != 0 {
        let m = p as int;
        let h: nat = e / 2;
        let x: nat = mod_exp(a, h, p);
        lemma_mod_bound(pow(a as int, h), m);
        // x * x is 1 modulo p
        lemma_pow_adds(a as int, h, h);
        lemma_mul_mod_noop(pow(a as int, h), pow(a as int, h), m);
        assert((x * x) % p == 1);
        lemma_small_mod(1, p);
        if x == 0 {
            assert(x * x == 0);
            lemma_small_mod(0, p);
            assert(false);
        }
        // so p divides (x - 1) * (x + 1)
        let below: nat = (x - 1) as nat;
        let above: nat = x + 1;
        lemma_mod_equivalence((x * x) as int, 1, m);
        assert(below * above == x * x - 1) by (nonlinear_arith)
            requires
                below == x - 1,
                above == x + 1,
        ;
        lemma_euclid(p, below, above);
        if below % p == 0 {
            lemma_small_mod(below, p);
            assert(x == 1);
            lemma_prime_roots_hold(p, a, h);
        } else {
            if above < p {
                lemma_small_mod(above, p);
            }
            assert(x == p - 1);
        }
    }
}

/// Every prime passes the strong test to every base.
pub proof fn lemma_prime_is_strong(n: nat, a: nat)
    requires
        is_prime(n),
    ensures
        strong_holds(n, a),
{
    if a % n != 0 {
        lemma_fermat_little(n, a);
        lemma_prime_roots_hold(n, a, (n - 1) as nat);
    }
}

/// Every prime passes the test.
pub proof fn lemma_prime_is_probable(n: nat)
    requires
        is_prime(n),
    ensures
        probable_prime(n),
{
    lemma_prime_is_strong(n, 2);
    lemma_prime_is_strong(n, 3);
    lemma_prime_is_strong(n, 5);
    lemma_prime_is_strong(n, 7);
    lemma_prime_is_strong(n, 11);
    lemma_prime_is_strong(n, 13);
    lemma_prime_is_strong(n, 17);
    lemma_prime_is_strong(n, 19);
    lemma_prime_is_strong(n, 23);
    lemma_prime_is_strong(n, 29);
    lemma_prime_is_strong(n, 31);
    lemma_prime_is_strong(n, 37);
}

/// A composite number has a factor whose square does not exceed it.
pub proof fn lemma_composite_has_small_factor(n: nat) -> (d: nat)
    requires
        n >= 2,
        !is_prime(n),
    ensures
        2 <= d < n,
        d * d <= n,
        n % d == 0,
{
    let a = choose|a: nat| 1 < a < n && #[trigger] (n % a) == 0;
    let b: nat = n / a;
    lemma_fundamental_div_mod(n as int, a as int);
    assert(n == a * b);
    assert(2 <= b < n) by (nonlinear_arith)
        requires
            n == a * b,
            1 < a < n,
    ;
    assert(n % b == 0) by {
        lemma_mod_multiples_basic(a as int, b as int);
    }
    if a <= b {
        assert(a * a <= a * b) by (nonlinear_arith)
            requires
                a <= b,
        ;
        a
    } else {
        assert(b * b <= a * b) by (nonlinear_arith)
            requires
                b <= a,
        ;
        b
    }
}

/// No number from `from` up to `to - 1` divides `n`, found by going
/// through them one by one.
pub open spec fn no_divisor_in(n: nat, from: nat, to: nat) -> bool
    decreases to - from,
{
    if from >= to {
        true
    } else {
        n % from != 0 && no_divisor_in(n, from + 1, to)
    }
}

/// What the search finds holds of every number in its range.
pub proof fn lemma_search_covers(n: nat, from: nat, to: nat, e: nat)
    requires
        no_divisor_in(n, from, to),
        from <= e < to,
    ensures
        n % e != 0,
    decreases to - from,
{
    if from < e {
        lemma_search_covers(n, from + 1, to, e);
    }
}

/// A number from 2 on is prime when no number from 2 up to its square
/// root divides it.  With enough fuel for `no_divisor_in` this settles the
/// primality of a given small number.
pub proof fn lemma_prime_by_search(n: nat, to: nat)
    requires
        n >= 2,
        to * to > n,
        no_divisor_in(n, 2, to),
    ensures
        is_prime(n),
{
    if !is_prime(n) {
        let d = lemma_composite_has_small_factor(n);
        assert(d < to) by (nonlinear_arith)
            requires
                d * d <= n,
                n < to * to,
        ;
        lemma_search_covers(n, 2, to, d);
    }
}

/// Up to `COMPLETE_BELOW` the test is exact: what passes it is prime.
pub proof fn lemma_small_probable_is_prime(n: nat)
    requires
        probable_prime(n),
        n <= COMPLETE_BELOW,
    ensures
        is_prime(n),
{
    if !is_prime(n) {
        let d = lemma_composite_has_small_factor(n);
        assert(d <= TRIAL_LIMIT) by (nonlinear_arith)
            requires
                d * d <= n,
                n <= 65535 * 65535,
        ;
        assert((n % d) != 0);
    }
}

impl BigNat {
    /// Whether no number from 2 to `TRIAL_LIMIT`, short of the number
    /// itself, divides it.
    fn has_no_small_factor(&self) -> (out: bool)
        requires
            self@ >= 2,
        ensures
            out == no_small_factor(self@),
    {
        let mut d: u32 = 2;
        while d <= TRIAL_LIMIT
            invariant
                2 <= d <= TRIAL_LIMIT + 1,
                forall|e: nat| 2 <= e < d && e < self@ ==> #[trigger] (self@ % e) != 0,
            decreases TRIAL_LIMIT + 1 - d,
        {
            let divisor = BigNat::from(d);
            if divisor.ge(self) {
                return true;
            }
            if self.rem(&divisor).is_zero() {
                proof {
                    assert((self@ % (d as nat)) == 0);
                }
                return false;
            }
            d = d + 1;
        }
        true
    }

    /// The strong test to the base `a`.
    fn passes_strong(&self, a: u32) -> (out: bool)
        requires
            self@ >= 2,
        ensures
            out == strong_holds(self@, a as nat),
    {
        let one = BigNat::from(1u32);
        let two = BigNat::from(2u32);
        let base = BigNat::from(a);
        if base.rem(self).is_zero() {
            return true;
        }
        let last = self.sub(&one);
        let mut e = last.clone();
        let mut power = base.modpow(&e, self);
        loop
            invariant
                self@ >= 2,
                one@ == 1,
                two@ == 2,
                base@ == a,
                last@ == self@ - 1,
                base@ % self@ != 0,
                power@ == mod_exp(base@, e@, self@),
                roots_hold(self@, base@, e@) == roots_hold(self@, base@, last@),
            decreases e@,
        {
            if power != one {
                return false;
            }
            if e.is_zero() || !e.rem(&two).is_zero() {
                return true;
            }
            let half = e.div(&two);
            let root = base.modpow(&half, self);
            if root == last {
                return true;
            }
            e = half;
            power = root;
        }
    }

    /// The strong test to each of the first twelve primes.
    fn passes_strong_to_all(&self) -> (out: bool)
        requires
            self@ >= 2,
        ensures
            out == strong_holds_to_all(self@),
    {
        self.passes_strong(2) && self.passes_strong(3) && self.passes_strong(5)
            && self.passes_strong(7) && self.passes_strong(11) && self.passes_strong(13)
            && self.passes_strong(17) && self.passes_strong(19) && self.passes_strong(23)
            && self.passes_strong(29) && self.passes_strong(31) && self.passes_strong(37)
    }

    /// Whether the number passes the primality test of this module.
    pub fn is_probable_prime(&self) -> (out: bool)
        ensures
            out == probable_prime(self@),
            is_prime(self@) ==> out,
            out && self@ <= COMPLETE_BELOW ==> is_prime(self@),
    {
        proof {
            if is_prime(self@) {
                lemma_prime_is_probable(self@);
            }
            if probable_prime(self@) && self@ <= COMPLETE_BELOW {
                lemma_small_probable_is_prime(self@);
            }
        }
        let two = BigNat::from(2u32);
        if !self.ge(&two) {
            return false;
        }
        self.has_no_small_factor() && self.passes_strong_to_all()
    }
}

} // verus!
