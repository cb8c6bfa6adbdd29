//! Fermat's little theorem: for a prime `p` and a number `a` that `p` does
//! not divide, `a^(p - 1)` is 1 modulo `p`.

use crate::modular::is_prime;
use crate::modular::mod_exp;
use vstd::arithmetic::div_mod::*;
use vstd::arithmetic::mul::*;
use vstd::arithmetic::power::*;
use vstd::prelude::*;
use vstd::set_lib::lemma_int_range;
use vstd::set_lib::lemma_len_subset;
use vstd::set_lib::set_int_range;

verus! {

/// Whether `m` is a positive number whose product with `y` is a multiple of
/// `p`.
pub open spec fn annihilates(p: nat, y: nat, m: nat) -> bool {
    m > 0 && (m * y) % p == 0
}

/// Among the positive numbers up to `bound` that annihilate `y` there is a
/// least one.
proof fn lemma_least_annihilator(p: nat, y: nat, bound: nat) -> (least: nat)
    requires
        annihilates(p, y, bound),
    ensures
        least <= bound,
        annihilates(p, y, least),
        forall|e: nat| e < least ==> !#[trigger] annihilates(p, y, e),
    decreases bound,
{
    if exists|e: nat| e < bound && #[trigger] annihilates(p, y, e) {
        let e = choose|e: nat| e < bound && #[trigger] annihilates(p, y, e);
        lemma_least_annihilator(p, y, e)
    } else {
        bound
    }
}

/// If `a * y` and `m * y` are multiples of `p`, so is `(a mod m) * y`.
proof fn lemma_annihilator_remainder(p: nat, y: nat, a: nat, m: nat)
    requires
        p > 0,
        m > 0,
        (a * y) % p == 0,
        (m * y) % p == 0,
    ensures
        ((a % m) * y) % p == 0,
{
    let k: int = (a / m) as int;
    let r: int = (a % m) as int;
    let ay: int = (a * y) as int;
    let my: int = (m * y) as int;
    let pi: int = p as int;
    lemma_fundamental_div_mod(a as int, m as int);
    assert(r * y == ay - k * my) by (nonlinear_arith)
        requires
            a == m * k + r,
            ay == a * y,
            my == m * y,
    ;
    lemma_mul_mod_noop_right(k, my, pi);
    assert(k * 0 == 0);
    lemma_small_mod(0, p);
    assert((k * my) % pi == 0);
    lemma_sub_mod_noop(ay, k * my, pi);
}

/// Euclid's lemma: a prime that divides a product divides one of the
/// factors.
pub proof fn lemma_euclid(p: nat, x: nat, y: nat)
    requires
        is_prime(p),
        (x * y) % p == 0,
    ensures
        x % p == 0 || y % p == 0,
{
    if y % p != 0 {
        assert((p * y) % p == 0) by {
            lemma_mod_multiples_basic(y as int, p as int);
            lemma_mul_is_commutative(y as int, p as int);
        }
        assert(annihilates(p, y, p));
        let m = lemma_least_annihilator(p, y, p);
        // the least annihilator divides p
        lemma_annihilator_remainder(p, y, p, m);
        lemma_mod_bound(p as int, m as int);
        assert(p % m == 0) by {
            if p % m != 0 {
                assert(annihilates(p, y, p % m));
            }
        }
        // so it is 1 or p, and it is not 1
        if m == 1 {
            assert(1 * y == y);
            assert(false);
        }
        if m < p {
            assert((p % m) != 0);
            assert(false);
        }
        assert(m == p);
        // and it divides x as well
        lemma_annihilator_remainder(p, y, x, m);
        lemma_mod_bound(x as int, p as int);
        if x % p != 0 {
            assert(annihilates(p, y, x % p));
            assert(false);
        }
    }
}

/// The product of the numbers of a sequence.
pub open spec fn product(s: Seq<int>) -> int
    decreases s.len(),
{
    if s.len() == 0 {
        1
    } else {
        product(s.drop_last()) * s.last()
    }
}

/// `n!`
pub open spec fn factorial(n: nat) -> nat
    decreases n,
{
    if n == 0 {
        1
    } else {
        factorial((n - 1) as nat) * n
    }
}

/// Taking one number out of a sequence divides its product by that number.
proof fn lemma_product_remove(s: Seq<int>, k: int)
    requires
        0 <= k < s.len(),
    ensures
        product(s) == s[k] * product(s.remove(k)),
    decreases s.len(),
{
    let front = s.drop_last();
    if k == s.len() - 1 {
        assert(s.remove(k) =~= front);
        lemma_mul_is_commutative(product(front), s.last());
    } else {
        lemma_product_remove(front, k);
        assert(s.remove(k).drop_last() =~= front.remove(k));
        assert(s.remove(k).last() == s.last());
        lemma_mul_is_associative(s[k], product(front.remove(k)), s.last());
    }
}

/// A sequence that holds each of `1, ..., n` once multiplies to `n!`.
proof fn lemma_product_of_permutation(s: Seq<int>)
    requires
        s.no_duplicates(),
        forall|i: int| 0 <= i < s.len() ==> 1 <= #[trigger] s[i] <= s.len(),
    ensures
        product(s) == factorial(s.len()),
    decreases s.len(),
{
    let n = s.len();
    if n > 0 {
        let top = n as int;
        if !s.contains(top) {
            // n different numbers do not fit into 1, ..., n - 1
            s.unique_seq_to_set();
            lemma_int_range(1, top);
            assert(s.to_set().subset_of(set_int_range(1, top))) by {
                assert forall|a: int| s.to_set().contains(a) implies set_int_range(
                    1,
                    top,
                ).contains(a) by {
                    let i = choose|i: int| 0 <= i < s.len() && s[i] == a;
                    assert(1 <= s[i] <= s.len());
                }
            }
            lemma_len_subset(s.to_set(), set_int_range(1, top));
            assert(false);
        }
        let k = choose|k: int| 0 <= k < s.len() && s[k] == top;
        let rest = s.remove(k);
        s.remove_ensures(k);
        assert forall|i: int| 0 <= i < rest.len() implies 1 <= #[trigger] rest[i]
            <= rest.len() by {
            let j = if i < k { i } else { i + 1 };
            assert(rest[i] == s[j]);
            assert(1 <= s[j] <= s.len());
            assert(s[j] != s[k]);
        }
        assert(rest.no_duplicates()) by {
            assert forall|i: int, j: int|
                0 <= i < rest.len() && 0 <= j < rest.len() && i != j implies rest[i]
                != rest[j] by {
                let i0 = if i < k { i } else { i + 1 };
                let j0 = if j < k { j } else { j + 1 };
                assert(rest[i] == s[i0]);
                assert(rest[j] == s[j0]);
            }
        }
        lemma_product_of_permutation(rest);
        lemma_product_remove(s, k);
        lemma_mul_is_commutative(top, factorial(rest.len()) as int);
    }
}

/// The first `n` multiples of `a`, each reduced modulo `p`.
pub open spec fn multiples(a: nat, p: nat, n: nat) -> Seq<int> {
    Seq::new(n, |i: int| (a * (i + 1)) % (p as int))
}

/// The product of the first `n` multiples of `a` is `a^n * n!` modulo `p`.
proof fn lemma_product_of_multiples(a: nat, p: nat, n: nat)
    requires
        p > 0,
    ensures
        product(multiples(a, p, n)) % (p as int) == (pow(a as int, n) * factorial(n)) % (p as int),
    decreases n,
{
    let m = p as int;
    if n == 0 {
        lemma_pow0(a as int);
    } else {
        let before = (n - 1) as nat;
        let s = multiples(a, p, n);
        lemma_product_of_multiples(a, p, before);
        assert(s.drop_last() =~= multiples(a, p, before));
        let step: int = (a * (before + 1)) as int;
        assert(s.last() == step % m);
        let front = product(multiples(a, p, before));
        let known = pow(a as int, before) * factorial(before);
        lemma_mul_mod_noop_right(front, step, m);
        lemma_mul_mod_noop_left(front, step, m);
        lemma_mul_mod_noop_left(known, step, m);
        assert((front * s.last()) % m == (known * step) % m);
        lemma_pow_adds(a as int, before, 1);
        lemma_pow1(a as int);
        assert(known * step == pow(a as int, n) * factorial(n)) by (nonlinear_arith)
            requires
                known == pow(a as int, before) * factorial(before),
                pow(a as int, n) == pow(a as int, before) * a,
                factorial(n) == factorial(before) * n,
                step == a * (before + 1),
                n == before + 1,
        ;
    }
}

/// A prime does not divide the factorial of a smaller number.
proof fn lemma_factorial_coprime(p: nat, n: nat)
    requires
        is_prime(p),
        n < p,
    ensures
        factorial(n) % p != 0,
    decreases n,
{
    if n == 0 {
        lemma_small_mod(1, p);
    } else {
        lemma_factorial_coprime(p, (n - 1) as nat);
        lemma_small_mod(n, p);
        if factorial(n) % p == 0 {
            lemma_euclid(p, factorial((n - 1) as nat), n);
        }
    }
}

/// Fermat's little theorem.
pub proof fn lemma_fermat_little(p: nat, a: nat)
    requires
        is_prime(p),
        a % p != 0,
    ensures
        mod_exp(a, (p - 1) as nat, p) == 1,
{
    let m = p as int;
    let n = (p - 1) as nat;
    let s = multiples(a, p, n);
    // the multiples of a run through 1, ..., p - 1
    assert forall|i: int| 0 <= i < s.len() implies 1 <= #[trigger] s[i] <= s.len() by {
        lemma_mod_bound(a * (i + 1), m);
        if s[i] == 0 {
            lemma_small_mod((i + 1) as nat, p);
            lemma_euclid(p, a, (i + 1) as nat);
        }
    }
    assert(s.no_duplicates()) by {
        assert forall|i: int, j: int|
            0 <= i < s.len() && 0 <= j < s.len() && i != j implies s[i] != s[j] by {
            if s[i] == s[j] {
                let (lo, hi) = if i < j { (i, j) } else { (j, i) };
                let gap = (hi - lo) as nat;
                lemma_mod_equivalence(a * (hi + 1), a * (lo + 1), m);
                assert(a * (hi + 1) - a * (lo + 1) == a * gap) by (nonlinear_arith)
                    requires
                        gap == hi - lo,
                ;
                lemma_small_mod(gap, p);
                lemma_euclid(p, a, gap);
            }
        }
    }
    lemma_product_of_permutation(s);
    lemma_product_of_multiples(a, p, n);
    lemma_factorial_coprime(p, n);
    let f = factorial(n);
    let big = pow(a as int, n);
    let x = big % m;
    lemma_mod_bound(big, m);
    // x * f and f are the same residue, and f can be cancelled
    lemma_mul_mod_noop_left(big, f as int, m);
    assert((x * f) % m == f % p);
    if x == 0 {
        assert(0 * f == 0);
        lemma_small_mod(0, p);
    } else {
        let less = (x - 1) as nat;
        lemma_mod_equivalence(x * f, f as int, m);
        assert(x * f - f == less * f) by (nonlinear_arith)
            requires
                less == x - 1,
        ;
        lemma_euclid(p, less, f);
        lemma_small_mod(less, p);
    }
}

} // verus!
