//! Elementary number theory over the mathematical integers.
//!
//! The field arithmetic of this crate is arithmetic modulo a prime. Everything
//! it needs from number theory is proved here from the definition of a prime:
//! Euclid's lemma, cancellation modulo a prime, and Fermat's little theorem,
//! which is what makes exponentiation to `p - 2` a modular inverse.

use vstd::prelude::*;
use vstd::arithmetic::div_mod::*;
use vstd::arithmetic::mul::*;
use vstd::arithmetic::power::*;

verus! {

/// `p` is a prime: at least 2, and no integer strictly between 1 and `p`
/// divides it.
pub open spec fn is_prime(p: int) -> bool {
    &&& p >= 2
    &&& forall|d: int| 1 < d < p ==> #[trigger] (p % d) != 0
}

/// Euclid's lemma for a left factor already reduced into `(0, p)`.
///
/// The proof descends on `a`: the remainder `p % a` is smaller than `a`, is
/// not zero because `p` is prime, and its product with `b` is again a
/// multiple of `p`.
proof fn lemma_prime_divides_right_factor(p: int, a: int, b: int)
    requires
        is_prime(p),
        0 < a < p,
        (a * b) % p == 0,
    ensures
        b % p == 0,
    decreases a,
{
    if a == 1 {
        assert(a * b == b) by (nonlinear_arith)
            requires
                a == 1,
        ;
    } else {
        let q = p / a;
        let r = p % a;
        let k = (a * b) / p;
        lemma_fundamental_div_mod(p, a);
        lemma_mod_bound(p, a);
        lemma_fundamental_div_mod(a * b, p);
        assert(r != 0);
        assert(r * b == (b - q * k) * p) by (nonlinear_arith)
            requires
                p == a * q + r,
                a * b == p * k + 0,
        ;
        lemma_mod_multiples_basic(b - q * k, p);
        lemma_prime_divides_right_factor(p, r, b);
    }
}

/// Euclid's lemma: a prime that divides a product divides one of its factors.
pub proof fn lemma_prime_divides_factor(p: int, a: int, b: int)
    requires
        is_prime(p),
        (a * b) % p == 0,
    ensures
        a % p == 0 || b % p == 0,
{
    let reduced = a % p;
    lemma_mod_bound(a, p);
    if reduced != 0 {
        lemma_mul_mod_noop_left(a, b, p);
        lemma_prime_divides_right_factor(p, reduced, b);
    }
}

/// Cancellation modulo a prime: a factor that `p` does not divide can be
/// dropped from both sides of a congruence.
pub proof fn lemma_cancel_factor(p: int, a: int, x: int, y: int)
    requires
        is_prime(p),
        a % p != 0,
        (a * x) % p == (a * y) % p,
    ensures
        x % p == y % p,
{
    lemma_mod_equivalence(a * x, a * y, p);
    lemma_mul_is_distributive_sub(a, x, y);
    lemma_prime_divides_factor(p, a, x - y);
    lemma_mod_equivalence(x, y, p);
}

/// One step of exponentiation by squaring, modulo `m`: the exponent is
/// halved, the base is squared and reduced, and an odd exponent leaves one
/// factor `b` over.
pub proof fn lemma_pow_square_step(b: int, e: nat, m: int)
    requires
        m > 0,
        e > 0,
    ensures
        e % 2 == 0 ==> pow(b, e) % m == pow((b * b) % m, e / 2) % m,
        e % 2 == 1 ==> pow(b, e) % m == (b * pow((b * b) % m, e / 2)) % m,
{
    let half = e / 2;
    lemma_square_is_pow2(b);
    lemma_pow_multiplies(b, 2, half);
    lemma_pow_mod_noop(b * b, half, m);
    assert(pow(b * b, half) == pow(b, 2 * half));
    if e % 2 == 1 {
        reveal(pow);
        assert(pow(b, e) == b * pow(b, (e - 1) as nat));
        lemma_mul_mod_noop_right(b, pow(b * b, half), m);
        lemma_mul_mod_noop_right(b, pow((b * b) % m, half), m);
    }
}

/// The remainder of a negative number `-n`, from the remainder of `n`.
pub proof fn lemma_mod_of_negation(n: int, m: int)
    requires
        m > 0,
    ensures
        n % m == 0 ==> (-n) % m == 0,
        n % m != 0 ==> (-n) % m == m - n % m,
{
    let q = n / m;
    let r = n % m;
    lemma_fundamental_div_mod(n, m);
    lemma_mod_bound(n, m);
    if r == 0 {
        assert(-n == (-q) * m + 0) by (nonlinear_arith)
            requires
                n == m * q + r,
                r == 0,
        ;
        lemma_fundamental_div_mod_converse(-n, m, -q, 0);
    } else {
        assert(-n == (-q - 1) * m + (m - r)) by (nonlinear_arith)
            requires
                n == m * q + r,
        ;
        lemma_fundamental_div_mod_converse(-n, m, -q - 1, m - r);
    }
}

/// `n!`, the product of the integers from 1 to `n`.
spec fn factorial(n: nat) -> int
    decreases n,
{
    if n == 0 {
        1
    } else {
        factorial((n - 1) as nat) * n
    }
}

/// The product of the entries of a sequence.
spec fn product(s: Seq<int>) -> int
    decreases s.len(),
{
    if s.len() == 0 {
        1
    } else {
        product(s.drop_last()) * s.last()
    }
}

/// The entries of `s` are pairwise different and all lie in `[1, bound]`.
spec fn distinct_within(s: Seq<int>, bound: int) -> bool {
    &&& forall|i: int| 0 <= i < s.len() ==> 1 <= #[trigger] s[i] <= bound
    &&& forall|i: int, j: int| 0 <= i < j < s.len() ==> s[i] != s[j]
}

/// The residues of `a·1, a·2, …, a·count` modulo `p`, in that order.
spec fn residues_of_multiples(a: int, p: int, count: nat) -> Seq<int> {
    Seq::new(count, |i: int| (a * (i + 1)) % p)
}

/// Taking one entry out of a sequence divides its product by that entry.
proof fn lemma_product_remove(s: Seq<int>, j: int)
    requires
        0 <= j < s.len(),
    ensures
        product(s) == product(s.remove(j)) * s[j],
    decreases s.len(),
{
    if j == s.len() - 1 {
        assert(s.remove(j) =~= s.drop_last());
    } else {
        let front = s.drop_last();
        lemma_product_remove(front, j);
        assert(s.remove(j).drop_last() =~= front.remove(j));
        assert(s.remove(j).last() == s.last());
        assert(product(s.remove(j)) == product(front.remove(j)) * s.last());
        assert(product(front.remove(j)) * front[j] * s.last() == product(front.remove(j))
            * s.last() * s[j]) by (nonlinear_arith)
            requires
                front[j] == s[j],
        ;
    }
}

/// Removing the entry that equals `bound` leaves distinct entries within
/// `bound - 1`.
proof fn lemma_distinct_without_top(s: Seq<int>, bound: int, j: int)
    requires
        distinct_within(s, bound),
        0 <= j < s.len(),
        s[j] == bound,
    ensures
        distinct_within(s.remove(j), bound - 1),
{
    let rest = s.remove(j);
    assert forall|i: int| 0 <= i < rest.len() implies 1 <= #[trigger] rest[i] <= bound - 1 by {
        if i < j {
            assert(rest[i] == s[i]);
        } else {
            assert(rest[i] == s[i + 1]);
        }
    }
    assert forall|i: int, k: int| 0 <= i < k < rest.len() implies rest[i] != rest[k] by {
        let si = if i < j { i } else { i + 1 };
        let sk = if k < j { k } else { k + 1 };
        assert(rest[i] == s[si] && rest[k] == s[sk]);
    }
}

/// Pigeonhole: distinct integers from `[1, bound]` number at most `bound`.
proof fn lemma_distinct_count(s: Seq<int>, bound: int)
    requires
        bound >= 0,
        distinct_within(s, bound),
    ensures
        s.len() <= bound,
    decreases bound,
{
    if bound == 0 {
        if s.len() > 0 {
            assert(1 <= s[0] <= bound);
        }
    } else if exists|j: int| 0 <= j < s.len() && s[j] == bound {
        let j = choose|j: int| 0 <= j < s.len() && s[j] == bound;
        lemma_distinct_without_top(s, bound, j);
        lemma_distinct_count(s.remove(j), bound - 1);
    } else {
        assert(distinct_within(s, bound - 1));
        lemma_distinct_count(s, bound - 1);
    }
}

/// A sequence that holds each of `1, …, n` exactly once, in any order, has
/// the product `n!`.
proof fn lemma_product_of_rearrangement(s: Seq<int>, n: nat)
    requires
        s.len() == n,
        distinct_within(s, n as int),
    ensures
        product(s) == factorial(n),
    decreases n,
{
    if n > 0 {
        if !exists|j: int| 0 <= j < s.len() && s[j] == n {
            assert(distinct_within(s, n - 1));
            lemma_distinct_count(s, n - 1);
        }
        let j = choose|j: int| 0 <= j < s.len() && s[j] == n;
        lemma_distinct_without_top(s, n as int, j);
        lemma_product_of_rearrangement(s.remove(j), (n - 1) as nat);
        lemma_product_remove(s, j);
    }
}

/// Modulo `p`, the product of the first `count` residues is `a^count · count!`.
proof fn lemma_product_of_residues(a: int, p: int, count: nat)
    requires
        p > 0,
    ensures
        product(residues_of_multiples(a, p, count)) % p == (pow(a, count) * factorial(count)) % p,
    decreases count,
{
    let s = residues_of_multiples(a, p, count);
    if count == 0 {
        lemma_pow0(a);
    } else {
        let shorter = (count - 1) as nat;
        let front = residues_of_multiples(a, p, shorter);
        assert(s.drop_last() =~= front);
        assert(s.last() == (a * count) % p);
        lemma_product_of_residues(a, p, shorter);
        let scaled = pow(a, shorter) * factorial(shorter);
        lemma_mul_mod_noop_general(product(front), a * count, p);
        lemma_mul_mod_noop_general(scaled, a * count, p);
        assert(product(s) % p == (scaled * (a * count)) % p);
        reveal(pow);
        assert(scaled * (a * count) == (a * pow(a, shorter)) * (factorial(shorter) * count))
            by (nonlinear_arith)
            requires
                scaled == pow(a, shorter) * factorial(shorter),
        ;
    }
}

/// For a prime `p` that does not divide `a`, the residues of
/// `a·1, …, a·(p-1)` are pairwise different and none of them is zero.
proof fn lemma_residues_distinct(a: int, p: int)
    requires
        is_prime(p),
        a % p != 0,
    ensures
        distinct_within(residues_of_multiples(a, p, (p - 1) as nat), p - 1),
{
    let s = residues_of_multiples(a, p, (p - 1) as nat);
    assert forall|i: int| 0 <= i < s.len() implies 1 <= #[trigger] s[i] <= p - 1 by {
        lemma_mod_bound(a * (i + 1), p);
        if s[i] == 0 {
            lemma_prime_divides_factor(p, a, i + 1);
            lemma_small_mod((i + 1) as nat, p as nat);
        }
    }
    assert forall|i: int, j: int| 0 <= i < j < s.len() implies s[i] != s[j] by {
        if s[i] == s[j] {
            lemma_cancel_factor(p, a, i + 1, j + 1);
            lemma_small_mod((i + 1) as nat, p as nat);
            lemma_small_mod((j + 1) as nat, p as nat);
        }
    }
}

/// A prime does not divide the factorial of a smaller number.
proof fn lemma_factorial_not_divisible(p: int, n: nat)
    requires
        is_prime(p),
        n < p,
    ensures
        factorial(n) % p != 0,
    decreases n,
{
    if n == 0 {
        lemma_small_mod(1, p as nat);
    } else {
        lemma_factorial_not_divisible(p, (n - 1) as nat);
        if factorial(n) % p == 0 {
            lemma_prime_divides_factor(p, factorial((n - 1) as nat), n as int);
            lemma_small_mod(n, p as nat);
        }
    }
}

/// Fermat's little theorem: for a prime `p` that does not divide `a`,
/// `a^(p-1)` leaves the remainder 1 modulo `p`.
///
/// Multiplication by `a` permutes the nonzero residues, so the product of
/// `a·1, …, a·(p-1)` is congruent both to `(p-1)!` and to `a^(p-1)·(p-1)!`;
/// the factorial cancels.
pub proof fn lemma_fermat_little(a: int, p: int)
    requires
        is_prime(p),
        a % p != 0,
    ensures
        pow(a, (p - 1) as nat) % p == 1,
{
    let n = (p - 1) as nat;
    let s = residues_of_multiples(a, p, n);
    lemma_residues_distinct(a, p);
    lemma_product_of_rearrangement(s, n);
    lemma_product_of_residues(a, p, n);
    lemma_factorial_not_divisible(p, n);
    lemma_mul_is_commutative(pow(a, n), factorial(n));
    lemma_mul_basics(factorial(n));
    lemma_cancel_factor(p, factorial(n), pow(a, n), 1);
    lemma_small_mod(1, p as nat);
}

/// For a prime `p` that does not divide `a`, every power of `a` whose
/// exponent is a multiple of `p - 1` leaves the remainder 1.
pub proof fn lemma_fermat_multiple(a: int, p: int, k: nat)
    requires
        is_prime(p),
        a % p != 0,
    ensures
        k * (p - 1) >= 0,
        pow(a, (k * (p - 1)) as nat) % p == 1,
{
    let order = (p - 1) as nat;
    lemma_mul_nonnegative(k as int, p - 1);
    lemma_mul_is_commutative(k as int, p - 1);
    lemma_fermat_little(a, p);
    lemma_pow_multiplies(a, order, k);
    lemma_pow_mod_noop(pow(a, order), k, p);
    lemma1_pow(k);
    lemma_small_mod(1, p as nat);
}

} // verus!
