use crate::algorithms::bignum::gcd;
use crate::algorithms::rsa::{
    is_witness, lemma_mr_square, mr_step, odd_part, passes_round, two_exponent,
};
use crate::algorithms::number_theory::{lemma_bezout, lemma_extended_gcd_is_gcd, spec_extended_gcd};
use vstd::arithmetic::div_mod::{
    lemma_fundamental_div_mod, lemma_mod_bound, lemma_mod_equivalence, lemma_mod_multiples_basic,
    lemma_mul_mod_noop, lemma_small_mod,
};
use vstd::arithmetic::power::pow;
use vstd::arithmetic::power2::pow2;
use vstd::prelude::*;

verus! {

/// A prime: a number from 2 that no number between 1 and itself divides.
pub open spec fn is_prime(p: nat) -> bool {
    p >= 2 && forall|d: nat| 1 < d < p ==> #[trigger] (p % d) != 0
}

/// A multiple of `m` leaves no remainder.
pub proof fn lemma_multiple_mod(m: int, k: int)
    requires
        m > 0,
    ensures
        (m * k) % m == 0,
        (k * m) % m == 0,
{
    lemma_mod_multiples_basic(k, m);
    assert(m * k == k * m) by (nonlinear_arith);
}

/// What leaves no remainder is a multiple.
pub proof fn lemma_mod_zero_multiple(x: int, m: int)
    requires
        m > 0,
        x % m == 0,
    ensures
        x == m * (x / m),
{
    lemma_fundamental_div_mod(x, m);
}

/// A divisor of two numbers divides every sum of a multiple of the first
/// and the second.
pub proof fn lemma_divides_combination(g: int, x: int, y: int, q: int)
    requires
        g > 0,
        x % g == 0,
        y % g == 0,
    ensures
        (x * q + y) % g == 0,
{
    lemma_mod_zero_multiple(x, g);
    lemma_mod_zero_multiple(y, g);
    let xq = x / g;
    let yq = y / g;
    assert(x * q + y == g * (xq * q + yq)) by (nonlinear_arith)
        requires
            x == g * xq,
            y == g * yq,
    ;
    lemma_multiple_mod(g, xq * q + yq);
}

/// The greatest common divisor of two numbers, not both zero, is positive
/// and divides both.
pub proof fn lemma_gcd_divides(a: nat, b: nat)
    requires
        a > 0 || b > 0,
    ensures
        gcd(a, b) > 0,
        a % gcd(a, b) == 0,
        b % gcd(a, b) == 0,
    decreases b,
{
    if b == 0 {
        lemma_multiple_mod(a as int, 1);
        lemma_multiple_mod(a as int, 0);
    } else {
        let r = a % b;
        lemma_gcd_divides(b, r);
        let g = gcd(b, r);
        lemma_fundamental_div_mod(a as int, b as int);
        lemma_divides_combination(g as int, b as int, r as int, a as int / b as int);
    }
}

/// A prime shares no divisor but 1 with a number that it does not divide.
pub proof fn lemma_prime_coprime(p: nat, a: nat)
    requires
        is_prime(p),
        a % p != 0,
    ensures
        gcd(a, p) == 1,
{
    lemma_gcd_divides(a, p);
    let g = gcd(a, p);
    lemma_mod_zero_multiple(p as int, g as int);
    lemma_mod_zero_multiple(a as int, g as int);
    let k = p as int / g as int;
    assert(g <= p) by (nonlinear_arith)
        requires
            p == g * k,
            p >= 2,
            g > 0,
    ;
    if g == p {
        assert(false);
    } else if g > 1 {
        assert(p % g == 0);
        assert(false);
    }
}

/// Euclid's lemma: a prime that divides a product divides a factor.
pub proof fn lemma_euclid(p: nat, a: nat, b: nat)
    requires
        is_prime(p),
        (a * b) % p == 0,
    ensures
        a % p == 0 || b % p == 0,
{
    if a % p != 0 {
        lemma_prime_coprime(p, a);
        lemma_extended_gcd_is_gcd(a as int, p as int);
        lemma_bezout(a as int, p as int);
        let (g, x, y) = spec_extended_gcd(a as int, p as int);
        assert(a * x + p * y == 1);
        lemma_mod_zero_multiple((a * b) as int, p as int);
        let k = (a * b) as int / p as int;
        assert(b == p * (k * x + y * b)) by (nonlinear_arith)
            requires
                a * x + p * y == 1,
                a * b == p * k,
        ;
        lemma_multiple_mod(p as int, k * x + y * b);
    }
}

/// Modulo a prime a factor that the prime does not divide can be cancelled.
pub proof fn lemma_cancel(p: nat, c: nat, x: nat, y: nat)
    requires
        is_prime(p),
        c % p != 0,
        (c * x) % p == (c * y) % p,
    ensures
        x % p == y % p,
{
    if x >= y {
        lemma_mod_equivalence((c * x) as int, (c * y) as int, p as int);
        assert(c * x - c * y == c * (x - y)) by (nonlinear_arith);
        lemma_euclid(p, c, (x - y) as nat);
        lemma_mod_equivalence(x as int, y as int, p as int);
    } else {
        lemma_mod_equivalence((c * y) as int, (c * x) as int, p as int);
        assert(c * y - c * x == c * (y - x)) by (nonlinear_arith);
        lemma_euclid(p, c, (y - x) as nat);
        lemma_mod_equivalence(y as int, x as int, p as int);
    }
}

/// The product of the numbers of a sequence.
pub open spec fn product(s: Seq<int>) -> int
    decreases s.len(),
{
    if s.len() == 0 {
        1
    } else {
        product(s.drop_last()) * s.last()
    }
}

/// The product of the numbers from 1 to `n`.
pub open spec fn factorial(n: nat) -> int
    decreases n,
{
    if n == 0 {
        1
    } else {
        factorial((n - 1) as nat) * n
    }
}

/// A product is the product of any one of its factors and the rest.
pub proof fn lemma_product_remove(s: Seq<int>, j: int)
    requires
        0 <= j < s.len(),
    ensures
        product(s) == s[j] * product(s.remove(j)),
    decreases s.len(),
{
    let front = s.drop_last();
    if j == s.len() - 1 {
        assert(s.remove(j) =~= front);
        assert(product(front) * s.last() == s.last() * product(front)) by (nonlinear_arith);
    } else {
        lemma_product_remove(front, j);
        let rest = s.remove(j);
        assert(rest.drop_last() =~= front.remove(j));
        assert(rest.last() == s.last());
        let a = s[j];
        let b = product(front.remove(j));
        let c = s.last();
        assert((a * b) * c == a * (b * c)) by (nonlinear_arith);
    }
}

/// Whether a sequence holds numbers from 1 to `n`, none of them twice.
pub open spec fn distinct_within(s: Seq<int>, n: int) -> bool {
    &&& forall|i: int| 0 <= i < s.len() ==> 1 <= #[trigger] s[i] <= n
    &&& s.no_duplicates()
}

/// A sequence of `n` numbers from 1 to `n`, none of them twice, holds `n`.
pub proof fn lemma_holds_greatest(s: Seq<int>, n: int)
    requires
        n >= 1,
        s.len() == n,
        distinct_within(s, n),
    ensures
        exists|j: int| 0 <= j < s.len() && s[j] == n,
{
    if !s.contains(n) {
        let below = vstd::set_lib::set_int_range(1, n);
        vstd::set_lib::lemma_int_range(1, n);
        assert forall|x: int| s.to_set().contains(x) implies below.contains(x) by {
            let i = choose|i: int| 0 <= i < s.len() && s[i] == x;
            assert(1 <= s[i] <= n);
        }
        assert(s.to_set().subset_of(below));
        vstd::set_lib::lemma_len_subset(s.to_set(), below);
        s.unique_seq_to_set();
        assert(false);
    }
    let j = choose|j: int| 0 <= j < s.len() && s[j] == n;
    assert(s[j] == n);
}

/// The product of `n` numbers from 1 to `n`, none of them twice, is the
/// product of the numbers from 1 to `n`.
pub proof fn lemma_product_of_permutation(s: Seq<int>, n: nat)
    requires
        s.len() == n,
        distinct_within(s, n as int),
    ensures
        product(s) == factorial(n),
    decreases n,
{
    if n == 0 {
    } else {
        lemma_holds_greatest(s, n as int);
        let j = choose|j: int| 0 <= j < s.len() && s[j] == n;
        let rest = s.remove(j);
        s.remove_ensures(j);
        assert forall|i: int| 0 <= i < rest.len() implies 1 <= #[trigger] rest[i] <= n - 1 by {
            if i < j {
                assert(rest[i] == s[i]);
            } else {
                assert(rest[i] == s[i + 1]);
            }
        }
        assert forall|i: int, k: int|
            0 <= i < rest.len() && 0 <= k < rest.len() && i != k implies rest[i] != rest[k] by {
            let si = if i < j { i } else { i + 1 };
            let sk = if k < j { k } else { k + 1 };
            assert(rest[i] == s[si] && rest[k] == s[sk]);
        }
        lemma_product_of_permutation(rest, (n - 1) as nat);
        lemma_product_remove(s, j);
        let f = factorial((n - 1) as nat);
        assert(n * f == f * n) by (nonlinear_arith);
    }
}

/// A prime divides no product of numbers below it.
pub proof fn lemma_factorial_not_multiple(p: nat, k: nat)
    requires
        is_prime(p),
        k < p,
    ensures
        factorial(k) > 0,
        factorial(k) % (p as int) != 0,
    decreases k,
{
    if k == 0 {
        lemma_small_mod(1, p);
    } else {
        lemma_factorial_not_multiple(p, (k - 1) as nat);
        let f = factorial((k - 1) as nat);
        assert(f * k > 0) by (nonlinear_arith)
            requires
                f > 0,
                k > 0,
        ;
        if (f * k) % (p as int) == 0 {
            lemma_euclid(p, f as nat, k);
            lemma_small_mod(k, p);
        }
    }
}

/// The multiples `a * 1`, ..., `a * k` reduced modulo `p`.
pub open spec fn multiples_mod(a: nat, p: nat, k: nat) -> Seq<int> {
    Seq::new(k, |i: int| (a * (i + 1)) % (p as int))
}

/// The product of the first `k` multiples of `a`, reduced or not, leaves the
/// remainder of `a^k * k!`.
pub proof fn lemma_product_of_multiples(a: nat, p: nat, k: nat)
    requires
        p > 0,
    ensures
        product(multiples_mod(a, p, k)) % (p as int) == (pow(a as int, k) * factorial(k)) % (
        p as int),
    decreases k,
{
    let m = p as int;
    reveal(pow);
    if k == 0 {
        assert(pow(a as int, 0) == 1);
    } else {
        let s = multiples_mod(a, p, k);
        let front = multiples_mod(a, p, (k - 1) as nat);
        assert(s.drop_last() =~= front);
        lemma_product_of_multiples(a, p, (k - 1) as nat);
        let pf = product(front);
        let e = pow(a as int, (k - 1) as nat);
        let f = factorial((k - 1) as nat);
        // product(s) = pf * ((a * k) % m), congruent to (e * f) * (a * k)
        let ak: int = a as int * k as int;
        assert(s.last() == ak % m);
        lemma_mul_mod_noop(pf, ak, m);
        lemma_mul_mod_noop(e * f, ak, m);
        lemma_mul_mod_noop(pf, ak % m, m);
        vstd::arithmetic::div_mod::lemma_mod_twice(ak, m);
        assert((e * f) * ak == (a * e) * (f * k)) by (nonlinear_arith)
            requires
                ak == a * k,
        ;
        assert(pow(a as int, k) == a * e);
    }
}

/// Fermat's little theorem: a number that a prime `p` does not divide,
/// raised to `p - 1`, leaves the remainder 1.
pub proof fn lemma_fermat(p: nat, a: nat)
    requires
        is_prime(p),
        a % p != 0,
    ensures
        pow(a as int, (p - 1) as nat) % (p as int) == 1,
{
    let n = (p - 1) as nat;
    let m = p as int;
    let s = multiples_mod(a, p, n);
    assert forall|i: int| 0 <= i < s.len() implies 1 <= #[trigger] s[i] <= n by {
        lemma_mod_bound(a * (i + 1), m);
        if s[i] == 0 {
            lemma_euclid(p, a, (i + 1) as nat);
            lemma_small_mod((i + 1) as nat, p);
        }
    }
    assert forall|i: int, k: int| 0 <= i < s.len() && 0 <= k < s.len() && i != k implies s[i]
        != s[k] by {
        if s[i] == s[k] {
            lemma_cancel(p, a, (i + 1) as nat, (k + 1) as nat);
            lemma_small_mod((i + 1) as nat, p);
            lemma_small_mod((k + 1) as nat, p);
        }
    }
    lemma_product_of_permutation(s, n);
    lemma_product_of_multiples(a, p, n);
    lemma_factorial_not_multiple(p, n);
    let f = factorial(n);
    let e = pow(a as int, n);
    lemma_small_mod(0, p);
    vstd::arithmetic::power::lemma_pow_positive(a as int, n);
    assert(e > 0);
    // f * 1 and f * e leave the same remainder, and p does not divide f
    assert(f * 1 == f);
    assert(e * f == f * e) by (nonlinear_arith);
    assert(f * e >= 0) by (nonlinear_arith)
        requires
            f > 0,
            e > 0,
    ;
    assert((f as nat * e as nat) % p == (f as nat * 1nat) % p);
    lemma_cancel(p, f as nat, e as nat, 1);
    lemma_small_mod(1, p);
}

/// Modulo a prime `p` the powers of a number come round after `p - 1`
/// steps: `m^(1 + k * (p - 1))` leaves the remainder of `m`.
pub proof fn lemma_power_cycle(p: nat, m: nat, k: nat)
    requires
        is_prime(p),
    ensures
        pow(m as int, 1 + k * (p - 1) as nat) % (p as int) == m % p,
{
    let n = (p - 1) as nat;
    let md = p as int;
    let rest = pow(m as int, k * n);
    vstd::arithmetic::power::lemma_pow_adds(m as int, 1, k * n);
    vstd::arithmetic::power::lemma_pow1(m as int);
    assert(pow(m as int, 1 + k * n) == m * rest);
    lemma_mul_mod_noop(m as int, rest, md);
    if m % p == 0 {
        assert((0 * (rest % md)) == 0);
        lemma_small_mod(0, p);
    } else {
        lemma_fermat(p, m);
        vstd::arithmetic::power::lemma_pow_multiplies(m as int, n, k);
        assert(n * k == k * n) by (nonlinear_arith);
        vstd::arithmetic::power::lemma_pow_mod_noop(pow(m as int, n), k, md);
        vstd::arithmetic::power::lemma1_pow(k);
        lemma_small_mod(1, p);
        assert(rest % md == 1);
        assert((m % p) * 1 == (m % p));
        vstd::arithmetic::div_mod::lemma_mod_twice(m as int, md);
    }
}

/// What two different primes divide, their product divides.
pub proof fn lemma_two_primes_divide(p: nat, q: nat, x: nat)
    requires
        is_prime(p),
        is_prime(q),
        p != q,
        x % p == 0,
        x % q == 0,
    ensures
        x % (p * q) == 0,
{
    lemma_mod_zero_multiple(x as int, p as int);
    let t = x / p;
    assert(x == p * t);
    lemma_euclid(q, p, t);
    if p % q == 0 {
        if q < p {
            assert(false);
        } else {
            lemma_small_mod(p, q);
            assert(false);
        }
    }
    lemma_mod_zero_multiple(t as int, q as int);
    let u = t / q;
    assert(x == (p * q) * u) by (nonlinear_arith)
        requires
            x == p * t,
            t == q * u,
    ;
    assert(p * q > 0) by (nonlinear_arith)
        requires
            p >= 2,
            q >= 2,
    ;
    lemma_multiple_mod((p * q) as int, u as int);
}

/// RSA is correct: where the modulus is the product of two different primes
/// `p` and `q`, and `e * d` leaves the remainder 1 modulo
/// `(p - 1) * (q - 1)`, raising to `d` undoes raising to `e` for every
/// message below the modulus.
pub proof fn lemma_rsa_inverts(p: nat, q: nat, e: nat, d: nat, m: nat)
    requires
        is_prime(p),
        is_prime(q),
        p != q,
        (e * d) % (((p - 1) * (q - 1)) as nat) == 1,
        m < p * q,
    ensures
        pow(pow(m as int, e) % ((p * q) as int), d) % ((p * q) as int) == m,
{
    let n = p * q;
    let phi = ((p - 1) * (q - 1)) as nat;
    assert(phi > 0) by (nonlinear_arith)
        requires
            phi == (p - 1) * (q - 1),
            p >= 2,
            q >= 2,
    ;
    lemma_fundamental_div_mod((e * d) as int, phi as int);
    let k = (e * d) / phi;
    let kp = (k * (q - 1)) as nat;
    let kq = (k * (p - 1)) as nat;
    assert(e * d == 1 + kp * (p - 1) && e * d == 1 + kq * (q - 1)) by (nonlinear_arith)
        requires
            e * d == phi * k + 1,
            phi == (p - 1) * (q - 1),
            kp == k * (q - 1),
            kq == k * (p - 1),
    ;
    let x = pow(m as int, e * d);
    lemma_power_cycle(p, m, kp);
    lemma_power_cycle(q, m, kq);
    assert(x % (p as int) == m % p);
    assert(x % (q as int) == m % q);
    if m == 0 {
        vstd::arithmetic::power::lemma0_pow(e * d);
    } else {
        vstd::arithmetic::power::lemma_pow_positive(m as int, e * d);
    }
    assert(x >= 0);
    if x >= m {
        lemma_mod_equivalence(x, m as int, p as int);
        lemma_mod_equivalence(x, m as int, q as int);
        lemma_two_primes_divide(p, q, (x - m) as nat);
        lemma_mod_equivalence(x, m as int, n as int);
    } else {
        lemma_mod_equivalence(m as int, x, p as int);
        lemma_mod_equivalence(m as int, x, q as int);
        lemma_two_primes_divide(p, q, (m - x) as nat);
        lemma_mod_equivalence(m as int, x, n as int);
    }
    lemma_small_mod(m, n);
    assert(x % (n as int) == m);
    vstd::arithmetic::power::lemma_pow_mod_noop(pow(m as int, e), d, n as int);
    vstd::arithmetic::power::lemma_pow_multiplies(m as int, e, d);
}

/// Modulo a prime only 1 and -1 have the square 1.
pub proof fn lemma_square_root_of_one(p: nat, x: nat)
    requires
        is_prime(p),
        x < p,
        (x * x) % p == 1,
    ensures
        x == 1 || x == p - 1,
{
    lemma_small_mod(1, p);
    lemma_small_mod(0, p);
    assert(x >= 1) by {
        if x == 0 {
            assert(x * x == 0);
        }
    }
    lemma_mod_equivalence((x * x) as int, 1, p as int);
    assert((x - 1) * (x + 1) == x * x - 1) by (nonlinear_arith);
    assert(x * x >= 1) by (nonlinear_arith)
        requires
            x >= 1,
    ;
    lemma_euclid(p, (x - 1) as nat, x + 1);
    if (x - 1) % (p as int) == 0 {
        lemma_small_mod((x - 1) as nat, p);
    } else {
        if x + 1 < p {
            lemma_small_mod(x + 1, p);
        }
    }
}

/// A number is its odd part times a power of two.
pub proof fn lemma_odd_part(m: nat)
    requires
        m > 0,
    ensures
        m == odd_part(m) * pow2(two_exponent(m)),
        odd_part(m) % 2 == 1,
    decreases m,
{
    if m % 2 == 1 {
        vstd::arithmetic::power2::lemma2_to64();
        assert(two_exponent(m) == 0);
        assert(m * 1 == m);
    } else {
        let half = m / 2;
        lemma_odd_part(half);
        let o = odd_part(half);
        let t = pow2(two_exponent(half));
        assert(two_exponent(m) == 1 + two_exponent(half));
        assert(odd_part(m) == o);
        vstd::arithmetic::power2::lemma_pow2_unfold(two_exponent(m));
        assert(pow2(two_exponent(m)) == 2 * t);
        assert(o * (2 * t) == 2 * (o * t)) by (nonlinear_arith);
        assert(m == 2 * half);
    }
}

/// Where a step of the test of a prime is 1, the first step is 1 or an
/// earlier step is -1.
pub proof fn lemma_descend(p: nat, a: nat, d: nat, r: nat)
    requires
        is_prime(p),
        mr_step(p, a, d, r) == 1,
    ensures
        mr_step(p, a, d, 0) == 1 || exists|j: nat| j < r && #[trigger] mr_step(p, a, d, j) == p - 1,
    decreases r,
{
    if r > 0 {
        let before = (r - 1) as nat;
        let x = mr_step(p, a, d, before);
        lemma_mr_square(p, a, d, before);
        lemma_mod_bound(pow(a as int, d * pow2(before)), p as int);
        vstd::arithmetic::power::lemma_square_is_pow2(x);
        lemma_square_root_of_one(p, x as nat);
        if x == 1 {
            lemma_descend(p, a, d, before);
            if mr_step(p, a, d, 0) != 1 {
                let j = choose|j: nat| j < before && #[trigger] mr_step(p, a, d, j) == p - 1;
                assert(j < r && mr_step(p, a, d, j) == p - 1);
            }
        } else {
            assert(before < r && mr_step(p, a, d, before) == p - 1);
        }
    }
}

/// Every base that a prime does not divide passes the Miller–Rabin test of
/// that prime: a number with a witness is composite.
pub proof fn lemma_prime_has_no_witness(p: nat, a: nat)
    requires
        is_prime(p),
        a % p != 0,
    ensures
        !is_witness(p, a),
{
    let m = (p - 1) as nat;
    let d = odd_part(m);
    let s = two_exponent(m);
    lemma_odd_part(m);
    lemma_fermat(p, a);
    assert(mr_step(p, a, d, s) == 1);
    lemma_descend(p, a, d, s);
    if mr_step(p, a, d, 0) != 1 {
        let j = choose|j: nat| j < s && #[trigger] mr_step(p, a, d, j) == p - 1;
        if j == 0 {
        } else {
            assert(1 <= j < s && mr_step(p, a, d, j) == p - 1);
        }
    }
    assert(passes_round(p, d, s, a));
}

} // verus!
