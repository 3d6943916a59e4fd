use crate::algorithms::bignum::{gcd, trunc_div, trunc_rem};
use vstd::arithmetic::div_mod::{
    lemma_fundamental_div_mod, lemma_fundamental_div_mod_converse_mod, lemma_mod_bound,
    lemma_mod_multiples_vanish, lemma_mul_mod_noop_right,
};
use vstd::prelude::*;

verus! {

pub open spec fn abs(x: int) -> int {
    if x < 0 {
        -x
    } else {
        x
    }
}

/// Division that rounds towards zero leaves a remainder that is smaller than
/// the divisor and has the sign of the dividend.
pub proof fn lemma_trunc_div_rem(a: int, b: int)
    requires
        b != 0,
    ensures
        a == b * trunc_div(a, b) + trunc_rem(a, b),
        abs(trunc_rem(a, b)) < abs(b),
        a >= 0 ==> trunc_rem(a, b) >= 0,
        a <= 0 ==> trunc_rem(a, b) <= 0,
        a >= 0 && b > 0 ==> trunc_rem(a, b) == a % b && trunc_div(a, b) == a / b,
{
    let c = abs(b);
    let m = abs(a);
    lemma_fundamental_div_mod(m, c);
    lemma_mod_bound(m, c);
    let q = m / c;
    assert(m == c * q + m % c);
    if a >= 0 {
        if b > 0 {
        } else {
            assert(b * (-q) == c * q) by (nonlinear_arith)
                requires
                    b == -c,
            ;
        }
    } else {
        if b > 0 {
            assert(b * (-q) == -(c * q)) by (nonlinear_arith)
                requires
                    b == c,
            ;
        } else {
            assert(b * q == -(c * q)) by (nonlinear_arith)
                requires
                    b == -c,
            ;
        }
    }
}

/// The extended Euclidean algorithm on integers, with division that rounds
/// towards zero: a triple `(g, x, y)`.
pub open spec fn spec_extended_gcd(a: int, b: int) -> (int, int, int)
    decreases abs(b),
    via spec_extended_gcd_decreases
{
    if b == 0 {
        (a, 1, 0)
    } else {
        let (g, x1, y1) = spec_extended_gcd(b, trunc_rem(a, b));
        (g, y1, x1 - trunc_div(a, b) * y1)
    }
}

#[via_fn]
proof fn spec_extended_gcd_decreases(a: int, b: int) {
    if b != 0 {
        lemma_trunc_div_rem(a, b);
    }
}

/// The inverse of `a` modulo a positive `m` as the extended Euclidean
/// algorithm finds it: none unless the algorithm ends with 1; else its
/// coefficient of `a`, brought into the range from 0 to `m - 1`.
pub open spec fn spec_modinv(a: int, m: int) -> Option<int> {
    let (g, x, y) = spec_extended_gcd(a, m);
    if g != 1 {
        None
    } else {
        Some(x % m)
    }
}

/// Bézout's identity: what the extended Euclidean algorithm returns is a
/// combination of its two arguments.
pub proof fn lemma_bezout(a: int, b: int)
    ensures
        ({
            let (g, x, y) = spec_extended_gcd(a, b);
            g == a * x + b * y
        }),
    decreases abs(b),
{
    if b == 0 {
    } else {
        lemma_trunc_div_rem(a, b);
        let r = trunc_rem(a, b);
        let q = trunc_div(a, b);
        lemma_bezout(b, r);
        let (g, x1, y1) = spec_extended_gcd(b, r);
        assert(g == b * x1 + r * y1);
        assert(a * y1 + b * (x1 - q * y1) == b * x1 + (a - b * q) * y1) by (nonlinear_arith);
    }
}

/// On arguments that are not negative the extended Euclidean algorithm ends
/// with the greatest common divisor.
pub proof fn lemma_extended_gcd_is_gcd(a: int, b: int)
    requires
        a >= 0,
        b >= 0,
    ensures
        spec_extended_gcd(a, b).0 == gcd(a as nat, b as nat),
    decreases b,
{
    if b == 0 {
    } else {
        lemma_trunc_div_rem(a, b);
        lemma_extended_gcd_is_gcd(b, trunc_rem(a, b));
    }
}

/// The remainder that has the sign of the dividend, moved up by the modulus
/// where it is negative, is the remainder that is never negative.
pub proof fn lemma_trunc_rem_normalized(x: int, m: int)
    requires
        m > 0,
    ensures
        x % m == if trunc_rem(x, m) < 0 {
            trunc_rem(x, m) + m
        } else {
            trunc_rem(x, m)
        },
{
    lemma_trunc_div_rem(x, m);
    let r = trunc_rem(x, m);
    let q = trunc_div(x, m);
    if r < 0 {
        assert(x == (q - 1) * m + (r + m)) by (nonlinear_arith)
            requires
                x == m * q + r,
        ;
        lemma_fundamental_div_mod_converse_mod(x, m, q - 1, r + m);
    } else {
        assert(x == q * m + r) by (nonlinear_arith)
            requires
                x == m * q + r,
        ;
        lemma_fundamental_div_mod_converse_mod(x, m, q, r);
    }
}

/// What `spec_modinv` finds is an inverse: it lies from 0 to `m - 1`, and
/// its product with `a` leaves the remainder of 1.
pub proof fn lemma_modinv_is_inverse(a: int, m: int)
    requires
        m > 0,
        spec_modinv(a, m) is Some,
    ensures
        0 <= spec_modinv(a, m)->0 < m,
        (a * spec_modinv(a, m)->0) % m == 1int % m,
{
    let (g, x, y) = spec_extended_gcd(a, m);
    let d = x % m;
    lemma_bezout(a, m);
    lemma_mod_bound(x, m);
    assert(a * x + m * y == 1);
    // a * d is congruent to a * x, which is 1 - m * y
    lemma_mul_mod_noop_right(a, x, m);
    assert((a * d) % m == (a * x) % m);
    assert(a * x == m * (-y) + 1) by (nonlinear_arith)
        requires
            a * x + m * y == 1,
    ;
    lemma_mod_multiples_vanish(-y, 1, m);
}

/// For arguments that are not negative an inverse is found exactly where
/// the greatest common divisor is 1.
pub proof fn lemma_modinv_exists_iff_coprime(a: nat, m: nat)
    requires
        m > 0,
    ensures
        spec_modinv(a as int, m as int) is Some <==> gcd(a, m) == 1,
{
    lemma_extended_gcd_is_gcd(a as int, m as int);
}

} // verus!
