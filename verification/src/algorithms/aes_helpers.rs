use crate::algorithms::aes_constants::SBOX;
use vstd::prelude::*;

verus! {

/// The AES substitution of one byte.
pub open spec fn sbox(b: u8) -> u8 {
    SBOX[b as int]
}

pub fn rot_word(word: [u8; 4]) -> (r: [u8; 4])
    ensures
        r@ == seq![word[1], word[2], word[3], word[0]],
{
    [word[1], word[2], word[3], word[0]]
}

pub fn sub_word(word: [u8; 4]) -> (r: [u8; 4])
    ensures
        r@ == seq![sbox(word[0]), sbox(word[1]), sbox(word[2]), sbox(word[3])],
{
    [
        SBOX[word[0] as usize],
        SBOX[word[1] as usize],
        SBOX[word[2] as usize],
        SBOX[word[3] as usize],
    ]
}

/// Multiplication by `x` in GF(2^8) modulo `x^8 + x^4 + x^3 + x + 1`.
pub open spec fn xtime(a: u8) -> u8 {
    if a & 0x80 != 0 {
        (a << 1) ^ 0x1B
    } else {
        a << 1
    }
}

/// The product of `a` and the low `n` bits of `b` in GF(2^8).
pub open spec fn gf256_mul_bits(a: u8, b: u8, n: nat) -> u8
    decreases n,
{
    if n == 0 {
        0
    } else {
        (if b & 1 != 0 { a } else { 0 }) ^ gf256_mul_bits(xtime(a), b >> 1, (n - 1) as nat)
    }
}

/// The product of `a` and `b` in GF(2^8).
pub open spec fn gf256_mul(a: u8, b: u8) -> u8 {
    gf256_mul_bits(a, b, 8)
}

pub fn gmul(a: u8, b: u8) -> (p: u8)
    ensures
        p == gf256_mul(a, b),
{
    let mut a = a;
    let mut b = b;
    let mut p: u8 = 0;
    let ghost a0 = a;
    let ghost b0 = b;
    proof {
        let total = gf256_mul(a0, b0);
        assert(0u8 ^ total == total) by (bit_vector);
    }
    for i in 0..8
        invariant
            p ^ gf256_mul_bits(a, b, (8 - i) as nat) == gf256_mul(a0, b0),
    {
        let ghost p_old = p;
        let ghost a_old = a;
        let ghost b_old = b;
        if (b & 1) != 0 {
            p ^= a;
        }
        let hi_bit_set = (a & 0x80) != 0;
        a <<= 1;
        if hi_bit_set {
            a ^= 0x1B;
        }
        b >>= 1;
        proof {
            let rest = gf256_mul_bits(a, b, (8 - i - 1) as nat);
            let bit = if b_old & 1 != 0 { a_old } else { 0u8 };
            assert(a == xtime(a_old));
            assert(p_old ^ 0u8 == p_old) by (bit_vector);
            assert(p == p_old ^ bit);
            assert((p_old ^ bit) ^ rest == p_old ^ (bit ^ rest)) by (bit_vector);
        }
    }
    proof {
        assert(p ^ 0 == p) by (bit_vector);
    }
    p
}

} // verus!
