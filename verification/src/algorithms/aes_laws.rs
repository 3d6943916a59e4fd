use crate::algorithms::aes::{
    be_value, cipher_rounds, counter_block, ctr_transform, flip_bit, hash_subkey,
    lemma_u128_to_bytes_injective, spec_bytes_to_u128, spec_derive_j0, spec_encrypt_block,
    spec_gcm_decrypt, spec_gcm_encrypt, spec_ghash, spec_inc32, spec_key_expansion, spec_mix_byte,
    spec_mix_columns, spec_shift_rows, spec_sub_bytes, spec_u128_to_bytes, xor_bytes, GcmFailure,
};
use crate::algorithms::aes_constants::INV_SBOX;
use crate::algorithms::aes_helpers::{gf256_mul, gf256_mul_bits, sbox, xtime};
use vstd::prelude::*;

verus! {

/// The inverse table undoes the substitution of every byte.
pub proof fn lemma_inv_sbox(x: u8)
    ensures
        INV_SBOX[sbox(x) as int] == x,
{
    assert(
        x == 0 || x == 1 || x == 2 || x == 3 || x == 4 || x == 5 || x == 6 || x == 7 || x == 8
        || x == 9 || x == 10 || x == 11 || x == 12 || x == 13 || x == 14 || x == 15 || x == 16
        || x == 17 || x == 18 || x == 19 || x == 20 || x == 21 || x == 22 || x == 23 || x == 24
        || x == 25 || x == 26 || x == 27 || x == 28 || x == 29 || x == 30 || x == 31 || x == 32
        || x == 33 || x == 34 || x == 35 || x == 36 || x == 37 || x == 38 || x == 39 || x == 40
        || x == 41 || x == 42 || x == 43 || x == 44 || x == 45 || x == 46 || x == 47 || x == 48
        || x == 49 || x == 50 || x == 51 || x == 52 || x == 53 || x == 54 || x == 55 || x == 56
        || x == 57 || x == 58 || x == 59 || x == 60 || x == 61 || x == 62 || x == 63 || x == 64
        || x == 65 || x == 66 || x == 67 || x == 68 || x == 69 || x == 70 || x == 71 || x == 72
        || x == 73 || x == 74 || x == 75 || x == 76 || x == 77 || x == 78 || x == 79 || x == 80
        || x == 81 || x == 82 || x == 83 || x == 84 || x == 85 || x == 86 || x == 87 || x == 88
        || x == 89 || x == 90 || x == 91 || x == 92 || x == 93 || x == 94 || x == 95 || x == 96
        || x == 97 || x == 98 || x == 99 || x == 100 || x == 101 || x == 102 || x == 103
        || x == 104 || x == 105 || x == 106 || x == 107 || x == 108 || x == 109 || x == 110
        || x == 111 || x == 112 || x == 113 || x == 114 || x == 115 || x == 116 || x == 117
        || x == 118 || x == 119 || x == 120 || x == 121 || x == 122 || x == 123 || x == 124
        || x == 125 || x == 126 || x == 127 || x == 128 || x == 129 || x == 130 || x == 131
        || x == 132 || x == 133 || x == 134 || x == 135 || x == 136 || x == 137 || x == 138
        || x == 139 || x == 140 || x == 141 || x == 142 || x == 143 || x == 144 || x == 145
        || x == 146 || x == 147 || x == 148 || x == 149 || x == 150 || x == 151 || x == 152
        || x == 153 || x == 154 || x == 155 || x == 156 || x == 157 || x == 158 || x == 159
        || x == 160 || x == 161 || x == 162 || x == 163 || x == 164 || x == 165 || x == 166
        || x == 167 || x == 168 || x == 169 || x == 170 || x == 171 || x == 172 || x == 173
        || x == 174 || x == 175 || x == 176 || x == 177 || x == 178 || x == 179 || x == 180
        || x == 181 || x == 182 || x == 183 || x == 184 || x == 185 || x == 186 || x == 187
        || x == 188 || x == 189 || x == 190 || x == 191 || x == 192 || x == 193 || x == 194
        || x == 195 || x == 196 || x == 197 || x == 198 || x == 199 || x == 200 || x == 201
        || x == 202 || x == 203 || x == 204 || x == 205 || x == 206 || x == 207 || x == 208
        || x == 209 || x == 210 || x == 211 || x == 212 || x == 213 || x == 214 || x == 215
        || x == 216 || x == 217 || x == 218 || x == 219 || x == 220 || x == 221 || x == 222
        || x == 223 || x == 224 || x == 225 || x == 226 || x == 227 || x == 228 || x == 229
        || x == 230 || x == 231 || x == 232 || x == 233 || x == 234 || x == 235 || x == 236
        || x == 237 || x == 238 || x == 239 || x == 240 || x == 241 || x == 242 || x == 243
        || x == 244 || x == 245 || x == 246 || x == 247 || x == 248 || x == 249 || x == 250
        || x == 251 || x == 252 || x == 253 || x == 254 || x == 255
    );
}

/// The substitution sends different bytes to different bytes.
pub proof fn lemma_sbox_injective(a: u8, b: u8)
    requires
        sbox(a) == sbox(b),
    ensures
        a == b,
{
    lemma_inv_sbox(a);
    lemma_inv_sbox(b);
}

/// Multiplying by 2 in GF(2^8) is `xtime`, and multiplying by 3 is `xtime`
/// plus the number itself.
pub proof fn lemma_gf256_mul_2_3(a: u8)
    ensures
        gf256_mul(0x02, a) == xtime(a),
        gf256_mul(0x03, a) == xtime(a) ^ a,
{
    assert(gf256_mul(0x02, a) == xtime(a)) by (bit_vector);
    assert(gf256_mul(0x03, a) == xtime(a) ^ a) by (bit_vector);
}

/// MixColumns sends different columns to different columns.
pub proof fn lemma_mix_column_injective(
    a0: u8,
    a1: u8,
    a2: u8,
    a3: u8,
    b0: u8,
    b1: u8,
    b2: u8,
    b3: u8,
)
    requires
        gf256_mul(0x02, a0) ^ gf256_mul(0x03, a1) ^ a2 ^ a3 == gf256_mul(0x02, b0) ^ gf256_mul(
            0x03,
            b1,
        ) ^ b2 ^ b3,
        a0 ^ gf256_mul(0x02, a1) ^ gf256_mul(0x03, a2) ^ a3 == b0 ^ gf256_mul(0x02, b1)
            ^ gf256_mul(0x03, b2) ^ b3,
        a0 ^ a1 ^ gf256_mul(0x02, a2) ^ gf256_mul(0x03, a3) == b0 ^ b1 ^ gf256_mul(0x02, b2)
            ^ gf256_mul(0x03, b3),
        gf256_mul(0x03, a0) ^ a1 ^ a2 ^ gf256_mul(0x02, a3) == gf256_mul(0x03, b0) ^ b1 ^ b2
            ^ gf256_mul(0x02, b3),
    ensures
        a0 == b0 && a1 == b1 && a2 == b2 && a3 == b3,
{
    lemma_gf256_mul_2_3(a0);
    lemma_gf256_mul_2_3(a1);
    lemma_gf256_mul_2_3(a2);
    lemma_gf256_mul_2_3(a3);
    lemma_gf256_mul_2_3(b0);
    lemma_gf256_mul_2_3(b1);
    lemma_gf256_mul_2_3(b2);
    lemma_gf256_mul_2_3(b3);
    assert(a0 == b0 && a1 == b1 && a2 == b2 && a3 == b3) by (bit_vector)
        requires
            xtime(a0) ^ (xtime(a1) ^ a1) ^ a2 ^ a3 == xtime(b0) ^ (xtime(b1) ^ b1) ^ b2 ^ b3,
            a0 ^ xtime(a1) ^ (xtime(a2) ^ a2) ^ a3 == b0 ^ xtime(b1) ^ (xtime(b2) ^ b2) ^ b3,
            a0 ^ a1 ^ xtime(a2) ^ (xtime(a3) ^ a3) == b0 ^ b1 ^ xtime(b2) ^ (xtime(b3) ^ b3),
            (xtime(a0) ^ a0) ^ a1 ^ a2 ^ xtime(a3) == (xtime(b0) ^ b0) ^ b1 ^ b2 ^ xtime(b3),
    ;
}

/// States with one image under MixColumns agree in every column.
proof fn lemma_mix_columns_column(a: Seq<u8>, b: Seq<u8>, c: int)
    requires
        a.len() == 16,
        b.len() == 16,
        spec_mix_columns(a) == spec_mix_columns(b),
        0 <= c < 4,
    ensures
        a[4 * c] == b[4 * c],
        a[4 * c + 1] == b[4 * c + 1],
        a[4 * c + 2] == b[4 * c + 2],
        a[4 * c + 3] == b[4 * c + 3],
{
    let ma = spec_mix_columns(a);
    let mb = spec_mix_columns(b);
    assert(ma[4 * c] == spec_mix_byte(a, 4 * c) && mb[4 * c] == spec_mix_byte(b, 4 * c));
    assert(ma[4 * c + 1] == spec_mix_byte(a, 4 * c + 1) && mb[4 * c + 1] == spec_mix_byte(
        b,
        4 * c + 1,
    ));
    assert(ma[4 * c + 2] == spec_mix_byte(a, 4 * c + 2) && mb[4 * c + 2] == spec_mix_byte(
        b,
        4 * c + 2,
    ));
    assert(ma[4 * c + 3] == spec_mix_byte(a, 4 * c + 3) && mb[4 * c + 3] == spec_mix_byte(
        b,
        4 * c + 3,
    ));
    lemma_mix_column_injective(
        a[4 * c],
        a[4 * c + 1],
        a[4 * c + 2],
        a[4 * c + 3],
        b[4 * c],
        b[4 * c + 1],
        b[4 * c + 2],
        b[4 * c + 3],
    );
}

/// MixColumns sends different states to different states.
pub proof fn lemma_mix_columns_injective(a: Seq<u8>, b: Seq<u8>)
    requires
        a.len() == 16,
        b.len() == 16,
        spec_mix_columns(a) == spec_mix_columns(b),
    ensures
        a == b,
{
    lemma_mix_columns_column(a, b, 0);
    lemma_mix_columns_column(a, b, 1);
    lemma_mix_columns_column(a, b, 2);
    lemma_mix_columns_column(a, b, 3);
    assert(a =~= b);
}

/// SubBytes sends different states to different states.
pub proof fn lemma_sub_bytes_injective(a: Seq<u8>, b: Seq<u8>)
    requires
        a.len() == 16,
        b.len() == 16,
        spec_sub_bytes(a) == spec_sub_bytes(b),
    ensures
        a == b,
{
    assert forall|j: int| 0 <= j < 16 implies a[j] == b[j] by {
        assert(spec_sub_bytes(a)[j] == sbox(a[j]));
        assert(spec_sub_bytes(b)[j] == sbox(b[j]));
        lemma_sbox_injective(a[j], b[j]);
    }
    assert(a =~= b);
}

/// ShiftRows sends different states to different states.
pub proof fn lemma_shift_rows_injective(a: Seq<u8>, b: Seq<u8>)
    requires
        a.len() == 16,
        b.len() == 16,
        spec_shift_rows(a) == spec_shift_rows(b),
    ensures
        a == b,
{
    assert forall|j: int| 0 <= j < 16 implies a[j] == b[j] by {
        let r = j % 4;
        let c = j / 4;
        let i = ((c - r + 4) % 4) * 4 + r;
        assert(0 <= i < 16);
        assert(((i / 4 + i % 4) % 4) * 4 + i % 4 == j);
        assert(spec_shift_rows(a)[i] == a[j]);
        assert(spec_shift_rows(b)[i] == b[j]);
    }
    assert(a =~= b);
}

/// Adding a round key sends different states to different states.
pub proof fn lemma_xor_bytes_injective(a: Seq<u8>, b: Seq<u8>, k: Seq<u8>)
    requires
        a.len() == b.len(),
        xor_bytes(a, k) == xor_bytes(b, k),
    ensures
        a == b,
{
    assert forall|j: int| 0 <= j < a.len() implies a[j] == b[j] by {
        let x = a[j];
        let y = b[j];
        let z = k[j];
        assert(xor_bytes(a, k)[j] == x ^ z);
        assert(xor_bytes(b, k)[j] == y ^ z);
        assert(x ^ z == y ^ z ==> x == y) by (bit_vector);
    }
    assert(a =~= b);
}

/// The rounds of the cipher send different blocks to different states.
pub proof fn lemma_cipher_rounds_injective(a: Seq<u8>, b: Seq<u8>, rks: Seq<Seq<u8>>, n: nat)
    requires
        a.len() == 16,
        b.len() == 16,
        cipher_rounds(a, rks, n) == cipher_rounds(b, rks, n),
    ensures
        a == b,
        cipher_rounds(a, rks, n).len() == 16,
    decreases n,
{
    if n == 0 {
        lemma_xor_bytes_injective(a, b, rks[0]);
    } else {
        let pa = cipher_rounds(a, rks, (n - 1) as nat);
        let pb = cipher_rounds(b, rks, (n - 1) as nat);
        let ma = spec_mix_columns(spec_shift_rows(spec_sub_bytes(pa)));
        let mb = spec_mix_columns(spec_shift_rows(spec_sub_bytes(pb)));
        lemma_xor_bytes_injective(ma, mb, rks[n as int]);
        lemma_mix_columns_injective(
            spec_shift_rows(spec_sub_bytes(pa)),
            spec_shift_rows(spec_sub_bytes(pb)),
        );
        lemma_shift_rows_injective(spec_sub_bytes(pa), spec_sub_bytes(pb));
        lemma_rounds_length(a, rks, (n - 1) as nat);
        lemma_rounds_length(b, rks, (n - 1) as nat);
        lemma_sub_bytes_injective(pa, pb);
        lemma_cipher_rounds_injective(a, b, rks, (n - 1) as nat);
    }
}

/// The state keeps its sixteen bytes through the rounds.
pub proof fn lemma_rounds_length(a: Seq<u8>, rks: Seq<Seq<u8>>, n: nat)
    requires
        a.len() == 16,
    ensures
        cipher_rounds(a, rks, n).len() == 16,
    decreases n,
{
    if n > 0 {
        lemma_rounds_length(a, rks, (n - 1) as nat);
    }
}

/// AES is a permutation of the blocks: under one schedule of round keys
/// different blocks have different encryptions.
pub proof fn lemma_encrypt_block_injective(a: Seq<u8>, b: Seq<u8>, rks: Seq<Seq<u8>>)
    requires
        a.len() == 16,
        b.len() == 16,
        spec_encrypt_block(a, rks) == spec_encrypt_block(b, rks),
    ensures
        a == b,
{
    reveal(spec_encrypt_block);
    let nr = rks.len() - 1;
    let full = if nr == 0 { 0nat } else { (nr - 1) as nat };
    let pa = cipher_rounds(a, rks, full);
    let pb = cipher_rounds(b, rks, full);
    lemma_rounds_length(a, rks, full);
    lemma_rounds_length(b, rks, full);
    lemma_xor_bytes_injective(
        spec_shift_rows(spec_sub_bytes(pa)),
        spec_shift_rows(spec_sub_bytes(pb)),
        rks[nr],
    );
    lemma_shift_rows_injective(spec_sub_bytes(pa), spec_sub_bytes(pb));
    lemma_sub_bytes_injective(pa, pb);
    lemma_cipher_rounds_injective(a, b, rks, full);
}

/// Two packages for one plaintext of a block or more under one key and two
/// different nonces of twelve bytes differ in their first block of
/// ciphertext.
pub proof fn lemma_nonces_give_different_ciphertexts(
    key: Seq<u8>,
    nonce1: Seq<u8>,
    nonce2: Seq<u8>,
    aad: Seq<u8>,
    plaintext: Seq<u8>,
)
    requires
        nonce1.len() == 12,
        nonce2.len() == 12,
        nonce1 != nonce2,
        plaintext.len() >= 16,
    ensures
        spec_gcm_encrypt(key, nonce1, aad, plaintext).subrange(12, 28) != spec_gcm_encrypt(
            key,
            nonce2,
            aad,
            plaintext,
        ).subrange(12, 28),
        spec_gcm_encrypt(key, nonce1, aad, plaintext) != spec_gcm_encrypt(
            key,
            nonce2,
            aad,
            plaintext,
        ),
{
    reveal(spec_derive_j0);
    reveal(spec_inc32);
    reveal(ctr_transform);
    let rks = spec_key_expansion(key);
    let h = hash_subkey(rks);
    let j1 = spec_derive_j0(nonce1, h);
    let j2 = spec_derive_j0(nonce2, h);
    let c1 = counter_block(j1, 1);
    let c2 = counter_block(j2, 1);
    assert(c1 == spec_inc32(j1) && c2 == spec_inc32(j2)) by {
        reveal_with_fuel(counter_block, 2);
    }
    assert(c1.len() == 16 && c2.len() == 16);
    assert(c1.subrange(0, 12) =~= nonce1);
    assert(c2.subrange(0, 12) =~= nonce2);
    let e1 = spec_encrypt_block(c1, rks);
    let e2 = spec_encrypt_block(c2, rks);
    let p1 = spec_gcm_encrypt(key, nonce1, aad, plaintext);
    let p2 = spec_gcm_encrypt(key, nonce2, aad, plaintext);
    let t1 = ctr_transform(rks, j1, plaintext);
    let t2 = ctr_transform(rks, j2, plaintext);
    if p1.subrange(12, 28) == p2.subrange(12, 28) {
        assert forall|i: int| 0 <= i < 16 implies e1[i] == e2[i] by {
            assert(p1.subrange(12, 28)[i] == p1[12 + i]);
            assert(p2.subrange(12, 28)[i] == p2[12 + i]);
            assert(p1[12 + i] == t1[i]);
            assert(p2[12 + i] == t2[i]);
            assert(i / 16 + 1 == 1 && i % 16 == i);
            let x = plaintext[i];
            let u = e1[i];
            let v = e2[i];
            assert(t1[i] == x ^ u);
            assert(t2[i] == x ^ v);
            assert(x ^ u == x ^ v ==> u == v) by (bit_vector);
        }
        lemma_encrypted_length(c1, rks);
        lemma_encrypted_length(c2, rks);
        assert(e1 =~= e2);
        lemma_encrypt_block_injective(c1, c2, rks);
        assert(false);
    }
}

/// An encrypted block has sixteen bytes.
pub proof fn lemma_encrypted_length(block: Seq<u8>, rks: Seq<Seq<u8>>)
    ensures
        spec_encrypt_block(block, rks).len() == 16,
{
    reveal(spec_encrypt_block);
}

/// The product of a sum with the low bits of a number is the sum of the
/// products.
pub proof fn lemma_gf256_mul_bits_distributes(a: u8, b: u8, c: u8, n: nat)
    ensures
        gf256_mul_bits(a ^ b, c, n) == gf256_mul_bits(a, c, n) ^ gf256_mul_bits(b, c, n),
    decreases n,
{
    if n == 0 {
        assert(0u8 ^ 0u8 == 0u8) by (bit_vector);
    } else {
        lemma_gf256_mul_bits_distributes(xtime(a), xtime(b), c >> 1, (n - 1) as nat);
        assert(xtime(a ^ b) == xtime(a) ^ xtime(b)) by (bit_vector);
        let ra = gf256_mul_bits(xtime(a), c >> 1, (n - 1) as nat);
        let rb = gf256_mul_bits(xtime(b), c >> 1, (n - 1) as nat);
        assert((a ^ b) ^ (ra ^ rb) == (a ^ ra) ^ (b ^ rb)) by (bit_vector);
        assert(0u8 ^ (ra ^ rb) == (0u8 ^ ra) ^ (0u8 ^ rb)) by (bit_vector);
    }
}

/// Multiplication in GF(2^8) distributes over addition, which is XOR.
pub proof fn lemma_gf256_mul_distributes(a: u8, b: u8, c: u8)
    ensures
        gf256_mul(a, b ^ c) == gf256_mul(a, b) ^ gf256_mul(a, c),
        gf256_mul(a ^ b, c) == gf256_mul(a, c) ^ gf256_mul(b, c),
{
    assert(gf256_mul(a, b ^ c) == gf256_mul(a, b) ^ gf256_mul(a, c)) by (bit_vector);
    lemma_gf256_mul_bits_distributes(a, b, c, 8);
}

/// Multiplying one factor by `x` multiplies the product by `x`.
pub proof fn lemma_gf256_mul_bits_xtime(a: u8, b: u8, n: nat)
    ensures
        gf256_mul_bits(xtime(a), b, n) == xtime(gf256_mul_bits(a, b, n)),
    decreases n,
{
    if n == 0 {
        assert(xtime(0u8) == 0u8) by (bit_vector);
    } else {
        lemma_gf256_mul_bits_xtime(xtime(a), b >> 1, (n - 1) as nat);
        let r = gf256_mul_bits(xtime(a), b >> 1, (n - 1) as nat);
        assert(xtime(a ^ r) == xtime(a) ^ xtime(r)) by (bit_vector);
        assert(xtime(0u8 ^ r) == 0u8 ^ xtime(r)) by (bit_vector);
    }
}

/// Multiplication in GF(2^8) does not depend on the order of its factors.
pub proof fn lemma_gf256_mul_commutes(a: u8, b: u8)
    ensures
        gf256_mul(a, b) == gf256_mul(b, a),
    decreases a,
{
    if a == 0 {
        lemma_gf256_mul_unit(b);
    } else {
        let half = a >> 1;
        let low = a & 1;
        assert(half < a && half < 128 && (low == 0 || low == 1) && a == low ^ xtime(half))
            by (bit_vector)
            requires
                a != 0,
                half == a >> 1,
                low == a & 1,
        ;
        lemma_gf256_mul_commutes(half, b);
        // b times a: the lowest bit of a, and x times the product with the rest
        assert(gf256_mul_bits(xtime(b), half, 8) == gf256_mul_bits(xtime(b), half, 7))
            by (bit_vector)
            requires
                half < 128,
        ;
        lemma_gf256_mul_bits_xtime(b, half, 8);
        // a times b, a taken apart in the same way
        lemma_gf256_mul_distributes(low, xtime(half), b);
        lemma_gf256_mul_unit(b);
        lemma_gf256_mul_bits_xtime(half, b, 8);
    }
}

/// 1 is the unit of GF(2^8), and a product with 0 is 0.
pub proof fn lemma_gf256_mul_unit(a: u8)
    ensures
        gf256_mul(a, 1) == a,
        gf256_mul(1, a) == a,
        gf256_mul(a, 0) == 0,
        gf256_mul(0, a) == 0,
{
    assert(gf256_mul(a, 1) == a) by (bit_vector);
    assert(gf256_mul(1, a) == a) by (bit_vector);
    assert(gf256_mul(a, 0) == 0) by (bit_vector);
    assert(gf256_mul(0, a) == 0) by (bit_vector);
}

/// The sixteen bytes of the value that sixteen bytes spell are those bytes.
pub proof fn lemma_bytes_u128_round_trip(bytes: Seq<u8>)
    requires
        bytes.len() == 16,
    ensures
        spec_u128_to_bytes(spec_bytes_to_u128(bytes)) == bytes,
{
    let b0: u8 = bytes[0];
    let b1: u8 = bytes[1];
    let b2: u8 = bytes[2];
    let b3: u8 = bytes[3];
    let b4: u8 = bytes[4];
    let b5: u8 = bytes[5];
    let b6: u8 = bytes[6];
    let b7: u8 = bytes[7];
    let b8: u8 = bytes[8];
    let b9: u8 = bytes[9];
    let b10: u8 = bytes[10];
    let b11: u8 = bytes[11];
    let b12: u8 = bytes[12];
    let b13: u8 = bytes[13];
    let b14: u8 = bytes[14];
    let b15: u8 = bytes[15];
    let v0: u128 = 0;
    let v1: u128 = (v0 << 8) | (b0 as u128);
    assert(be_value(bytes, 1) == v1) by {
        reveal_with_fuel(be_value, 2);
    }
    let v2: u128 = (v1 << 8) | (b1 as u128);
    assert(be_value(bytes, 2) == v2) by {
        reveal_with_fuel(be_value, 2);
    }
    let v3: u128 = (v2 << 8) | (b2 as u128);
    assert(be_value(bytes, 3) == v3) by {
        reveal_with_fuel(be_value, 2);
    }
    let v4: u128 = (v3 << 8) | (b3 as u128);
    assert(be_value(bytes, 4) == v4) by {
        reveal_with_fuel(be_value, 2);
    }
    let v5: u128 = (v4 << 8) | (b4 as u128);
    assert(be_value(bytes, 5) == v5) by {
        reveal_with_fuel(be_value, 2);
    }
    let v6: u128 = (v5 << 8) | (b5 as u128);
    assert(be_value(bytes, 6) == v6) by {
        reveal_with_fuel(be_value, 2);
    }
    let v7: u128 = (v6 << 8) | (b6 as u128);
    assert(be_value(bytes, 7) == v7) by {
        reveal_with_fuel(be_value, 2);
    }
    let v8: u128 = (v7 << 8) | (b7 as u128);
    assert(be_value(bytes, 8) == v8) by {
        reveal_with_fuel(be_value, 2);
    }
    let v9: u128 = (v8 << 8) | (b8 as u128);
    assert(be_value(bytes, 9) == v9) by {
        reveal_with_fuel(be_value, 2);
    }
    let v10: u128 = (v9 << 8) | (b9 as u128);
    assert(be_value(bytes, 10) == v10) by {
        reveal_with_fuel(be_value, 2);
    }
    let v11: u128 = (v10 << 8) | (b10 as u128);
    assert(be_value(bytes, 11) == v11) by {
        reveal_with_fuel(be_value, 2);
    }
    let v12: u128 = (v11 << 8) | (b11 as u128);
    assert(be_value(bytes, 12) == v12) by {
        reveal_with_fuel(be_value, 2);
    }
    let v13: u128 = (v12 << 8) | (b12 as u128);
    assert(be_value(bytes, 13) == v13) by {
        reveal_with_fuel(be_value, 2);
    }
    let v14: u128 = (v13 << 8) | (b13 as u128);
    assert(be_value(bytes, 14) == v14) by {
        reveal_with_fuel(be_value, 2);
    }
    let v15: u128 = (v14 << 8) | (b14 as u128);
    assert(be_value(bytes, 15) == v15) by {
        reveal_with_fuel(be_value, 2);
    }
    let v16: u128 = (v15 << 8) | (b15 as u128);
    assert(be_value(bytes, 16) == v16) by {
        reveal_with_fuel(be_value, 2);
    }
    assert(
        ((v16 >> 120u128) & 0xff) as u8 == b0
        && ((v16 >> 112u128) & 0xff) as u8 == b1
        && ((v16 >> 104u128) & 0xff) as u8 == b2
        && ((v16 >> 96u128) & 0xff) as u8 == b3
        && ((v16 >> 88u128) & 0xff) as u8 == b4
        && ((v16 >> 80u128) & 0xff) as u8 == b5
        && ((v16 >> 72u128) & 0xff) as u8 == b6
        && ((v16 >> 64u128) & 0xff) as u8 == b7
        && ((v16 >> 56u128) & 0xff) as u8 == b8
        && ((v16 >> 48u128) & 0xff) as u8 == b9
        && ((v16 >> 40u128) & 0xff) as u8 == b10
        && ((v16 >> 32u128) & 0xff) as u8 == b11
        && ((v16 >> 24u128) & 0xff) as u8 == b12
        && ((v16 >> 16u128) & 0xff) as u8 == b13
        && ((v16 >> 8u128) & 0xff) as u8 == b14
        && ((v16 >> 0u128) & 0xff) as u8 == b15
    ) by (bit_vector)
        requires
            v0 == 0,
            v1 == (v0 << 8) | (b0 as u128),
            v2 == (v1 << 8) | (b1 as u128),
            v3 == (v2 << 8) | (b2 as u128),
            v4 == (v3 << 8) | (b3 as u128),
            v5 == (v4 << 8) | (b4 as u128),
            v6 == (v5 << 8) | (b5 as u128),
            v7 == (v6 << 8) | (b6 as u128),
            v8 == (v7 << 8) | (b7 as u128),
            v9 == (v8 << 8) | (b8 as u128),
            v10 == (v9 << 8) | (b9 as u128),
            v11 == (v10 << 8) | (b10 as u128),
            v12 == (v11 << 8) | (b11 as u128),
            v13 == (v12 << 8) | (b12 as u128),
            v14 == (v13 << 8) | (b13 as u128),
            v15 == (v14 << 8) | (b14 as u128),
            v16 == (v15 << 8) | (b15 as u128),
    ;
    let back = spec_u128_to_bytes(v16);
    assert(back[0] == ((v16 >> 120u128) & 0xff) as u8);
    assert(back[1] == ((v16 >> 112u128) & 0xff) as u8);
    assert(back[2] == ((v16 >> 104u128) & 0xff) as u8);
    assert(back[3] == ((v16 >> 96u128) & 0xff) as u8);
    assert(back[4] == ((v16 >> 88u128) & 0xff) as u8);
    assert(back[5] == ((v16 >> 80u128) & 0xff) as u8);
    assert(back[6] == ((v16 >> 72u128) & 0xff) as u8);
    assert(back[7] == ((v16 >> 64u128) & 0xff) as u8);
    assert(back[8] == ((v16 >> 56u128) & 0xff) as u8);
    assert(back[9] == ((v16 >> 48u128) & 0xff) as u8);
    assert(back[10] == ((v16 >> 40u128) & 0xff) as u8);
    assert(back[11] == ((v16 >> 32u128) & 0xff) as u8);
    assert(back[12] == ((v16 >> 24u128) & 0xff) as u8);
    assert(back[13] == ((v16 >> 16u128) & 0xff) as u8);
    assert(back[14] == ((v16 >> 8u128) & 0xff) as u8);
    assert(back[15] == ((v16 >> 0u128) & 0xff) as u8);
    assert(back =~= bytes);
}

/// Different blocks spell different 128-bit values.
pub proof fn lemma_bytes_to_u128_injective(a: Seq<u8>, b: Seq<u8>)
    requires
        a.len() == 16,
        b.len() == 16,
        spec_bytes_to_u128(a) == spec_bytes_to_u128(b),
    ensures
        a == b,
{
    lemma_bytes_u128_round_trip(a);
    lemma_bytes_u128_round_trip(b);
}

/// A package whose nonce has one bit inverted is refused as not authentic,
/// whatever the package was.
pub proof fn lemma_tampered_nonce_rejected(
    key: Seq<u8>,
    data: Seq<u8>,
    aad: Seq<u8>,
    index: int,
    bit: u8,
)
    requires
        spec_gcm_decrypt(key, data, aad) is Ok,
        0 <= index < 12,
        bit < 8,
    ensures
        spec_gcm_decrypt(key, flip_bit(data, index, bit), aad) == Err::<Seq<u8>, GcmFailure>(
            GcmFailure::TagMismatch,
        ),
{
    reveal(spec_derive_j0);
    let changed = flip_bit(data, index, bit);
    let n = data.len() as int;
    let rks = spec_key_expansion(key);
    let h = hash_subkey(rks);
    let nonce1 = data.subrange(0, 12);
    let nonce2 = changed.subrange(0, 12);
    let x = data[index];
    assert(x ^ (1u8 << bit) != x) by (bit_vector)
        requires
            bit < 8,
    ;
    assert(nonce1[index] != nonce2[index]);
    assert(changed.subrange(12, n - 16) =~= data.subrange(12, n - 16));
    assert(changed.subrange(n - 16, n) =~= data.subrange(n - 16, n));
    let j1 = spec_derive_j0(nonce1, h);
    let j2 = spec_derive_j0(nonce2, h);
    assert(j1.subrange(0, 12) =~= nonce1);
    assert(j2.subrange(0, 12) =~= nonce2);
    let e1 = spec_encrypt_block(j1, rks);
    let e2 = spec_encrypt_block(j2, rks);
    let s = spec_ghash(h, aad, data.subrange(12, n - 16));
    let t1 = spec_bytes_to_u128(e1) ^ s;
    let t2 = spec_bytes_to_u128(e2) ^ s;
    if spec_u128_to_bytes(t1) == spec_u128_to_bytes(t2) {
        lemma_u128_to_bytes_injective(t1, t2);
        let u = spec_bytes_to_u128(e1);
        let v = spec_bytes_to_u128(e2);
        assert(u == v) by (bit_vector)
            requires
                u ^ s == v ^ s,
        ;
        lemma_encrypted_length(j1, rks);
        lemma_encrypted_length(j2, rks);
        lemma_bytes_to_u128_injective(e1, e2);
        lemma_encrypt_block_injective(j1, j2, rks);
        assert(false);
    }
}

} // verus!
