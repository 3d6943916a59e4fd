use rust_crypto::algorithms::aes::{
    add_round_key, aes_encrypt_block, key_expansion, mix_columns, shift_rows, sub_bytes,
};
use rust_crypto::algorithms::aes_constants::{INV_SBOX, SBOX};
use rust_crypto::algorithms::aes_helpers::{gmul, rot_word, sub_word};

fn hex16(s: &str) -> [u8; 16] {
    let mut out = [0u8; 16];
    for i in 0..16 {
        out[i] = u8::from_str_radix(&s[2 * i..2 * i + 2], 16).unwrap();
    }
    out
}

#[test]
fn fips197_appendix_c1_block() {
    let key = hex16("000102030405060708090a0b0c0d0e0f");
    let plaintext = hex16("00112233445566778899aabbccddeeff");
    let round_keys = key_expansion(&key);
    assert_eq!(round_keys.len(), 11);
    assert_eq!(round_keys[0], key);
    assert_eq!(round_keys[10], hex16("13111d7fe3944a17f307a78b4d2b30c5"));
    let ciphertext = aes_encrypt_block(plaintext, &round_keys);
    assert_eq!(ciphertext, hex16("69c4e0d86a7b0430d8cdb78070b4c55a"));
}

#[test]
fn fips197_appendix_b_block() {
    let key = hex16("2b7e151628aed2a6abf7158809cf4f3c");
    let plaintext = hex16("3243f6a8885a308d313198a2e0370734");
    let round_keys = key_expansion(&key);
    assert_eq!(round_keys[1], hex16("a0fafe1788542cb123a339392a6c7605"));
    assert_eq!(round_keys[10], hex16("d014f9a8c9ee2589e13f0cc8b6630ca6"));
    let ciphertext = aes_encrypt_block(plaintext, &round_keys);
    assert_eq!(ciphertext, hex16("3925841d02dc09fbdc118597196a0b32"));
}

#[test]
fn fips197_round_one_steps() {
    let mut state = hex16("193de3bea0f4e22b9ac68d2ae9f84808");
    sub_bytes(&mut state);
    assert_eq!(state, hex16("d42711aee0bf98f1b8b45de51e415230"));
    shift_rows(&mut state);
    assert_eq!(state, hex16("d4bf5d30e0b452aeb84111f11e2798e5"));
    mix_columns(&mut state);
    assert_eq!(state, hex16("046681e5e0cb199a48f8d37a2806264c"));
    add_round_key(&mut state, &hex16("a0fafe1788542cb123a339392a6c7605"));
    assert_eq!(state, hex16("a49c7ff2689f352b6b5bea43026a5049"));
}

#[test]
fn gmul_known_products() {
    assert_eq!(gmul(0x57, 0x83), 0xc1);
    assert_eq!(gmul(0x57, 0x13), 0xfe);
    assert_eq!(gmul(0x02, 0x80), 0x1b);
    assert_eq!(gmul(0x01, 0xab), 0xab);
    assert_eq!(gmul(0x00, 0xab), 0x00);
    assert_eq!(gmul(0x53, 0xca), 0x01);
}

#[test]
fn word_helpers() {
    assert_eq!(rot_word([0x09, 0xcf, 0x4f, 0x3c]), [0xcf, 0x4f, 0x3c, 0x09]);
    assert_eq!(sub_word([0xcf, 0x4f, 0x3c, 0x09]), [0x8a, 0x84, 0xeb, 0x01]);
}

#[test]
fn inverse_table_undoes_the_substitution() {
    for x in 0..=255u8 {
        assert_eq!(INV_SBOX[SBOX[x as usize] as usize], x);
        assert_eq!(SBOX[INV_SBOX[x as usize] as usize], x);
    }
    assert_eq!(SBOX[0x53], 0xed);
    assert_eq!(INV_SBOX[0xed], 0x53);
}

#[test]
fn gmul_is_a_field_product() {
    for a in 0..=255u8 {
        assert_eq!(gmul(a, 1), a);
        assert_eq!(gmul(1, a), a);
        assert_eq!(gmul(a, 0), 0);
        for b in [0u8, 1, 2, 3, 0x57, 0x83, 0xff] {
            assert_eq!(gmul(a, b), gmul(b, a));
            for c in [0u8, 1, 0x1b, 0x80, 0xfe] {
                assert_eq!(gmul(a, b ^ c), gmul(a, b) ^ gmul(a, c));
                assert_eq!(gmul(a ^ b, c), gmul(a, c) ^ gmul(b, c));
            }
        }
    }
}

#[test]
fn block_encryption_is_injective_on_samples() {
    let key = hex16("000102030405060708090a0b0c0d0e0f");
    let round_keys = key_expansion(&key);
    let base = aes_encrypt_block([0u8; 16], &round_keys);
    for index in 0..16 {
        for bit in 0..8 {
            let mut block = [0u8; 16];
            block[index] = 1 << bit;
            assert_ne!(aes_encrypt_block(block, &round_keys), base);
        }
    }
}
