use rust_crypto::algorithms::aes::{
    aes_encrypt_block, aes_gcm_decrypt, aes_gcm_encrypt, aes_gcm_encrypt_with_nonce, bytes_to_u128,
    constant_time_eq, derive_j0, gf128_mul, ghash, inc32, key_expansion, u128_to_bytes, AesCipher,
};
use rust_crypto::error::CryptoError;
use rust_crypto::utils::text::hex_decode;

fn unhex(s: &str) -> Vec<u8> {
    hex_decode(s).expect("test data is hexadecimal")
}

const KEY_ZERO: [u8; 16] = [0u8; 16];

#[test]
fn gcm_vector_empty_plaintext() {
    let nonce = [0u8; 12];
    let package = aes_gcm_encrypt_with_nonce(&[], &[], &KEY_ZERO, &nonce);
    let mut expected = nonce.to_vec();
    expected.extend_from_slice(&unhex("58e2fccefa7e3061367f1d57a4e7455a"));
    assert_eq!(package, expected);
    assert_eq!(aes_gcm_decrypt(&package, &[], &KEY_ZERO), Ok(vec![]));
}

#[test]
fn gcm_vector_one_zero_block() {
    let nonce = [0u8; 12];
    let plaintext = [0u8; 16];
    let package = aes_gcm_encrypt_with_nonce(&plaintext, &[], &KEY_ZERO, &nonce);
    let mut expected = nonce.to_vec();
    expected.extend_from_slice(&unhex("0388dace60b6a392f328c2b971b2fe78"));
    expected.extend_from_slice(&unhex("ab6e47d42cec13bdf53a67b21257bddf"));
    assert_eq!(package, expected);
    assert_eq!(aes_gcm_decrypt(&package, &[], &KEY_ZERO), Ok(plaintext.to_vec()));
}

#[test]
fn gcm_vector_four_blocks() {
    let key = unhex("feffe9928665731c6d6a8f9467308308");
    let nonce = unhex("cafebabefacedbaddecaf888");
    let plaintext = unhex(
        "d9313225f88406e5a55909c5aff5269a86a7a9531534f7da2e4c303d8a318a72\
         1c3c0c95956809532fcf0e2449a6b525b16aedf5aa0de657ba637b391aafd255",
    );
    let package = aes_gcm_encrypt_with_nonce(&plaintext, &[], &key, &nonce);
    let mut expected = nonce.clone();
    expected.extend_from_slice(&unhex(
        "42831ec2217774244b7221b784d0d49ce3aa212f2c02a4e035c17e2329aca12e\
         21d514b25466931c7d8f6a5aac84aa051ba30b396a0aac973d58e091473f5985",
    ));
    expected.extend_from_slice(&unhex("4d5c2af327cd64a62cf35abd2ba6fab4"));
    assert_eq!(package, expected);
    assert_eq!(aes_gcm_decrypt(&package, &[], &key), Ok(plaintext));
}

#[test]
fn gcm_vector_with_additional_data_and_partial_block() {
    let key = unhex("feffe9928665731c6d6a8f9467308308");
    let nonce = unhex("cafebabefacedbaddecaf888");
    let aad = unhex("feedfacedeadbeeffeedfacedeadbeefabaddad2");
    let plaintext = unhex(
        "d9313225f88406e5a55909c5aff5269a86a7a9531534f7da2e4c303d8a318a72\
         1c3c0c95956809532fcf0e2449a6b525b16aedf5aa0de657ba637b39",
    );
    let package = aes_gcm_encrypt_with_nonce(&plaintext, &aad, &key, &nonce);
    let mut expected = nonce.clone();
    expected.extend_from_slice(&unhex(
        "42831ec2217774244b7221b784d0d49ce3aa212f2c02a4e035c17e2329aca12e\
         21d514b25466931c7d8f6a5aac84aa051ba30b396a0aac973d58e091",
    ));
    expected.extend_from_slice(&unhex("5bc94fbc3221a5db94fae95ae7121a47"));
    assert_eq!(package, expected);
    assert_eq!(aes_gcm_decrypt(&package, &aad, &key), Ok(plaintext));
}

#[test]
fn gcm_round_trip_many_lengths() {
    let key = *b"0123456789abcdef";
    let aad = b"notes.txt";
    for len in [0usize, 1, 15, 16, 17, 31, 32, 33, 100, 257] {
        let plaintext: Vec<u8> = (0..len).map(|i| (i * 7 + 3) as u8).collect();
        let package = aes_gcm_encrypt(&plaintext, aad, &key);
        assert_eq!(package.len(), len + 28);
        assert_eq!(aes_gcm_decrypt(&package, aad, &key), Ok(plaintext));
    }
}

#[test]
fn gcm_detects_any_flipped_bit() {
    let key = *b"0123456789abcdef";
    let aad = b"report.txt".to_vec();
    let plaintext = b"attack at dawn, retreat at dusk".to_vec();
    let package = aes_gcm_encrypt(&plaintext, &aad, &key);
    for index in 0..package.len() {
        for bit in 0..8 {
            let mut tampered = package.clone();
            tampered[index] ^= 1 << bit;
            assert_eq!(
                aes_gcm_decrypt(&tampered, &aad, &key),
                Err("Weryfikacja autentyczności nie powiodła się")
            );
        }
    }
    for index in 0..aad.len() {
        for bit in 0..8 {
            let mut other = aad.clone();
            other[index] ^= 1 << bit;
            assert_eq!(
                aes_gcm_decrypt(&package, &other, &key),
                Err("Weryfikacja autentyczności nie powiodła się")
            );
        }
    }
    let mut other_key = key;
    other_key[0] ^= 1;
    assert!(aes_gcm_decrypt(&package, &aad, &other_key).is_err());
}

#[test]
fn gcm_fresh_nonce_each_time() {
    let key = *b"0123456789abcdef";
    let first = aes_gcm_encrypt(b"same plaintext", b"", &key);
    let second = aes_gcm_encrypt(b"same plaintext", b"", &key);
    assert_ne!(first[..12], second[..12]);
    assert_ne!(first[12..first.len() - 16], second[12..second.len() - 16]);
    assert_ne!(first, second);
}

#[test]
fn gcm_short_package_is_a_format_error() {
    let key = *b"0123456789abcdef";
    for len in [0usize, 1, 12, 27] {
        let data = vec![0u8; len];
        assert_eq!(aes_gcm_decrypt(&data, b"", &key), Err("Dane zbyt krótkie dla GCM"));
    }
    let data = vec![0u8; 28];
    assert_eq!(
        aes_gcm_decrypt(&data, b"", &key),
        Err("Weryfikacja autentyczności nie powiodła się")
    );
}

#[test]
fn gf128_multiplication() {
    let one = 1u128 << 127;
    let x = 0x66e94bd4ef8a2c3b884cfa59ca342b2eu128;
    assert_eq!(gf128_mul(x, one), x);
    assert_eq!(gf128_mul(one, x), x);
    assert_eq!(gf128_mul(x, 0), 0);
    assert_eq!(gf128_mul(0, x), 0);
    // multiplying by the polynomial `x` moves every bit one place down
    assert_eq!(gf128_mul(one, 1u128 << 126), 1u128 << 126);
    assert_eq!(gf128_mul(1u128 << 126, 1u128 << 126), 1u128 << 125);
    // the lowest bit leaves and the reduction comes in
    assert_eq!(gf128_mul(1, 1u128 << 126), 0xe1u128 << 120);
    let a = 0x0388dace60b6a392f328c2b971b2fe78u128;
    assert_eq!(gf128_mul(a, x), gf128_mul(x, a));
    assert_eq!(gf128_mul(a, x), 0x5e2ec746917062882c85b0685353deb7u128);
}

#[test]
fn ghash_of_known_input() {
    let h = 0x66e94bd4ef8a2c3b884cfa59ca342b2eu128;
    let ciphertext = unhex("0388dace60b6a392f328c2b971b2fe78");
    assert_eq!(ghash(h, &[], &ciphertext), 0xf38cbb1ad69223dcc3457ae5b6b0f885u128);
    assert_eq!(ghash(h, &[], &[]), 0);
}

#[test]
fn hash_subkey_of_zero_key() {
    let round_keys = key_expansion(&KEY_ZERO);
    let h = aes_encrypt_block([0u8; 16], &round_keys);
    assert_eq!(bytes_to_u128(&h), 0x66e94bd4ef8a2c3b884cfa59ca342b2eu128);
}

#[test]
fn u128_and_bytes() {
    let bytes: Vec<u8> = (1..=16).collect();
    let value = bytes_to_u128(&bytes);
    assert_eq!(value, 0x0102030405060708090a0b0c0d0e0f10u128);
    assert_eq!(u128_to_bytes(value).to_vec(), bytes);
    let longer: Vec<u8> = (1..=20).collect();
    assert_eq!(bytes_to_u128(&longer), value);
    assert_eq!(u128_to_bytes(0), [0u8; 16]);
    assert_eq!(u128_to_bytes(1)[15], 1);
    assert_eq!(u128_to_bytes(1u128 << 127)[0], 0x80);
}

#[test]
fn j0_for_twelve_byte_nonce() {
    let nonce: Vec<u8> = (1..=12).collect();
    let j0 = derive_j0(&nonce, 12345);
    assert_eq!(j0, [1, 2, 3, 4, 5, 6, 7, 8, 9, 10, 11, 12, 0, 0, 0, 1]);
}

#[test]
fn j0_for_other_nonce_lengths() {
    let h = 0x66e94bd4ef8a2c3b884cfa59ca342b2eu128;
    let nonce = [7u8; 8];
    let expected = u128_to_bytes(gf128_mul(ghash(h, &[], &nonce) ^ 64, h));
    assert_eq!(derive_j0(&nonce, h), expected);
    let long: Vec<u8> = (0..13).collect();
    let expected = u128_to_bytes(gf128_mul(ghash(h, &[], &long) ^ 104, h));
    assert_eq!(derive_j0(&long, h), expected);
    assert_ne!(derive_j0(&long, h)[..12], long[..12]);
}

#[test]
fn inc32_counts_and_wraps() {
    let mut block = [0xaau8; 16];
    block[12..].copy_from_slice(&[0, 0, 0, 1]);
    inc32(&mut block);
    assert_eq!(block[12..], [0, 0, 0, 2]);
    assert_eq!(block[..12], [0xaau8; 12]);
    block[12..].copy_from_slice(&[0, 0, 0xff, 0xff]);
    inc32(&mut block);
    assert_eq!(block[12..], [0, 1, 0, 0]);
    block[12..].copy_from_slice(&[0xff, 0xff, 0xff, 0xff]);
    inc32(&mut block);
    assert_eq!(block[12..], [0, 0, 0, 0]);
    assert_eq!(block[..12], [0xaau8; 12]);
}

#[test]
fn constant_time_eq_at_every_position() {
    let a: Vec<u8> = (0..16).collect();
    assert!(constant_time_eq(&a, &a.clone()));
    for index in 0..16 {
        let mut b = a.clone();
        b[index] ^= 0x40;
        assert!(!constant_time_eq(&a, &b));
    }
    assert!(!constant_time_eq(&a, &a[..15]));
    assert!(!constant_time_eq(&a[..15], &a));
    assert!(constant_time_eq(&[], &[]));
}

#[test]
fn cipher_key_must_have_sixteen_bytes() {
    assert!(AesCipher::new("0123456789abcdef").is_ok());
    for key in ["", "short", "0123456789abcde", "0123456789abcdefg", "ąąąąąąąąąąąąąąąą"] {
        match AesCipher::new(key) {
            Err(CryptoError::InvalidKey(msg)) => {
                assert_eq!(msg, "AES key must be exactly 16 bytes (AES-128)")
            }
            _ => panic!("key {:?} was accepted", key),
        }
    }
    // eight two-byte characters are sixteen bytes
    assert!(AesCipher::new("ąąąąąąąą").is_ok());
}

#[test]
fn cipher_round_trip_in_hex() {
    let cipher = AesCipher::new("0123456789abcdef").unwrap();
    let text = cipher.encrypt(b"hello, world", b"hello.txt");
    assert_eq!(text.len(), 2 * (12 + 28));
    assert!(text.chars().all(|c| c.is_ascii_digit() || ('a'..='f').contains(&c)));
    assert_eq!(cipher.decrypt(&text, b"hello.txt").unwrap(), "hello, world");
    assert_eq!(cipher.decrypt(&text.to_uppercase(), b"hello.txt").unwrap(), "hello, world");
    match cipher.decrypt(&text, b"other.txt") {
        Err(CryptoError::DecryptionError(msg)) => {
            assert_eq!(msg, "Weryfikacja autentyczności nie powiodła się")
        }
        _ => panic!("a wrong name was accepted"),
    }
}

#[test]
fn cipher_rejects_malformed_input() {
    let cipher = AesCipher::new("0123456789abcdef").unwrap();
    for text in ["0", "zz", "0g", "abc", "12 34", "+a"] {
        match cipher.decrypt(text, b"") {
            Err(CryptoError::InvalidFormat(msg)) => {
                assert_eq!(msg, "Invalid hex format: invalid digit found in string")
            }
            _ => panic!("{:?} was accepted", text),
        }
    }
    for short in ["", "00ff", &"ab".repeat(27)] {
        match cipher.decrypt(short, b"") {
            Err(CryptoError::InvalidFormat(msg)) => assert_eq!(msg, "Dane zbyt krótkie dla GCM"),
            _ => panic!("a short package was not refused as malformed"),
        }
    }
    match cipher.decrypt(&"ab".repeat(28), b"") {
        Err(CryptoError::DecryptionError(msg)) => {
            assert_eq!(msg, "Weryfikacja autentyczności nie powiodła się")
        }
        _ => panic!("a package with a wrong tag was accepted"),
    }
    let binary = cipher.encrypt(&[b'a', 200, b'b', 255], b"");
    match cipher.decrypt(&binary, b"") {
        Err(CryptoError::InvalidFormat(msg)) => assert_eq!(msg, "Non-ASCII byte found: 200"),
        _ => panic!("bytes that are no text were accepted"),
    }
}

#[test]
fn different_nonces_give_different_first_blocks() {
    let key = *b"0123456789abcdef";
    let plaintext = [0x5au8; 40];
    let first = aes_gcm_encrypt_with_nonce(&plaintext, b"a", &key, &[1u8; 12]);
    let mut nonce = [1u8; 12];
    nonce[11] = 2;
    let second = aes_gcm_encrypt_with_nonce(&plaintext, b"a", &key, &nonce);
    assert_ne!(first[12..28], second[12..28]);
    let again = aes_gcm_encrypt_with_nonce(&plaintext, b"a", &key, &[1u8; 12]);
    assert_eq!(first, again);
}
