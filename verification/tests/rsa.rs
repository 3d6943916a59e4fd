use rust_crypto::algorithms::bignum::{BigNat, BigSigned};
use rust_crypto::algorithms::rsa::{
    candidate_from, decrypt_block, encrypt_block, extended_gcd, gen_prime, generate_keypair,
    is_probable_prime, is_probable_prime_with_bases, key_source, keypair_from_primes,
    miller_rabin_round, modinv, parse_biguint, KeySource, RsaCipher, RsaKeyPayload, DEFAULT_E,
    MR_ROUNDS,
};
use rust_crypto::error::CryptoError;

fn big(x: u128) -> BigNat {
    BigNat::from_bytes_be(&x.to_be_bytes())
}

fn val(n: &BigNat) -> u128 {
    let bytes = n.to_bytes_be();
    assert!(bytes.len() <= 16);
    bytes.iter().fold(0u128, |acc, b| (acc << 8) | *b as u128)
}

fn signed(x: i128) -> BigSigned {
    BigSigned::from_signed_bytes_be(&x.to_be_bytes())
}

fn ival(n: &BigSigned) -> i128 {
    let bytes = n.to_signed_bytes_be();
    assert!(bytes.len() <= 16);
    let fill = if bytes.first().map_or(false, |b| *b >= 0x80) { 0xffu8 } else { 0 };
    let mut wide = [fill; 16];
    wide[16 - bytes.len()..].copy_from_slice(&bytes);
    i128::from_be_bytes(wide)
}

fn unhex(s: &str) -> Vec<u8> {
    (0..s.len()).step_by(2).map(|i| u8::from_str_radix(&s[i..i + 2], 16).unwrap()).collect()
}

fn payload(n: &str, e: Option<&str>, d: Option<&str>) -> RsaKeyPayload {
    RsaKeyPayload { n: n.to_string(), e: e.map(str::to_string), d: d.map(str::to_string) }
}

#[test]
fn big_numbers_from_and_to_bytes() {
    assert_eq!(BigNat::from_bytes_be(&[0, 0, 1, 2]).to_bytes_be(), vec![1, 2]);
    assert_eq!(BigNat::from_bytes_be(&[]).to_bytes_be(), vec![0]);
    assert_eq!(BigNat::from_bytes_be(&[0, 0]).to_bytes_be(), vec![0]);
    assert_eq!(val(&big(65537)), 65537);
    assert_eq!(val(&big(300).duplicate()), 300);
    assert_eq!(ival(&signed(-1125)), -1125);
    assert_eq!(signed(-1125).to_signed_bytes_be(), vec![251, 155]);
    assert_eq!(ival(&BigSigned::from_signed_bytes_be(&[])), 0);
    assert_eq!(ival(&BigSigned::from_signed_bytes_be(&[0x80])), -128);
    assert_eq!(ival(&signed(77).duplicate()), 77);
}

#[test]
fn primality_of_known_primes() {
    for p in [2u128, 3, 5, 7, 97, 7919, 65537, 2147483647, 18446744073709551557] {
        assert!(is_probable_prime(&big(p), MR_ROUNDS), "{} is prime", p);
    }
    // the prime of the field of secp256k1, 256 bits
    let p256 = unhex("fffffffffffffffffffffffffffffffffffffffffffffffffffffffefffffc2f");
    assert!(is_probable_prime(&BigNat::from_bytes_be(&p256), MR_ROUNDS));
    // 2^255 - 19
    let p255 = unhex("7fffffffffffffffffffffffffffffffffffffffffffffffffffffffffffffed");
    assert!(is_probable_prime(&BigNat::from_bytes_be(&p255), MR_ROUNDS));
}

#[test]
fn primality_of_known_composites() {
    for c in [0u128, 1, 4, 6, 9, 15, 91, 221, 561, 1105, 1729, 2465, 6601, 8911, 41041, 825265] {
        assert!(!is_probable_prime(&big(c), MR_ROUNDS), "{} is not prime", c);
    }
    // a product of two primes of 64 bits
    assert!(!is_probable_prime(&big(18446744073709551557 * 18446744073709551533), MR_ROUNDS));
    // the 256-bit prime plus two
    let c256 = unhex("fffffffffffffffffffffffffffffffffffffffffffffffffffffffefffffc31");
    assert!(!is_probable_prime(&BigNat::from_bytes_be(&c256), MR_ROUNDS));
}

#[test]
fn primality_without_rounds() {
    assert!(is_probable_prime(&big(9), 0));
    assert!(is_probable_prime(&big(561), 0));
    assert!(!is_probable_prime(&big(8), 0));
    assert!(!is_probable_prime(&big(1), 0));
    assert!(is_probable_prime(&big(2), 0));
    assert!(is_probable_prime(&big(3), 0));
}

#[test]
fn miller_rabin_round_with_chosen_bases() {
    // 221 = 13 * 17, and 220 = 55 * 2^2
    let n = big(221);
    let n_minus_one = big(220);
    let d = big(55);
    assert!(miller_rabin_round(&n, &n_minus_one, &d, 2, &big(174)));
    assert!(!miller_rabin_round(&n, &n_minus_one, &d, 2, &big(137)));
    // 174^55 mod 221 = 47 is neither 1 nor 220: without the squaring there is no pass
    assert!(!miller_rabin_round(&n, &n_minus_one, &d, 1, &big(174)));
    assert!(!miller_rabin_round(&n, &n_minus_one, &d, 0, &big(174)));
    // every base passes for a prime: 97 - 1 = 3 * 2^5
    for a in 2..96 {
        assert!(miller_rabin_round(&big(97), &big(96), &big(3), 5, &big(a)));
    }
}

#[test]
fn extended_gcd_known_values() {
    let (g, x, y) = extended_gcd(signed(240), signed(46));
    assert_eq!((ival(&g), ival(&x), ival(&y)), (2, -9, 47));
    let (g, x, y) = extended_gcd(signed(17), signed(0));
    assert_eq!((ival(&g), ival(&x), ival(&y)), (17, 1, 0));
    let (g, x, y) = extended_gcd(signed(0), signed(5));
    assert_eq!((ival(&g), ival(&x), ival(&y)), (5, 0, 1));
    let (g, x, y) = extended_gcd(signed(-3), signed(7));
    assert_eq!(ival(&g), -3 * ival(&x) + 7 * ival(&y));
    assert_eq!(ival(&g), 1);
    for (a, b) in [(65537i128, 3120i128), (3120, 65537), (12, 18), (1, 1), (-12, 18), (12, -18)] {
        let (g, x, y) = extended_gcd(signed(a), signed(b));
        assert_eq!(ival(&g), a * ival(&x) + b * ival(&y));
    }
}

#[test]
fn modular_inverse() {
    assert_eq!(modinv(&signed(3), &signed(11)).map(|d| ival(&d)), Some(4));
    assert_eq!(modinv(&signed(17), &signed(3120)).map(|d| ival(&d)), Some(2753));
    assert_eq!(modinv(&signed(65537), &signed(3120)).map(|d| ival(&d)), Some(2753));
    assert_eq!(modinv(&signed(10), &signed(7)).map(|d| ival(&d)), Some(5));
    assert_eq!(modinv(&signed(1), &signed(1)).map(|d| ival(&d)), Some(0));
    assert_eq!(modinv(&signed(-3), &signed(7)).map(|d| ival(&d)), Some(2));
    assert!(modinv(&signed(2), &signed(4)).is_none());
    assert!(modinv(&signed(0), &signed(5)).is_none());
    assert!(modinv(&signed(6), &signed(9)).is_none());
    // the algorithm ends with -1, not 1
    assert!(modinv(&signed(-1), &signed(3)).is_none());
    for a in 1..97 {
        let d = ival(&modinv(&signed(a), &signed(97)).unwrap());
        assert!(0 <= d && d < 97);
        assert_eq!(a * d % 97, 1);
    }
}

#[test]
fn block_powers() {
    let n = big(3233);
    let c = encrypt_block(&big(65), &big(17), &n);
    assert_eq!(val(&c), 2790);
    assert_eq!(val(&decrypt_block(&c, &big(2753), &n)), 65);
    assert_eq!(val(&encrypt_block(&big(5), &big(0), &big(7))), 1);
    assert_eq!(val(&encrypt_block(&big(5), &big(3), &big(1))), 0);
    assert_eq!(val(&encrypt_block(&big(4), &big(13), &big(497))), 445);
}

#[test]
fn key_pair_from_two_primes() {
    let keys = keypair_from_primes(&big(61), &big(53)).unwrap();
    assert_eq!(val(&keys.public.n), 3233);
    assert_eq!(val(&keys.private.n), 3233);
    assert_eq!(val(&keys.public.e), 65537);
    assert_eq!(val(&keys.private.d), 2753);
    assert!(keypair_from_primes(&big(61), &big(61)).is_none());
    assert!(keypair_from_primes(&big(786433), &big(53)).is_some());
    // 65537 divides p - 1
    assert!(keypair_from_primes(&big(65537 * 6 + 1), &big(53)).is_none());
    // (p - 1) * (q - 1) is zero
    assert!(keypair_from_primes(&big(2), &big(1)).is_none());
    assert!(keypair_from_primes(&big(1), &big(7)).is_none());
    // (p - 1) * (q - 1) is 2, and 65537 is its own inverse modulo 2
    let small = keypair_from_primes(&big(2), &big(3)).unwrap();
    assert_eq!((val(&small.public.n), val(&small.private.d)), (6, 1));
    let copy = keys.clone();
    assert_eq!(val(&copy.private.d), 2753);
}

#[test]
fn prime_candidates_have_the_asked_size() {
    let mut budget = 100_000usize;
    let p = gen_prime(64, &mut budget).expect("a prime of 64 bits within the budget");
    assert!(budget < 100_000);
    let bytes = p.to_bytes_be();
    assert_eq!(bytes.len(), 8);
    assert!(bytes[0] & 0x80 != 0);
    assert!(bytes[7] & 1 == 1);
    assert!(is_probable_prime(&p, MR_ROUNDS));
    let mut budget = 50usize;
    let p = gen_prime(17, &mut budget).expect("a prime of 17 bits within the budget");
    let value = val(&p);
    assert!((1 << 16) <= value && value < (1 << 17) && value % 2 == 1);
    let mut none = 0usize;
    assert!(gen_prime(64, &mut none).is_none());
    let mut small = 40usize;
    assert!(gen_prime(1, &mut small).is_none());
    assert_eq!(small, 0);
    let mut small = 40usize;
    assert!(gen_prime(0, &mut small).is_none());
    assert_eq!(small, 0);
}

#[test]
fn key_generation_limits() {
    for bits in [0usize, 1, 8, 15] {
        match generate_keypair(bits, 1000) {
            Err(CryptoError::InvalidKey(msg)) => {
                assert_eq!(msg, "Długość klucza RSA musi wynosić co najmniej 16 bitów")
            }
            _ => panic!("{} bits were accepted", bits),
        }
    }
    assert!(matches!(generate_keypair(16, 0), Ok(None)));
    assert!(matches!(generate_keypair(512, 1), Ok(None)));
    let keys = generate_keypair(16, 100_000).unwrap().expect("a key pair within the budget");
    let n = val(&keys.public.n);
    assert!((1u128 << 30) <= n && n < (1u128 << 32));
    assert_eq!(val(&keys.public.e), DEFAULT_E as u128);
    assert_eq!(val(&keys.private.n), n);
}

#[test]
fn generated_key_round_trip() {
    let keys = generate_keypair(512, 1_000_000).unwrap().expect("a key pair within the budget");
    let n_bytes = keys.public.n.to_bytes_be();
    assert!(n_bytes.len() == 128 && n_bytes[0] >= 0x40);
    let n = format!("0x{}", rust_crypto::utils::text::hex_encode(&n_bytes));
    let e = format!("0x{}", rust_crypto::utils::text::hex_encode(&keys.public.e.to_bytes_be()));
    let d = format!("0x{}", rust_crypto::utils::text::hex_encode(&keys.private.d.to_bytes_be()));
    let public = RsaCipher::new(&payload(&n, Some(&e), None)).unwrap();
    let private = RsaCipher::new(&payload(&n, None, Some(&d))).unwrap();
    for message in ["a", "hello", "Zażółć gęślą jaźń", "line one\nline two\n"] {
        let secret = public.encrypt(message).unwrap();
        assert!(secret.chars().all(|c| c.is_ascii_digit() || ('a'..='f').contains(&c)));
        assert_eq!(private.decrypt(&secret).unwrap(), message);
        assert_eq!(private.decrypt(&format!("  {}\n", secret)).unwrap(), message);
    }
    let long = "x".repeat(127);
    assert_eq!(private.decrypt(&public.encrypt(&long).unwrap()).unwrap(), long);
    let too_long = "x".repeat(129);
    assert!(matches!(public.encrypt(&too_long), Err(CryptoError::InvalidFormat(_))));
    assert!(matches!(public.decrypt("00"), Err(CryptoError::InvalidKey(_))));
    assert!(matches!(private.encrypt("a"), Err(CryptoError::InvalidKey(_))));
}

#[test]
fn numerals_of_a_key() {
    assert_eq!(val(&parse_biguint("123").unwrap()), 123);
    assert_eq!(val(&parse_biguint("  123\n").unwrap()), 123);
    assert_eq!(val(&parse_biguint("0xff").unwrap()), 255);
    assert_eq!(val(&parse_biguint("0XFf").unwrap()), 255);
    assert_eq!(val(&parse_biguint(" 0x10 ").unwrap()), 16);
    assert_eq!(val(&parse_biguint("0").unwrap()), 0);
    assert_eq!(val(&parse_biguint("007").unwrap()), 7);
    assert_eq!(val(&parse_biguint("+5").unwrap()), 5);
    assert_eq!(val(&parse_biguint("1_000").unwrap()), 1000);
    assert_eq!(val(&parse_biguint("0x+f").unwrap()), 15);
    assert_eq!(
        val(&parse_biguint("340282366920938463463374607431768211455").unwrap()),
        u128::MAX
    );
    for text in ["", " ", "0x", "abc", "12a", "-5", "1 2", "0xg", "++5", "_1", "x10", "1.5", "٣"] {
        match parse_biguint(text) {
            Err(CryptoError::InvalidKey(msg)) => assert_eq!(
                msg,
                format!(
                    "Nie można sparsować wartości liczbowej '{}'. Obsługiwane są zapis dziesiętny oraz szesnastkowy (0x).",
                    text
                )
            ),
            _ => panic!("{:?} was read as a number", text),
        }
    }
}

#[test]
fn cipher_from_payload() {
    assert!(RsaCipher::new(&payload("3233", Some("17"), Some("2753"))).is_ok());
    assert!(RsaCipher::new(&payload("3233", None, None)).is_ok());
    assert!(matches!(
        RsaCipher::new(&payload("n", Some("17"), None)),
        Err(CryptoError::InvalidKey(_))
    ));
    match RsaCipher::new(&payload("x", Some("y"), Some("z"))) {
        Err(CryptoError::InvalidKey(msg)) => assert!(msg.contains("'x'")),
        _ => panic!("a malformed modulus was accepted"),
    }
    match RsaCipher::new(&payload("3233", Some("y"), Some("z"))) {
        Err(CryptoError::InvalidKey(msg)) => assert!(msg.contains("'y'")),
        _ => panic!("a malformed public exponent was accepted"),
    }
    match RsaCipher::new(&payload("3233", Some("17"), Some("z"))) {
        Err(CryptoError::InvalidKey(msg)) => assert!(msg.contains("'z'")),
        _ => panic!("a malformed private exponent was accepted"),
    }
}

#[test]
fn textbook_key_encrypts_and_decrypts() {
    let cipher = RsaCipher::new(&payload("3233", Some("17"), Some("0xac1"))).unwrap();
    // 'A' is 65
    assert_eq!(cipher.encrypt("A").unwrap(), "ae6");
    assert_eq!(cipher.decrypt("ae6").unwrap(), "A");
    assert_eq!(cipher.decrypt(" a e\t6\n").unwrap(), "A");
    assert_eq!(cipher.decrypt("AE6").unwrap(), "A");
    assert_eq!(cipher.decrypt("0_ae6").unwrap(), "A");
    // the empty message is the number zero, which comes back as one zero byte
    assert_eq!(cipher.encrypt("").unwrap(), "0");
    assert_eq!(cipher.decrypt("0").unwrap(), "\0");
}

#[test]
fn oversized_message_is_a_format_error() {
    let cipher = RsaCipher::new(&payload("3233", Some("17"), Some("2753"))).unwrap();
    // "ab" is 0x6162 = 24930
    for message in ["ab", "hello", "\u{c}\u{a1}\u{0}"] {
        match cipher.encrypt(message) {
            Err(CryptoError::InvalidFormat(msg)) => assert_eq!(
                msg,
                "Wiadomość jest większa lub równa modułowi RSA. Użyj większego klucza lub podziel dane na mniejsze bloki."
            ),
            _ => panic!("{:?} was encrypted", message),
        }
    }
    // 3233 = 0x0ca1 itself is refused, 3232 is not
    let cipher = RsaCipher::new(&payload("0x0c22", Some("17"), None)).unwrap();
    assert!(matches!(cipher.encrypt("\u{c}\""), Err(CryptoError::InvalidFormat(_))));
    assert!(cipher.encrypt("\u{c}!").is_ok());
    let zero = RsaCipher::new(&payload("0", Some("17"), Some("1"))).unwrap();
    assert!(matches!(zero.encrypt(""), Err(CryptoError::InvalidFormat(_))));
    assert!(matches!(zero.decrypt("0"), Err(CryptoError::InvalidFormat(_))));
}

#[test]
fn malformed_ciphertexts() {
    let cipher = RsaCipher::new(&payload("3233", Some("17"), Some("2753"))).unwrap();
    for text in ["", "  \n\t", "\u{a0}\u{3000}"] {
        match cipher.decrypt(text) {
            Err(CryptoError::InvalidFormat(msg)) => {
                assert_eq!(msg, "Plik z szyfrogramem jest pusty lub zawiera tylko białe znaki")
            }
            _ => panic!("{:?} was decrypted", text),
        }
    }
    for text in ["xyz", "0x12", "12g", "-1", "_12", "ą"] {
        match cipher.decrypt(text) {
            Err(CryptoError::InvalidFormat(msg)) => {
                assert_eq!(msg, "Nie można sparsować szyfrogramu w formacie heksadecymalnym")
            }
            _ => panic!("{:?} was decrypted", text),
        }
    }
    for text in ["ca1", "ffff", "0000ca1"] {
        match cipher.decrypt(text) {
            Err(CryptoError::InvalidFormat(msg)) => assert_eq!(
                msg,
                "Szyfrogram jest większy lub równy modułowi RSA. Dane są uszkodzone lub klucz jest niepoprawny."
            ),
            _ => panic!("{:?} was decrypted", text),
        }
    }
    // 200^17 mod 3233 decrypts to the byte 200, which is no text
    let c = encrypt_block(&big(200), &big(17), &big(3233));
    let hex = format!("{:x}", val(&c));
    match cipher.decrypt(&hex) {
        Err(CryptoError::InvalidFormat(msg)) => assert_eq!(
            msg,
            "Odszyfrowany tekst nie jest poprawnym UTF-8. Upewnij się, że szyfrowany plik zawierał tekst."
        ),
        _ => panic!("bytes that are no text were accepted"),
    }
    let public_only = RsaCipher::new(&payload("3233", Some("17"), None)).unwrap();
    match public_only.decrypt("ae6") {
        Err(CryptoError::InvalidKey(msg)) => {
            assert_eq!(msg, "Klucz prywatny RSA musi zawierać pole 'd' (eksponent prywatny)")
        }
        _ => panic!("decrypted without a private exponent"),
    }
    let private_only = RsaCipher::new(&payload("3233", None, Some("2753"))).unwrap();
    match private_only.encrypt("A") {
        Err(CryptoError::InvalidKey(msg)) => {
            assert_eq!(msg, "Klucz publiczny RSA musi zawierać pole 'e' (eksponent publiczny)")
        }
        _ => panic!("encrypted without a public exponent"),
    }
}

#[test]
fn key_given_in_place_or_by_file() {
    match key_source("  {\"n\": \"5\"}\n") {
        KeySource::Inline(json) => assert_eq!(json, "{\"n\": \"5\"}"),
        KeySource::File(_) => panic!("a JSON object was taken for a path"),
    }
    match key_source(" keys/rsa.json ") {
        KeySource::File(path) => assert_eq!(path, "keys/rsa.json"),
        KeySource::Inline(_) => panic!("a path was taken for a JSON object"),
    }
    assert!(matches!(key_source(""), KeySource::File(_)));
    assert!(matches!(key_source("x{"), KeySource::File(_)));
}

#[test]
fn primality_with_chosen_bases() {
    // 174 lets 221 = 13 * 17 pass, 137 does not
    assert!(is_probable_prime_with_bases(&big(221), &[big(174)]));
    assert!(is_probable_prime_with_bases(&big(221), &[big(174), big(174)]));
    assert!(!is_probable_prime_with_bases(&big(221), &[big(137)]));
    assert!(!is_probable_prime_with_bases(&big(221), &[big(174), big(137)]));
    assert!(!is_probable_prime_with_bases(&big(221), &[big(137), big(174)]));
    assert!(!is_probable_prime_with_bases(&big(221), &[big(174), big(174), big(137)]));
    assert!(is_probable_prime_with_bases(&big(221), &[]));
    // 2 is a base that shows 91 and 561 to be composite
    assert!(!is_probable_prime_with_bases(&big(91), &[big(2)]));
    assert!(!is_probable_prime_with_bases(&big(561), &[big(2)]));
    // a prime passes with every base
    let bases: Vec<BigNat> = (2..96).map(big).collect();
    assert!(is_probable_prime_with_bases(&big(97), &bases));
    // small and even numbers are decided without a base
    for (n, expected) in [(0u128, false), (1, false), (2, true), (3, true), (4, false), (100, false)]
    {
        assert_eq!(is_probable_prime_with_bases(&big(n), &[]), expected);
        assert_eq!(is_probable_prime_with_bases(&big(n), &[big(2)]), expected);
    }
}

#[test]
fn candidates_from_drawn_numbers() {
    assert_eq!(val(&candidate_from(&big(0), 8)), 0x81);
    assert_eq!(val(&candidate_from(&big(0x7e), 8)), 0xff);
    assert_eq!(val(&candidate_from(&big(0x81), 8)), 0x81);
    assert_eq!(val(&candidate_from(&big(0x1234), 16)), 0x9235);
    assert_eq!(val(&candidate_from(&big(0), 2)), 3);
    assert_eq!(val(&candidate_from(&big(0), 1)), 1);
    assert_eq!(val(&candidate_from(&big(1), 1)), 1);
    assert_eq!(val(&candidate_from(&big(0), 0)), 1);
    assert_eq!(val(&candidate_from(&big(0), 65)), (1 << 64) | 1);
}

#[test]
fn decimal_digits_of_numbers() {
    assert_eq!(big(0).to_decimal(), "0");
    assert_eq!(big(7).to_decimal(), "7");
    assert_eq!(big(65537).to_decimal(), "65537");
    assert_eq!(big(u128::MAX).to_decimal(), "340282366920938463463374607431768211455");
    assert_eq!(BigNat::from_bytes_be(&[0, 0, 1, 0]).to_decimal(), "256");
}

#[test]
fn exponents_of_a_key() {
    let both = RsaCipher::new(&payload("3233", Some("17"), Some("2753"))).unwrap();
    assert!(both.has_public_exponent() && both.has_private_exponent());
    let public = RsaCipher::new(&payload("3233", Some("17"), None)).unwrap();
    assert!(public.has_public_exponent() && !public.has_private_exponent());
    let private = RsaCipher::new(&payload("3233", None, Some("2753"))).unwrap();
    assert!(!private.has_public_exponent() && private.has_private_exponent());
    let none = RsaCipher::new(&payload("3233", None, None)).unwrap();
    assert!(!none.has_public_exponent() && !none.has_private_exponent());
    assert!(both.require_public_components().is_ok());
    assert!(both.require_private_components().is_ok());
    match none.require_public_components() {
        Err(CryptoError::InvalidKey(msg)) => {
            assert_eq!(msg, "Klucz publiczny RSA musi zawierać pole 'e' (eksponent publiczny)")
        }
        _ => panic!("a key without a public exponent was accepted"),
    }
    match none.require_private_components() {
        Err(CryptoError::InvalidKey(msg)) => {
            assert_eq!(msg, "Klucz prywatny RSA musi zawierać pole 'd' (eksponent prywatny)")
        }
        _ => panic!("a key without a private exponent was accepted"),
    }
}
