use rust_crypto::algorithms::caesar::{caesar_shift, decrypt, encrypt, parse_i8, CaesarCipher};
use rust_crypto::algorithms::running_key_cipher::{count_letters, RunningKeyCipher};
use rust_crypto::algorithms::vigenere::{
    contains_letter, shift_char, vigenere, Operation, VigenereCipher,
};
use rust_crypto::error::CryptoError;

#[test]
fn caesar_shift_letters_and_others() {
    assert_eq!(caesar_shift('a', 1), 'b');
    assert_eq!(caesar_shift('z', 1), 'a');
    assert_eq!(caesar_shift('Z', 3), 'C');
    assert_eq!(caesar_shift('a', -1), 'z');
    assert_eq!(caesar_shift('A', -128), 'C');
    assert_eq!(caesar_shift('z', 102), 'x');
    assert_eq!(caesar_shift('!', 5), '!');
    assert_eq!(caesar_shift('ż', 5), 'ż');
    assert_eq!(caesar_shift('5', 127), '5');
}

#[test]
fn caesar_text_round_trip() {
    assert_eq!(encrypt("Hello, World!", 3), "Khoor, Zruog!");
    assert_eq!(decrypt("Khoor, Zruog!", 3), "Hello, World!");
    assert_eq!(encrypt("abc xyz", 26), "abc xyz");
    assert_eq!(encrypt("Zażółć gęślą jaźń", 1), "Abżółć hęśmą kbźń");
    assert_eq!(encrypt("abc", 255), "zab");
    assert_eq!(decrypt("zab", 255), "abc");
    assert_eq!(encrypt("", 7), "");
}

#[test]
fn caesar_cipher_keys() {
    let cipher = CaesarCipher::new("3").unwrap();
    assert_eq!(cipher.encrypt("Hello, World!"), "Khoor, Zruog!");
    assert_eq!(cipher.decrypt("Khoor, Zruog!"), "Hello, World!");
    assert!(CaesarCipher::new("+25").is_ok());
    assert!(CaesarCipher::new("1").is_ok());
    for key in ["0", "26", "-3", "100", "-128"] {
        match CaesarCipher::new(key) {
            Err(CryptoError::InvalidKey(msg)) => {
                assert_eq!(msg, "Klucz musi być w zakresie od 1 do 25")
            }
            _ => panic!("key {:?} was accepted", key),
        }
    }
    for key in ["", "abc", "3.5", " 3", "128", "1000"] {
        match CaesarCipher::new(key) {
            Err(CryptoError::InvalidKey(msg)) => {
                assert_eq!(msg, "Klucz musi być liczbą całkowitą od 1 do 25")
            }
            _ => panic!("key {:?} was accepted", key),
        }
    }
    match CaesarCipher::from_parsed(Some(25)) {
        Ok(cipher) => assert_eq!(cipher.encrypt("b"), "a"),
        Err(_) => panic!("25 is a key"),
    }
    assert!(CaesarCipher::from_parsed(Some(26)).is_err());
    assert!(CaesarCipher::from_parsed(None).is_err());
}

#[test]
fn vigenere_known_text() {
    assert_eq!(vigenere("ATTACKATDAWN", "LEMON", &Operation::Encrypt), "LXFOPVEFRNHR");
    assert_eq!(vigenere("LXFOPVEFRNHR", "LEMON", &Operation::Decrypt), "ATTACKATDAWN");
    assert_eq!(vigenere("Attack at dawn!", "lemon", &Operation::Encrypt), "Lxfopv ef rnhr!");
    assert_eq!(vigenere("Lxfopv ef rnhr!", "L-e m0o_n", &Operation::Decrypt), "Attack at dawn!");
    assert_eq!(vigenere("unchanged", "123", &Operation::Encrypt), "unchanged");
    assert_eq!(vigenere("unchanged", "", &Operation::Decrypt), "unchanged");
    assert_eq!(vigenere("zażółć", "b", &Operation::Encrypt), "abżółć");
    assert_eq!(vigenere("", "key", &Operation::Encrypt), "");
}

#[test]
fn vigenere_shift_char() {
    assert_eq!(shift_char('a', 1, &Operation::Encrypt), 'b');
    assert_eq!(shift_char('a', 1, &Operation::Decrypt), 'z');
    assert_eq!(shift_char('Z', 25, &Operation::Encrypt), 'Y');
    assert_eq!(shift_char('Z', 0, &Operation::Decrypt), 'Z');
    assert_eq!(shift_char('m', -128, &Operation::Encrypt), 'o');
}

#[test]
fn vigenere_cipher_keys() {
    let cipher = VigenereCipher::new("kot").unwrap();
    let secret = cipher.encrypt("Ala ma kota.");
    assert_eq!(secret, "Kzt wo dyht.");
    assert_eq!(cipher.decrypt(&secret), "Ala ma kota.");
    for key in ["", "123", " - ", "żółć"] {
        match VigenereCipher::new(key) {
            Err(CryptoError::InvalidKey(msg)) => {
                assert_eq!(msg, "Klucz musi zawierać co najmniej jedną literę alfabetu")
            }
            _ => panic!("key {:?} was accepted", key),
        }
    }
    assert!(contains_letter("12a"));
    assert!(!contains_letter("12ą"));
}

#[test]
fn running_key_needs_enough_letters() {
    assert_eq!(count_letters("a1b2 c3!"), 3);
    assert_eq!(count_letters(""), 0);
    assert_eq!(count_letters("żółw"), 1);
    let text = "Meet me at noon";
    let cipher = RunningKeyCipher::new("the quick brown fox", text).unwrap();
    let secret = cipher.encrypt(text);
    assert_eq!(secret, "Flij gm cd ofcj");
    assert_eq!(cipher.decrypt(&secret), text);
    assert!(RunningKeyCipher::new("abcdefghijkl", text).is_ok());
    match RunningKeyCipher::new("abcdefghijk", text) {
        Err(CryptoError::KeyTooShort(msg)) => {
            assert_eq!(msg, "Klucz musi być co najmniej tak długi jak tekst")
        }
        _ => panic!("a short key was accepted"),
    }
    match RunningKeyCipher::new("12345", "") {
        Err(CryptoError::InvalidKey(msg)) => {
            assert_eq!(msg, "Klucz musi zawierać co najmniej jedną literę alfabetu")
        }
        _ => panic!("a key without letters was accepted"),
    }
}

#[test]
fn error_messages() {
    assert_eq!(
        CryptoError::InvalidKey("zły".to_string()).message(),
        "Nieprawidłowy klucz: zły"
    );
    assert_eq!(
        CryptoError::FileNotFound("a.txt".to_string()).message(),
        "Nie znaleziono pliku: a.txt"
    );
    assert_eq!(CryptoError::FileReadError("x".to_string()).message(), "Błąd odczytu pliku: x");
    assert_eq!(CryptoError::FileWriteError("x".to_string()).message(), "Błąd zapisu pliku: x");
    assert_eq!(
        CryptoError::UnsupportedAlgorithm("rot13".to_string()).message(),
        "Nieobsługiwany algorytm: rot13"
    );
    assert_eq!(CryptoError::KeyTooShort("x".to_string()).message(), "Klucz jest za krótki: x");
    assert_eq!(CryptoError::IoError("x".to_string()).message(), "Błąd wejścia/wyjścia: x");
    assert_eq!(CryptoError::DecryptionError("x".to_string()).message(), "Błąd deszyfrowania: x");
    assert_eq!(
        CryptoError::InvalidFormat("x".to_string()).message(),
        "Nieprawidłowy format danych: x"
    );
    assert_eq!(CryptoError::LogError("".to_string()).message(), "Błąd logowania: ");
}

#[test]
fn numbers_of_one_byte() {
    assert_eq!(parse_i8("0"), Some(0));
    assert_eq!(parse_i8("7"), Some(7));
    assert_eq!(parse_i8("+7"), Some(7));
    assert_eq!(parse_i8("-7"), Some(-7));
    assert_eq!(parse_i8("-0"), Some(0));
    assert_eq!(parse_i8("007"), Some(7));
    assert_eq!(parse_i8("127"), Some(127));
    assert_eq!(parse_i8("-128"), Some(-128));
    assert_eq!(parse_i8("0000000000000000000000127"), Some(127));
    for text in [
        "", "+", "-", "128", "-129", "1000", "99999999999999999999", "1a", "a1", " 1", "1 ", "+-1",
        "--1", "1-", "1_0", "１", "0x10", "1.0",
    ] {
        assert_eq!(parse_i8(text), None, "{:?}", text);
        assert_eq!(parse_i8(text), text.parse::<i8>().ok(), "{:?}", text);
    }
    for value in i8::MIN..=i8::MAX {
        assert_eq!(parse_i8(&value.to_string()), Some(value));
    }
    for value in -300i32..=300 {
        assert_eq!(parse_i8(&value.to_string()), value.to_string().parse::<i8>().ok());
    }
}
