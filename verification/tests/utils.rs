use rust_crypto::adapter::{AlgorithmAdapter, AlgorithmKind};
use rust_crypto::error::CryptoError;
use rust_crypto::utils::file_handler::{
    create_output_path_with_suffix, original_file_name, remove_all,
};
use rust_crypto::utils::logger::{
    clear_logs, export_file_name, export_logs, get_logs, log, LogEntry, LogLevel, Logger,
};
use rust_crypto::utils::text::{
    ascii_letter, char_is_whitespace, hex_decode, hex_digit, hex_encode, hex_value,
    remove_whitespace, str_trim, u8_decimal,
};

#[test]
fn output_names() {
    assert_eq!(create_output_path_with_suffix("notes", "txt", "_encrypted"), "notes_encrypted.txt");
    assert_eq!(create_output_path_with_suffix("notes", "", "_decrypted"), "notes_decrypted");
    assert_eq!(
        create_output_path_with_suffix("archive.tar", "gz", "_encrypted"),
        "archive.tar_encrypted.gz"
    );
    assert_eq!(create_output_path_with_suffix("", "", ""), "");
}

#[test]
fn original_names() {
    assert_eq!(original_file_name("notes_encrypted", "txt"), "notes.txt");
    assert_eq!(original_file_name("notes_encrypted", ""), "notes");
    assert_eq!(original_file_name("notes", "txt"), "notes.txt");
    assert_eq!(original_file_name("a_encrypted_encrypted", "md"), "a.md");
    assert_eq!(original_file_name("_encrypte_encryptedd", "x"), "_encrypted.x");
    assert_eq!(original_file_name("_encrypted", ""), "");
}

#[test]
fn algorithm_names() {
    assert!(matches!(AlgorithmAdapter::resolve("caesar-cipher"), Ok(AlgorithmKind::Caesar)));
    assert!(matches!(AlgorithmAdapter::resolve("vigenere-cipher"), Ok(AlgorithmKind::Vigenere)));
    assert!(matches!(AlgorithmAdapter::resolve("rsa"), Ok(AlgorithmKind::Rsa)));
    assert!(matches!(
        AlgorithmAdapter::resolve("running-key-cipher"),
        Ok(AlgorithmKind::RunningKey)
    ));
    assert!(matches!(AlgorithmAdapter::resolve("aes-gcm"), Ok(AlgorithmKind::AesGcm)));
    for name in ["", "RSA", "aes", "rot13", " rsa"] {
        match AlgorithmAdapter::resolve(name) {
            Err(CryptoError::UnsupportedAlgorithm(algorithm)) => assert_eq!(algorithm, name),
            _ => panic!("{:?} names no algorithm", name),
        }
    }
}

#[test]
fn log_lines() {
    let entry = LogEntry::at("2024-05-06 07:08:09".to_string(), LogLevel::WARN, "AES-GCM", "tag ok");
    assert_eq!(entry.format(), "[2024-05-06 07:08:09] [WARN] [AES-GCM] tag ok");
    assert_eq!(entry.duplicate().format(), entry.format());
    assert_eq!(LogLevel::INFO.label(), "INFO");
    assert_eq!(LogLevel::WARN.label(), "WARN");
    assert_eq!(LogLevel::ERROR.label(), "ERROR");
    let now = LogEntry::new(LogLevel::ERROR, "here", "now");
    assert_eq!(now.context, "here");
    assert_eq!(now.message, "now");
    assert_eq!(now.timestamp.len(), 19);
    assert!(now.format().ends_with("] [ERROR] [here] now"));
}

#[test]
fn log_grows_and_clears() {
    let mut logger = Logger::new();
    assert_eq!(get_logs(&logger).len(), 0);
    assert_eq!(logger.export_content(), "");
    logger.push(LogEntry::at("t1".to_string(), LogLevel::INFO, "a", "first"));
    logger.push(LogEntry::at("t2".to_string(), LogLevel::ERROR, "b", "second"));
    assert_eq!(logger.export_content(), "[t1] [INFO] [a] first\n[t2] [ERROR] [b] second\n");
    log(&mut logger, LogLevel::WARN, "c", "third");
    let entries = get_logs(&logger);
    assert_eq!(entries.len(), 3);
    assert_eq!(entries[1].message, "second");
    assert_eq!(entries[2].context, "c");
    assert_eq!(entries[2].message, "third");
    let (name, content) = export_logs(&logger, "out/run");
    assert!(name.starts_with("out/run_") && name.ends_with(".log"));
    assert_eq!(name.len(), "out/run_".len() + 15 + ".log".len());
    assert_eq!(content, logger.export_content());
    assert_eq!(content.lines().count(), 3);
    assert_eq!(export_file_name("logs", "20240506_070809"), "logs_20240506_070809.log");
    clear_logs(&mut logger);
    assert_eq!(get_logs(&logger).len(), 0);
    assert_eq!(logger.export_content(), "");
}

#[test]
fn hexadecimal_text() {
    assert_eq!(hex_encode(&[0x00, 0x0f, 0xa0, 0xff]), "000fa0ff");
    assert_eq!(hex_encode(&[]), "");
    assert_eq!(hex_decode("000fa0ff"), Some(vec![0x00, 0x0f, 0xa0, 0xff]));
    assert_eq!(hex_decode("000FA0Ff"), Some(vec![0x00, 0x0f, 0xa0, 0xff]));
    assert_eq!(hex_decode(""), Some(vec![]));
    for text in ["0", "abc", "0g", "g0", " 00", "00 ", "0x00", "ąą"] {
        assert_eq!(hex_decode(text), None);
    }
    let all: Vec<u8> = (0..=255).collect();
    assert_eq!(hex_decode(&hex_encode(&all)), Some(all));
    assert_eq!(hex_digit(0), '0');
    assert_eq!(hex_digit(9), '9');
    assert_eq!(hex_digit(10), 'a');
    assert_eq!(hex_digit(15), 'f');
    assert_eq!(hex_value('7'), Some(7));
    assert_eq!(hex_value('c'), Some(12));
    assert_eq!(hex_value('C'), Some(12));
    assert_eq!(hex_value('g'), None);
    assert_eq!(hex_value('/'), None);
}

#[test]
fn small_text_helpers() {
    assert_eq!(u8_decimal(0), "0");
    assert_eq!(u8_decimal(7), "7");
    assert_eq!(u8_decimal(10), "10");
    assert_eq!(u8_decimal(99), "99");
    assert_eq!(u8_decimal(100), "100");
    assert_eq!(u8_decimal(205), "205");
    assert_eq!(u8_decimal(255), "255");
    assert_eq!(remove_whitespace(" a b\tc\nd\u{a0}e\u{3000}f "), "abcdef");
    assert_eq!(remove_whitespace(""), "");
    assert_eq!(remove_whitespace("\u{200b}x"), "\u{200b}x");
    assert!(ascii_letter('a') && ascii_letter('Z'));
    assert!(!ascii_letter('ż') && !ascii_letter('1') && !ascii_letter('[') && !ascii_letter('`'));
}

#[test]
fn white_space_is_what_unicode_says() {
    for code in 0..=0x10ffffu32 {
        if let Some(c) = char::from_u32(code) {
            assert_eq!(char_is_whitespace(c), c.is_whitespace(), "U+{:04X}", code);
        }
    }
}

#[test]
fn trimming() {
    for text in [
        "",
        " ",
        "a",
        " a",
        "a ",
        "  a b  ",
        "\t\n x \r\n",
        "\u{a0}x\u{3000}",
        "\u{200b} x \u{200b}",
        " \u{2028}\u{2029} ",
        "ż ó ł ć",
        "  {\"n\": 1}  ",
    ] {
        assert_eq!(str_trim(text), text.trim(), "{:?}", text);
    }
}

#[test]
fn taking_out_a_pattern() {
    for (text, pattern) in [
        ("notes_encrypted", "_encrypted"),
        ("", "_encrypted"),
        ("_encrypted", "_encrypted"),
        ("_encrypte", "_encrypted"),
        ("a_encrypted_encryptedb_encrypted", "_encrypted"),
        ("aaaa", "aa"),
        ("aaaaa", "aa"),
        ("ababab", "aba"),
        ("abc", ""),
        ("żółć żółw", "żó"),
        ("abc", "abcd"),
    ] {
        assert_eq!(remove_all(text, pattern), text.replace(pattern, ""), "{:?} {:?}", text, pattern);
    }
}
