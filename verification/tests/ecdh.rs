use rust_crypto::algorithms::ecdh::{EcdhError, PrivateKey, PublicKeyBytes};

fn unhex(s: &str) -> Vec<u8> {
    (0..s.len()).step_by(2).map(|i| u8::from_str_radix(&s[i..i + 2], 16).unwrap()).collect()
}

const ALICE_SECRET: &str = "77076d0a7318a57d3c16c17251b26645df4c2f87ebc0992ab177fba51db92c2a";
const ALICE_PUBLIC: &str = "8520f0098930a754748b7ddcb43ef75a0dbf3a0d26381af4eba4a98eaa9b4e6a";
const BOB_SECRET: &str = "5dab087e624a8a4b79e17f8b83800ee66f3bb1292618b6fd1c2f8b27ff88e0eb";
const BOB_PUBLIC: &str = "de9edb7d7b7dc1b4d35b61c2ece435373f8343c85b78674dadfc7e146f882b4f";
const SHARED: &str = "4a5d9d5ba4ce2de1728e3bf480350f25e07e21c947d19e3376f09b3c1e161742";

fn private(hex: &str) -> PrivateKey {
    match PrivateKey::from_bytes(&unhex(hex)) {
        Ok(key) => key,
        Err(_) => panic!("32 bytes are a secret"),
    }
}

fn public(hex: &str) -> PublicKeyBytes {
    match PublicKeyBytes::from_bytes(&unhex(hex)) {
        Ok(key) => key,
        Err(_) => panic!("32 bytes are a public key"),
    }
}

#[test]
fn public_keys_of_known_secrets() {
    assert_eq!(private(ALICE_SECRET).public_key().as_bytes().to_vec(), unhex(ALICE_PUBLIC));
    assert_eq!(private(BOB_SECRET).public_key().as_bytes().to_vec(), unhex(BOB_PUBLIC));
}

#[test]
fn shared_secret_of_known_keys() {
    let alice = private(ALICE_SECRET);
    let bob = private(BOB_SECRET);
    let one = alice.compute_shared_secret(&public(BOB_PUBLIC));
    let other = bob.compute_shared_secret(&public(ALICE_PUBLIC));
    assert_eq!(one.ok().unwrap().to_vec(), unhex(SHARED));
    assert_eq!(other.ok().unwrap().to_vec(), unhex(SHARED));
}

#[test]
fn generated_pairs_agree() {
    let (alice, alice_public) = PrivateKey::generate();
    let (bob, bob_public) = PrivateKey::generate();
    assert_ne!(alice_public.as_bytes(), bob_public.as_bytes());
    assert_eq!(alice.public_key().as_bytes(), alice_public.as_bytes());
    let one = alice.compute_shared_secret(&bob_public).ok().unwrap();
    let other = bob.compute_shared_secret(&alice_public).ok().unwrap();
    assert_eq!(one, other);
    assert_ne!(one, [0u8; 32]);
}

#[test]
fn keys_in_base64() {
    let zeros = PublicKeyBytes::from_bytes(&[0u8; 32]).ok().unwrap();
    assert_eq!(zeros.to_base64(), "AAAAAAAAAAAAAAAAAAAAAAAAAAAAAAAAAAAAAAAAAAA=");
    let alice = public(ALICE_PUBLIC);
    assert_eq!(alice.to_base64(), "hSDwCYkwp1R0i33ctD73Wg2/Og0mOBr066SpjqqbTmo=");
    let back = PublicKeyBytes::from_base64(&alice.to_base64()).ok().unwrap();
    assert_eq!(back.as_bytes(), alice.as_bytes());
    let secret = private(ALICE_SECRET);
    assert_eq!(secret.to_base64(), "dwdtCnMYpX08FsFyUbJmRd9ML4frwJkqsXf7pR25LCo=");
    let again = PrivateKey::from_base64(&secret.to_base64()).ok().unwrap();
    assert_eq!(again.public_key().as_bytes().to_vec(), unhex(ALICE_PUBLIC));
}

#[test]
fn malformed_keys() {
    assert!(matches!(PublicKeyBytes::from_base64("not base64!"), Err(EcdhError::InvalidKeyFormat)));
    assert!(matches!(PublicKeyBytes::from_base64("AAAA"), Err(EcdhError::InvalidPublicKey)));
    assert!(matches!(PublicKeyBytes::from_base64(""), Err(EcdhError::InvalidPublicKey)));
    assert!(matches!(PrivateKey::from_base64("not base64!"), Err(EcdhError::InvalidKeyFormat)));
    assert!(matches!(PrivateKey::from_base64("AAAA"), Err(EcdhError::InvalidKeyFormat)));
    assert!(matches!(PublicKeyBytes::from_bytes(&[0u8; 31]), Err(EcdhError::InvalidPublicKey)));
    assert!(matches!(PublicKeyBytes::from_bytes(&[0u8; 33]), Err(EcdhError::InvalidPublicKey)));
    assert!(matches!(PrivateKey::from_bytes(&[0u8; 31]), Err(EcdhError::InvalidKeyFormat)));
    assert_eq!(EcdhError::InvalidPublicKey.message(), "Invalid public key length");
    assert_eq!(EcdhError::InvalidKeyFormat.message(), "Invalid key format");
    assert_eq!(EcdhError::KdfError.message(), "HKDF error");
}

#[test]
fn derived_key_of_known_input() {
    let ikm = [0x0bu8; 22];
    let salt = unhex("000102030405060708090a0b0c");
    let info = unhex("f0f1f2f3f4f5f6f7f8f9");
    let key = PrivateKey::derive_key(&ikm, Some(&salt), Some(&info)).ok().unwrap();
    assert_eq!(
        key.to_vec(),
        unhex("3cb25f25faacd57a90434f64d0362f2a2d2d0a90cf1a5a4c5db02d56ecc4c5bf")
    );
    let plain = PrivateKey::derive_key(&ikm, None, None).ok().unwrap();
    assert_eq!(
        plain.to_vec(),
        unhex("8da4e775a563c18f715f802a063c5a31b8a11f5c5ee1879ec3454e5f3c738d2d")
    );
    let empty_info = PrivateKey::derive_key(&ikm, None, Some(&[])).ok().unwrap();
    assert_eq!(plain, empty_info);
    assert_ne!(plain, key);
}
