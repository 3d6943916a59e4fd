pub mod aes;
pub mod aes_constants;
pub mod aes_helpers;
pub mod aes_laws;
pub mod bignum;
pub mod caesar;
pub mod ecdh;
pub mod number_theory;
pub mod primes;
pub mod rsa;
pub mod rsa_laws;
pub mod running_key_cipher;
pub mod vigenere;
