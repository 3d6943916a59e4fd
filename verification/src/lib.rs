//! Cryptographic primitives with machine-checked contracts: AES-128 in
//! Galois/Counter Mode, RSA with key generation by the Miller–Rabin test,
//! X25519 key agreement, and three classical ciphers. Every function states
//! what it returns over a mathematical model of its data, and Verus proves
//! the body against that statement; calls into other crates stand behind
//! wrappers whose contracts are believed and say so.

pub mod adapter;
pub mod algorithms;
pub mod error;
pub mod utils;
