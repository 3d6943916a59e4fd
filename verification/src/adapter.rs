use crate::error::CryptoError;
use vstd::prelude::*;
use vstd::string::StringExecFns;

verus! {

/// Chooses a cipher by its name.
pub struct AlgorithmAdapter;

/// The ciphers that have a name.
#[derive(Clone, Copy, Debug, PartialEq, Eq, Structural)]
pub enum AlgorithmKind {
    Caesar,
    Vigenere,
    Rsa,
    RunningKey,
    AesGcm,
}

/// The cipher that a name stands for.
pub open spec fn spec_resolve(algorithm: Seq<char>) -> Option<AlgorithmKind> {
    if algorithm == "caesar-cipher"@ {
        Some(AlgorithmKind::Caesar)
    } else if algorithm == "vigenere-cipher"@ {
        Some(AlgorithmKind::Vigenere)
    } else if algorithm == "rsa"@ {
        Some(AlgorithmKind::Rsa)
    } else if algorithm == "running-key-cipher"@ {
        Some(AlgorithmKind::RunningKey)
    } else if algorithm == "aes-gcm"@ {
        Some(AlgorithmKind::AesGcm)
    } else {
        None
    }
}

/// Whether two texts are the same.
fn same_text(a: &str, b: &str) -> (same: bool)
    ensures
        same == (a@ == b@),
{
    String::from_str(a) == String::from_str(b)
}

impl AlgorithmAdapter {
    /// The cipher that a name stands for; any other name is an unsupported
    /// algorithm.
    pub fn resolve(algorithm: &str) -> (result: Result<AlgorithmKind, CryptoError>)
        ensures
            match spec_resolve(algorithm@) {
                Some(kind) => result matches Ok(k) && k == kind,
                None => result matches Err(CryptoError::UnsupportedAlgorithm(name)) && name@
                    == algorithm@,
            },
    {
        if same_text(algorithm, "caesar-cipher") {
            Ok(AlgorithmKind::Caesar)
        } else if same_text(algorithm, "vigenere-cipher") {
            Ok(AlgorithmKind::Vigenere)
        } else if same_text(algorithm, "rsa") {
            Ok(AlgorithmKind::Rsa)
        } else if same_text(algorithm, "running-key-cipher") {
            Ok(AlgorithmKind::RunningKey)
        } else if same_text(algorithm, "aes-gcm") {
            Ok(AlgorithmKind::AesGcm)
        } else {
            Err(CryptoError::UnsupportedAlgorithm(String::from_str(algorithm)))
        }
    }
}

} // verus!
