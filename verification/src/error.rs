use vstd::prelude::*;
use vstd::string::StringExecFns;

verus! {

/// The failures that the ciphers and their callers report, each with the
/// detail that belongs to it.
#[derive(Debug)]
pub enum CryptoError {
    FileNotFound(String),
    FileReadError(String),
    FileWriteError(String),
    InvalidKey(String),
    UnsupportedAlgorithm(String),
    KeyTooShort(String),
    IoError(String),
    DecryptionError(String),
    InvalidFormat(String),
    LogError(String),
}

impl CryptoError {
    /// The detail that the error carries.
    pub open spec fn detail(&self) -> Seq<char> {
        match self {
            CryptoError::FileNotFound(s) => s@,
            CryptoError::FileReadError(s) => s@,
            CryptoError::FileWriteError(s) => s@,
            CryptoError::InvalidKey(s) => s@,
            CryptoError::UnsupportedAlgorithm(s) => s@,
            CryptoError::KeyTooShort(s) => s@,
            CryptoError::IoError(s) => s@,
            CryptoError::DecryptionError(s) => s@,
            CryptoError::InvalidFormat(s) => s@,
            CryptoError::LogError(s) => s@,
        }
    }

    /// The words that introduce the detail of each kind of error.
    pub open spec fn prefix(&self) -> Seq<char> {
        match self {
            CryptoError::FileNotFound(_) => "Nie znaleziono pliku: "@,
            CryptoError::FileReadError(_) => "Błąd odczytu pliku: "@,
            CryptoError::FileWriteError(_) => "Błąd zapisu pliku: "@,
            CryptoError::InvalidKey(_) => "Nieprawidłowy klucz: "@,
            CryptoError::UnsupportedAlgorithm(_) => "Nieobsługiwany algorytm: "@,
            CryptoError::KeyTooShort(_) => "Klucz jest za krótki: "@,
            CryptoError::IoError(_) => "Błąd wejścia/wyjścia: "@,
            CryptoError::DecryptionError(_) => "Błąd deszyfrowania: "@,
            CryptoError::InvalidFormat(_) => "Nieprawidłowy format danych: "@,
            CryptoError::LogError(_) => "Błąd logowania: "@,
        }
    }

    /// The text shown to the user: the prefix of the kind, then the detail.
    pub fn message(&self) -> (text: String)
        ensures
            text@ == self.prefix() + self.detail(),
    {
        match self {
            CryptoError::FileNotFound(path) => String::from_str("Nie znaleziono pliku: ").concat(
                path.as_str(),
            ),
            CryptoError::FileReadError(msg) => String::from_str("Błąd odczytu pliku: ").concat(
                msg.as_str(),
            ),
            CryptoError::FileWriteError(msg) => String::from_str("Błąd zapisu pliku: ").concat(
                msg.as_str(),
            ),
            CryptoError::InvalidKey(msg) => String::from_str("Nieprawidłowy klucz: ").concat(
                msg.as_str(),
            ),
            CryptoError::UnsupportedAlgorithm(algo) => String::from_str(
                "Nieobsługiwany algorytm: ",
            ).concat(algo.as_str()),
            CryptoError::KeyTooShort(msg) => String::from_str("Klucz jest za krótki: ").concat(
                msg.as_str(),
            ),
            CryptoError::IoError(err) => String::from_str("Błąd wejścia/wyjścia: ").concat(
                err.as_str(),
            ),
            CryptoError::DecryptionError(msg) => String::from_str("Błąd deszyfrowania: ").concat(
                msg.as_str(),
            ),
            CryptoError::InvalidFormat(msg) => String::from_str(
                "Nieprawidłowy format danych: ",
            ).concat(msg.as_str()),
            CryptoError::LogError(msg) => String::from_str("Błąd logowania: ").concat(
                msg.as_str(),
            ),
        }
    }
}

} // verus!
