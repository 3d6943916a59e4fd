use crate::algorithms::vigenere::{
    contains_letter, has_letter, letter_count, letters_before, spec_vigenere, vigenere, Operation,
};
use crate::error::CryptoError;
use crate::utils::text::ascii_letter;
use vstd::prelude::*;
use vstd::string::{StrSliceExecFns, StringExecFns};

verus! {

/// The running-key cipher: a Vigenère cipher whose key has at least as many
/// letters as the text it was made for.
pub struct RunningKeyCipher {
    key: String,
}

/// The number of ASCII letters in the text.
pub fn count_letters(text: &str) -> (count: usize)
    ensures
        count == letter_count(text@),
{
    let total = text.unicode_len();
    let mut count: usize = 0;
    for c in it: text.chars()
        invariant
            it.seq() == text@,
            total == text@.len(),
            it.index() <= total,
            count == letters_before(text@, it.index() as int),
            count <= it.index(),
    {
        if ascii_letter(c) {
            count += 1;
        }
    }
    count
}

impl RunningKeyCipher {
    #[verifier::type_invariant]
    spec fn key_has_letter(self) -> bool {
        has_letter(self.key@)
    }

    /// The key of this cipher.
    pub closed spec fn key(&self) -> Seq<char> {
        self.key@
    }

    /// The cipher for `key`, to be used on `text`: the key must hold a letter,
    /// and no fewer letters than the text.
    pub fn new(key: &str, text: &str) -> (result: Result<Self, CryptoError>)
        ensures
            !has_letter(key@) ==> (result matches Err(CryptoError::InvalidKey(msg)) && msg@
                == "Klucz musi zawierać co najmniej jedną literę alfabetu"@),
            has_letter(key@) && letter_count(key@) < letter_count(text@) ==> (result matches Err(
                CryptoError::KeyTooShort(msg),
            ) && msg@ == "Klucz musi być co najmniej tak długi jak tekst"@),
            has_letter(key@) && letter_count(key@) >= letter_count(text@) ==> (result matches Ok(
                cipher,
            ) && cipher.key() == key@),
    {
        if !contains_letter(key) {
            let msg = String::from_str("Klucz musi zawierać co najmniej jedną literę alfabetu");
            return Err(CryptoError::InvalidKey(msg));
        }
        let filtered_key_len = count_letters(key);
        let filtered_text_len = count_letters(text);

        if filtered_key_len < filtered_text_len {
            let msg = String::from_str("Klucz musi być co najmniej tak długi jak tekst");
            return Err(CryptoError::KeyTooShort(msg));
        }
        Ok(RunningKeyCipher { key: String::from_str(key) })
    }

    pub fn encrypt(&self, text: &str) -> (out: String)
        ensures
            has_letter(self.key()),
            out@ == spec_vigenere(text@, self.key(), Operation::Encrypt),
    {
        proof {
            use_type_invariant(self);
        }
        vigenere(text, self.key.as_str(), &Operation::Encrypt)
    }

    pub fn decrypt(&self, text: &str) -> (out: String)
        ensures
            has_letter(self.key()),
            out@ == spec_vigenere(text@, self.key(), Operation::Decrypt),
    {
        proof {
            use_type_invariant(self);
        }
        vigenere(text, self.key.as_str(), &Operation::Decrypt)
    }
}

} // verus!
