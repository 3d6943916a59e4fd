use crate::error::CryptoError;
use crate::utils::text::{
    ascii_letter, is_ascii_letter, is_ascii_lower, is_ascii_upper, letter_index, shift_letter,
};
use vstd::prelude::*;
use vstd::string::StringExecFns;

verus! {

pub enum Operation {
    Encrypt,
    Decrypt,
}

/// The Vigenère cipher under a key that holds at least one ASCII letter.
pub struct VigenereCipher {
    key: String,
}

/// Whether a key holds an ASCII letter.
pub open spec fn has_letter(key: Seq<char>) -> bool {
    exists|i: int| 0 <= i < key.len() && is_ascii_letter(#[trigger] key[i])
}

/// The shifts that a key stands for: the alphabet places of its ASCII
/// letters, in order, whatever their case; other characters are passed over.
pub open spec fn key_shifts(key: Seq<char>) -> Seq<int>
    decreases key.len(),
{
    if key.len() == 0 {
        Seq::empty()
    } else if is_ascii_letter(key.last()) {
        key_shifts(key.drop_last()).push(letter_index(key.last()))
    } else {
        key_shifts(key.drop_last())
    }
}

/// The number of ASCII letters among the first `i` characters.
pub open spec fn letters_before(text: Seq<char>, i: int) -> nat
    decreases i,
{
    if i <= 0 {
        0
    } else if is_ascii_letter(text[i - 1]) {
        letters_before(text, i - 1) + 1
    } else {
        letters_before(text, i - 1)
    }
}

/// A shift as the operation applies it: forward to encrypt, back to decrypt.
pub open spec fn directed(shift: int, operation: Operation) -> int {
    match operation {
        Operation::Encrypt => shift,
        Operation::Decrypt => -shift,
    }
}

/// The Vigenère transform: the n-th letter of the text is shifted by the
/// n-th shift of the key, the key repeated as often as needed; characters
/// that are no ASCII letters stay and use up no shift. A key without letters
/// leaves the text as it is.
pub open spec fn spec_vigenere(text: Seq<char>, key: Seq<char>, operation: Operation) -> Seq<char> {
    let shifts = key_shifts(key);
    if shifts.len() == 0 {
        text
    } else {
        Seq::new(
            text.len(),
            |i: int|
                shift_letter(
                    text[i],
                    directed(shifts[letters_before(text, i) as int % shifts.len() as int], operation),
                ),
        )
    }
}

impl VigenereCipher {
    #[verifier::type_invariant]
    spec fn key_has_letter(self) -> bool {
        has_letter(self.key@)
    }

    /// The key of this cipher.
    pub closed spec fn key(&self) -> Seq<char> {
        self.key@
    }

    pub fn new(key: &str) -> (result: Result<Self, CryptoError>)
        ensures
            has_letter(key@) ==> (result matches Ok(cipher) && cipher.key() == key@),
            !has_letter(key@) ==> (result matches Err(CryptoError::InvalidKey(msg)) && msg@
                == "Klucz musi zawierać co najmniej jedną literę alfabetu"@),
    {
        if !contains_letter(key) {
            let msg = String::from_str("Klucz musi zawierać co najmniej jedną literę alfabetu");
            return Err(CryptoError::InvalidKey(msg));
        }
        Ok(VigenereCipher { key: String::from_str(key) })
    }

    pub fn encrypt(&self, text: &str) -> (out: String)
        ensures
            has_letter(self.key()),
            out@ == spec_vigenere(text@, self.key(), Operation::Encrypt),
    {
        proof {
            use_type_invariant(self);
        }
        vigenere(text, self.key.as_str(), &Operation::Encrypt)
    }

    pub fn decrypt(&self, text: &str) -> (out: String)
        ensures
            has_letter(self.key()),
            out@ == spec_vigenere(text@, self.key(), Operation::Decrypt),
    {
        proof {
            use_type_invariant(self);
        }
        vigenere(text, self.key.as_str(), &Operation::Decrypt)
    }
}

/// Whether the text holds an ASCII letter.
pub fn contains_letter(text: &str) -> (found: bool)
    ensures
        found == has_letter(text@),
{
    let mut found = false;
    for c in it: text.chars()
        invariant
            it.seq() == text@,
            found == has_letter(text@.subrange(0, it.index() as int)),
    {
        let ghost before = text@.subrange(0, it.index() as int);
        let ghost after = text@.subrange(0, it.index() + 1);
        proof {
            if has_letter(before) {
                let w = choose|i: int| 0 <= i < before.len() && is_ascii_letter(#[trigger] before[i]);
                assert(after[w] == before[w]);
            }
            if has_letter(after) && !is_ascii_letter(c) {
                let w = choose|i: int| 0 <= i < after.len() && is_ascii_letter(#[trigger] after[i]);
                assert(before[w] == after[w]);
            }
            if is_ascii_letter(c) {
                assert(is_ascii_letter(after[it.index() as int]));
            }
        }
        if ascii_letter(c) {
            found = true;
        }
    }
    assert(text@.subrange(0, text@.len() as int) =~= text@);
    found
}

/// The number of ASCII letters in the text.
pub open spec fn letter_count(text: Seq<char>) -> nat {
    letters_before(text, text.len() as int)
}

proof fn lemma_key_shifts_step(key: Seq<char>, i: int)
    requires
        0 <= i < key.len(),
    ensures
        key_shifts(key.subrange(0, i + 1)) == if is_ascii_letter(key[i]) {
            key_shifts(key.subrange(0, i)).push(letter_index(key[i]))
        } else {
            key_shifts(key.subrange(0, i))
        },
{
    let next = key.subrange(0, i + 1);
    assert(next.drop_last() =~= key.subrange(0, i));
    assert(next.last() == key[i]);
}

/// Counting one further modulo `n` is counting one further after reducing.
proof fn lemma_mod_successor(a: int, n: int)
    requires
        a >= 0,
        n > 0,
    ensures
        (a + 1) % n == (a % n + 1) % n,
{
    vstd::arithmetic::div_mod::lemma_add_mod_noop(a, 1, n);
    vstd::arithmetic::div_mod::lemma_mod_twice(a + 1, n);
    if n == 1 {
    } else {
        vstd::arithmetic::div_mod::lemma_small_mod(1, n as nat);
    }
}

/// The shifts of a key, each between 0 and 25.
fn shifts_of(key: &str) -> (shifts: Vec<i8>)
    ensures
        shifts@.len() == key_shifts(key@).len(),
        forall|i: int| 0 <= i < shifts@.len() ==> shifts@[i] as int == #[trigger] key_shifts(key@)[i],
        forall|i: int| 0 <= i < shifts@.len() ==> 0 <= #[trigger] shifts@[i] <= 25,
{
    let mut shifts: Vec<i8> = Vec::new();
    for c in it: key.chars()
        invariant
            it.seq() == key@,
            shifts@.len() == key_shifts(key@.subrange(0, it.index() as int)).len(),
            forall|i: int|
                0 <= i < shifts@.len() ==> shifts@[i] as int == #[trigger] key_shifts(
                    key@.subrange(0, it.index() as int),
                )[i],
            forall|i: int| 0 <= i < shifts@.len() ==> 0 <= #[trigger] shifts@[i] <= 25,
    {
        proof {
            lemma_key_shifts_step(key@, it.index() as int);
        }
        if c >= 'A' && c <= 'Z' {
            shifts.push((c as u8 - 65) as i8);
        } else if c >= 'a' && c <= 'z' {
            shifts.push((c as u8 - 97) as i8);
        }
    }
    assert(key@.subrange(0, key@.len() as int) =~= key@);
    shifts
}

pub fn vigenere(text: &str, key: &str, operation: &Operation) -> (out: String)
    ensures
        out@ == spec_vigenere(text@, key@, *operation),
{
    let key_shifts = shifts_of(key);

    if key_shifts.len() == 0 {
        return String::from_str(text);
    }
    let ghost goal = spec_vigenere(text@, key@, *operation);
    let mut encrypted = String::new();
    let mut key_index: usize = 0;
    let period = key_shifts.len();
    proof {
        vstd::arithmetic::div_mod::lemma_small_mod(0, period as nat);
    }

    for c in it: text.chars()
        invariant
            it.seq() == text@,
            period == key_shifts@.len(),
            key_shifts@.len() == self::key_shifts(key@).len(),
            key_shifts@.len() > 0,
            forall|i: int|
                0 <= i < key_shifts@.len() ==> key_shifts@[i] as int == #[trigger] self::key_shifts(
                    key@,
                )[i],
            forall|i: int| 0 <= i < key_shifts@.len() ==> 0 <= #[trigger] key_shifts@[i] <= 25,
            goal == spec_vigenere(text@, key@, *operation),
            key_index < key_shifts@.len(),
            key_index as int == letters_before(text@, it.index() as int) as int
                % key_shifts@.len() as int,
            encrypted@ == goal.subrange(0, it.index() as int),
    {
        if ascii_letter(c) {
            let shift = key_shifts[key_index];
            encrypted.push(shift_char(c, shift, operation));
            proof {
                lemma_mod_successor(
                    letters_before(text@, it.index() as int) as int,
                    key_shifts@.len() as int,
                );
            }
            key_index = (key_index + 1) % period;
        } else {
            encrypted.push(c);
        }
        assert(encrypted@ =~= goal.subrange(0, it.index() + 1));
    }
    assert(encrypted@ =~= goal);
    encrypted
}

pub fn shift_char(c: char, key_shift: i8, operation: &Operation) -> (shifted: char)
    requires
        is_ascii_letter(c),
        letter_index(c) + directed(key_shift as int, *operation) <= 127,
    ensures
        shifted == shift_letter(c, directed(key_shift as int, *operation)),
{
    let base: u8 = if c >= 'a' && c <= 'z' { 97 } else { 65 };

    let sum: i8 = match operation {
        Operation::Encrypt => (c as u8 - base) as i8 + key_shift,
        Operation::Decrypt => (c as u8 - base) as i8 - key_shift,
    };
    let shifted: u8 = ((sum as i16 + 130) % 26) as u8 + base;
    shifted as char
}

/// Shifting a letter gives a letter, and leaves any other character.
pub proof fn lemma_shift_keeps_letters(c: char, shift: int)
    ensures
        is_ascii_letter(shift_letter(c, shift)) == is_ascii_letter(c),
        is_ascii_letter(c) ==> shift_letter(shift_letter(c, shift), -shift) == c,
{
    if is_ascii_letter(c) {
        let m = (letter_index(c) + shift) % 26;
        let d = shift_letter(c, shift);
        assert(is_ascii_upper(c) ==> is_ascii_upper(d) && letter_index(d) == m);
        assert(is_ascii_lower(c) ==> is_ascii_lower(d) && letter_index(d) == m);
        assert((m - shift) % 26 == letter_index(c));
    }
}

/// Two texts with letters in the same places have as many letters before
/// every place.
pub proof fn lemma_letters_before_same(a: Seq<char>, b: Seq<char>, i: int)
    requires
        a.len() == b.len(),
        i <= a.len(),
        forall|k: int| 0 <= k < a.len() ==> is_ascii_letter(#[trigger] a[k]) == is_ascii_letter(b[k]),
    ensures
        letters_before(a, i) == letters_before(b, i),
    decreases i,
{
    if i > 0 {
        lemma_letters_before_same(a, b, i - 1);
        assert(is_ascii_letter(a[i - 1]) == is_ascii_letter(b[i - 1]));
    }
}

/// Decrypting under the key that encrypted gives the text back.
pub proof fn lemma_vigenere_round_trip(text: Seq<char>, key: Seq<char>)
    ensures
        spec_vigenere(spec_vigenere(text, key, Operation::Encrypt), key, Operation::Decrypt)
            == text,
{
    let shifts = key_shifts(key);
    let there = spec_vigenere(text, key, Operation::Encrypt);
    let back = spec_vigenere(there, key, Operation::Decrypt);
    if shifts.len() > 0 {
        assert forall|k: int| 0 <= k < text.len() implies is_ascii_letter(#[trigger] there[k])
            == is_ascii_letter(text[k]) by {
            lemma_shift_keeps_letters(
                text[k],
                shifts[letters_before(text, k) as int % shifts.len() as int],
            );
        }
        assert forall|i: int| 0 <= i < text.len() implies back[i] == text[i] by {
            lemma_letters_before_same(there, text, i);
            let shift = shifts[letters_before(text, i) as int % shifts.len() as int];
            lemma_shift_keeps_letters(text[i], shift);
        }
        assert(back =~= text);
    }
}

} // verus!
