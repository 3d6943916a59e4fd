use crate::error::CryptoError;
use crate::utils::text::{is_ascii_letter, is_ascii_lower, is_ascii_upper, letter_index, shift_letter};
use vstd::prelude::*;
use vstd::string::StringExecFns;

verus! {

/// The shift that a key byte stands for: the byte read as a signed number.
pub open spec fn signed_key(key: u8) -> int {
    if key < 128 {
        key as int
    } else {
        key - 256
    }
}

/// Whether a letter can be shifted by `shift` within the range of `i8`.
pub open spec fn shift_fits(c: char, shift: int) -> bool {
    is_ascii_letter(c) ==> letter_index(c) + shift <= 127
}

/// Every character of the text shifted by the same amount.
pub open spec fn spec_caesar(text: Seq<char>, shift: int) -> Seq<char> {
    Seq::new(text.len(), |i: int| shift_letter(text[i], shift))
}

pub fn caesar_shift(c: char, key: i8) -> (shifted: char)
    requires
        shift_fits(c, key as int),
    ensures
        shifted == shift_letter(c, key as int),
{
    if c >= 'A' && c <= 'Z' {
        let base: u8 = 65;
        let sum: i8 = (c as u8 - base) as i8 + key;
        let shifted: u8 = ((sum as i16 + 130) % 26) as u8 + base;
        shifted as char
    } else if c >= 'a' && c <= 'z' {
        let base: u8 = 97;
        let sum: i8 = (c as u8 - base) as i8 + key;
        let shifted: u8 = ((sum as i16 + 130) % 26) as u8 + base;
        shifted as char
    } else {
        c
    }
}

/// Shifts every character of the text by `shift`.
fn shift_text(text: &str, shift: i8) -> (out: String)
    requires
        forall|i: int| 0 <= i < text@.len() ==> shift_fits(#[trigger] text@[i], shift as int),
    ensures
        out@ == spec_caesar(text@, shift as int),
{
    let mut out = String::new();
    for c in it: text.chars()
        invariant
            it.seq() == text@,
            forall|i: int| 0 <= i < text@.len() ==> shift_fits(#[trigger] text@[i], shift as int),
            out@ == spec_caesar(text@, shift as int).subrange(0, it.index() as int),
    {
        out.push(caesar_shift(c, shift));
        assert(out@ =~= spec_caesar(text@, shift as int).subrange(0, it.index() + 1));
    }
    assert(out@ =~= spec_caesar(text@, shift as int));
    out
}

pub fn encrypt(text: &str, key: u8) -> (out: String)
    requires
        forall|i: int| 0 <= i < text@.len() ==> shift_fits(#[trigger] text@[i], signed_key(key)),
    ensures
        out@ == spec_caesar(text@, signed_key(key)),
{
    let shift = key as i8;
    assert(shift as int == signed_key(key)) by {
        assert(key < 128 ==> (key as i8) == key) by (bit_vector);
        assert(key >= 128 ==> (key as i8) == key - 256) by (bit_vector);
    }
    shift_text(text, shift)
}

pub fn decrypt(text: &str, key: u8) -> (out: String)
    requires
        key != 128,
        forall|i: int| 0 <= i < text@.len() ==> shift_fits(#[trigger] text@[i], -signed_key(key)),
    ensures
        out@ == spec_caesar(text@, -signed_key(key)),
{
    let shift = key as i8;
    assert(shift as int == signed_key(key)) by {
        assert(key < 128 ==> (key as i8) == key) by (bit_vector);
        assert(key >= 128 ==> (key as i8) == key - 256) by (bit_vector);
    }
    shift_text(text, -shift)
}

/// The number that decimal digits spell.
pub open spec fn decimal_value(digits: Seq<char>) -> nat
    decreases digits.len(),
{
    if digits.len() == 0 {
        0
    } else {
        decimal_value(digits.drop_last()) * 10 + (digits.last() as int - '0' as int) as nat
    }
}

/// Whether every character is a decimal digit.
pub open spec fn all_digits(text: Seq<char>) -> bool {
    forall|i: int| 0 <= i < text.len() ==> '0' <= #[trigger] text[i] <= '9'
}

/// Whether a text starts with a sign.
pub open spec fn has_sign(text: Seq<char>) -> bool {
    text.len() > 0 && (text[0] == '-' || text[0] == '+')
}

/// The number from -128 to 127 that a text spells in decimal digits, with a
/// sign in front or none; any other text spells none.
pub open spec fn spec_parse_i8(text: Seq<char>) -> Option<i8> {
    let body = if has_sign(text) {
        text.drop_first()
    } else {
        text
    };
    if body.len() == 0 || !all_digits(body) {
        None
    } else if text[0] == '-' {
        if decimal_value(body) <= 128 {
            Some((-decimal_value(body)) as i8)
        } else {
            None
        }
    } else {
        if decimal_value(body) <= 127 {
            Some(decimal_value(body) as i8)
        } else {
            None
        }
    }
}

/// The digits of a text from `start` up to `end`.
spec fn digits_between(text: Seq<char>, start: int, end: int) -> Seq<char> {
    if start <= end {
        text.subrange(start, end)
    } else {
        Seq::empty()
    }
}

/// Reads a number from -128 to 127.
pub fn parse_i8(text: &str) -> (parsed: Option<i8>)
    ensures
        parsed == spec_parse_i8(text@),
{
    let mut negative = false;
    let mut first = true;
    let mut magnitude: i32 = 0;
    let mut any_digit = false;
    let ghost start: int = if has_sign(text@) { 1 } else { 0 };
    for c in it: text.chars()
        invariant
            it.seq() == text@,
            start == if has_sign(text@) { 1int } else { 0int },
            first == (it.index() == 0),
            negative == (it.index() > 0 && text@[0] == '-'),
            any_digit == (it.index() > start),
            all_digits(digits_between(text@, start, it.index() as int)),
            0 <= magnitude <= 1289,
            decimal_value(digits_between(text@, start, it.index() as int)) <= 128 ==> magnitude
                == decimal_value(digits_between(text@, start, it.index() as int)),
            decimal_value(digits_between(text@, start, it.index() as int)) > 128 ==> magnitude
                > 128,
    {
        let ghost k = it.index() as int;
        if first && (c == '-' || c == '+') {
            negative = c == '-';
        } else if c >= '0' && c <= '9' {
            proof {
                let before = digits_between(text@, start, k);
                let after = digits_between(text@, start, k + 1);
                assert(after.drop_last() =~= before);
                assert(after.last() == c);
            }
            if magnitude <= 128 {
                magnitude = magnitude * 10 + (c as u8 - 48) as i32;
            }
            any_digit = true;
        } else {
            proof {
                let body = if has_sign(text@) { text@.drop_first() } else { text@ };
                assert(body[k - start] == c);
            }
            return None;
        }
        first = false;
    }
    proof {
        let body = if has_sign(text@) { text@.drop_first() } else { text@ };
        if text@.len() >= start {
            assert(digits_between(text@, start, text@.len() as int) =~= body);
        }
    }
    if !any_digit {
        return None;
    }
    if negative {
        if magnitude <= 128 {
            Some((-magnitude) as i8)
        } else {
            None
        }
    } else {
        if magnitude <= 127 {
            Some(magnitude as i8)
        } else {
            None
        }
    }
}

/// The Caesar cipher with a fixed shift between 1 and 25.
pub struct CaesarCipher {
    key: i8,
}

impl CaesarCipher {
    #[verifier::type_invariant]
    spec fn key_in_range(self) -> bool {
        1 <= self.key <= 25
    }

    /// The shift of this cipher.
    pub closed spec fn shift(&self) -> int {
        self.key as int
    }

    /// The cipher for a key that was already read as a number, if any: the
    /// number must lie between 1 and 25.
    pub fn from_parsed(parsed: Option<i8>) -> (result: Result<Self, CryptoError>)
        ensures
            match parsed {
                Some(key) if 1 <= key <= 25 => result matches Ok(cipher) && cipher.shift() == key,
                Some(_) => result matches Err(CryptoError::InvalidKey(msg)) && msg@
                    == "Klucz musi być w zakresie od 1 do 25"@,
                None => result matches Err(CryptoError::InvalidKey(msg)) && msg@
                    == "Klucz musi być liczbą całkowitą od 1 do 25"@,
            },
    {
        match parsed {
            None => Err(
                CryptoError::InvalidKey(
                    String::from_str("Klucz musi być liczbą całkowitą od 1 do 25"),
                ),
            ),
            Some(key_num) => {
                if !(1 <= key_num && key_num <= 25) {
                    return Err(
                        CryptoError::InvalidKey(
                            String::from_str("Klucz musi być w zakresie od 1 do 25"),
                        ),
                    );
                }
                Ok(CaesarCipher { key: key_num })
            },
        }
    }

    pub fn new(key: &str) -> (result: Result<Self, CryptoError>)
        ensures
            match spec_parse_i8(key@) {
                Some(k) if 1 <= k <= 25 => result matches Ok(cipher) && cipher.shift() == k,
                Some(_) => result matches Err(CryptoError::InvalidKey(msg)) && msg@
                    == "Klucz musi być w zakresie od 1 do 25"@,
                None => result matches Err(CryptoError::InvalidKey(msg)) && msg@
                    == "Klucz musi być liczbą całkowitą od 1 do 25"@,
            },
    {
        CaesarCipher::from_parsed(parse_i8(key))
    }

    /// The text with every letter moved forward by the shift.
    pub fn encrypt(&self, text: &str) -> (out: String)
        ensures
            1 <= self.shift() <= 25,
            out@ == spec_caesar(text@, self.shift()),
    {
        proof {
            use_type_invariant(self);
        }
        shift_text(text, self.key)
    }

    /// The text with every letter moved back by the shift.
    pub fn decrypt(&self, text: &str) -> (out: String)
        ensures
            1 <= self.shift() <= 25,
            out@ == spec_caesar(text@, -self.shift()),
    {
        proof {
            use_type_invariant(self);
        }
        shift_text(text, -self.key)
    }
}

/// Shifting back undoes shifting forward.
pub proof fn lemma_caesar_round_trip(text: Seq<char>, shift: int)
    ensures
        spec_caesar(spec_caesar(text, shift), -shift) == text,
{
    let there = spec_caesar(text, shift);
    let back = spec_caesar(there, -shift);
    assert forall|i: int| 0 <= i < text.len() implies back[i] == text[i] by {
        let c = text[i];
        if is_ascii_letter(c) {
            let m = (letter_index(c) + shift) % 26;
            let d = there[i];
            assert(is_ascii_upper(c) ==> is_ascii_upper(d) && letter_index(d) == m);
            assert(is_ascii_lower(c) ==> is_ascii_lower(d) && letter_index(d) == m);
            assert((m - shift) % 26 == letter_index(c));
        }
    }
    assert(back =~= text);
}

} // verus!
