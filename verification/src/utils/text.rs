use vstd::prelude::*;
use vstd::string::StrSliceExecFns;
use vstd::utf8::{decode_utf8, valid_utf8};

verus! {

/// `String::push` appends one character.
pub assume_specification[ String::push ](s: &mut String, c: char)
    ensures
        final(s)@ == old(s)@.push(c),
;

/// The characters that Unicode marks as white space.
pub open spec fn spec_is_whitespace(c: char) -> bool {
    let code = c as int;
    ||| 0x09 <= code <= 0x0d
    ||| code == 0x20
    ||| code == 0x85
    ||| code == 0xa0
    ||| code == 0x1680
    ||| 0x2000 <= code <= 0x200a
    ||| code == 0x2028
    ||| code == 0x2029
    ||| code == 0x202f
    ||| code == 0x205f
    ||| code == 0x3000
}

/// Whether a character is white space.
pub fn char_is_whitespace(c: char) -> (white: bool)
    ensures
        white == spec_is_whitespace(c),
{
    (c >= '\u{9}' && c <= '\u{d}') || c == ' ' || c == '\u{85}' || c == '\u{a0}' || c == '\u{1680}'
        || (c >= '\u{2000}' && c <= '\u{200a}') || c == '\u{2028}' || c == '\u{2029}' || c
        == '\u{202f}' || c == '\u{205f}' || c == '\u{3000}'
}

/// The text without the white space at its start.
pub open spec fn trim_start(text: Seq<char>) -> Seq<char>
    decreases text.len(),
{
    if text.len() > 0 && spec_is_whitespace(text[0]) {
        trim_start(text.drop_first())
    } else {
        text
    }
}

/// The text without the white space at its end.
pub open spec fn trim_end(text: Seq<char>) -> Seq<char>
    decreases text.len(),
{
    if text.len() > 0 && spec_is_whitespace(text.last()) {
        trim_end(text.drop_last())
    } else {
        text
    }
}

/// The text without the white space at either end.
pub open spec fn spec_trim(text: Seq<char>) -> Seq<char> {
    trim_end(trim_start(text))
}

/// Dropping white space at the start leaves what follows the last of it.
pub proof fn lemma_trim_start(text: Seq<char>, k: int)
    requires
        0 <= k <= text.len(),
        forall|i: int| 0 <= i < k ==> spec_is_whitespace(#[trigger] text[i]),
        k < text.len() ==> !spec_is_whitespace(text[k]),
    ensures
        trim_start(text) == text.subrange(k, text.len() as int),
    decreases k,
{
    if k == 0 {
        assert(text.subrange(0, text.len() as int) =~= text);
    } else {
        let rest = text.drop_first();
        assert(spec_is_whitespace(text[0]));
        assert forall|i: int| 0 <= i < k - 1 implies spec_is_whitespace(#[trigger] rest[i]) by {
            assert(rest[i] == text[i + 1]);
        }
        lemma_trim_start(rest, k - 1);
        assert(rest.subrange(k - 1, rest.len() as int) =~= text.subrange(k, text.len() as int));
    }
}

/// Dropping white space at the end leaves what comes before the first of it.
pub proof fn lemma_trim_end(text: Seq<char>, m: int)
    requires
        0 <= m <= text.len(),
        forall|i: int| m <= i < text.len() ==> spec_is_whitespace(#[trigger] text[i]),
        m > 0 ==> !spec_is_whitespace(text[m - 1]),
    ensures
        trim_end(text) == text.subrange(0, m),
    decreases text.len() - m,
{
    if m == text.len() {
        assert(text.subrange(0, m) =~= text);
    } else {
        let rest = text.drop_last();
        assert(spec_is_whitespace(text[text.len() - 1]));
        lemma_trim_end(rest, m);
        assert(rest.subrange(0, m) =~= text.subrange(0, m));
    }
}

/// The text without leading and trailing white space.
pub fn str_trim(text: &str) -> (trimmed: &str)
    ensures
        trimmed@ == spec_trim(text@),
{
    let len = text.unicode_len();
    let mut index: usize = 0;
    let mut start: usize = 0;
    let mut end: usize = 0;
    let mut leading = true;
    for c in it: text.chars()
        invariant
            it.seq() == text@,
            len == text@.len(),
            index == it.index(),
            index <= len,
            leading ==> end == 0 && forall|i: int|
                0 <= i < index ==> spec_is_whitespace(#[trigger] text@[i]),
            !leading ==> start < end <= index && !spec_is_whitespace(text@[start as int])
                && !spec_is_whitespace(text@[end - 1]),
            !leading ==> forall|i: int| 0 <= i < start ==> spec_is_whitespace(#[trigger] text@[i]),
            !leading ==> forall|i: int| end <= i < index ==> spec_is_whitespace(#[trigger] text@[i]),
    {
        if !char_is_whitespace(c) {
            if leading {
                start = index;
                leading = false;
            }
            end = index + 1;
        }
        index += 1;
    }
    if leading {
        proof {
            lemma_trim_start(text@, len as int);
            assert(text@.subrange(len as int, len as int) =~= Seq::<char>::empty());
            assert(text@.subrange(0, 0) =~= Seq::<char>::empty());
        }
        text.substring_char(0, 0)
    } else {
        proof {
            lemma_trim_start(text@, start as int);
            let tail = text@.subrange(start as int, len as int);
            assert forall|i: int| end - start <= i < tail.len() implies spec_is_whitespace(
                #[trigger] tail[i],
            ) by {
                assert(tail[i] == text@[start + i]);
            }
            assert(tail[end - start - 1] == text@[end - 1]);
            lemma_trim_end(tail, end - start);
            assert(tail.subrange(0, end - start) =~= text@.subrange(start as int, end as int));
        }
        text.substring_char(start, end)
    }
}

/// The text without any white space.
pub open spec fn without_whitespace(text: Seq<char>) -> Seq<char>
    decreases text.len(),
{
    if text.len() == 0 {
        Seq::empty()
    } else if spec_is_whitespace(text.last()) {
        without_whitespace(text.drop_last())
    } else {
        without_whitespace(text.drop_last()).push(text.last())
    }
}

/// The text without any white space.
pub fn remove_whitespace(text: &str) -> (cleaned: String)
    ensures
        cleaned@ == without_whitespace(text@),
{
    let mut cleaned = String::new();
    for c in it: text.chars()
        invariant
            it.seq() == text@,
            cleaned@ == without_whitespace(text@.subrange(0, it.index() as int)),
    {
        proof {
            let next = text@.subrange(0, it.index() + 1);
            assert(next.drop_last() =~= text@.subrange(0, it.index() as int));
            assert(next.last() == c);
        }
        if !char_is_whitespace(c) {
            cleaned.push(c);
        }
    }
    assert(text@.subrange(0, text@.len() as int) =~= text@);
    cleaned
}

/// `String::from_utf8` of std, its error dropped: the text that the bytes
/// encode, if they are valid UTF-8.
#[verifier::external_body]
pub(crate) fn string_from_utf8(bytes: Vec<u8>) -> (decoded: Option<String>)
    ensures
        decoded is Some == valid_utf8(bytes@),
        decoded matches Some(s) ==> s@ == decode_utf8(bytes@),
{
    String::from_utf8(bytes).ok()
}

pub open spec fn is_ascii_upper(c: char) -> bool {
    'A' <= c <= 'Z'
}

pub open spec fn is_ascii_lower(c: char) -> bool {
    'a' <= c <= 'z'
}

pub open spec fn is_ascii_letter(c: char) -> bool {
    is_ascii_upper(c) || is_ascii_lower(c)
}

/// The place of an ASCII letter in the alphabet, from 0.
pub open spec fn letter_index(c: char) -> int {
    if is_ascii_upper(c) {
        c as int - 'A' as int
    } else {
        c as int - 'a' as int
    }
}

/// The letter of the case of `c` at place `index` of the alphabet.
pub open spec fn letter_at(c: char, index: int) -> char {
    if is_ascii_upper(c) {
        (('A' as int + index) as u8) as char
    } else {
        (('a' as int + index) as u8) as char
    }
}

/// An ASCII letter moved `shift` places through its alphabet, wrapping round
/// at either end; any other character stays.
pub open spec fn shift_letter(c: char, shift: int) -> char {
    if is_ascii_letter(c) {
        letter_at(c, (letter_index(c) + shift) % 26)
    } else {
        c
    }
}

pub fn ascii_letter(c: char) -> (b: bool)
    ensures
        b == is_ascii_letter(c),
{
    (c >= 'A' && c <= 'Z') || (c >= 'a' && c <= 'z')
}

/// The lower-case hexadecimal digit for a value below sixteen.
pub open spec fn spec_hex_digit(value: int) -> char {
    if value < 10 {
        (('0' as int + value) as u8) as char
    } else {
        (('a' as int + value - 10) as u8) as char
    }
}

/// The value of a hexadecimal digit of either case, if the character is one.
pub open spec fn spec_hex_value(c: char) -> Option<int> {
    if '0' <= c <= '9' {
        Some(c as int - '0' as int)
    } else if 'a' <= c <= 'f' {
        Some(c as int - 'a' as int + 10)
    } else if 'A' <= c <= 'F' {
        Some(c as int - 'A' as int + 10)
    } else {
        None
    }
}

/// Two lower-case hexadecimal digits for every byte, the high half first.
pub open spec fn spec_hex_encode(bytes: Seq<u8>) -> Seq<char> {
    Seq::new(
        2 * bytes.len(),
        |i: int|
            if i % 2 == 0 {
                spec_hex_digit(bytes[i / 2] as int / 16)
            } else {
                spec_hex_digit(bytes[i / 2] as int % 16)
            },
    )
}

/// Whether a text is an even number of hexadecimal digits.
pub open spec fn is_hex(text: Seq<char>) -> bool {
    text.len() % 2 == 0 && forall|i: int| 0 <= i < text.len() ==> spec_hex_value(#[trigger] text[i]) is Some
}

/// The bytes that a text of hexadecimal digits spells, two digits to a byte.
pub open spec fn spec_hex_decode(text: Seq<char>) -> Option<Seq<u8>> {
    if is_hex(text) {
        Some(
            Seq::new(
                text.len() / 2,
                |i: int|
                    (spec_hex_value(text[2 * i])->0 * 16 + spec_hex_value(text[2 * i + 1])->0) as u8,
            ),
        )
    } else {
        None
    }
}

pub fn hex_digit(value: u8) -> (c: char)
    requires
        value < 16,
    ensures
        c == spec_hex_digit(value as int),
{
    if value < 10 {
        (48 + value) as char
    } else {
        (97 + value - 10) as char
    }
}

pub fn hex_value(c: char) -> (value: Option<u8>)
    ensures
        match spec_hex_value(c) {
            Some(v) => value == Some(v as u8) && v < 16,
            None => value is None,
        },
{
    if c >= '0' && c <= '9' {
        Some(c as u8 - 48)
    } else if c >= 'a' && c <= 'f' {
        Some(c as u8 - 97 + 10)
    } else if c >= 'A' && c <= 'F' {
        Some(c as u8 - 65 + 10)
    } else {
        None
    }
}

pub fn hex_encode(bytes: &[u8]) -> (text: String)
    ensures
        text@ == spec_hex_encode(bytes@),
{
    let mut text = String::new();
    for i in 0..bytes.len()
        invariant
            text@ == spec_hex_encode(bytes@).subrange(0, 2 * i),
    {
        let b = bytes[i];
        text.push(hex_digit(b / 16));
        text.push(hex_digit(b % 16));
        assert(text@ =~= spec_hex_encode(bytes@).subrange(0, 2 * i + 2));
    }
    assert(text@ =~= spec_hex_encode(bytes@));
    text
}

pub fn hex_decode(text: &str) -> (bytes: Option<Vec<u8>>)
    ensures
        match spec_hex_decode(text@) {
            Some(expected) => bytes matches Some(out) && out@ == expected,
            None => bytes is None,
        },
{
    let mut out: Vec<u8> = Vec::new();
    let mut high: Option<u8> = None;
    for c in it: text.chars()
        invariant
            it.seq() == text@,
            forall|i: int| 0 <= i < it.index() ==> spec_hex_value(#[trigger] text@[i]) is Some,
            high is Some <==> it.index() % 2 == 1,
            high matches Some(h) ==> h as int == spec_hex_value(text@[it.index() - 1])->0,
            out@.len() == it.index() / 2,
            forall|k: int|
                0 <= k < out@.len() ==> #[trigger] out@[k] == (spec_hex_value(text@[2 * k])->0 * 16
                    + spec_hex_value(text@[2 * k + 1])->0) as u8,
    {
        match hex_value(c) {
            None => {
                assert(spec_hex_value(text@[it.index() as int]) is None);
                return None;
            },
            Some(v) => {
                match high {
                    None => {
                        high = Some(v);
                    },
                    Some(h) => {
                        out.push(h * 16 + v);
                        high = None;
                    },
                }
            },
        }
    }
    if high.is_some() {
        return None;
    }
    assert(out@ =~= spec_hex_decode(text@)->0);
    Some(out)
}

/// Decoding undoes encoding.
pub proof fn lemma_hex_round_trip(bytes: Seq<u8>)
    ensures
        spec_hex_decode(spec_hex_encode(bytes)) == Some(bytes),
{
    let text = spec_hex_encode(bytes);
    assert forall|i: int| 0 <= i < text.len() implies spec_hex_value(#[trigger] text[i]) is Some by {
        let b = bytes[i / 2];
        assert(0 <= b as int / 16 < 16 && 0 <= b as int % 16 < 16);
    }
    let decoded = spec_hex_decode(text)->0;
    assert forall|k: int| 0 <= k < bytes.len() implies decoded[k] == bytes[k] by {
        let b = bytes[k];
        assert(text[2 * k] == spec_hex_digit(b as int / 16));
        assert(text[2 * k + 1] == spec_hex_digit(b as int % 16));
        assert(spec_hex_value(spec_hex_digit(b as int / 16)) == Some(b as int / 16));
        assert(spec_hex_value(spec_hex_digit(b as int % 16)) == Some(b as int % 16));
    }
    assert(decoded =~= bytes);
}

/// The decimal digits of a byte, without leading zeros.
pub open spec fn spec_u8_decimal(value: u8) -> Seq<char> {
    let ones = (('0' as int + value % 10) as u8) as char;
    let tens = (('0' as int + value / 10 % 10) as u8) as char;
    let hundreds = (('0' as int + value / 100) as u8) as char;
    if value < 10 {
        seq![ones]
    } else if value < 100 {
        seq![tens, ones]
    } else {
        seq![hundreds, tens, ones]
    }
}

pub fn u8_decimal(value: u8) -> (text: String)
    ensures
        text@ == spec_u8_decimal(value),
{
    let mut text = String::new();
    if value >= 100 {
        text.push((48 + value / 100) as char);
    }
    if value >= 10 {
        text.push((48 + value / 10 % 10) as char);
    }
    text.push((48 + value % 10) as char);
    assert(text@ =~= spec_u8_decimal(value));
    text
}

} // verus!
