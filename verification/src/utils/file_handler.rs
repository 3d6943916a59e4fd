use vstd::prelude::*;
use vstd::string::{StrSliceExecFns, StringExecFns};

verus! {

/// The name of an output file: the stem of the input's name, the suffix,
/// and the extension after a dot where there is one.
pub open spec fn spec_output_name(
    file_stem: Seq<char>,
    extension: Seq<char>,
    suffix: Seq<char>,
) -> Seq<char> {
    if extension.len() == 0 {
        file_stem + suffix
    } else {
        file_stem + suffix + "."@ + extension
    }
}

/// The name of the file that a result is written to, beside the input file:
/// the suffix goes between the stem and the extension of the input's name.
pub fn create_output_path_with_suffix(file_stem: &str, extension: &str, suffix: &str) -> (name:
    String)
    ensures
        name@ == spec_output_name(file_stem@, extension@, suffix@),
{
    if extension.unicode_len() == 0 {
        String::from_str(file_stem).concat(suffix)
    } else {
        String::from_str(file_stem).concat(suffix).concat(".").concat(extension)
    }
}

/// The text with every occurrence of the pattern taken out, the occurrences
/// found from the left and not overlapping. An empty pattern takes nothing.
pub open spec fn spec_remove_all(text: Seq<char>, pattern: Seq<char>) -> Seq<char>
    decreases text.len(),
{
    if text.len() == 0 {
        text
    } else if pattern.len() > 0 && pattern.len() <= text.len() && text.subrange(
        0,
        pattern.len() as int,
    ) == pattern {
        spec_remove_all(text.subrange(pattern.len() as int, text.len() as int), pattern)
    } else {
        seq![text[0]] + spec_remove_all(text.drop_first(), pattern)
    }
}

/// The characters of a text.
fn chars_of(text: &str) -> (chars: Vec<char>)
    ensures
        chars@ == text@,
{
    let mut chars: Vec<char> = Vec::new();
    for c in it: text.chars()
        invariant
            it.seq() == text@,
            chars@ == text@.subrange(0, it.index() as int),
    {
        chars.push(c);
        assert(chars@ =~= text@.subrange(0, it.index() + 1));
    }
    assert(chars@ =~= text@);
    chars
}

/// Whether the pattern stands in the text at a place.
fn matches_at(text: &Vec<char>, at: usize, pattern: &Vec<char>) -> (found: bool)
    requires
        at <= text@.len(),
    ensures
        found == (pattern@.len() <= text@.len() - at && text@.subrange(
            at as int,
            at + pattern@.len(),
        ) == pattern@),
{
    if pattern.len() > text.len() - at {
        return false;
    }
    assert(text@.len() <= usize::MAX);
    let wanted = pattern.len();
    for k in 0..wanted
        invariant
            wanted == pattern@.len(),
            at + wanted <= text@.len(),
            text@.len() <= usize::MAX,
            forall|j: int| 0 <= j < k ==> text@[at + j] == pattern@[j],
    {
        if text[at + k] != pattern[k] {
            assert(text@.subrange(at as int, at + pattern@.len())[k as int] != pattern@[k as int]);
            return false;
        }
    }
    assert(text@.subrange(at as int, at + pattern@.len()) =~= pattern@);
    true
}

/// The text with every occurrence of the pattern taken out.
pub fn remove_all(text: &str, pattern: &str) -> (cleaned: String)
    ensures
        cleaned@ == spec_remove_all(text@, pattern@),
{
    let chars = chars_of(text);
    let wanted = chars_of(pattern);
    let len = chars.len();
    let mut cleaned = String::new();
    let mut at: usize = 0;
    assert(chars@.subrange(0, len as int) =~= chars@);
    while at < len
        invariant
            len == chars@.len(),
            chars@ == text@,
            wanted@ == pattern@,
            at <= len,
            cleaned@ + spec_remove_all(chars@.subrange(at as int, len as int), wanted@)
                == spec_remove_all(text@, pattern@),
        decreases len - at,
    {
        let ghost rest = chars@.subrange(at as int, len as int);
        if wanted.len() > 0 && matches_at(&chars, at, &wanted) {
            proof {
                assert(rest.subrange(0, wanted@.len() as int) =~= chars@.subrange(
                    at as int,
                    at + wanted@.len(),
                ));
                assert(rest.subrange(wanted@.len() as int, rest.len() as int) =~= chars@.subrange(
                    at + wanted@.len(),
                    len as int,
                ));
            }
            at += wanted.len();
        } else {
            proof {
                if wanted@.len() > 0 && wanted@.len() <= rest.len() {
                    assert(rest.subrange(0, wanted@.len() as int) =~= chars@.subrange(
                        at as int,
                        at + wanted@.len(),
                    ));
                }
                assert(rest.drop_first() =~= chars@.subrange(at + 1, len as int));
                let tail = spec_remove_all(rest.drop_first(), wanted@);
                assert(cleaned@.push(chars@[at as int]) + tail =~= cleaned@ + (seq![rest[0]] + tail));
            }
            cleaned.push(chars[at]);
            at += 1;
        }
    }
    assert(cleaned@ + Seq::<char>::empty() =~= cleaned@);
    cleaned
}

/// The name that an encrypted file had before: its stem without the marker
/// `_encrypted`, and its extension after a dot where there is one.
pub open spec fn spec_original_file_name(file_stem: Seq<char>, extension: Seq<char>) -> Seq<char> {
    let stem = spec_remove_all(file_stem, "_encrypted"@);
    if extension.len() == 0 {
        stem
    } else {
        stem + "."@ + extension
    }
}

/// The name of the plaintext file to which an encrypted file belongs, which
/// is what the encryption bound the ciphertext to.
pub fn original_file_name(file_stem: &str, extension: &str) -> (name: String)
    ensures
        name@ == spec_original_file_name(file_stem@, extension@),
{
    let stem = remove_all(file_stem, "_encrypted");
    if extension.unicode_len() == 0 {
        stem
    } else {
        stem.concat(".").concat(extension)
    }
}

} // verus!
