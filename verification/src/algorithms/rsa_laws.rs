use crate::algorithms::bignum::{
    be_nat, digit_of, hex_digits, is_numeral, minimal_be, numeral_value, spec_parse_radix,
    without_plus,
};
use crate::algorithms::primes::{is_prime, lemma_rsa_inverts};
use crate::algorithms::number_theory::{lemma_modinv_is_inverse, spec_modinv};
use crate::algorithms::rsa::{
    message_number, spec_key_pair, spec_rsa_decrypt, RsaFailure, DEFAULT_E,
};
use crate::utils::text::{spec_hex_digit, spec_is_whitespace, without_whitespace};
use vstd::arithmetic::power::pow;
use vstd::prelude::*;
use vstd::utf8::{
    encode_utf8, encode_utf8_decode_utf8, encode_utf8_valid_utf8, is_ascii_chars,
    is_ascii_chars_encode_utf8,
};

verus! {

/// The bytes of characters that all are ASCII.
pub open spec fn ascii_bytes(text: Seq<char>) -> Seq<u8> {
    Seq::new(text.len(), |i: int| text[i] as u8)
}

/// A hexadecimal digit is an ASCII character, no white space, and is read
/// back as its value.
pub proof fn lemma_hex_digit(value: int)
    requires
        0 <= value < 16,
    ensures
        '\0' <= spec_hex_digit(value) <= '\u{7f}',
        !spec_is_whitespace(spec_hex_digit(value)),
        digit_of(spec_hex_digit(value) as u8) == value,
        spec_hex_digit(value) as u8 != 95,
        spec_hex_digit(value) as u8 != 43,
{
}

/// The hexadecimal digits of a number hold no white space and spell the
/// number.
pub proof fn lemma_hex_digits_spell(n: nat)
    ensures
        hex_digits(n).len() > 0,
        is_ascii_chars(hex_digits(n)),
        without_whitespace(hex_digits(n)) == hex_digits(n),
        is_numeral(ascii_bytes(hex_digits(n)), 16),
        ascii_bytes(hex_digits(n))[0] != 43,
        numeral_value(ascii_bytes(hex_digits(n)), 16) == n,
    decreases n,
{
    let h = hex_digits(n);
    let b = ascii_bytes(h);
    if n < 16 {
        lemma_hex_digit(n as int);
        assert(h =~= seq![spec_hex_digit(n as int)]);
        assert(h.drop_last() =~= Seq::<char>::empty());
        assert(without_whitespace(h.drop_last()) =~= Seq::<char>::empty());
        assert(without_whitespace(h) =~= h);
        assert(b.drop_last() =~= Seq::<u8>::empty());
        assert(numeral_value(b.drop_last(), 16) == 0);
    } else {
        let front = hex_digits(n / 16);
        let last = spec_hex_digit(n as int % 16);
        lemma_hex_digits_spell(n / 16);
        lemma_hex_digit(n as int % 16);
        assert(h == front.push(last));
        assert(h.drop_last() =~= front);
        assert(h.last() == last);
        assert(without_whitespace(h) =~= h);
        assert(b.drop_last() =~= ascii_bytes(front));
        assert(b.last() == last as u8);
        assert forall|i: int| 0 <= i < b.len() implies #[trigger] b[i] == 95 || digit_of(b[i])
            < 16 by {
            if i < front.len() {
                assert(b[i] == ascii_bytes(front)[i]);
            }
        }
        assert(b[0] == ascii_bytes(front)[0]);
    }
}

/// Reading the hexadecimal digits of a number gives the number back.
pub proof fn lemma_parse_hex_digits(n: nat)
    ensures
        spec_parse_radix(encode_utf8(hex_digits(n)), 16) == Some(n),
{
    let h = hex_digits(n);
    lemma_hex_digits_spell(n);
    is_ascii_chars_encode_utf8(h);
    assert(encode_utf8(h) =~= ascii_bytes(h));
    assert(without_plus(ascii_bytes(h)) == ascii_bytes(h));
}

/// Bytes that do not start with a zero byte spell a positive number.
pub proof fn lemma_be_nat_positive(bytes: Seq<u8>)
    requires
        bytes.len() > 0,
        bytes[0] != 0,
    ensures
        be_nat(bytes) > 0,
    decreases bytes.len(),
{
    if bytes.len() > 1 {
        lemma_be_nat_positive(bytes.drop_last());
    } else {
        assert(bytes.drop_last().len() == 0);
    }
}

/// Bytes that do not start with a zero byte are the shortest spelling of
/// their number.
pub proof fn lemma_minimal_be_of_be_nat(bytes: Seq<u8>)
    requires
        bytes.len() > 0,
        bytes[0] != 0,
    ensures
        minimal_be(be_nat(bytes)) == bytes,
    decreases bytes.len(),
{
    let front = bytes.drop_last();
    let n = be_nat(bytes);
    if bytes.len() == 1 {
        assert(front.len() == 0);
        assert(be_nat(front) == 0);
        assert(n == bytes.last());
        assert(minimal_be(n) =~= bytes);
    } else {
        lemma_be_nat_positive(front);
        lemma_minimal_be_of_be_nat(front);
        let high = be_nat(front);
        assert(n == high * 256 + bytes.last());
        assert(n / 256 == high && n % 256 == bytes.last());
        assert(minimal_be(n) =~= bytes);
    }
}

/// Decryption undoes encryption. Let the modulus be the product of two
/// different primes `p` and `q`, and `e * d` leave the remainder 1 modulo
/// `(p - 1) * (q - 1)`. Then a text whose number is below the modulus, and
/// whose bytes are not empty and do not start with a zero byte, comes back
/// from the hexadecimal digits of its ciphertext.
pub proof fn lemma_rsa_text_round_trip(p: nat, q: nat, e: nat, d: nat, text: Seq<char>)
    requires
        is_prime(p),
        is_prime(q),
        p != q,
        (e * d) % (((p - 1) * (q - 1)) as nat) == 1,
        message_number(text) < p * q,
        encode_utf8(text).len() > 0,
        encode_utf8(text)[0] != 0,
    ensures
        spec_rsa_decrypt(
            p * q,
            Some(d),
            without_whitespace(
                hex_digits((pow(message_number(text) as int, e) % ((p * q) as int)) as nat),
            ),
        ) == Ok::<Seq<char>, RsaFailure>(text),
{
    let n = p * q;
    let m = message_number(text);
    let c_int = pow(m as int, e) % (n as int);
    vstd::arithmetic::div_mod::lemma_mod_bound(pow(m as int, e), n as int);
    let c = c_int as nat;
    lemma_hex_digits_spell(c);
    lemma_parse_hex_digits(c);
    lemma_rsa_inverts(p, q, e, d, m);
    assert(pow(c as int, d) % (n as int) == m);
    lemma_minimal_be_of_be_nat(encode_utf8(text));
    encode_utf8_valid_utf8(text);
    encode_utf8_decode_utf8(text);
}

/// The exponents of a key pair made of two different primes undo each
/// other: whatever is below the modulus comes back when it is raised to the
/// public and then to the private exponent.
pub proof fn lemma_key_pair_inverts(p: nat, q: nat, m: nat)
    requires
        is_prime(p),
        is_prime(q),
        spec_key_pair(p, q) is Some,
        m < p * q,
    ensures
        ({
            let (n, e, d) = spec_key_pair(p, q)->0;
            n == p * q && pow(pow(m as int, e) % (n as int), d) % (n as int) == m
        }),
{
    let (n, e, d) = spec_key_pair(p, q)->0;
    let phi = (p - 1) * (q - 1);
    assert(phi >= 2) by (nonlinear_arith)
        requires
            phi == (p - 1) * (q - 1),
            p >= 2,
            q >= 2,
            p != q,
    ;
    lemma_modinv_is_inverse(DEFAULT_E as int, phi);
    vstd::arithmetic::div_mod::lemma_small_mod(1, phi as nat);
    assert(e * d == DEFAULT_E as int * spec_modinv(DEFAULT_E as int, phi)->0);
    lemma_rsa_inverts(p, q, e, d, m);
}

} // verus!
