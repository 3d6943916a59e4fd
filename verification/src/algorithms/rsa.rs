use crate::algorithms::bignum::{
    be_nat, gcd, hex_digits, minimal_be, spec_parse_radix, with_bit, BigNat, BigSigned,
};
use crate::algorithms::number_theory::{
    abs, lemma_extended_gcd_is_gcd, lemma_modinv_is_inverse, lemma_trunc_div_rem,
    lemma_trunc_rem_normalized, spec_extended_gcd, spec_modinv,
};
use crate::algorithms::primes::{is_prime, lemma_prime_has_no_witness};
use crate::error::CryptoError;
use crate::utils::text::{
    remove_whitespace, spec_trim, str_trim, string_from_utf8, without_whitespace,
};
use vstd::arithmetic::power::pow;
use vstd::arithmetic::power2::pow2;
use vstd::prelude::*;
use vstd::string::{StrSliceExecFns, StringExecFns, StringSliceAdditionalSpecFns};
use vstd::utf8::{decode_utf8, encode_utf8, valid_utf8};

verus! {

#[derive(Debug, Clone)]
pub struct RsaPublicKey {
    pub e: BigNat,
    pub n: BigNat,
}

#[derive(Debug, Clone)]
pub struct RsaPrivateKey {
    pub d: BigNat,
    pub n: BigNat,
}

#[derive(Debug, Clone)]
pub struct RsaKeyPair {
    pub public: RsaPublicKey,
    pub private: RsaPrivateKey,
}

/// RSA without padding under a key of which the modulus is known, and the
/// public or the private exponent or both.
pub struct RsaCipher {
    key: RsaKeyMaterial,
}

struct RsaKeyMaterial {
    modulus: BigNat,
    public_exp: Option<BigNat>,
    private_exp: Option<BigNat>,
}

/// The fields of a key as they are written down: numerals in base 10, or in
/// base 16 after `0x` or `0X`.
pub struct RsaKeyPayload {
    pub n: String,
    pub e: Option<String>,
    pub d: Option<String>,
}

/// Where the fields of a key are to be found.
pub enum KeySource {
    /// The text is the key itself, written as a JSON object.
    Inline(String),
    /// The text names a file that holds the key.
    File(String),
}

/// Whether a key is given in place or by the name of a file: after white
/// space at either end is dropped, a text that starts with `{` is the key
/// itself.
pub fn key_source(given: &str) -> (source: KeySource)
    ensures
        match source {
            KeySource::Inline(json) => json@ == spec_trim(given@) && json@.len() > 0 && json@[0]
                == '{',
            KeySource::File(path) => path@ == spec_trim(given@) && !(path@.len() > 0 && path@[0]
                == '{'),
        },
{
    let trimmed = str_trim(given);
    if trimmed.unicode_len() > 0 && trimmed.get_char(0) == '{' {
        KeySource::Inline(String::from_str(trimmed))
    } else {
        KeySource::File(String::from_str(trimmed))
    }
}

/// The radix and the digits of a numeral: white space at either end is
/// dropped, and `0x` or `0X` in front announces base 16.
pub open spec fn numeral_parts(value: Seq<char>) -> (int, Seq<char>) {
    let t = spec_trim(value);
    if t.len() >= 2 && t[0] == '0' && (t[1] == 'x' || t[1] == 'X') {
        (16, t.subrange(2, t.len() as int))
    } else {
        (10, t)
    }
}

/// The number that a numeral of a key spells, if it spells one.
pub open spec fn spec_parse_biguint(value: Seq<char>) -> Option<nat> {
    let (radix, digits) = numeral_parts(value);
    spec_parse_radix(encode_utf8(digits), radix)
}

/// What is said of a numeral that spells no number.
pub open spec fn numeral_error(value: Seq<char>) -> Seq<char> {
    "Nie można sparsować wartości liczbowej '"@ + value
        + "'. Obsługiwane są zapis dziesiętny oraz szesnastkowy (0x)."@
}

/// The number that a field of a key spells.
pub fn parse_biguint(value: &str) -> (result: Result<BigNat, CryptoError>)
    ensures
        match spec_parse_biguint(value@) {
            Some(number) => result matches Ok(n) && n@ == number,
            None => result matches Err(CryptoError::InvalidKey(msg)) && msg@ == numeral_error(
                value@,
            ),
        },
{
    let trimmed = str_trim(value);
    let len = trimmed.unicode_len();
    let hexadecimal = len >= 2 && trimmed.get_char(0) == '0' && (trimmed.get_char(1) == 'x'
        || trimmed.get_char(1) == 'X');
    let parsed = if hexadecimal {
        BigNat::parse_bytes(trimmed.substring_char(2, len).as_bytes(), 16)
    } else {
        BigNat::parse_bytes(trimmed.as_bytes(), 10)
    };
    match parsed {
        Some(number) => Ok(number),
        None => {
            let msg = String::from_str("Nie można sparsować wartości liczbowej '").concat(
                value,
            ).concat("'. Obsługiwane są zapis dziesiętny oraz szesnastkowy (0x).");
            Err(CryptoError::InvalidKey(msg))
        },
    }
}

/// The number that an optional field spells, or the error for that field.
pub open spec fn spec_parse_optional(field: Option<String>) -> Result<Option<nat>, Seq<char>> {
    match field {
        None => Ok(None),
        Some(text) => match spec_parse_biguint(text@) {
            Some(number) => Ok(Some(number)),
            None => Err(numeral_error(text@)),
        },
    }
}

/// The modulus and the exponents that a payload spells, or the error for the
/// first field, in the order `n`, `e`, `d`, that spells no number.
pub open spec fn spec_key_material(payload: RsaKeyPayload) -> Result<
    (nat, Option<nat>, Option<nat>),
    Seq<char>,
> {
    match spec_parse_biguint(payload.n@) {
        None => Err(numeral_error(payload.n@)),
        Some(n) => match spec_parse_optional(payload.e) {
            Err(msg) => Err(msg),
            Ok(e) => match spec_parse_optional(payload.d) {
                Err(msg) => Err(msg),
                Ok(d) => Ok((n, e, d)),
            },
        },
    }
}

fn parse_optional(field: &Option<String>) -> (result: Result<Option<BigNat>, CryptoError>)
    ensures
        match spec_parse_optional(*field) {
            Ok(Some(number)) => result matches Ok(Some(n)) && n@ == number,
            Ok(None) => result matches Ok(None),
            Err(text) => result matches Err(CryptoError::InvalidKey(msg)) && msg@ == text,
        },
{
    match field {
        Some(value) => match parse_biguint(value.as_str()) {
            Ok(number) => Ok(Some(number)),
            Err(error) => Err(error),
        },
        None => Ok(None),
    }
}

/// The text of a message as one number, its UTF-8 bytes read most
/// significant byte first.
pub open spec fn message_number(text: Seq<char>) -> nat {
    be_nat(encode_utf8(text))
}

pub open spec fn view_option(value: Option<BigNat>) -> Option<nat> {
    match value {
        Some(n) => Some(n@),
        None => None,
    }
}

impl RsaCipher {
    /// The modulus of the key.
    pub closed spec fn modulus(&self) -> nat {
        self.key.modulus@
    }

    /// The public exponent of the key, if it has one.
    pub closed spec fn public_exponent(&self) -> Option<nat> {
        view_option(self.key.public_exp)
    }

    /// The private exponent of the key, if it has one.
    pub closed spec fn private_exponent(&self) -> Option<nat> {
        view_option(self.key.private_exp)
    }

    /// Refuses a key that cannot encrypt.
    pub fn require_public_components(&self) -> (result: Result<(), CryptoError>)
        ensures
            self.public_exponent() is Some ==> result is Ok,
            self.public_exponent() is None ==> (result matches Err(CryptoError::InvalidKey(msg))
                && msg@ == "Klucz publiczny RSA musi zawierać pole 'e' (eksponent publiczny)"@),
    {
        if self.has_public_exponent() {
            Ok(())
        } else {
            Err(
                CryptoError::InvalidKey(
                    String::from_str(
                        "Klucz publiczny RSA musi zawierać pole 'e' (eksponent publiczny)",
                    ),
                ),
            )
        }
    }

    /// Refuses a key that cannot decrypt.
    pub fn require_private_components(&self) -> (result: Result<(), CryptoError>)
        ensures
            self.private_exponent() is Some ==> result is Ok,
            self.private_exponent() is None ==> (result matches Err(CryptoError::InvalidKey(msg))
                && msg@ == "Klucz prywatny RSA musi zawierać pole 'd' (eksponent prywatny)"@),
    {
        if self.has_private_exponent() {
            Ok(())
        } else {
            Err(
                CryptoError::InvalidKey(
                    String::from_str(
                        "Klucz prywatny RSA musi zawierać pole 'd' (eksponent prywatny)",
                    ),
                ),
            )
        }
    }

    /// Whether the key can encrypt.
    pub fn has_public_exponent(&self) -> (has: bool)
        ensures
            has == self.public_exponent() is Some,
    {
        self.key.public_exp.is_some()
    }

    /// Whether the key can decrypt.
    pub fn has_private_exponent(&self) -> (has: bool)
        ensures
            has == self.private_exponent() is Some,
    {
        self.key.private_exp.is_some()
    }

    /// The cipher for a key given by its fields.
    pub fn new(payload: &RsaKeyPayload) -> (result: Result<Self, CryptoError>)
        ensures
            match spec_key_material(*payload) {
                Ok((n, e, d)) => result matches Ok(cipher) && cipher.modulus() == n
                    && cipher.public_exponent() == e && cipher.private_exponent() == d,
                Err(text) => result matches Err(CryptoError::InvalidKey(msg)) && msg@ == text,
            },
    {
        let modulus = match parse_biguint(payload.n.as_str()) {
            Ok(n) => n,
            Err(error) => {
                return Err(error);
            },
        };
        let public_exp = match parse_optional(&payload.e) {
            Ok(e) => e,
            Err(error) => {
                return Err(error);
            },
        };
        let private_exp = match parse_optional(&payload.d) {
            Ok(d) => d,
            Err(error) => {
                return Err(error);
            },
        };
        Ok(Self { key: RsaKeyMaterial { modulus, public_exp, private_exp } })
    }

    /// The ciphertext for a message, in hexadecimal digits: the message as a
    /// number, which must be below the modulus, raised to the public
    /// exponent modulo the modulus.
    pub fn encrypt(&self, plaintext: &str) -> (result: Result<String, CryptoError>)
        ensures
            match self.public_exponent() {
                None => result matches Err(CryptoError::InvalidKey(msg)) && msg@
                    == "Klucz publiczny RSA musi zawierać pole 'e' (eksponent publiczny)"@,
                Some(e) => if message_number(plaintext@) >= self.modulus() {
                    result matches Err(CryptoError::InvalidFormat(msg)) && msg@
                        == "Wiadomość jest większa lub równa modułowi RSA. Użyj większego klucza lub podziel dane na mniejsze bloki."@
                } else {
                    result matches Ok(text) && text@ == hex_digits(
                        (pow(message_number(plaintext@) as int, e) % (self.modulus() as int)) as nat,
                    )
                },
            },
    {
        let public_exp = match &self.key.public_exp {
            Some(e) => e,
            None => {
                return Err(
                    CryptoError::InvalidKey(
                        String::from_str(
                            "Klucz publiczny RSA musi zawierać pole 'e' (eksponent publiczny)",
                        ),
                    ),
                );
            },
        };
        let modulus = &self.key.modulus;
        let message = BigNat::from_bytes_be(plaintext.as_bytes());

        if !message.less_than(modulus) {
            return Err(
                CryptoError::InvalidFormat(
                    String::from_str(
                        "Wiadomość jest większa lub równa modułowi RSA. Użyj większego klucza lub podziel dane na mniejsze bloki.",
                    ),
                ),
            );
        }
        let ciphertext = encrypt_block(&message, public_exp, modulus);
        Ok(ciphertext.to_hex())
    }

    /// The message inside a ciphertext given in hexadecimal digits, white
    /// space set aside: the ciphertext as a number, which must be below the
    /// modulus, raised to the private exponent modulo the modulus, and the
    /// bytes of the result read as UTF-8 text.
    pub fn decrypt(&self, ciphertext_hex: &str) -> (result: Result<String, CryptoError>)
        ensures
            match spec_rsa_decrypt(
                self.modulus(),
                self.private_exponent(),
                without_whitespace(ciphertext_hex@),
            ) {
                Ok(text) => result matches Ok(out) && out@ == text,
                Err(RsaFailure::NoPrivateExponent) => result matches Err(
                    CryptoError::InvalidKey(msg),
                ) && msg@ == "Klucz prywatny RSA musi zawierać pole 'd' (eksponent prywatny)"@,
                Err(failure) => result matches Err(CryptoError::InvalidFormat(msg)) && msg@
                    == failure.message(),
            },
    {
        let private_exp = match &self.key.private_exp {
            Some(d) => d,
            None => {
                return Err(
                    CryptoError::InvalidKey(
                        String::from_str(
                            "Klucz prywatny RSA musi zawierać pole 'd' (eksponent prywatny)",
                        ),
                    ),
                );
            },
        };
        let modulus = &self.key.modulus;
        let cleaned = remove_whitespace(ciphertext_hex);
        if cleaned.as_str().is_empty() {
            return Err(
                CryptoError::InvalidFormat(
                    String::from_str("Plik z szyfrogramem jest pusty lub zawiera tylko białe znaki"),
                ),
            );
        }
        let ciphertext = match BigNat::parse_bytes(cleaned.as_str().as_bytes(), 16) {
            Some(c) => c,
            None => {
                return Err(
                    CryptoError::InvalidFormat(
                        String::from_str(
                            "Nie można sparsować szyfrogramu w formacie heksadecymalnym",
                        ),
                    ),
                );
            },
        };
        if !ciphertext.less_than(modulus) {
            return Err(
                CryptoError::InvalidFormat(
                    String::from_str(
                        "Szyfrogram jest większy lub równy modułowi RSA. Dane są uszkodzone lub klucz jest niepoprawny.",
                    ),
                ),
            );
        }
        let message = decrypt_block(&ciphertext, private_exp, modulus);
        let message_bytes = message.to_bytes_be();
        match string_from_utf8(message_bytes) {
            Some(plaintext) => Ok(plaintext),
            None => Err(
                CryptoError::InvalidFormat(
                    String::from_str(
                        "Odszyfrowany tekst nie jest poprawnym UTF-8. Upewnij się, że szyfrowany plik zawierał tekst.",
                    ),
                ),
            ),
        }
    }
}

/// Why a ciphertext is not decrypted.
pub enum RsaFailure {
    NoPrivateExponent,
    EmptyCiphertext,
    NotHexadecimal,
    NotBelowModulus,
    NotText,
}

impl RsaFailure {
    /// The message that decryption reports for a malformed input.
    pub open spec fn message(self) -> Seq<char> {
        match self {
            RsaFailure::NoPrivateExponent => "Klucz prywatny RSA musi zawierać pole 'd' (eksponent prywatny)"@,
            RsaFailure::EmptyCiphertext => "Plik z szyfrogramem jest pusty lub zawiera tylko białe znaki"@,
            RsaFailure::NotHexadecimal => "Nie można sparsować szyfrogramu w formacie heksadecymalnym"@,
            RsaFailure::NotBelowModulus => "Szyfrogram jest większy lub równy modułowi RSA. Dane są uszkodzone lub klucz jest niepoprawny."@,
            RsaFailure::NotText => "Odszyfrowany tekst nie jest poprawnym UTF-8. Upewnij się, że szyfrowany plik zawierał tekst."@,
        }
    }
}

/// What decryption makes of a ciphertext from which white space was taken:
/// the text whose UTF-8 bytes are the shortest spelling of
/// `ciphertext ^ d mod n`.
pub open spec fn spec_rsa_decrypt(n: nat, d: Option<nat>, cleaned: Seq<char>) -> Result<
    Seq<char>,
    RsaFailure,
> {
    match d {
        None => Err(RsaFailure::NoPrivateExponent),
        Some(d) => if cleaned.len() == 0 {
            Err(RsaFailure::EmptyCiphertext)
        } else {
            match spec_parse_radix(encode_utf8(cleaned), 16) {
                None => Err(RsaFailure::NotHexadecimal),
                Some(c) => if c >= n {
                    Err(RsaFailure::NotBelowModulus)
                } else {
                    let bytes = minimal_be((pow(c as int, d) % (n as int)) as nat);
                    if valid_utf8(bytes) {
                        Ok(decode_utf8(bytes))
                    } else {
                        Err(RsaFailure::NotText)
                    }
                },
            }
        },
    }
}

/// Rounds of the Miller–Rabin test that key generation runs on a candidate.
pub const MR_ROUNDS: usize = 12;

/// The public exponent of every generated key.
pub const DEFAULT_E: u64 = 65_537;

/// The power `message ^ exponent` reduced by a modulus that is not zero.
pub fn encrypt_block(message: &BigNat, exponent: &BigNat, modulus: &BigNat) -> (ciphertext: BigNat)
    requires
        modulus@ != 0,
    ensures
        ciphertext@ == pow(message@ as int, exponent@) % (modulus@ as int),
{
    message.modpow(exponent, modulus)
}

/// The power `ciphertext ^ exponent` reduced by a modulus that is not zero.
pub fn decrypt_block(ciphertext: &BigNat, exponent: &BigNat, modulus: &BigNat) -> (message: BigNat)
    requires
        modulus@ != 0,
    ensures
        message@ == pow(ciphertext@ as int, exponent@) % (modulus@ as int),
{
    ciphertext.modpow(exponent, modulus)
}

/// The extended Euclidean algorithm: `(g, x, y)` with `g = a * x + b * y`;
/// where neither argument is negative, `g` is their greatest common divisor.
pub fn extended_gcd(a: BigSigned, b: BigSigned) -> (result: (BigSigned, BigSigned, BigSigned))
    ensures
        (result.0@, result.1@, result.2@) == spec_extended_gcd(a@, b@),
        result.0@ == a@ * result.1@ + b@ * result.2@,
        a@ >= 0 && b@ >= 0 ==> result.0@ == gcd(a@ as nat, b@ as nat),
    decreases abs(b@),
{
    proof {
        crate::algorithms::number_theory::lemma_bezout(a@, b@);
        if a@ >= 0 && b@ >= 0 {
            lemma_extended_gcd_is_gcd(a@, b@);
        }
    }
    if b.is_zero() {
        (a.duplicate(), BigSigned::one(), BigSigned::zero())
    } else {
        proof {
            lemma_trunc_div_rem(a@, b@);
        }
        let (g, x1, y1) = extended_gcd(b.duplicate(), a.rem(&b));
        let x = y1.duplicate();
        let y = x1.sub(&a.div(&b).mul(&y1));
        (g, x, y)
    }
}

/// The inverse of `a` modulo `modulus`, if the extended Euclidean algorithm
/// ends with 1: a number from 0 to `modulus - 1` whose product with `a`
/// leaves the remainder of 1. For an `a` that is not negative that is the
/// case exactly where `a` and `modulus` have no common divisor but 1.
pub fn modinv(a: &BigSigned, modulus: &BigSigned) -> (inverse: Option<BigSigned>)
    requires
        modulus@ > 0,
    ensures
        match spec_modinv(a@, modulus@) {
            Some(d) => inverse matches Some(v) && v@ == d,
            None => inverse is None,
        },
        inverse matches Some(v) ==> 0 <= v@ < modulus@ && (a@ * v@) % modulus@ == 1int % modulus@,
        a@ >= 0 ==> (inverse is Some <==> gcd(a@ as nat, modulus@ as nat) == 1),
{
    let (g, x, _) = extended_gcd(a.duplicate(), modulus.duplicate());
    if !g.equals(&BigSigned::one()) {
        return None;
    }
    let mut res = x.rem(modulus);
    if res.less_than(&BigSigned::zero()) {
        res = res.add(modulus);
    }
    proof {
        lemma_trunc_rem_normalized(x@, modulus@);
        lemma_modinv_is_inverse(a@, modulus@);
    }
    Some(res)
}

/// What is left of a number when every factor 2 is taken out.
pub open spec fn odd_part(m: nat) -> nat
    decreases m,
{
    if m == 0 || m % 2 == 1 {
        m
    } else {
        odd_part(m / 2)
    }
}

/// How often 2 divides a number; 0 for zero.
pub open spec fn two_exponent(m: nat) -> nat
    decreases m,
{
    if m == 0 || m % 2 == 1 {
        0
    } else {
        1 + two_exponent(m / 2)
    }
}

/// The base `a` raised to `d * 2^r`, reduced modulo `n`.
pub open spec fn mr_step(n: nat, a: nat, d: nat, r: nat) -> int {
    pow(a as int, d * pow2(r)) % (n as int)
}

/// Whether the base `a` passes a round of the Miller–Rabin test of `n`,
/// where `n - 1` is `d * 2^s`: `a^d` is 1 or `n - 1`, or one of the squares
/// that follow, up to `a^(d * 2^(s - 1))`, is `n - 1`.
pub open spec fn passes_round(n: nat, d: nat, s: nat, a: nat) -> bool {
    ||| mr_step(n, a, d, 0) == 1
    ||| mr_step(n, a, d, 0) == n - 1
    ||| exists|r: nat| 1 <= r < s && #[trigger] mr_step(n, a, d, r) == n - 1
}

/// Whether `a` shows an odd `n` above 3 to be composite.
pub open spec fn is_witness(n: nat, a: nat) -> bool {
    !passes_round(n, odd_part((n - 1) as nat), two_exponent((n - 1) as nat), a)
}

/// Squaring one step of the test gives the next.
pub proof fn lemma_mr_square(n: nat, a: nat, d: nat, r: nat)
    requires
        n > 0,
    ensures
        pow(mr_step(n, a, d, r), 2) % (n as int) == mr_step(n, a, d, r + 1),
{
    let e = d * pow2(r);
    vstd::arithmetic::power::lemma_pow_mod_noop(pow(a as int, e), 2, n as int);
    vstd::arithmetic::power::lemma_pow_multiplies(a as int, e, 2);
    vstd::arithmetic::power2::lemma_pow2_unfold(r + 1);
    assert(e * 2 == d * pow2(r + 1)) by (nonlinear_arith)
        requires
            e == d * pow2(r),
            pow2(r + 1) == 2 * pow2(r),
    ;
}

/// A positive number below `2^k` holds the factor 2 fewer than `k` times.
pub proof fn lemma_two_exponent_bound(m: nat, k: nat)
    requires
        0 < m < pow2(k),
    ensures
        two_exponent(m) < k,
    decreases m,
{
    if k == 0 {
        vstd::arithmetic::power2::lemma2_to64();
    } else {
        vstd::arithmetic::power2::lemma_pow2_unfold(k);
        if m % 2 == 0 {
            lemma_two_exponent_bound(m / 2, (k - 1) as nat);
        }
    }
}

/// One round of the Miller–Rabin test of `n` with the base `a`, where
/// `n - 1` is `d * 2^s`.
pub fn miller_rabin_round(n: &BigNat, n_minus_one: &BigNat, d: &BigNat, s: u128, a: &BigNat) -> (passed:
    bool)
    requires
        n@ > 0,
        n_minus_one@ == n@ - 1,
    ensures
        passed == passes_round(n@, d@, s as nat, a@),
{
    let one = BigNat::from_u64(1);
    let two = BigNat::from_u64(2);
    let mut x = a.modpow(d, n);
    proof {
        vstd::arithmetic::power2::lemma2_to64();
        assert(d@ * pow2(0) == d@);
    }
    if x.equals(&one) || x.equals(n_minus_one) {
        return true;
    }
    let mut i: u128 = 1;
    while i < s
        invariant
            n@ > 0,
            n_minus_one@ == n@ - 1,
            two@ == 2,
            1 <= i,
            x@ == mr_step(n@, a@, d@, (i - 1) as nat),
            mr_step(n@, a@, d@, 0) != 1,
            mr_step(n@, a@, d@, 0) != n@ - 1,
            forall|r: nat| 1 <= r < i ==> #[trigger] mr_step(n@, a@, d@, r) != n@ - 1,
        decreases s - i,
    {
        proof {
            lemma_mr_square(n@, a@, d@, (i - 1) as nat);
        }
        x = x.modpow(&two, n);
        if x.equals(n_minus_one) {
            return true;
        }
        i += 1;
    }
    false
}

/// The values of a sequence of numbers.
pub open spec fn values(numbers: Seq<BigNat>) -> Seq<nat> {
    Seq::new(numbers.len(), |i: int| numbers[i]@)
}

/// What the Miller–Rabin test says of `n` with given bases: numbers below 2
/// and even numbers above 2 are refused, 2 and 3 accepted, and an odd number
/// above 3 is accepted exactly if none of the bases shows it to be composite.
pub open spec fn spec_probable_prime(n: nat, bases: Seq<nat>) -> bool {
    if n <= 3 {
        n == 2 || n == 3
    } else if n % 2 == 0 {
        false
    } else {
        forall|i: int| 0 <= i < bases.len() ==> !is_witness(n, #[trigger] bases[i])
    }
}

/// Whether the bases are as many as the rounds, each from 2 to `n - 2`.
pub open spec fn drawn_bases(n: nat, rounds: nat, bases: Seq<nat>) -> bool {
    bases.len() == rounds && forall|i: int| 0 <= i < bases.len() ==> 2 <= #[trigger] bases[i] < n - 1
}

/// Whether `n` is 2 or 3, or an odd number above 3 that some `rounds` bases
/// from 2 to `n - 2` all let pass.
pub open spec fn passed_test(n: nat, rounds: nat) -> bool {
    if n <= 3 {
        n == 2 || n == 3
    } else {
        exists|bases: Seq<nat>| #[trigger]
            drawn_bases(n, rounds, bases) && spec_probable_prime(n, bases)
    }
}

/// A prime passes the test with any bases that it does not divide.
pub proof fn lemma_prime_is_probable(n: nat, bases: Seq<nat>)
    requires
        is_prime(n),
        forall|i: int| 0 <= i < bases.len() ==> (#[trigger] bases[i]) % n != 0,
    ensures
        spec_probable_prime(n, bases),
{
    if n > 3 {
        if n % 2 == 0 {
            assert(1 < 2 < n && n % 2 == 0);
        }
        assert forall|i: int| 0 <= i < bases.len() implies !is_witness(n, #[trigger] bases[i]) by {
            lemma_prime_has_no_witness(n, bases[i]);
        }
    }
}

/// The Miller–Rabin test with the bases given: the first base that shows
/// `n` to be composite ends it.
pub fn is_probable_prime_with_bases(n: &BigNat, bases: &[BigNat]) -> (probable: bool)
    ensures
        probable == spec_probable_prime(n@, values(bases@)),
{
    let two = BigNat::from_u64(2);
    let three = BigNat::from_u64(3);
    if n.less_than(&two) {
        return false;
    }
    if n.equals(&two) || n.equals(&three) {
        return true;
    }
    if n.is_even() {
        return false;
    }
    let one = BigNat::from_u64(1);
    let n_minus_one = n.sub(&one);
    let mut d = n_minus_one.duplicate();
    let mut s: u128 = 0;
    let len = n.byte_len();
    proof {
        lemma_two_exponent_bound(n_minus_one@, 8 * len as nat);
    }
    while d.is_even()
        invariant
            d@ > 0,
            odd_part(d@) == odd_part(n_minus_one@),
            s + two_exponent(d@) == two_exponent(n_minus_one@),
            two_exponent(n_minus_one@) < 8 * len,
        decreases d@,
    {
        d = d.half();
        s += 1;
    }

    for round in 0..bases.len()
        invariant
            n@ > 3,
            n@ % 2 == 1,
            n_minus_one@ == n@ - 1,
            d@ == odd_part(n_minus_one@),
            s == two_exponent(n_minus_one@),
            forall|i: int| 0 <= i < round ==> !is_witness(n@, #[trigger] values(bases@)[i]),
    {
        if !miller_rabin_round(n, &n_minus_one, &d, s, &bases[round]) {
            assert(is_witness(n@, values(bases@)[round as int]));
            return false;
        }
        assert(!is_witness(n@, values(bases@)[round as int]));
    }
    true
}

/// The Miller–Rabin test with as many bases as there are rounds, each drawn
/// at random from 2 to `n - 2`. A prime is always accepted; a composite
/// number may be accepted too, the less likely the more rounds there are.
pub fn is_probable_prime(n: &BigNat, rounds: usize) -> (probable: bool)
    ensures
        is_prime(n@) ==> probable,
        n@ <= 3 || n@ % 2 == 0 ==> probable == (n@ == 2 || n@ == 3),
        n@ > 3 && n@ % 2 == 1 ==> exists|bases: Seq<nat>| #[trigger]
            drawn_bases(n@, rounds as nat, bases) && probable == spec_probable_prime(n@, bases),
        probable ==> passed_test(n@, rounds as nat),
{
    let four = BigNat::from_u64(4);
    let mut bases: Vec<BigNat> = Vec::new();
    if n.less_than(&four) || n.is_even() {
        proof {
            if is_prime(n@) && n@ > 3 {
                assert(1 < 2 < n@ && n@ % 2 == 0);
            }
        }
        return is_probable_prime_with_bases(n, bases.as_slice());
    }
    let two = BigNat::from_u64(2);
    let one = BigNat::from_u64(1);
    let n_minus_one = n.sub(&one);
    for round in 0..rounds
        invariant
            n@ > 3,
            two@ == 2,
            n_minus_one@ == n@ - 1,
            bases@.len() == round,
            forall|i: int| 0 <= i < round ==> 2 <= #[trigger] values(bases@)[i] < n@ - 1,
    {
        let a = BigNat::random_range(&two, &n_minus_one);
        let ghost before = bases@;
        bases.push(a);
        proof {
            assert forall|i: int| 0 <= i < round + 1 implies 2 <= #[trigger] values(bases@)[i] < n@
                - 1 by {
                if i < round {
                    assert(bases@[i] == before[i]);
                    assert(values(before)[i] == before[i]@);
                }
            }
        }
    }
    let probable = is_probable_prime_with_bases(n, bases.as_slice());
    proof {
        let drawn = values(bases@);
        assert(drawn_bases(n@, rounds as nat, drawn));
        if is_prime(n@) {
            assert forall|i: int| 0 <= i < drawn.len() implies (#[trigger] drawn[i]) % n@ != 0 by {
                vstd::arithmetic::div_mod::lemma_small_mod(drawn[i], n@);
            }
            lemma_prime_is_probable(n@, drawn);
        }
    }
    probable
}

/// The shape of a candidate prime of `bits` bits: odd, below `2^bits`, its
/// top bit set.
pub open spec fn is_candidate(p: nat, bits: nat) -> bool {
    &&& bits >= 2
    &&& p % 2 == 1
    &&& pow2((bits - 1) as nat) <= p < pow2(bits)
}

/// Setting the top bit of a number below `2^b` puts it into the upper half
/// of that range.
pub proof fn lemma_with_bit_top(c: nat, b: nat)
    requires
        b >= 1,
        c < pow2(b),
    ensures
        pow2((b - 1) as nat) <= with_bit(c, (b - 1) as nat) < pow2(b),
{
    let h = pow2((b - 1) as nat);
    vstd::arithmetic::power2::lemma_pow2_unfold(b);
    vstd::arithmetic::power2::lemma_pow2_pos((b - 1) as nat);
    vstd::arithmetic::div_mod::lemma_fundamental_div_mod(c as int, h as int);
    vstd::arithmetic::div_mod::lemma_mod_bound(c as int, h as int);
    let q = c as int / h as int;
    assert(0 <= q < 2) by (nonlinear_arith)
        requires
            c == h * q + c % h,
            0 <= c % h < h,
            0 <= c < 2 * h,
    ;
    assert(h * q == if q == 0 { 0 } else { h as int }) by (nonlinear_arith)
        requires
            0 <= q < 2,
    ;
}

/// Setting the lowest bit of a number below `2^b` makes it odd and leaves
/// it in the half of that range that it was in.
pub proof fn lemma_with_bit_low(c: nat, b: nat)
    requires
        b >= 1,
        c < pow2(b),
    ensures
        with_bit(c, 0) % 2 == 1,
        c <= with_bit(c, 0) < pow2(b),
{
    vstd::arithmetic::power2::lemma2_to64();
    vstd::arithmetic::power2::lemma_pow2_unfold(b);
    assert(c / 1 == c);
}

/// A drawn number made into a candidate of `bits` bits: its top bit and its
/// lowest bit are set; for fewer than two bits only the lowest.
pub fn candidate_from(drawn: &BigNat, bits: usize) -> (candidate: BigNat)
    ensures
        candidate@ == if bits > 1 {
            with_bit(with_bit(drawn@, (bits - 1) as nat), 0)
        } else {
            with_bit(drawn@, 0)
        },
        bits >= 2 && drawn@ < pow2(bits as nat) ==> is_candidate(candidate@, bits as nat),
        bits <= 1 && drawn@ < pow2(bits as nat) ==> candidate@ == 1,
{
    proof {
        if drawn@ < pow2(bits as nat) {
            if bits > 1 {
                lemma_with_bit_top(drawn@, bits as nat);
                lemma_with_bit_low(with_bit(drawn@, (bits - 1) as nat), bits as nat);
            } else {
                // a number below 2 with its lowest bit set is 1
                vstd::arithmetic::power2::lemma2_to64();
                assert(drawn@ < 2);
                assert(drawn@ / 1 == drawn@);
            }
        }
    }
    if bits > 1 {
        drawn.set_bit((bits - 1) as u64).set_bit(0)
    } else {
        drawn.set_bit(0)
    }
}

/// A probable prime of `bits` bits: numbers are drawn and made into
/// candidates until one passes the Miller–Rabin test. Every number drawn
/// uses up one unit of the budget; without budget there is no prime.
pub fn gen_prime(bits: usize, budget: &mut usize) -> (prime: Option<BigNat>)
    ensures
        *final(budget) <= *old(budget),
        prime matches Some(p) ==> is_candidate(p@, bits as nat) && passed_test(
            p@,
            MR_ROUNDS as nat,
        ) && *final(budget) < *old(budget),
        prime is None ==> *final(budget) == 0,
{
    let bit_size = bits as u64;

    while *budget > 0
        invariant
            *budget <= *old(budget),
            bit_size == bits,
        decreases *budget,
    {
        *budget -= 1;
        let drawn = BigNat::random_bits(bit_size);
        let candidate = candidate_from(&drawn, bits);

        if is_probable_prime(&candidate, MR_ROUNDS) {
            return Some(candidate);
        }
    }
    None
}

/// The key pair that two numbers give: the modulus `p * q`, the public
/// exponent 65537 and its inverse modulo `(p - 1) * (q - 1)`; none where the
/// numbers are equal, where 65537 shares a divisor with `(p - 1) * (q - 1)`,
/// or where the inverse is zero.
pub open spec fn spec_key_pair(p: nat, q: nat) -> Option<(nat, nat, nat)> {
    let phi = (p - 1) * (q - 1);
    if p == q || gcd(DEFAULT_E as nat, phi as nat) != 1 {
        None
    } else {
        match spec_modinv(DEFAULT_E as int, phi) {
            Some(d) => if d != 0 {
                Some((p * q, DEFAULT_E as nat, d as nat))
            } else {
                None
            },
            None => None,
        }
    }
}

/// The key pair for two primes, or nothing where they give none.
pub fn keypair_from_primes(p: &BigNat, q: &BigNat) -> (pair: Option<RsaKeyPair>)
    requires
        p@ >= 1,
        q@ >= 1,
    ensures
        match spec_key_pair(p@, q@) {
            Some((n, e, d)) => pair matches Some(keys) && keys.public.n@ == n && keys.private.n@
                == n && keys.public.e@ == e && keys.private.d@ == d,
            None => pair is None,
        },
        pair matches Some(keys) ==> 0 < keys.private.d@ < (p@ - 1) * (q@ - 1) && (keys.public.e@
            * keys.private.d@) % (((p@ - 1) * (q@ - 1)) as nat) == 1,
{
    if p.equals(q) {
        return None;
    }
    let n = p.mul(q);
    let one = BigNat::from_u64(1);
    let phi = p.sub(&one).mul(&q.sub(&one));
    let e = BigNat::from_u64(DEFAULT_E);

    if !e.gcd(&phi).equals(&one) {
        return None;
    }
    assert(phi@ != 0);
    let e_bi = BigSigned::from_nat(&e);
    let phi_bi = BigSigned::from_nat(&phi);

    match modinv(&e_bi, &phi_bi) {
        Some(d_bi) => {
            if d_bi.is_zero() {
                return None;
            }
            let d = d_bi.to_nat();
            proof {
                if phi@ == 1 {
                    assert(d@ < 1);
                } else {
                    vstd::arithmetic::div_mod::lemma_small_mod(1, phi@);
                }
            }
            let public = RsaPublicKey { e: e.duplicate(), n: n.duplicate() };
            let private = RsaPrivateKey { d, n: n.duplicate() };
            Some(RsaKeyPair { public, private })
        },
        None => None,
    }
}

/// Draws probable primes, each accepted by the Miller–Rabin test, and makes
/// a key pair of the first two that give one. `bits` is the size of each prime, so the modulus has about twice as
/// many bits; fewer than 16 are refused. At most `max_candidates` numbers
/// are drawn: if they give no key pair the result is `Ok(None)`, and the
/// caller may ask again.
pub fn generate_keypair(bits: usize, max_candidates: usize) -> (result: Result<
    Option<RsaKeyPair>,
    CryptoError,
>)
    ensures
        bits < 16 ==> (result matches Err(CryptoError::InvalidKey(msg)) && msg@
            == "Długość klucza RSA musi wynosić co najmniej 16 bitów"@),
        bits >= 16 ==> result is Ok,
        max_candidates == 0 ==> !(result matches Ok(Some(_))),
        result matches Ok(Some(keys)) ==> keys.private.n@ == keys.public.n@ && exists|
            p: nat,
            q: nat,
        |
            is_candidate(p, bits as nat) && is_candidate(q, bits as nat) && passed_test(
                p,
                MR_ROUNDS as nat,
            ) && passed_test(q, MR_ROUNDS as nat) && #[trigger] spec_key_pair(p, q) == Some(
                (keys.public.n@, keys.public.e@, keys.private.d@),
            ),
{
    if bits < 16 {
        return Err(
            CryptoError::InvalidKey(
                String::from_str("Długość klucza RSA musi wynosić co najmniej 16 bitów"),
            ),
        );
    }
    let mut budget = max_candidates;

    while budget > 0
        invariant
            bits >= 16,
            budget <= max_candidates,
        decreases budget,
    {
        let p = match gen_prime(bits, &mut budget) {
            Some(p) => p,
            None => {
                return Ok(None);
            },
        };
        let q = match gen_prime(bits, &mut budget) {
            Some(q) => q,
            None => {
                return Ok(None);
            },
        };
        match keypair_from_primes(&p, &q) {
            Some(keys) => {
                assert(spec_key_pair(p@, q@) == Some(
                    (keys.public.n@, keys.public.e@, keys.private.d@),
                ));
                return Ok(Some(keys));
            },
            None => {},
        }
    }
    Ok(None)
}

} // verus!
