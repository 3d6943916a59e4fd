use crate::utils::text::spec_hex_digit;
use num_bigint::{BigInt, BigUint, RandBigInt, Sign};
use num_integer::Integer;
use num_traits::{One, Zero};
use rand::rngs::OsRng;
use vstd::arithmetic::power::pow;
use vstd::arithmetic::power2::pow2;
use vstd::prelude::*;

verus! {

/// The number that the bytes spell in base 256, most significant byte first.
pub open spec fn be_nat(bytes: Seq<u8>) -> nat
    decreases bytes.len(),
{
    if bytes.len() == 0 {
        0
    } else {
        be_nat(bytes.drop_last()) * 256 + bytes.last() as nat
    }
}

/// The number that the bytes spell in two's complement, most significant
/// byte first; no bytes spell zero.
pub open spec fn twos_complement(bytes: Seq<u8>) -> int {
    if bytes.len() > 0 && bytes[0] >= 128 {
        be_nat(bytes) - pow(256, bytes.len())
    } else {
        be_nat(bytes) as int
    }
}

/// The shortest big-endian spelling of a number; zero is one zero byte.
pub open spec fn minimal_be(n: nat) -> Seq<u8>
    decreases n,
{
    if n < 256 {
        seq![n as u8]
    } else {
        minimal_be(n / 256).push((n % 256) as u8)
    }
}

/// The lower-case hexadecimal digits of a number, without leading zeros.
pub open spec fn hex_digits(n: nat) -> Seq<char>
    decreases n,
{
    if n < 16 {
        seq![spec_hex_digit(n as int)]
    } else {
        hex_digits(n / 16).push(spec_hex_digit(n as int % 16))
    }
}

/// The decimal digits of a number, without leading zeros.
pub open spec fn decimal_digits(n: nat) -> Seq<char>
    decreases n,
{
    if n < 10 {
        seq![(('0' as int + n) as u8) as char]
    } else {
        decimal_digits(n / 10).push((('0' as int + n % 10) as u8) as char)
    }
}

/// The greatest common divisor, by Euclid's recursion.
pub open spec fn gcd(a: nat, b: nat) -> nat
    decreases b,
{
    if b == 0 {
        a
    } else {
        gcd(b, a % b)
    }
}

/// The quotient rounded towards zero.
pub open spec fn trunc_div(a: int, b: int) -> int {
    if a >= 0 {
        if b > 0 {
            a / b
        } else {
            -(a / (-b))
        }
    } else {
        if b > 0 {
            -((-a) / b)
        } else {
            (-a) / (-b)
        }
    }
}

/// The remainder that goes with `trunc_div`; it has the sign of `a`.
pub open spec fn trunc_rem(a: int, b: int) -> int {
    a - b * trunc_div(a, b)
}

/// A number with bit `bit` set.
pub open spec fn with_bit(n: nat, bit: nat) -> nat {
    if (n / pow2(bit)) % 2 == 1 {
        n
    } else {
        n + pow2(bit)
    }
}

/// The value of a digit character in a radix up to 36, or 255 for any other
/// byte.
pub open spec fn digit_of(b: u8) -> int {
    if 48 <= b <= 57 {
        b - 48
    } else if 97 <= b <= 122 {
        b - 97 + 10
    } else if 65 <= b <= 90 {
        b - 65 + 10
    } else {
        255
    }
}

/// Whether the bytes are a numeral in the radix: digits and underscores,
/// not empty and not led by an underscore.
pub open spec fn is_numeral(s: Seq<u8>, radix: int) -> bool {
    &&& s.len() > 0
    &&& s[0] != 95
    &&& forall|i: int| 0 <= i < s.len() ==> #[trigger] s[i] == 95 || digit_of(s[i]) < radix
}

/// The number a numeral spells; underscores count for nothing.
pub open spec fn numeral_value(s: Seq<u8>, radix: int) -> nat
    decreases s.len(),
{
    if s.len() == 0 {
        0
    } else if s.last() == 95 {
        numeral_value(s.drop_last(), radix)
    } else {
        (numeral_value(s.drop_last(), radix) * radix + digit_of(s.last())) as nat
    }
}

/// The text without the one plus sign that may lead it.
pub open spec fn without_plus(s: Seq<u8>) -> Seq<u8> {
    if s.len() >= 1 && s[0] == 43 && !(s.len() >= 2 && s[1] == 43) {
        s.drop_first()
    } else {
        s
    }
}

/// The number that a text spells in the radix, if it is a numeral with at
/// most one leading plus sign.
pub open spec fn spec_parse_radix(s: Seq<u8>, radix: int) -> Option<nat> {
    if is_numeral(without_plus(s), radix) {
        Some(numeral_value(without_plus(s), radix))
    } else {
        None
    }
}

/// A number spelt with `k` bytes is below `2^(8k)`.
pub proof fn lemma_be_nat_bound(bytes: Seq<u8>)
    ensures
        be_nat(bytes) < pow2(8 * bytes.len()),
    decreases bytes.len(),
{
    if bytes.len() == 0 {
        vstd::arithmetic::power2::lemma2_to64();
    } else {
        let front = bytes.drop_last();
        lemma_be_nat_bound(front);
        vstd::arithmetic::power2::lemma_pow2_adds(8 * front.len(), 8);
        vstd::arithmetic::power2::lemma2_to64();
        assert(8 * front.len() + 8 == 8 * bytes.len());
        let high = be_nat(front);
        let bound = pow2(8 * front.len());
        assert(high * 256 + 255 < bound * 256) by (nonlinear_arith)
            requires
                high < bound,
        ;
    }
}

/// A natural number of any size, held as big-endian bytes. The arithmetic
/// is that of `num_bigint::BigUint`: every operation hands the bytes over
/// with `BigUint::from_bytes_be` and takes the result back with
/// `BigUint::to_bytes_be`.
#[derive(Debug, Clone)]
pub struct BigNat {
    bytes: Vec<u8>,
}

/// An integer of any size, held as big-endian bytes in two's complement.
/// The arithmetic is that of `num_bigint::BigInt`: every operation hands the
/// bytes over with `BigInt::from_signed_bytes_be` and takes the result back
/// with `BigInt::to_signed_bytes_be`.
#[derive(Debug, Clone)]
pub struct BigSigned {
    bytes: Vec<u8>,
}

impl View for BigNat {
    type V = nat;

    closed spec fn view(&self) -> nat {
        be_nat(self.bytes@)
    }
}

impl View for BigSigned {
    type V = int;

    closed spec fn view(&self) -> int {
        twos_complement(self.bytes@)
    }
}

impl BigNat {
    /// The number that the bytes spell, most significant byte first.
    pub fn from_bytes_be(bytes: &[u8]) -> (n: BigNat)
        ensures
            n@ == be_nat(bytes@),
    {
        BigNat { bytes: vstd::slice::slice_to_vec(bytes) }
    }

    /// `BigUint::to_bytes_be`: the shortest big-endian spelling of the number.
    #[verifier::external_body]
    pub(crate) fn minimal_bytes(&self) -> (bytes: Vec<u8>)
        ensures
            bytes@ == minimal_be(self@),
    {
        BigUint::from_bytes_be(&self.bytes).to_bytes_be()
    }

    /// The shortest big-endian spelling of the number.
    pub fn to_bytes_be(&self) -> (bytes: Vec<u8>)
        ensures
            bytes@ == minimal_be(self@),
    {
        self.minimal_bytes()
    }

    /// `BigUint::from` for a `u64`.
    #[verifier::external_body]
    pub(crate) fn from_u64(value: u64) -> (n: BigNat)
        ensures
            n@ == value,
    {
        BigNat { bytes: BigUint::from(value).to_bytes_be() }
    }

    /// The number of bytes that hold the number, which bounds it.
    pub(crate) fn byte_len(&self) -> (len: usize)
        ensures
            self@ < pow2(8 * len as nat),
    {
        proof {
            lemma_be_nat_bound(self.bytes@);
        }
        self.bytes.len()
    }

    /// A copy of the number.
    pub fn duplicate(&self) -> (n: BigNat)
        ensures
            n@ == self@,
    {
        BigNat { bytes: self.bytes.clone() }
    }

    /// `BigUint::parse_bytes`: the number that the text spells in the radix.
    /// The text may start with one plus sign and may hold underscores after
    /// its first digit; any other byte that is no digit of the radix, and a
    /// text without digits, give nothing.
    #[verifier::external_body]
    pub(crate) fn parse_bytes(digits: &[u8], radix: u32) -> (parsed: Option<BigNat>)
        requires
            2 <= radix <= 36,
        ensures
            match spec_parse_radix(digits@, radix as int) {
                Some(value) => parsed matches Some(n) && n@ == value,
                None => parsed is None,
            },
    {
        match BigUint::parse_bytes(digits, radix) {
            Some(value) => Some(BigNat { bytes: value.to_bytes_be() }),
            None => None,
        }
    }

    /// `BigUint::modpow`: the power reduced by the modulus, which must not
    /// be zero.
    #[verifier::external_body]
    pub(crate) fn modpow(&self, exponent: &BigNat, modulus: &BigNat) -> (r: BigNat)
        requires
            modulus@ != 0,
        ensures
            r@ == pow(self@ as int, exponent@) % (modulus@ as int),
    {
        let base = BigUint::from_bytes_be(&self.bytes);
        let e = BigUint::from_bytes_be(&exponent.bytes);
        let m = BigUint::from_bytes_be(&modulus.bytes);
        BigNat { bytes: base.modpow(&e, &m).to_bytes_be() }
    }

    /// The product, by `Mul` of `BigUint`.
    #[verifier::external_body]
    pub(crate) fn mul(&self, other: &BigNat) -> (r: BigNat)
        ensures
            r@ == self@ * other@,
    {
        let a = BigUint::from_bytes_be(&self.bytes);
        let b = BigUint::from_bytes_be(&other.bytes);
        BigNat { bytes: (a * b).to_bytes_be() }
    }

    /// The difference, by `Sub` of `BigUint`, which panics where the result
    /// would be negative.
    #[verifier::external_body]
    pub(crate) fn sub(&self, other: &BigNat) -> (r: BigNat)
        requires
            self@ >= other@,
        ensures
            r@ == self@ - other@,
    {
        let a = BigUint::from_bytes_be(&self.bytes);
        let b = BigUint::from_bytes_be(&other.bytes);
        BigNat { bytes: (a - b).to_bytes_be() }
    }

    /// `Integer::gcd` of `BigUint`: the greatest common divisor.
    #[verifier::external_body]
    pub(crate) fn gcd(&self, other: &BigNat) -> (r: BigNat)
        ensures
            r@ == gcd(self@, other@),
    {
        let a = BigUint::from_bytes_be(&self.bytes);
        let b = BigUint::from_bytes_be(&other.bytes);
        BigNat { bytes: a.gcd(&b).to_bytes_be() }
    }

    /// `Integer::is_even` of `BigUint`.
    #[verifier::external_body]
    pub(crate) fn is_even(&self) -> (even: bool)
        ensures
            even == (self@ % 2 == 0),
    {
        BigUint::from_bytes_be(&self.bytes).is_even()
    }

    /// The number shifted right by one bit, by `Shr` of `BigUint`.
    #[verifier::external_body]
    pub(crate) fn half(&self) -> (r: BigNat)
        ensures
            r@ == self@ / 2,
    {
        BigNat { bytes: (BigUint::from_bytes_be(&self.bytes) >> 1u32).to_bytes_be() }
    }

    /// `<` of `BigUint`.
    #[verifier::external_body]
    pub(crate) fn less_than(&self, other: &BigNat) -> (less: bool)
        ensures
            less == (self@ < other@),
    {
        BigUint::from_bytes_be(&self.bytes) < BigUint::from_bytes_be(&other.bytes)
    }

    /// `==` of `BigUint`.
    #[verifier::external_body]
    pub(crate) fn equals(&self, other: &BigNat) -> (equal: bool)
        ensures
            equal == (self@ == other@),
    {
        BigUint::from_bytes_be(&self.bytes) == BigUint::from_bytes_be(&other.bytes)
    }

    /// `RandBigInt::gen_biguint` on the generator of the operating system:
    /// some number below two to the power `bits`.
    #[verifier::external_body]
    pub(crate) fn random_bits(bits: u64) -> (r: BigNat)
        ensures
            r@ < pow2(bits as nat),
    {
        let mut rng = OsRng;
        BigNat { bytes: rng.gen_biguint(bits).to_bytes_be() }
    }

    /// `RandBigInt::gen_biguint_range` on the generator of the operating
    /// system: some number from `low` up to, not including, `high`. It
    /// panics on an empty range.
    #[verifier::external_body]
    pub(crate) fn random_range(low: &BigNat, high: &BigNat) -> (r: BigNat)
        requires
            low@ < high@,
        ensures
            low@ <= r@ < high@,
    {
        let mut rng = OsRng;
        let lbound = BigUint::from_bytes_be(&low.bytes);
        let ubound = BigUint::from_bytes_be(&high.bytes);
        BigNat { bytes: rng.gen_biguint_range(&lbound, &ubound).to_bytes_be() }
    }

    /// `BigUint::set_bit` with `true`: the number with one more bit set.
    #[verifier::external_body]
    pub(crate) fn set_bit(&self, bit: u64) -> (r: BigNat)
        ensures
            r@ == with_bit(self@, bit as nat),
    {
        let mut value = BigUint::from_bytes_be(&self.bytes);
        value.set_bit(bit, true);
        BigNat { bytes: value.to_bytes_be() }
    }

    /// `BigUint::to_str_radix` with the radix 10: decimal digits without
    /// leading zeros.
    #[verifier::external_body]
    pub(crate) fn decimal_text(&self) -> (text: String)
        ensures
            text@ == decimal_digits(self@),
    {
        BigUint::from_bytes_be(&self.bytes).to_str_radix(10)
    }

    /// The number in decimal digits.
    pub fn to_decimal(&self) -> (text: String)
        ensures
            text@ == decimal_digits(self@),
    {
        self.decimal_text()
    }

    /// The `LowerHex` form of `BigUint`: lower-case hexadecimal digits
    /// without leading zeros.
    #[verifier::external_body]
    pub(crate) fn to_hex(&self) -> (text: String)
        ensures
            text@ == hex_digits(self@),
    {
        format!("{:x}", BigUint::from_bytes_be(&self.bytes))
    }
}

impl BigSigned {
    /// The number that the bytes spell in two's complement.
    pub fn from_signed_bytes_be(bytes: &[u8]) -> (n: BigSigned)
        ensures
            n@ == twos_complement(bytes@),
    {
        BigSigned { bytes: vstd::slice::slice_to_vec(bytes) }
    }

    /// `BigInt::to_signed_bytes_be`: a spelling of the number in two's
    /// complement.
    #[verifier::external_body]
    pub(crate) fn signed_bytes(&self) -> (bytes: Vec<u8>)
        ensures
            twos_complement(bytes@) == self@,
    {
        BigInt::from_signed_bytes_be(&self.bytes).to_signed_bytes_be()
    }

    /// A spelling of the number in two's complement, most significant byte
    /// first.
    pub fn to_signed_bytes_be(&self) -> (bytes: Vec<u8>)
        ensures
            twos_complement(bytes@) == self@,
    {
        self.signed_bytes()
    }

    /// A copy of the number.
    pub fn duplicate(&self) -> (n: BigSigned)
        ensures
            n@ == self@,
    {
        BigSigned { bytes: self.bytes.clone() }
    }

    /// `BigInt::from_bytes_be` with the sign `Plus`: a natural number as an
    /// integer.
    #[verifier::external_body]
    pub(crate) fn from_nat(n: &BigNat) -> (r: BigSigned)
        ensures
            r@ == n@,
    {
        BigSigned { bytes: BigInt::from_bytes_be(Sign::Plus, &n.bytes).to_signed_bytes_be() }
    }

    /// `BigUint::from_bytes_be` of `BigInt::to_signed_bytes_be`: an integer
    /// that is not negative as a natural number.
    #[verifier::external_body]
    pub(crate) fn to_nat(&self) -> (r: BigNat)
        requires
            self@ >= 0,
        ensures
            r@ == self@,
    {
        let d_bytes = BigInt::from_signed_bytes_be(&self.bytes).to_signed_bytes_be();
        BigNat { bytes: BigUint::from_bytes_be(&d_bytes).to_bytes_be() }
    }

    /// `Zero::zero` of `BigInt`.
    #[verifier::external_body]
    pub(crate) fn zero() -> (r: BigSigned)
        ensures
            r@ == 0,
    {
        BigSigned { bytes: BigInt::zero().to_signed_bytes_be() }
    }

    /// `One::one` of `BigInt`.
    #[verifier::external_body]
    pub(crate) fn one() -> (r: BigSigned)
        ensures
            r@ == 1,
    {
        BigSigned { bytes: BigInt::one().to_signed_bytes_be() }
    }

    /// `Zero::is_zero` of `BigInt`.
    #[verifier::external_body]
    pub(crate) fn is_zero(&self) -> (zero: bool)
        ensures
            zero == (self@ == 0),
    {
        BigInt::from_signed_bytes_be(&self.bytes).is_zero()
    }

    /// `==` of `BigInt`.
    #[verifier::external_body]
    pub(crate) fn equals(&self, other: &BigSigned) -> (equal: bool)
        ensures
            equal == (self@ == other@),
    {
        BigInt::from_signed_bytes_be(&self.bytes) == BigInt::from_signed_bytes_be(&other.bytes)
    }

    /// `<` of `BigInt`.
    #[verifier::external_body]
    pub(crate) fn less_than(&self, other: &BigSigned) -> (less: bool)
        ensures
            less == (self@ < other@),
    {
        BigInt::from_signed_bytes_be(&self.bytes) < BigInt::from_signed_bytes_be(&other.bytes)
    }

    /// The sum, by `Add` of `BigInt`.
    #[verifier::external_body]
    pub(crate) fn add(&self, other: &BigSigned) -> (r: BigSigned)
        ensures
            r@ == self@ + other@,
    {
        let a = BigInt::from_signed_bytes_be(&self.bytes);
        let b = BigInt::from_signed_bytes_be(&other.bytes);
        BigSigned { bytes: (a + b).to_signed_bytes_be() }
    }

    /// The difference, by `Sub` of `BigInt`.
    #[verifier::external_body]
    pub(crate) fn sub(&self, other: &BigSigned) -> (r: BigSigned)
        ensures
            r@ == self@ - other@,
    {
        let a = BigInt::from_signed_bytes_be(&self.bytes);
        let b = BigInt::from_signed_bytes_be(&other.bytes);
        BigSigned { bytes: (a - b).to_signed_bytes_be() }
    }

    /// The product, by `Mul` of `BigInt`.
    #[verifier::external_body]
    pub(crate) fn mul(&self, other: &BigSigned) -> (r: BigSigned)
        ensures
            r@ == self@ * other@,
    {
        let a = BigInt::from_signed_bytes_be(&self.bytes);
        let b = BigInt::from_signed_bytes_be(&other.bytes);
        BigSigned { bytes: (a * b).to_signed_bytes_be() }
    }

    /// The quotient, by `Div` of `BigInt`, which rounds towards zero and
    /// panics on a zero divisor.
    #[verifier::external_body]
    pub(crate) fn div(&self, other: &BigSigned) -> (r: BigSigned)
        requires
            other@ != 0,
        ensures
            r@ == trunc_div(self@, other@),
    {
        let a = BigInt::from_signed_bytes_be(&self.bytes);
        let b = BigInt::from_signed_bytes_be(&other.bytes);
        BigSigned { bytes: (a / b).to_signed_bytes_be() }
    }

    /// The remainder, by `Rem` of `BigInt`, which has the sign of the
    /// dividend and panics on a zero divisor.
    #[verifier::external_body]
    pub(crate) fn rem(&self, other: &BigSigned) -> (r: BigSigned)
        requires
            other@ != 0,
        ensures
            r@ == trunc_rem(self@, other@),
    {
        let a = BigInt::from_signed_bytes_be(&self.bytes);
        let b = BigInt::from_signed_bytes_be(&other.bytes);
        BigSigned { bytes: (a % b).to_signed_bytes_be() }
    }
}

} // verus!
