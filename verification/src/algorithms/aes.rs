use crate::algorithms::aes_constants::{BLOCK_SIZE, RCON, SBOX};
use crate::algorithms::aes_helpers::{gf256_mul, gmul, rot_word, sbox, sub_word};
use crate::error::CryptoError;
use crate::utils::text::{
    hex_decode, hex_encode, spec_hex_decode, spec_hex_encode, spec_u8_decimal, u8_decimal,
};
use rand::Rng;
use vstd::prelude::*;
use vstd::slice::slice_subrange;
use vstd::string::{StrSliceExecFns, StringExecFns, StringSliceAdditionalSpecFns};
use vstd::utf8::encode_utf8;

verus! {

pub type Block = [u8; BLOCK_SIZE];

pub type State = [u8; BLOCK_SIZE];

pub type RoundKeys = Vec<[u8; 16]>;

/// AES-128 in Galois/Counter Mode under a fixed key.
pub struct AesCipher {
    key: Vec<u8>,
}

/// Whether every byte is an ASCII character.
pub open spec fn all_ascii(bytes: Seq<u8>) -> bool {
    forall|i: int| 0 <= i < bytes.len() ==> #[trigger] bytes[i] < 128
}

/// The first byte that is no ASCII character.
pub open spec fn first_non_ascii(bytes: Seq<u8>) -> u8
    decreases bytes.len(),
{
    if bytes.len() == 0 {
        0
    } else if bytes[0] >= 128 {
        bytes[0]
    } else {
        first_non_ascii(bytes.drop_first())
    }
}

/// ASCII bytes read as characters.
pub open spec fn ascii_text(bytes: Seq<u8>) -> Seq<char> {
    Seq::new(bytes.len(), |i: int| bytes[i] as char)
}

impl AesCipher {
    #[verifier::type_invariant]
    spec fn key_has_sixteen_bytes(self) -> bool {
        self.key@.len() == 16
    }

    /// The key of this cipher.
    pub closed spec fn key(&self) -> Seq<u8> {
        self.key@
    }

    /// The cipher whose key is the UTF-8 bytes of `key`, which must be
    /// sixteen.
    pub fn new(key: &str) -> (result: Result<Self, CryptoError>)
        ensures
            encode_utf8(key@).len() == 16 ==> (result matches Ok(cipher) && cipher.key()
                == encode_utf8(key@)),
            encode_utf8(key@).len() != 16 ==> (result matches Err(CryptoError::InvalidKey(msg))
                && msg@ == "AES key must be exactly 16 bytes (AES-128)"@),
    {
        let key_bytes = key.as_bytes();
        if key_bytes.len() != 16 {
            return Err(
                CryptoError::InvalidKey(
                    String::from_str("AES key must be exactly 16 bytes (AES-128)"),
                ),
            );
        }
        Ok(AesCipher { key: key.as_bytes_vec() })
    }

    /// The package for `plaintext` under a fresh nonce, bound to `aad`, as
    /// lower-case hexadecimal digits: what `decrypt` turns back into the
    /// plaintext.
    pub fn encrypt(&self, plaintext: &[u8], aad: &[u8]) -> (text: String)
        ensures
            self.key().len() == 16,
            text@.len() == 2 * (plaintext@.len() + 28),
            spec_hex_decode(text@) matches Some(package) && text@ == spec_hex_encode(package)
                && spec_gcm_decrypt(self.key(), package, aad@) == Ok::<Seq<u8>, GcmFailure>(
                plaintext@,
            ) && package == spec_gcm_encrypt(
                self.key(),
                package.subrange(0, 12),
                aad@,
                plaintext@,
            ),
    {
        proof {
            use_type_invariant(self);
        }
        let encrypted = aes_gcm_encrypt(plaintext, aad, self.key.as_slice());
        proof {
            crate::utils::text::lemma_hex_round_trip(encrypted@);
        }
        hex_encode(encrypted.as_slice())
    }

    /// The ASCII text inside a package given as hexadecimal digits. Text
    /// that is no hexadecimal digits, a package of fewer than 28 bytes and
    /// a plaintext that is no ASCII text are malformed input; a tag that
    /// does not match is a failed decryption.
    pub fn decrypt(&self, text: &str, aad: &[u8]) -> (result: Result<String, CryptoError>)
        ensures
            self.key().len() == 16,
            match spec_hex_decode(text@) {
                None => result matches Err(CryptoError::InvalidFormat(msg)) && msg@
                    == "Invalid hex format: invalid digit found in string"@,
                Some(package) => match spec_gcm_decrypt(self.key(), package, aad@) {
                    Err(GcmFailure::TooShort) => result matches Err(
                        CryptoError::InvalidFormat(msg),
                    ) && msg@ == GCM_TOO_SHORT@,
                    Err(GcmFailure::TagMismatch) => result matches Err(
                        CryptoError::DecryptionError(msg),
                    ) && msg@ == GCM_AUTH_FAILED@,
                    Ok(plaintext) => if all_ascii(plaintext) {
                        result matches Ok(out) && out@ == ascii_text(plaintext)
                    } else {
                        result matches Err(CryptoError::InvalidFormat(msg)) && msg@
                            == "Non-ASCII byte found: "@ + spec_u8_decimal(
                            first_non_ascii(plaintext),
                        )
                    },
                },
            },
    {
        proof {
            use_type_invariant(self);
        }
        let encrypted_bytes = match hex_decode(text) {
            Some(bytes) => bytes,
            None => {
                return Err(
                    CryptoError::InvalidFormat(
                        String::from_str("Invalid hex format: invalid digit found in string"),
                    ),
                );
            },
        };
        if encrypted_bytes.len() < 28 {
            return Err(CryptoError::InvalidFormat(String::from_str(GCM_TOO_SHORT)));
        }
        let decrypted = match aes_gcm_decrypt(encrypted_bytes.as_slice(), aad, self.key.as_slice()) {
            Ok(bytes) => bytes,
            Err(message) => {
                return Err(CryptoError::DecryptionError(String::from_str(message)));
            },
        };
        match ascii_string(decrypted.as_slice()) {
            Ok(decrypted_text) => Ok(decrypted_text),
            Err(b) => {
                let msg = String::from_str("Non-ASCII byte found: ").concat(
                    u8_decimal(b).as_str(),
                );
                Err(CryptoError::InvalidFormat(msg))
            },
        }
    }
}

/// The bytes as text if all of them are ASCII characters, else the first
/// byte that is none.
pub fn ascii_string(bytes: &[u8]) -> (result: Result<String, u8>)
    ensures
        all_ascii(bytes@) ==> (result matches Ok(text) && text@ == ascii_text(bytes@)),
        !all_ascii(bytes@) ==> (result matches Err(b) && b == first_non_ascii(bytes@)),
{
    let mut text = String::new();
    let len = bytes.len();
    assert(bytes@.subrange(0, len as int) =~= bytes@);
    for i in 0..len
        invariant
            len == bytes@.len(),
            forall|k: int| 0 <= k < i ==> #[trigger] bytes@[k] < 128,
            first_non_ascii(bytes@.subrange(i as int, len as int)) == first_non_ascii(bytes@),
            text@ == ascii_text(bytes@).subrange(0, i as int),
    {
        let b = bytes[i];
        let ghost rest = bytes@.subrange(i as int, len as int);
        assert(rest[0] == b);
        assert(rest.drop_first() =~= bytes@.subrange(i + 1, len as int));
        if b < 128 {
            text.push(b as char);
            assert(text@ =~= ascii_text(bytes@).subrange(0, i + 1));
        } else {
            return Err(b);
        }
    }
    assert(text@ =~= ascii_text(bytes@));
    Ok(text)
}

/// SubBytes: every byte of the state goes through the substitution table.
pub open spec fn spec_sub_bytes(s: Seq<u8>) -> Seq<u8> {
    Seq::new(16, |i: int| sbox(s[i]))
}

/// ShiftRows on a column-major state: the byte at row `r`, column `c` comes
/// from row `r`, column `(c + r) mod 4`.
pub open spec fn spec_shift_rows(s: Seq<u8>) -> Seq<u8> {
    Seq::new(16, |i: int| s[((i / 4 + i % 4) % 4) * 4 + i % 4])
}

/// One byte of MixColumns: row `i % 4` of the fixed matrix applied to column
/// `i / 4` of the state, over GF(2^8).
pub open spec fn spec_mix_byte(s: Seq<u8>, i: int) -> u8 {
    let c = i / 4;
    let a0 = s[4 * c];
    let a1 = s[4 * c + 1];
    let a2 = s[4 * c + 2];
    let a3 = s[4 * c + 3];
    if i % 4 == 0 {
        gf256_mul(0x02, a0) ^ gf256_mul(0x03, a1) ^ a2 ^ a3
    } else if i % 4 == 1 {
        a0 ^ gf256_mul(0x02, a1) ^ gf256_mul(0x03, a2) ^ a3
    } else if i % 4 == 2 {
        a0 ^ a1 ^ gf256_mul(0x02, a2) ^ gf256_mul(0x03, a3)
    } else {
        gf256_mul(0x03, a0) ^ a1 ^ a2 ^ gf256_mul(0x02, a3)
    }
}

pub open spec fn spec_mix_columns(s: Seq<u8>) -> Seq<u8> {
    Seq::new(16, |i: int| spec_mix_byte(s, i))
}

/// Bytewise XOR of two sequences, as long as the first.
pub open spec fn xor_bytes(a: Seq<u8>, b: Seq<u8>) -> Seq<u8> {
    Seq::new(a.len(), |i: int| a[i] ^ b[i])
}

pub fn sub_bytes(state: &mut State)
    ensures
        final(state)@ == spec_sub_bytes(old(state)@),
{
    let ghost before = state@;
    for i in 0..16
        invariant
            forall|j: int| 0 <= j < i ==> state@[j] == sbox(before[j]),
            forall|j: int| i <= j < 16 ==> state@[j] == before[j],
    {
        state[i] = SBOX[state[i] as usize];
    }
    assert(state@ =~= spec_sub_bytes(before));
}

pub fn shift_rows(state: &mut State)
    ensures
        final(state)@ == spec_shift_rows(old(state)@),
{
    let tmp = *state;
    for i in 0..16
        invariant
            forall|j: int| 0 <= j < i ==> state@[j] == spec_shift_rows(tmp@)[j],
    {
        let r: usize = i % 4;
        let c: usize = i / 4;
        state[i] = tmp[((c + r) % 4) * 4 + r];
    }
    assert(state@ =~= spec_shift_rows(tmp@));
}

pub fn mix_columns(state: &mut State)
    ensures
        final(state)@ == spec_mix_columns(old(state)@),
{
    let ghost before = state@;
    for c in 0..4
        invariant
            forall|j: int| 0 <= j < 4 * c ==> state@[j] == spec_mix_byte(before, j),
            forall|j: int| 4 * c <= j < 16 ==> state@[j] == before[j],
    {
        let a0 = state[c * 4];
        let a1 = state[c * 4 + 1];
        let a2 = state[c * 4 + 2];
        let a3 = state[c * 4 + 3];

        state[c * 4] = gmul(0x02, a0) ^ gmul(0x03, a1) ^ a2 ^ a3;
        state[c * 4 + 1] = a0 ^ gmul(0x02, a1) ^ gmul(0x03, a2) ^ a3;
        state[c * 4 + 2] = a0 ^ a1 ^ gmul(0x02, a2) ^ gmul(0x03, a3);
        state[c * 4 + 3] = gmul(0x03, a0) ^ a1 ^ a2 ^ gmul(0x02, a3);
    }
    assert(state@ =~= spec_mix_columns(before));
}

pub fn add_round_key(state: &mut State, round_key: &[u8; 16])
    ensures
        final(state)@ == xor_bytes(old(state)@, round_key@),
{
    let ghost before = state@;
    for i in 0..16
        invariant
            forall|j: int| 0 <= j < i ==> state@[j] == before[j] ^ round_key@[j],
            forall|j: int| i <= j < 16 ==> state@[j] == before[j],
    {
        state[i] ^= round_key[i];
    }
    assert(state@ =~= xor_bytes(before, round_key@));
}

/// The word that the key schedule derives from the last word of the previous
/// round key: rotated by one byte, substituted, and the round constant added
/// to its first byte.
pub open spec fn schedule_core(w: Seq<u8>, round: int) -> Seq<u8> {
    seq![sbox(w[1]) ^ RCON[round], sbox(w[2]), sbox(w[3]), sbox(w[0])]
}

/// Word `i` of the expanded AES-128 key.
pub open spec fn key_word(key: Seq<u8>, i: nat) -> Seq<u8>
    decreases i,
{
    if i < 4 {
        let k = i as int;
        seq![key[4 * k], key[4 * k + 1], key[4 * k + 2], key[4 * k + 3]]
    } else {
        let prev = key_word(key, (i - 1) as nat);
        let temp = if i % 4 == 0 {
            schedule_core(prev, i as int / 4)
        } else {
            prev
        };
        xor_bytes(key_word(key, (i - 4) as nat), temp)
    }
}

/// Round key `r`: words `4r .. 4r + 3` of the expanded key, laid end to end.
pub open spec fn spec_round_key(key: Seq<u8>, r: nat) -> Seq<u8> {
    Seq::new(16, |j: int| key_word(key, (4 * r + j / 4) as nat)[j % 4])
}

/// The eleven round keys of AES-128.
#[verifier::opaque]
pub open spec fn spec_key_expansion(key: Seq<u8>) -> Seq<Seq<u8>> {
    Seq::new(11, |r: int| spec_round_key(key, r as nat))
}

/// A schedule of round keys as a sequence of byte sequences.
pub open spec fn round_keys_view(rks: Seq<[u8; 16]>) -> Seq<Seq<u8>> {
    Seq::new(rks.len(), |r: int| rks[r]@)
}

pub fn key_expansion(key: &[u8]) -> (round_keys: RoundKeys)
    requires
        key@.len() == 16,
    ensures
        round_keys_view(round_keys@) == spec_key_expansion(key@),
        round_keys@.len() == 11,
        round_keys@[0]@ == key@,
{
    reveal(spec_key_expansion);
    let nk: usize = 4;
    let nr: usize = 10;
    let nb: usize = 4;

    let total_words: usize = nb * (nr + 1);
    let mut w: Vec<[u8; 4]> = vec![[0u8; 4]; total_words];

    for i in 0..nk
        invariant
            nk == 4,
            key@.len() == 16,
            w@.len() == 44,
            forall|j: int| 0 <= j < i ==> w@[j]@ == key_word(key@, j as nat),
    {
        w[i] = [key[4 * i], key[4 * i + 1], key[4 * i + 2], key[4 * i + 3]];
        assert(w@[i as int]@ =~= key_word(key@, i as nat));
    }

    for i in nk..total_words
        invariant
            nk == 4,
            total_words == 44,
            w@.len() == 44,
            forall|j: int| 0 <= j < i ==> w@[j]@ == key_word(key@, j as nat),
    {
        let mut temp = w[i - 1];

        if i % nk == 0 {
            temp = sub_word(rot_word(temp));
            temp[0] ^= RCON[i / nk];
            assert(temp@ =~= schedule_core(w@[i - 1]@, i as int / 4));
        }

        w[i] = [
            w[i - nk][0] ^ temp[0],
            w[i - nk][1] ^ temp[1],
            w[i - nk][2] ^ temp[2],
            w[i - nk][3] ^ temp[3],
        ];
        assert(w@[i as int]@ =~= key_word(key@, i as nat));
    }

    let mut round_keys: RoundKeys = Vec::with_capacity(nr + 1);
    for r in 0..(nr + 1)
        invariant
            nr == 10,
            w@.len() == 44,
            forall|j: int| 0 <= j < 44 ==> w@[j]@ == key_word(key@, j as nat),
            round_keys@.len() == r,
            forall|q: int| 0 <= q < r ==> round_keys@[q]@ == spec_round_key(key@, q as nat),
    {
        let mut round_key = [0u8; 16];
        for i in 0..4
            invariant
                r < 11,
                w@.len() == 44,
                forall|j: int| 0 <= j < 44 ==> w@[j]@ == key_word(key@, j as nat),
                forall|j: int| 0 <= j < 4 * i ==> round_key@[j] == spec_round_key(key@, r as nat)[j],
        {
            let word = &w[4 * r + i];
            round_key[4 * i] = word[0];
            round_key[4 * i + 1] = word[1];
            round_key[4 * i + 2] = word[2];
            round_key[4 * i + 3] = word[3];
        }
        assert(round_key@ =~= spec_round_key(key@, r as nat));
        round_keys.push(round_key);
    }

    assert(round_keys_view(round_keys@) =~= spec_key_expansion(key@));
    assert(round_keys@[0]@ =~= key@);
    round_keys
}

/// The state after the initial AddRoundKey and `n` full rounds.
pub open spec fn cipher_rounds(s: Seq<u8>, rks: Seq<Seq<u8>>, n: nat) -> Seq<u8>
    decreases n,
{
    if n == 0 {
        xor_bytes(s, rks[0])
    } else {
        xor_bytes(
            spec_mix_columns(spec_shift_rows(spec_sub_bytes(cipher_rounds(s, rks, (n - 1) as nat)))),
            rks[n as int],
        )
    }
}

/// The AES forward transform of one block under a schedule of `nr + 1` round
/// keys: `nr - 1` full rounds, then a last round without MixColumns.
#[verifier::opaque]
pub open spec fn spec_encrypt_block(block: Seq<u8>, rks: Seq<Seq<u8>>) -> Seq<u8> {
    let nr = rks.len() - 1;
    let full = if nr == 0 { 0nat } else { (nr - 1) as nat };
    xor_bytes(spec_shift_rows(spec_sub_bytes(cipher_rounds(block, rks, full))), rks[nr])
}

pub fn aes_encrypt_block(plaintext_block: Block, round_keys: &RoundKeys) -> (out: Block)
    requires
        round_keys@.len() >= 1,
    ensures
        out@ == spec_encrypt_block(plaintext_block@, round_keys_view(round_keys@)),
{
    reveal(spec_encrypt_block);
    let nr = round_keys.len() - 1;
    let mut state = plaintext_block;
    let ghost rks = round_keys_view(round_keys@);

    add_round_key(&mut state, &round_keys[0]);

    let mut round: usize = 1;
    while round < nr
        invariant
            nr == round_keys@.len() - 1,
            rks == round_keys_view(round_keys@),
            1 <= round,
            round <= nr || round == 1,
            state@ == cipher_rounds(plaintext_block@, rks, (round - 1) as nat),
        decreases nr - round,
    {
        sub_bytes(&mut state);
        shift_rows(&mut state);
        mix_columns(&mut state);
        add_round_key(&mut state, &round_keys[round]);
        round += 1;
    }

    sub_bytes(&mut state);
    shift_rows(&mut state);
    add_round_key(&mut state, &round_keys[nr]);

    state
}

/// Multiplication by `x` in GF(2^128), in the bit order of GCM: the most
/// significant bit holds the coefficient of `x^0`, and the reduction by
/// `x^128 + x^7 + x^2 + x + 1` folds `0xE1` into the top byte.
pub open spec fn gf128_mulx(v: u128) -> u128 {
    if v & 1 == 1 {
        (v >> 1) ^ 0xe1000000000000000000000000000000u128
    } else {
        v >> 1
    }
}

/// The product of `v` and the `n` most significant bits of `y` in GF(2^128),
/// the bits taken from the most significant one down.
pub open spec fn gf128_mul_bits(v: u128, y: u128, n: nat) -> u128
    decreases n,
{
    if n == 0 {
        0
    } else {
        let rest = gf128_mul_bits(gf128_mulx(v), y << 1, (n - 1) as nat);
        if y >> 127 == 1 {
            v ^ rest
        } else {
            rest
        }
    }
}

/// The product of `x` and `y` in GF(2^128).
pub open spec fn spec_gf128_mul(x: u128, y: u128) -> u128 {
    gf128_mul_bits(x, y, 128)
}

pub fn gf128_mul(x: u128, y: u128) -> (z: u128)
    ensures
        z == spec_gf128_mul(x, y),
{
    let mut z = 0u128;
    let mut v = x;
    let mut y_bits = y;
    proof {
        let total = spec_gf128_mul(x, y);
        assert(0u128 ^ total == total) by (bit_vector);
    }

    for i in 0..128
        invariant
            z ^ gf128_mul_bits(v, y_bits, (128 - i) as nat) == spec_gf128_mul(x, y),
    {
        let ghost z_old = z;
        let ghost v_old = v;
        let ghost rest = gf128_mul_bits(gf128_mulx(v), y_bits << 1, (128 - i - 1) as nat);
        if (y_bits >> 127) == 1 {
            z ^= v;
            assert((z_old ^ v_old) ^ rest == z_old ^ (v_old ^ rest)) by (bit_vector);
        }
        let lsb = v & 1;
        v >>= 1;

        if lsb == 1 {
            v ^= 0xe1000000000000000000000000000000u128;
        }

        y_bits <<= 1;
    }
    proof {
        assert(z ^ 0u128 == z) by (bit_vector);
    }

    z
}

/// The big-endian value of the first `n` bytes.
pub open spec fn be_value(bytes: Seq<u8>, n: nat) -> u128
    decreases n,
{
    if n == 0 {
        0
    } else {
        (be_value(bytes, (n - 1) as nat) << 8) | (bytes[n - 1] as u128)
    }
}

/// The 128-bit value that sixteen bytes spell, most significant byte first.
pub open spec fn spec_bytes_to_u128(bytes: Seq<u8>) -> u128 {
    be_value(bytes, 16)
}

/// The sixteen bytes of a 128-bit value, most significant byte first.
pub open spec fn spec_u128_to_bytes(value: u128) -> Seq<u8> {
    Seq::new(16, |i: int| ((value >> (((15 - i) * 8) as u128)) & 0xff) as u8)
}

pub fn bytes_to_u128(bytes: &[u8]) -> (result: u128)
    requires
        bytes@.len() >= 16,
    ensures
        result == spec_bytes_to_u128(bytes@),
{
    let mut result = 0u128;
    for i in 0..16
        invariant
            bytes@.len() >= 16,
            result == be_value(bytes@, i as nat),
    {
        result = (result << 8) | (bytes[i] as u128);
    }
    result
}

pub fn u128_to_bytes(value: u128) -> (bytes: [u8; 16])
    ensures
        bytes@ == spec_u128_to_bytes(value),
{
    let mut bytes = [0u8; 16];
    for i in 0..16
        invariant
            forall|j: int| 15 - i < j < 16 ==> bytes@[j] == spec_u128_to_bytes(value)[j],
    {
        bytes[15 - i] = ((value >> (i * 8)) & 0xff) as u8;
    }
    assert(bytes@ =~= spec_u128_to_bytes(value));
    bytes
}

/// A chunk of at most sixteen bytes, filled up with zero bytes to a block.
pub open spec fn pad_block(chunk: Seq<u8>) -> Seq<u8> {
    Seq::new(16, |i: int| if i < chunk.len() { chunk[i] } else { 0u8 })
}

/// GHASH accumulation: starting from `y`, each sixteen-byte chunk of `data`
/// (the last one zero-padded) is XORed in and the sum multiplied by `h`.
pub open spec fn ghash_blocks(h: u128, y: u128, data: Seq<u8>) -> u128
    decreases data.len(),
{
    if data.len() == 0 {
        y
    } else {
        let n = if data.len() < 16 { data.len() as int } else { 16 };
        let x = spec_bytes_to_u128(pad_block(data.subrange(0, n)));
        ghash_blocks(h, spec_gf128_mul(y ^ x, h), data.subrange(n, data.len() as int))
    }
}

/// The closing block of GHASH: both bit lengths, the first in the upper half.
pub open spec fn ghash_length_block(aad_len: nat, ciphertext_len: nat) -> u128 {
    ((((aad_len as u128) * 8) as u128) << 64) | (((ciphertext_len as u128) * 8) as u128)
}

/// GHASH under the hash subkey `h` over the additional data, then the
/// ciphertext, then the block of lengths.
#[verifier::opaque]
pub open spec fn spec_ghash(h: u128, aad: Seq<u8>, ciphertext: Seq<u8>) -> u128 {
    let y = ghash_blocks(h, ghash_blocks(h, 0, aad), ciphertext);
    spec_gf128_mul(y ^ ghash_length_block(aad.len(), ciphertext.len()), h)
}

/// Folds the chunks of `data` into the running GHASH value `y`.
pub fn ghash_update(h: u128, y: u128, data: &[u8]) -> (out: u128)
    ensures
        out == ghash_blocks(h, y, data@),
{
    let mut acc = y;
    let mut offset: usize = 0;
    let len = data.len();
    proof {
        assert(data@.subrange(0, len as int) =~= data@);
    }
    while offset < len
        invariant
            len == data@.len(),
            offset <= len,
            ghash_blocks(h, acc, data@.subrange(offset as int, len as int)) == ghash_blocks(
                h,
                y,
                data@,
            ),
        decreases len - offset,
    {
        let n: usize = if len - offset < 16 { len - offset } else { 16 };
        let mut block = [0u8; 16];
        for j in 0..n
            invariant
                n <= 16,
                offset + n <= len,
                len == data@.len(),
                forall|k: int| 0 <= k < j ==> block@[k] == data@[offset + k],
                forall|k: int| j <= k < 16 ==> block@[k] == 0u8,
        {
            block[j] = data[offset + j];
        }
        let x = bytes_to_u128(&block);
        proof {
            let rest = data@.subrange(offset as int, len as int);
            assert(block@ =~= pad_block(rest.subrange(0, n as int)));
            assert(rest.subrange(n as int, rest.len() as int) =~= data@.subrange(
                offset + n,
                len as int,
            ));
        }
        acc = gf128_mul(acc ^ x, h);
        offset += n;
    }
    acc
}

pub fn ghash(h: u128, aad: &[u8], ciphertext: &[u8]) -> (y: u128)
    ensures
        y == spec_ghash(h, aad@, ciphertext@),
{
    reveal(spec_ghash);
    let y = ghash_update(h, 0u128, aad);
    let y = ghash_update(h, y, ciphertext);

    let aad_bits = (aad.len() as u128) * 8;
    let ct_bits = (ciphertext.len() as u128) * 8;
    let len_block = (aad_bits << 64) | ct_bits;
    gf128_mul(y ^ len_block, h)
}

/// The pre-counter block: a twelve-byte nonce followed by the 32-bit counter
/// value 1; a nonce of any other length is hashed, its bit length added, and
/// the sum multiplied once more by the hash subkey.
#[verifier::opaque]
pub open spec fn spec_derive_j0(nonce: Seq<u8>, h: u128) -> Seq<u8> {
    if nonce.len() == 12 {
        nonce + seq![0u8, 0u8, 0u8, 1u8]
    } else {
        let hashed = spec_ghash(h, Seq::<u8>::empty(), nonce);
        let nonce_bits = ((nonce.len() as u128) * 8) as u128;
        spec_u128_to_bytes(spec_gf128_mul(hashed ^ nonce_bits, h))
    }
}

pub fn derive_j0(nonce: &[u8], h: u128) -> (j0: Block)
    ensures
        j0@ == spec_derive_j0(nonce@, h),
{
    reveal(spec_derive_j0);
    if nonce.len() == 12 {
        let mut j0 = [0u8; 16];
        for i in 0..12
            invariant
                nonce@.len() == 12,
                forall|k: int| 0 <= k < i ==> j0@[k] == nonce@[k],
                forall|k: int| i <= k < 16 ==> j0@[k] == 0u8,
        {
            j0[i] = nonce[i];
        }
        j0[15] = 0x01;
        assert(j0@ =~= spec_derive_j0(nonce@, h));
        j0
    } else {
        let empty: [u8; 0] = [];
        assert(empty@ =~= Seq::<u8>::empty());
        let ghash_result = ghash(h, &empty, nonce);
        let nonce_bits = (nonce.len() as u128) * 8;
        let len_block = nonce_bits;
        let j0_value = gf128_mul(ghash_result ^ len_block, h);
        u128_to_bytes(j0_value)
    }
}

/// The number that four bytes spell, most significant byte first.
pub open spec fn be32(b0: u8, b1: u8, b2: u8, b3: u8) -> int {
    b0 as int * 0x100_0000 + b1 as int * 0x1_0000 + b2 as int * 0x100 + b3 as int
}

/// A counter block with its last four bytes, read as a big-endian number,
/// advanced by one modulo 2^32; the first twelve bytes stay.
#[verifier::opaque]
pub open spec fn spec_inc32(block: Seq<u8>) -> Seq<u8> {
    let next = (be32(block[12], block[13], block[14], block[15]) + 1) % 0x1_0000_0000;
    block.subrange(0, 12) + seq![
        (next / 0x100_0000) as u8,
        (next / 0x1_0000 % 0x100) as u8,
        (next / 0x100 % 0x100) as u8,
        (next % 0x100) as u8,
    ]
}

pub fn inc32(block: &mut Block)
    ensures
        final(block)@ == spec_inc32(old(block)@),
{
    reveal(spec_inc32);
    let ghost before = block@;
    let b0 = block[12];
    let b1 = block[13];
    let b2 = block[14];
    let b3 = block[15];
    let counter: u32 = (b0 as u32) * 0x100_0000 + (b1 as u32) * 0x1_0000 + (b2 as u32) * 0x100 + (
    b3 as u32);
    assert(counter == be32(b0, b1, b2, b3));
    let next = counter.wrapping_add(1);
    assert(next as int == (counter + 1) % 0x1_0000_0000);
    let n0 = (next / 0x100_0000) as u8;
    let n1 = (next / 0x1_0000 % 0x100) as u8;
    let n2 = (next / 0x100 % 0x100) as u8;
    let n3 = (next % 0x100) as u8;
    block[12] = n0;
    block[13] = n1;
    block[14] = n2;
    block[15] = n3;
    proof {
        let goal = spec_inc32(before);
        assert(goal.len() == 16);
        assert forall|j: int| 0 <= j < 16 implies block@[j] == goal[j] by {
            if j < 12 {
                assert(block@[j] == before[j]);
                assert(goal[j] == before.subrange(0, 12)[j]);
            } else {
                assert(goal[j] == seq![n0, n1, n2, n3][j - 12]);
            }
        }
        assert(block@ =~= goal);
    }
}

/// The bits in which two byte sequences of one length differ, gathered into
/// one byte: the bitwise OR of the XOR of every pair of bytes.
pub open spec fn difference_bits(a: Seq<u8>, b: Seq<u8>) -> u8
    decreases a.len(),
{
    if a.len() == 0 {
        0
    } else {
        difference_bits(a.drop_last(), b.drop_last()) | (a.last() ^ b.last())
    }
}

/// No bit differs exactly where the sequences are equal.
pub proof fn lemma_difference_bits(a: Seq<u8>, b: Seq<u8>)
    requires
        a.len() == b.len(),
    ensures
        (difference_bits(a, b) == 0) <==> a == b,
    decreases a.len(),
{
    if a.len() == 0 {
        assert(a =~= b);
    } else {
        lemma_difference_bits(a.drop_last(), b.drop_last());
        let before = difference_bits(a.drop_last(), b.drop_last());
        let x = a.last();
        let y = b.last();
        assert(((before | (x ^ y)) == 0) <==> (before == 0 && x == y)) by (bit_vector);
        if a.drop_last() == b.drop_last() && x == y {
            assert(a =~= a.drop_last().push(x));
            assert(b =~= b.drop_last().push(y));
        }
        if a == b {
            assert(a.drop_last() == b.drop_last());
        }
    }
}

/// Whether two byte sequences are equal. Sequences of one length are
/// compared without regard to where they differ: every pair of bytes is
/// looked at, and only the gathered difference decides.
pub fn constant_time_eq(a: &[u8], b: &[u8]) -> (equal: bool)
    ensures
        equal == (a@ == b@),
        a@.len() == b@.len() ==> equal == (difference_bits(a@, b@) == 0),
{
    if a.len() != b.len() {
        return false;
    }
    let mut result = 0u8;
    let len = a.len();
    for i in 0..len
        invariant
            len == a@.len(),
            a@.len() == b@.len(),
            result == difference_bits(a@.subrange(0, i as int), b@.subrange(0, i as int)),
    {
        proof {
            let a1 = a@.subrange(0, i + 1);
            let b1 = b@.subrange(0, i + 1);
            assert(a1.drop_last() =~= a@.subrange(0, i as int));
            assert(b1.drop_last() =~= b@.subrange(0, i as int));
        }
        result |= a[i] ^ b[i];
    }
    proof {
        assert(a@.subrange(0, len as int) =~= a@);
        assert(b@.subrange(0, len as int) =~= b@);
        lemma_difference_bits(a@, b@);
    }
    result == 0
}

/// The block of sixteen zero bytes.
pub open spec fn zero_block() -> Seq<u8> {
    Seq::new(16, |i: int| 0u8)
}

/// The hash subkey: the encryption of the zero block.
pub open spec fn hash_subkey(rks: Seq<Seq<u8>>) -> u128 {
    spec_bytes_to_u128(spec_encrypt_block(zero_block(), rks))
}

/// The pre-counter block advanced `k` times.
pub open spec fn counter_block(j0: Seq<u8>, k: nat) -> Seq<u8>
    decreases k,
{
    if k == 0 {
        j0
    } else {
        spec_inc32(counter_block(j0, (k - 1) as nat))
    }
}

/// Counter mode: byte `i` of the data is XORed with byte `i mod 16` of the
/// encryption of the counter block number `i / 16 + 1`.
#[verifier::opaque]
pub open spec fn ctr_transform(rks: Seq<Seq<u8>>, j0: Seq<u8>, data: Seq<u8>) -> Seq<u8> {
    Seq::new(
        data.len(),
        |i: int| data[i] ^ spec_encrypt_block(counter_block(j0, (i / 16 + 1) as nat), rks)[i % 16],
    )
}

/// The authentication tag: the encrypted pre-counter block XOR the GHASH of
/// additional data and ciphertext.
pub open spec fn gcm_tag(
    rks: Seq<Seq<u8>>,
    j0: Seq<u8>,
    h: u128,
    aad: Seq<u8>,
    ciphertext: Seq<u8>,
) -> Seq<u8> {
    spec_u128_to_bytes(
        spec_bytes_to_u128(spec_encrypt_block(j0, rks)) ^ spec_ghash(h, aad, ciphertext),
    )
}

/// The package that encryption under `key` and `nonce` produces: the nonce,
/// the ciphertext, and the sixteen-byte tag.
pub open spec fn spec_gcm_encrypt(
    key: Seq<u8>,
    nonce: Seq<u8>,
    aad: Seq<u8>,
    plaintext: Seq<u8>,
) -> Seq<u8> {
    let rks = spec_key_expansion(key);
    let h = hash_subkey(rks);
    let j0 = spec_derive_j0(nonce, h);
    let ciphertext = ctr_transform(rks, j0, plaintext);
    nonce + ciphertext + gcm_tag(rks, j0, h, aad, ciphertext)
}

/// Why a package is refused.
pub enum GcmFailure {
    /// Fewer than 28 bytes: no room for a nonce and a tag.
    TooShort,
    /// The tag does not belong to this key, nonce, ciphertext and additional data.
    TagMismatch,
}

pub const GCM_TOO_SHORT: &'static str = "Dane zbyt krótkie dla GCM";

pub const GCM_AUTH_FAILED: &'static str = "Weryfikacja autentyczności nie powiodła się";

impl GcmFailure {
    /// The message that decryption reports for this failure.
    pub open spec fn message(self) -> Seq<char> {
        match self {
            GcmFailure::TooShort => GCM_TOO_SHORT@,
            GcmFailure::TagMismatch => GCM_AUTH_FAILED@,
        }
    }
}

/// The tag that a package of at least 28 bytes ought to carry.
pub open spec fn expected_tag(key: Seq<u8>, data: Seq<u8>, aad: Seq<u8>) -> Seq<u8> {
    let rks = spec_key_expansion(key);
    let h = hash_subkey(rks);
    let j0 = spec_derive_j0(data.subrange(0, 12), h);
    gcm_tag(rks, j0, h, aad, data.subrange(12, data.len() - 16))
}

/// What decryption of a package yields: the plaintext if the package is long
/// enough and its last sixteen bytes are the expected tag.
pub open spec fn spec_gcm_decrypt(key: Seq<u8>, data: Seq<u8>, aad: Seq<u8>) -> Result<
    Seq<u8>,
    GcmFailure,
> {
    if data.len() < 28 {
        Err(GcmFailure::TooShort)
    } else if data.subrange(data.len() - 16, data.len() as int) != expected_tag(key, data, aad) {
        Err(GcmFailure::TagMismatch)
    } else {
        let rks = spec_key_expansion(key);
        let j0 = spec_derive_j0(data.subrange(0, 12), hash_subkey(rks));
        Ok(ctr_transform(rks, j0, data.subrange(12, data.len() - 16)))
    }
}

/// Byte `k` of the counter-mode output.
proof fn lemma_ctr_byte(rks: Seq<Seq<u8>>, j0: Seq<u8>, data: Seq<u8>, block: int, i: int)
    requires
        0 <= block,
        0 <= i < 16,
        16 * block + i < data.len(),
    ensures
        ctr_transform(rks, j0, data).len() == data.len(),
        ctr_transform(rks, j0, data)[16 * block + i] == data[16 * block + i] ^ spec_encrypt_block(
            counter_block(j0, (block + 1) as nat),
            rks,
        )[i],
{
    reveal(ctr_transform);
    let k = 16 * block + i;
    assert(k / 16 == block);
    assert(k % 16 == i);
}

/// XORs `data` with the keystream that starts at the block after `j0`.
pub fn ctr_xor(round_keys: &RoundKeys, j0: &Block, data: &[u8]) -> (out: Vec<u8>)
    requires
        round_keys@.len() >= 1,
    ensures
        out@ == ctr_transform(round_keys_view(round_keys@), j0@, data@),
{
    let ghost rks = round_keys_view(round_keys@);
    let ghost goal = ctr_transform(rks, j0@, data@);
    assert(goal.len() == data@.len()) by {
        reveal(ctr_transform);
    }
    let mut current_counter = *j0;
    inc32(&mut current_counter);
    assert(current_counter@ == counter_block(j0@, 1)) by {
        reveal_with_fuel(counter_block, 2);
    }

    let mut out: Vec<u8> = Vec::new();
    let len = data.len();
    let mut offset: usize = 0;
    let ghost mut block: int = 0;
    while offset < len
        invariant
            len == data@.len(),
            goal.len() == len,
            round_keys@.len() >= 1,
            rks == round_keys_view(round_keys@),
            goal == ctr_transform(rks, j0@, data@),
            offset <= len,
            0 <= block,
            offset < len ==> offset == 16 * block,
            current_counter@ == counter_block(j0@, (block + 1) as nat),
            out@ == goal.subrange(0, offset as int),
        decreases len - offset,
    {
        let keystream = aes_encrypt_block(current_counter, round_keys);
        let n: usize = if len - offset < 16 { len - offset } else { 16 };
        proof {
            assert forall|q: int| 0 <= q < n implies goal[offset + q] == data@[offset + q]
                ^ #[trigger] keystream@[q] by {
                lemma_ctr_byte(rks, j0@, data@, block, q);
            }
        }
        for i in 0..n
            invariant
                n <= 16,
                offset + n <= len,
                len == data@.len(),
                goal.len() == len,
                forall|q: int|
                    0 <= q < n ==> goal[offset + q] == data@[offset + q] ^ #[trigger] keystream@[q],
                out@ == goal.subrange(0, offset + i),
        {
            out.push(data[offset + i] ^ keystream[i]);
            assert(out@ =~= goal.subrange(0, offset + i + 1));
        }

        inc32(&mut current_counter);
        offset += n;
        proof {
            block = block + 1;
        }
    }
    assert(out@ =~= goal);
    out
}

/// Twelve bytes from the thread-local generator of `rand` (`thread_rng`,
/// filled by `Rng::fill`). Nothing is claimed of their values.
#[verifier::external_body]
fn fresh_nonce() -> (nonce: [u8; 12]) {
    let mut rng = rand::thread_rng();
    let mut nonce = [0u8; 12];
    rng.fill(&mut nonce);
    nonce
}

/// Encrypts under a nonce that the caller chose. A nonce must never serve
/// twice under one key.
pub fn aes_gcm_encrypt_with_nonce(plaintext: &[u8], aad: &[u8], key: &[u8], nonce: &[u8]) -> (result:
    Vec<u8>)
    requires
        key@.len() == 16,
    ensures
        result@ == spec_gcm_encrypt(key@, nonce@, aad@, plaintext@),
{
    let round_keys = key_expansion(key);

    let zero_block = [0u8; 16];
    assert(zero_block@ =~= self::zero_block());
    let h_block = aes_encrypt_block(zero_block, &round_keys);
    let h = bytes_to_u128(&h_block);

    let j0 = derive_j0(nonce, h);

    let ciphertext = ctr_xor(&round_keys, &j0, plaintext);

    let s = ghash(h, aad, ciphertext.as_slice());

    let ej0 = aes_encrypt_block(j0, &round_keys);
    let ej0_value = bytes_to_u128(&ej0);
    let tag_value = ej0_value ^ s;
    let tag = u128_to_bytes(tag_value);

    let mut result = Vec::new();
    result.extend_from_slice(nonce);
    result.extend_from_slice(ciphertext.as_slice());
    result.extend_from_slice(&tag);

    result
}

pub fn aes_gcm_encrypt(plaintext: &[u8], aad: &[u8], key: &[u8]) -> (result: Vec<u8>)
    requires
        key@.len() == 16,
    ensures
        result@.len() == plaintext@.len() + 28,
        result@ == spec_gcm_encrypt(key@, result@.subrange(0, 12), aad@, plaintext@),
        spec_gcm_decrypt(key@, result@, aad@) == Ok::<Seq<u8>, GcmFailure>(plaintext@),
{
    let nonce = fresh_nonce();
    let result = aes_gcm_encrypt_with_nonce(plaintext, aad, key, &nonce);
    proof {
        lemma_gcm_round_trip(key@, nonce@, aad@, plaintext@);
        assert(result@.subrange(0, 12) =~= nonce@);
    }
    result
}

/// Decryption undoes encryption: a package made under a sixteen-byte key and
/// a twelve-byte nonce, opened with the same key and additional data, gives
/// the plaintext back.
pub proof fn lemma_gcm_round_trip(key: Seq<u8>, nonce: Seq<u8>, aad: Seq<u8>, plaintext: Seq<u8>)
    requires
        key.len() == 16,
        nonce.len() == 12,
    ensures
        spec_gcm_encrypt(key, nonce, aad, plaintext).len() == plaintext.len() + 28,
        spec_gcm_decrypt(key, spec_gcm_encrypt(key, nonce, aad, plaintext), aad) == Ok::<
            Seq<u8>,
            GcmFailure,
        >(plaintext),
{
    let rks = spec_key_expansion(key);
    let h = hash_subkey(rks);
    let j0 = spec_derive_j0(nonce, h);
    let ciphertext = ctr_transform(rks, j0, plaintext);
    let tag = gcm_tag(rks, j0, h, aad, ciphertext);
    let package = spec_gcm_encrypt(key, nonce, aad, plaintext);
    assert(ciphertext.len() == plaintext.len()) by {
        reveal(ctr_transform);
    }
    assert(package.subrange(0, 12) =~= nonce);
    assert(package.subrange(12, package.len() - 16) =~= ciphertext);
    assert(package.subrange(package.len() - 16, package.len() as int) =~= tag);
    lemma_ctr_involution(rks, j0, plaintext);
}

/// Counter mode applied twice with the same key stream is the identity.
pub proof fn lemma_ctr_involution(rks: Seq<Seq<u8>>, j0: Seq<u8>, data: Seq<u8>)
    ensures
        ctr_transform(rks, j0, ctr_transform(rks, j0, data)) == data,
{
    reveal(ctr_transform);
    let once = ctr_transform(rks, j0, data);
    let twice = ctr_transform(rks, j0, once);
    assert forall|i: int| 0 <= i < data.len() implies twice[i] == data[i] by {
        let k = spec_encrypt_block(counter_block(j0, (i / 16 + 1) as nat), rks)[i % 16];
        let x = data[i];
        assert((x ^ k) ^ k == x) by (bit_vector);
    }
    assert(twice =~= data);
}

/// A sequence with bit `bit` of byte `index` inverted.
pub open spec fn flip_bit(data: Seq<u8>, index: int, bit: u8) -> Seq<u8> {
    data.update(index, data[index] ^ (1u8 << bit))
}

/// A package whose tag has one bit inverted is refused as not authentic,
/// whatever the package was.
pub proof fn lemma_tampered_tag_rejected(
    key: Seq<u8>,
    data: Seq<u8>,
    aad: Seq<u8>,
    index: int,
    bit: u8,
)
    requires
        spec_gcm_decrypt(key, data, aad) is Ok,
        data.len() - 16 <= index < data.len(),
        bit < 8,
    ensures
        spec_gcm_decrypt(key, flip_bit(data, index, bit), aad) == Err::<Seq<u8>, GcmFailure>(
            GcmFailure::TagMismatch,
        ),
{
    let changed = flip_bit(data, index, bit);
    let n = data.len() as int;
    assert(changed.subrange(0, 12) =~= data.subrange(0, 12));
    assert(changed.subrange(12, n - 16) =~= data.subrange(12, n - 16));
    let old_tag = data.subrange(n - 16, n);
    let new_tag = changed.subrange(n - 16, n);
    let x = data[index];
    assert(x ^ (1u8 << bit) != x) by (bit_vector)
        requires
            bit < 8,
    ;
    assert(new_tag[index - (n - 16)] != old_tag[index - (n - 16)]);
}

/// Sixteen bytes made of a 128-bit value spell that value.
pub proof fn lemma_u128_bytes_round_trip(value: u128)
    ensures
        spec_bytes_to_u128(spec_u128_to_bytes(value)) == value,
{
    let bytes = spec_u128_to_bytes(value);
    let b0: u8 = ((value >> 120u128) & 0xff) as u8;
    assert(bytes[0] == b0);
    let b1: u8 = ((value >> 112u128) & 0xff) as u8;
    assert(bytes[1] == b1);
    let b2: u8 = ((value >> 104u128) & 0xff) as u8;
    assert(bytes[2] == b2);
    let b3: u8 = ((value >> 96u128) & 0xff) as u8;
    assert(bytes[3] == b3);
    let b4: u8 = ((value >> 88u128) & 0xff) as u8;
    assert(bytes[4] == b4);
    let b5: u8 = ((value >> 80u128) & 0xff) as u8;
    assert(bytes[5] == b5);
    let b6: u8 = ((value >> 72u128) & 0xff) as u8;
    assert(bytes[6] == b6);
    let b7: u8 = ((value >> 64u128) & 0xff) as u8;
    assert(bytes[7] == b7);
    let b8: u8 = ((value >> 56u128) & 0xff) as u8;
    assert(bytes[8] == b8);
    let b9: u8 = ((value >> 48u128) & 0xff) as u8;
    assert(bytes[9] == b9);
    let b10: u8 = ((value >> 40u128) & 0xff) as u8;
    assert(bytes[10] == b10);
    let b11: u8 = ((value >> 32u128) & 0xff) as u8;
    assert(bytes[11] == b11);
    let b12: u8 = ((value >> 24u128) & 0xff) as u8;
    assert(bytes[12] == b12);
    let b13: u8 = ((value >> 16u128) & 0xff) as u8;
    assert(bytes[13] == b13);
    let b14: u8 = ((value >> 8u128) & 0xff) as u8;
    assert(bytes[14] == b14);
    let b15: u8 = ((value >> 0u128) & 0xff) as u8;
    assert(bytes[15] == b15);
    let v0: u128 = 0;
    let v1: u128 = (v0 << 8) | (b0 as u128);
    assert(be_value(bytes, 1) == v1) by {
        reveal_with_fuel(be_value, 2);
    }
    let v2: u128 = (v1 << 8) | (b1 as u128);
    assert(be_value(bytes, 2) == v2) by {
        reveal_with_fuel(be_value, 2);
    }
    let v3: u128 = (v2 << 8) | (b2 as u128);
    assert(be_value(bytes, 3) == v3) by {
        reveal_with_fuel(be_value, 2);
    }
    let v4: u128 = (v3 << 8) | (b3 as u128);
    assert(be_value(bytes, 4) == v4) by {
        reveal_with_fuel(be_value, 2);
    }
    let v5: u128 = (v4 << 8) | (b4 as u128);
    assert(be_value(bytes, 5) == v5) by {
        reveal_with_fuel(be_value, 2);
    }
    let v6: u128 = (v5 << 8) | (b5 as u128);
    assert(be_value(bytes, 6) == v6) by {
        reveal_with_fuel(be_value, 2);
    }
    let v7: u128 = (v6 << 8) | (b6 as u128);
    assert(be_value(bytes, 7) == v7) by {
        reveal_with_fuel(be_value, 2);
    }
    let v8: u128 = (v7 << 8) | (b7 as u128);
    assert(be_value(bytes, 8) == v8) by {
        reveal_with_fuel(be_value, 2);
    }
    let v9: u128 = (v8 << 8) | (b8 as u128);
    assert(be_value(bytes, 9) == v9) by {
        reveal_with_fuel(be_value, 2);
    }
    let v10: u128 = (v9 << 8) | (b9 as u128);
    assert(be_value(bytes, 10) == v10) by {
        reveal_with_fuel(be_value, 2);
    }
    let v11: u128 = (v10 << 8) | (b10 as u128);
    assert(be_value(bytes, 11) == v11) by {
        reveal_with_fuel(be_value, 2);
    }
    let v12: u128 = (v11 << 8) | (b11 as u128);
    assert(be_value(bytes, 12) == v12) by {
        reveal_with_fuel(be_value, 2);
    }
    let v13: u128 = (v12 << 8) | (b12 as u128);
    assert(be_value(bytes, 13) == v13) by {
        reveal_with_fuel(be_value, 2);
    }
    let v14: u128 = (v13 << 8) | (b13 as u128);
    assert(be_value(bytes, 14) == v14) by {
        reveal_with_fuel(be_value, 2);
    }
    let v15: u128 = (v14 << 8) | (b14 as u128);
    assert(be_value(bytes, 15) == v15) by {
        reveal_with_fuel(be_value, 2);
    }
    let v16: u128 = (v15 << 8) | (b15 as u128);
    assert(be_value(bytes, 16) == v16) by {
        reveal_with_fuel(be_value, 2);
    }
    assert(v16 == value) by (bit_vector)
        requires
            b0 == ((value >> 120u128) & 0xff) as u8,
            b1 == ((value >> 112u128) & 0xff) as u8,
            b2 == ((value >> 104u128) & 0xff) as u8,
            b3 == ((value >> 96u128) & 0xff) as u8,
            b4 == ((value >> 88u128) & 0xff) as u8,
            b5 == ((value >> 80u128) & 0xff) as u8,
            b6 == ((value >> 72u128) & 0xff) as u8,
            b7 == ((value >> 64u128) & 0xff) as u8,
            b8 == ((value >> 56u128) & 0xff) as u8,
            b9 == ((value >> 48u128) & 0xff) as u8,
            b10 == ((value >> 40u128) & 0xff) as u8,
            b11 == ((value >> 32u128) & 0xff) as u8,
            b12 == ((value >> 24u128) & 0xff) as u8,
            b13 == ((value >> 16u128) & 0xff) as u8,
            b14 == ((value >> 8u128) & 0xff) as u8,
            b15 == ((value >> 0u128) & 0xff) as u8,
            v0 == 0,
            v1 == (v0 << 8) | (b0 as u128),
            v2 == (v1 << 8) | (b1 as u128),
            v3 == (v2 << 8) | (b2 as u128),
            v4 == (v3 << 8) | (b3 as u128),
            v5 == (v4 << 8) | (b4 as u128),
            v6 == (v5 << 8) | (b5 as u128),
            v7 == (v6 << 8) | (b6 as u128),
            v8 == (v7 << 8) | (b7 as u128),
            v9 == (v8 << 8) | (b8 as u128),
            v10 == (v9 << 8) | (b9 as u128),
            v11 == (v10 << 8) | (b10 as u128),
            v12 == (v11 << 8) | (b11 as u128),
            v13 == (v12 << 8) | (b12 as u128),
            v14 == (v13 << 8) | (b13 as u128),
            v15 == (v14 << 8) | (b14 as u128),
            v16 == (v15 << 8) | (b15 as u128),
    ;
}

/// The sixteen bytes of two different 128-bit values differ.
pub proof fn lemma_u128_to_bytes_injective(a: u128, b: u128)
    requires
        spec_u128_to_bytes(a) == spec_u128_to_bytes(b),
    ensures
        a == b,
{
    lemma_u128_bytes_round_trip(a);
    lemma_u128_bytes_round_trip(b);
}

/// A package whose ciphertext or additional data was changed, nonce and tag
/// left alone, is refused as not authentic whenever the change shows in the
/// GHASH value. Decryption never hands out plaintext under a tag that does
/// not match.
pub proof fn lemma_tamper_rejected_when_hash_differs(
    key: Seq<u8>,
    data: Seq<u8>,
    aad: Seq<u8>,
    changed: Seq<u8>,
    changed_aad: Seq<u8>,
)
    requires
        spec_gcm_decrypt(key, data, aad) is Ok,
        changed.len() >= 28,
        changed.subrange(0, 12) == data.subrange(0, 12),
        changed.subrange(changed.len() - 16, changed.len() as int) == data.subrange(
            data.len() - 16,
            data.len() as int,
        ),
        spec_ghash(
            hash_subkey(spec_key_expansion(key)),
            changed_aad,
            changed.subrange(12, changed.len() - 16),
        ) != spec_ghash(
            hash_subkey(spec_key_expansion(key)),
            aad,
            data.subrange(12, data.len() - 16),
        ),
    ensures
        spec_gcm_decrypt(key, changed, changed_aad) == Err::<Seq<u8>, GcmFailure>(
            GcmFailure::TagMismatch,
        ),
{
    let rks = spec_key_expansion(key);
    let h = hash_subkey(rks);
    let j0 = spec_derive_j0(data.subrange(0, 12), h);
    let e = spec_bytes_to_u128(spec_encrypt_block(j0, rks));
    let s1 = spec_ghash(h, aad, data.subrange(12, data.len() - 16));
    let s2 = spec_ghash(h, changed_aad, changed.subrange(12, changed.len() - 16));
    if spec_u128_to_bytes(e ^ s1) == spec_u128_to_bytes(e ^ s2) {
        lemma_u128_to_bytes_injective(e ^ s1, e ^ s2);
        assert(s1 == s2) by (bit_vector)
            requires
                e ^ s1 == e ^ s2,
        ;
    }
}

pub fn aes_gcm_decrypt(data: &[u8], aad: &[u8], key: &[u8]) -> (result: Result<
    Vec<u8>,
    &'static str,
>)
    requires
        key@.len() == 16,
    ensures
        match spec_gcm_decrypt(key@, data@, aad@) {
            Ok(plaintext) => result matches Ok(out) && out@ == plaintext,
            Err(failure) => result matches Err(message) && message@ == failure.message(),
        },
{
    if data.len() < 28 {
        return Err(GCM_TOO_SHORT);
    }
    let nonce = slice_subrange(data, 0, 12);
    let tag_start = data.len() - 16;
    let ciphertext = slice_subrange(data, 12, tag_start);
    let received_tag = slice_subrange(data, tag_start, data.len());

    let round_keys = key_expansion(key);

    let zero_block = [0u8; 16];
    assert(zero_block@ =~= self::zero_block());
    let h_block = aes_encrypt_block(zero_block, &round_keys);
    let h = bytes_to_u128(&h_block);

    let j0 = derive_j0(nonce, h);

    let s = ghash(h, aad, ciphertext);

    let ej0 = aes_encrypt_block(j0, &round_keys);
    let ej0_value = bytes_to_u128(&ej0);
    let expected_tag_value = ej0_value ^ s;
    let expected_tag = u128_to_bytes(expected_tag_value);

    if !constant_time_eq(received_tag, &expected_tag) {
        return Err(GCM_AUTH_FAILED);
    }
    let plaintext = ctr_xor(&round_keys, &j0, ciphertext);

    Ok(plaintext)
}

} // verus!
