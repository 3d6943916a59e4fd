use base64::engine::general_purpose;
use base64::Engine;
use hkdf::Hkdf;
use rand::rngs::OsRng;
use sha2::Sha256;
use vstd::prelude::*;
use vstd::string::StringExecFns;
use x25519_dalek::{PublicKey, StaticSecret};

verus! {

/// The error of `base64` for a text that is no encoding.
#[verifier::external_type_specification]
#[verifier::external_body]
pub struct ExDecodeError(base64::DecodeError);

/// The error of `hkdf` for an output that is too long.
#[verifier::external_type_specification]
#[verifier::external_body]
pub struct ExInvalidLength(hkdf::InvalidLength);

/// The character for a value of six bits in the standard base64 alphabet.
pub open spec fn base64_char(v: int) -> char {
    if v < 26 {
        (('A' as int + v) as u8) as char
    } else if v < 52 {
        (('a' as int + v - 26) as u8) as char
    } else if v < 62 {
        (('0' as int + v - 52) as u8) as char
    } else if v == 62 {
        '+'
    } else {
        '/'
    }
}

/// Standard base64 with padding: every three bytes give four characters of
/// six bits each; one or two bytes left over give two or three characters,
/// filled up to four with `=`.
pub open spec fn base64_encoding(bytes: Seq<u8>) -> Seq<char>
    decreases bytes.len(),
{
    if bytes.len() == 0 {
        Seq::empty()
    } else if bytes.len() == 1 {
        seq![base64_char(bytes[0] as int / 4), base64_char(bytes[0] as int % 4 * 16), '=', '=']
    } else if bytes.len() == 2 {
        seq![
            base64_char(bytes[0] as int / 4),
            base64_char(bytes[0] as int % 4 * 16 + bytes[1] as int / 16),
            base64_char(bytes[1] as int % 16 * 4),
            '=',
        ]
    } else {
        seq![
            base64_char(bytes[0] as int / 4),
            base64_char(bytes[0] as int % 4 * 16 + bytes[1] as int / 16),
            base64_char(bytes[1] as int % 16 * 4 + bytes[2] as int / 64),
            base64_char(bytes[2] as int % 64),
        ] + base64_encoding(bytes.subrange(3, bytes.len() as int))
    }
}

/// Whether a text is the base64 encoding of some bytes.
pub open spec fn is_base64(text: Seq<char>) -> bool {
    exists|bytes: Seq<u8>| #[trigger] base64_encoding(bytes) == text
}

/// The bytes that a base64 text encodes.
pub open spec fn base64_decoding(text: Seq<char>) -> Seq<u8> {
    choose|bytes: Seq<u8>| #[trigger] base64_encoding(bytes) == text
}

/// The characters of the alphabet differ from each other and from the
/// padding.
pub proof fn lemma_base64_char(v: int, w: int)
    requires
        0 <= v < 64,
        0 <= w < 64,
    ensures
        base64_char(v) != '=',
        base64_char(v) == base64_char(w) ==> v == w,
{
}

/// An encoding has four characters for every three bytes begun.
pub proof fn lemma_base64_length(bytes: Seq<u8>)
    ensures
        base64_encoding(bytes).len() == 4 * ((bytes.len() + 2) / 3),
    decreases bytes.len(),
{
    if bytes.len() >= 3 {
        lemma_base64_length(bytes.subrange(3, bytes.len() as int));
    }
}

/// The encoding of three bytes or more starts with the four characters of
/// the first three and goes on with the encoding of the rest.
pub proof fn lemma_base64_head(bytes: Seq<u8>)
    requires
        bytes.len() >= 3,
    ensures
        base64_encoding(bytes).len() >= 4,
        base64_encoding(bytes)[0] == base64_char(bytes[0] as int / 4),
        base64_encoding(bytes)[1] == base64_char(bytes[0] as int % 4 * 16 + bytes[1] as int / 16),
        base64_encoding(bytes)[2] == base64_char(bytes[1] as int % 16 * 4 + bytes[2] as int / 64),
        base64_encoding(bytes)[3] == base64_char(bytes[2] as int % 64),
        base64_encoding(bytes).subrange(4, base64_encoding(bytes).len() as int) == base64_encoding(
            bytes.subrange(3, bytes.len() as int),
        ),
{
    let head = seq![
        base64_char(bytes[0] as int / 4),
        base64_char(bytes[0] as int % 4 * 16 + bytes[1] as int / 16),
        base64_char(bytes[1] as int % 16 * 4 + bytes[2] as int / 64),
        base64_char(bytes[2] as int % 64),
    ];
    let rest = base64_encoding(bytes.subrange(3, bytes.len() as int));
    assert(base64_encoding(bytes) == head + rest);
    assert((head + rest).subrange(4, (head + rest).len() as int) =~= rest);
}

/// Different bytes have different encodings.
pub proof fn lemma_base64_injective(a: Seq<u8>, b: Seq<u8>)
    requires
        base64_encoding(a) == base64_encoding(b),
    ensures
        a == b,
    decreases a.len(),
{
    let ea = base64_encoding(a);
    let eb = base64_encoding(b);
    lemma_base64_length(a);
    lemma_base64_length(b);
    if a.len() >= 3 {
        lemma_base64_head(a);
    }
    if b.len() >= 3 {
        lemma_base64_head(b);
    }
    if a.len() == 0 || b.len() == 0 {
        assert(a =~= b);
    } else {
        let a0 = a[0] as int;
        let b0 = b[0] as int;
        assert(ea[0] == eb[0] && ea[1] == eb[1] && ea[2] == eb[2] && ea[3] == eb[3]);
        lemma_base64_char(a0 / 4, b0 / 4);
        if a.len() == 1 {
            lemma_base64_char(a0 % 4 * 16, b0 % 4 * 16);
            if b.len() >= 2 {
                lemma_base64_char(b[1] as int % 16 * 4, 0);
                if b.len() >= 3 {
                    lemma_base64_char(b[1] as int % 16 * 4 + b[2] as int / 64, 0);
                }
            }
            assert(a =~= b);
        } else if a.len() == 2 {
            let a1 = a[1] as int;
            lemma_base64_char(a1 % 16 * 4, 0);
            if b.len() == 1 {
            } else if b.len() == 2 {
                let b1 = b[1] as int;
                lemma_base64_char(a0 % 4 * 16 + a1 / 16, b0 % 4 * 16 + b1 / 16);
                lemma_base64_char(a1 % 16 * 4, b1 % 16 * 4);
                assert(a =~= b);
            } else {
                lemma_base64_char(b[2] as int % 64, 0);
            }
        } else {
            let a1 = a[1] as int;
            let a2 = a[2] as int;
            lemma_base64_char(a2 % 64, 0);
            lemma_base64_char(a1 % 16 * 4 + a2 / 64, 0);
            if b.len() >= 3 {
                let b1 = b[1] as int;
                let b2 = b[2] as int;
                lemma_base64_char(a0 % 4 * 16 + a1 / 16, b0 % 4 * 16 + b1 / 16);
                lemma_base64_char(a1 % 16 * 4 + a2 / 64, b1 % 16 * 4 + b2 / 64);
                lemma_base64_char(a2 % 64, b2 % 64);
                let ra = a.subrange(3, a.len() as int);
                let rb = b.subrange(3, b.len() as int);
                lemma_base64_injective(ra, rb);
                assert(a0 / 4 == b0 / 4);
                assert(a0 % 4 * 16 + a1 / 16 == b0 % 4 * 16 + b1 / 16);
                assert(a1 % 16 * 4 + a2 / 64 == b1 % 16 * 4 + b2 / 64);
                assert(a2 % 64 == b2 % 64);
                assert(a0 % 4 == b0 % 4 && a1 / 16 == b1 / 16);
                assert(a1 % 16 == b1 % 16 && a2 / 64 == b2 / 64);
                assert(a0 == b0 && a1 == b1 && a2 == b2);
                assert(a =~= a.subrange(0, 3) + ra);
                assert(b =~= b.subrange(0, 3) + rb);
                assert(a.subrange(0, 3) =~= b.subrange(0, 3));
            }
        }
    }
}

/// The X25519 public key that belongs to a secret of 32 bytes.
pub uninterp spec fn x25519_public(secret: Seq<u8>) -> Seq<u8>;

/// The X25519 shared secret of a secret and a peer's public key.
pub uninterp spec fn x25519_shared(secret: Seq<u8>, peer: Seq<u8>) -> Seq<u8>;

/// The first 32 bytes of output of HKDF with SHA-256.
pub uninterp spec fn hkdf_sha256_32(salt: Option<Seq<u8>>, ikm: Seq<u8>, info: Seq<u8>) -> Seq<u8>;

pub enum EcdhError {
    InvalidPublicKey,
    InvalidKeyFormat,
    KdfError,
}

impl EcdhError {
    pub open spec fn spec_message(&self) -> Seq<char> {
        match self {
            EcdhError::InvalidPublicKey => "Invalid public key length"@,
            EcdhError::InvalidKeyFormat => "Invalid key format"@,
            EcdhError::KdfError => "HKDF error"@,
        }
    }

    /// The text of the error.
    pub fn message(&self) -> (text: String)
        ensures
            text@ == self.spec_message(),
    {
        match self {
            EcdhError::InvalidPublicKey => String::from_str("Invalid public key length"),
            EcdhError::InvalidKeyFormat => String::from_str("Invalid key format"),
            EcdhError::KdfError => String::from_str("HKDF error"),
        }
    }
}

/// An X25519 secret of 32 bytes.
pub struct PrivateKey {
    secret: [u8; 32],
}

/// An X25519 public key of 32 bytes.
pub struct PublicKeyBytes([u8; 32]);

/// `Engine::encode` of `base64::engine::general_purpose::STANDARD`: the
/// standard alphabet, with padding.
#[verifier::external_body]
fn base64_encode(bytes: &[u8]) -> (text: String)
    ensures
        text@ == base64_encoding(bytes@),
{
    general_purpose::STANDARD.encode(bytes)
}

/// `Engine::decode` of `base64::engine::general_purpose::STANDARD`, which
/// asks for the padding and for unused bits to be zero: it accepts the
/// encodings of `Engine::encode` and nothing else.
#[verifier::external_body]
fn base64_decode(text: &str) -> (decoded: Result<Vec<u8>, base64::DecodeError>)
    ensures
        decoded matches Ok(out) ==> base64_encoding(out@) == text@,
        decoded is Err ==> !is_base64(text@),
{
    general_purpose::STANDARD.decode(text)
}

/// `StaticSecret::random_from_rng` on the generator of the operating
/// system. Nothing is claimed of the bytes.
#[verifier::external_body]
fn random_secret() -> (secret: [u8; 32]) {
    StaticSecret::random_from_rng(OsRng).to_bytes()
}

/// `PublicKey::from` for a `StaticSecret`: the public key of a secret.
#[verifier::external_body]
fn public_key_of(secret: &[u8; 32]) -> (public: [u8; 32])
    ensures
        public@ == x25519_public(secret@),
{
    PublicKey::from(&StaticSecret::from(*secret)).to_bytes()
}

/// `StaticSecret::diffie_hellman`: the secret shared with a peer.
#[verifier::external_body]
fn diffie_hellman(secret: &[u8; 32], peer: &[u8; 32]) -> (shared: [u8; 32])
    ensures
        shared@ == x25519_shared(secret@, peer@),
{
    StaticSecret::from(*secret).diffie_hellman(&PublicKey::from(*peer)).to_bytes()
}

pub open spec fn view_bytes(bytes: Option<&[u8]>) -> Option<Seq<u8>> {
    match bytes {
        Some(b) => Some(b@),
        None => None,
    }
}

/// `Hkdf::<Sha256>::new` and `Hkdf::expand` into 32 bytes, for which the
/// expansion never fails: it refuses only outputs above 255 blocks.
#[verifier::external_body]
fn hkdf_expand(
    salt: Option<&[u8]>,
    ikm: &[u8],
    info: &[u8],
) -> (derived: Result<[u8; 32], hkdf::InvalidLength>)
    ensures
        derived is Ok,
        derived matches Ok(okm) ==> okm@ == hkdf_sha256_32(view_bytes(salt), ikm@, info@),
{
    let hk = Hkdf::<Sha256>::new(salt, ikm);
    let mut okm = [0u8; 32];
    match hk.expand(info, &mut okm) {
        Ok(()) => Ok(okm),
        Err(error) => Err(error),
    }
}

/// The 32 bytes of a slice as an array.
fn array_of(bytes: &[u8]) -> (arr: [u8; 32])
    requires
        bytes@.len() == 32,
    ensures
        arr@ == bytes@,
{
    let mut arr = [0u8; 32];
    for i in 0..32
        invariant
            bytes@.len() == 32,
            forall|k: int| 0 <= k < i ==> arr@[k] == bytes@[k],
    {
        arr[i] = bytes[i];
    }
    assert(arr@ =~= bytes@);
    arr
}

impl PublicKeyBytes {
    /// The bytes of the key.
    pub closed spec fn view(&self) -> Seq<u8> {
        self.0@
    }

    pub fn as_bytes(&self) -> (bytes: &[u8; 32])
        ensures
            bytes@ == self@,
    {
        &self.0
    }

    pub fn to_base64(&self) -> (text: String)
        ensures
            text@ == base64_encoding(self@),
    {
        base64_encode(self.0.as_slice())
    }

    /// The public key that decoded bytes hold: they must be 32.
    pub fn from_bytes(bytes: &[u8]) -> (result: Result<Self, EcdhError>)
        ensures
            bytes@.len() == 32 ==> (result matches Ok(key) && key@ == bytes@),
            bytes@.len() != 32 ==> result matches Err(EcdhError::InvalidPublicKey),
    {
        if bytes.len() != 32 {
            return Err(EcdhError::InvalidPublicKey);
        }
        Ok(PublicKeyBytes(array_of(bytes)))
    }

    pub fn from_base64(s: &str) -> (result: Result<Self, EcdhError>)
        ensures
            !is_base64(s@) ==> result matches Err(EcdhError::InvalidKeyFormat),
            is_base64(s@) && base64_decoding(s@).len() != 32 ==> result matches Err(
                EcdhError::InvalidPublicKey,
            ),
            is_base64(s@) && base64_decoding(s@).len() == 32 ==> (result matches Ok(key) && key@
                == base64_decoding(s@)),
    {
        match base64_decode(s) {
            Ok(vec) => {
                proof {
                    lemma_base64_injective(vec@, base64_decoding(s@));
                }
                PublicKeyBytes::from_bytes(vec.as_slice())
            },
            Err(_) => Err(EcdhError::InvalidKeyFormat),
        }
    }
}

impl PrivateKey {
    /// The bytes of the secret.
    pub closed spec fn secret(&self) -> Seq<u8> {
        self.secret@
    }

    /// A fresh secret and the public key that belongs to it.
    pub fn generate() -> (pair: (Self, PublicKeyBytes))
        ensures
            pair.1@ == x25519_public(pair.0.secret()),
    {
        let secret = random_secret();
        let pk_bytes = public_key_of(&secret);
        (Self { secret }, PublicKeyBytes(pk_bytes))
    }

    /// The public key that belongs to this secret.
    pub fn public_key(&self) -> (public: PublicKeyBytes)
        ensures
            public@ == x25519_public(self.secret()),
    {
        PublicKeyBytes(public_key_of(&self.secret))
    }

    pub fn to_base64(&self) -> (text: String)
        ensures
            text@ == base64_encoding(self.secret()),
    {
        base64_encode(self.secret.as_slice())
    }

    /// The secret that decoded bytes hold: they must be 32.
    pub fn from_bytes(bytes: &[u8]) -> (result: Result<Self, EcdhError>)
        ensures
            bytes@.len() == 32 ==> (result matches Ok(key) && key.secret() == bytes@),
            bytes@.len() != 32 ==> result matches Err(EcdhError::InvalidKeyFormat),
    {
        if bytes.len() != 32 {
            return Err(EcdhError::InvalidKeyFormat);
        }
        Ok(Self { secret: array_of(bytes) })
    }

    pub fn from_base64(s: &str) -> (result: Result<Self, EcdhError>)
        ensures
            is_base64(s@) && base64_decoding(s@).len() == 32 ==> (result matches Ok(key)
                && key.secret() == base64_decoding(s@)),
            !(is_base64(s@) && base64_decoding(s@).len() == 32) ==> result matches Err(
                EcdhError::InvalidKeyFormat,
            ),
    {
        match base64_decode(s) {
            Ok(vec) => {
                proof {
                    lemma_base64_injective(vec@, base64_decoding(s@));
                }
                PrivateKey::from_bytes(vec.as_slice())
            },
            Err(_) => Err(EcdhError::InvalidKeyFormat),
        }
    }

    pub fn compute_shared_secret(&self, peer: &PublicKeyBytes) -> (result: Result<
        [u8; 32],
        EcdhError,
    >)
        ensures
            result matches Ok(shared) && shared@ == x25519_shared(self.secret(), peer@),
    {
        let shared = diffie_hellman(&self.secret, peer.as_bytes());
        Ok(shared)
    }

    /// A key of 32 bytes derived from a shared secret by HKDF with SHA-256;
    /// an absent `info` counts as empty.
    pub fn derive_key(shared_secret: &[u8], salt: Option<&[u8]>, info: Option<&[u8]>) -> (result:
        Result<[u8; 32], EcdhError>)
        ensures
            result matches Ok(key) && key@ == hkdf_sha256_32(
                view_bytes(salt),
                shared_secret@,
                match info {
                    Some(i) => i@,
                    None => Seq::<u8>::empty(),
                },
            ),
    {
        let empty: [u8; 0] = [];
        assert(empty@ =~= Seq::<u8>::empty());
        let info_bytes: &[u8] = match info {
            Some(i) => i,
            None => empty.as_slice(),
        };
        match hkdf_expand(salt, shared_secret, info_bytes) {
            Ok(okm) => Ok(okm),
            Err(_) => Err(EcdhError::KdfError),
        }
    }
}

/// A key read from its base64 text is the key: decoding undoes encoding.
pub proof fn lemma_base64_round_trip(bytes: Seq<u8>)
    ensures
        is_base64(base64_encoding(bytes)),
        base64_decoding(base64_encoding(bytes)) == bytes,
{
    let text = base64_encoding(bytes);
    assert(base64_encoding(bytes) == text);
    lemma_base64_injective(base64_decoding(text), bytes);
}

} // verus!
