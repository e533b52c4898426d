//! The cryptographic functions that the library takes from other crates.
//!
//! Each function here hands plain bytes to one of those crates and hands plain bytes back. What it
//! returns carries a name, so that the contracts above can say what is computed from what.
use argon2::{Algorithm, Argon2, Params, Version};
use base64::engine::general_purpose::{STANDARD, URL_SAFE_NO_PAD};
use base64::Engine;
use chacha20poly1305::aead::{Aead, KeyInit, Payload};
use chacha20poly1305::{ChaCha20Poly1305, Key, Nonce};
use ed25519_dalek::{SigningKey, VerifyingKey};
use hkdf::Hkdf;
use ml_kem::array::Array;
use ml_kem::{Decapsulate, DecapsulationKey, EncapsulationKey, KeyExport, MlKem768};
use rand::{Rng, RngCore};
use sha2::{Digest, Sha256, Sha512};
use vstd::prelude::*;
use x25519_dalek::{PublicKey, StaticSecret};
use zeroize::Zeroize;

verus! {

/// Serialized length of an ML-KEM-768 encapsulation (public) key.
pub const MLKEM_EK_LEN: usize = 1184;

/// Serialized length of an ML-KEM-768 ciphertext.
pub const MLKEM_CT_LEN: usize = 1088;

/// The most bytes that HKDF-SHA256 expands to.
pub const HKDF_LIMIT: usize = 8160;

/// A shorter message than this can be sealed with ChaCha20-Poly1305.
pub const SEAL_LIMIT: u64 = 274_877_906_880;

// ---------------------------------------------------------------------------------------------
// Hashes
// ---------------------------------------------------------------------------------------------

/// The SHA-256 digest of `data`.
pub uninterp spec fn sha256(data: Seq<u8>) -> Seq<u8>;

/// `sha2::Sha256::digest`.
#[verifier::external_body]
pub(crate) fn sha256_digest(data: &[u8]) -> (r: [u8; 32])
    ensures
        r@ == sha256(data@),
{
    Sha256::digest(data).into()
}

/// The SHA-512 digest of `data`.
pub uninterp spec fn sha512(data: Seq<u8>) -> Seq<u8>;

/// `sha2::Sha512::digest`.
#[verifier::external_body]
pub(crate) fn sha512_digest(data: &[u8]) -> (r: [u8; 64])
    ensures
        r@ == sha512(data@),
{
    Sha512::digest(data).into()
}

/// The first `len` bytes that HKDF-SHA256 gives for a salt, input key material and an info string.
pub uninterp spec fn hkdf_sha256(
    salt: Option<Seq<u8>>,
    ikm: Seq<u8>,
    info: Seq<u8>,
    len: nat,
) -> Seq<u8>;

/// `hkdf::Hkdf::<Sha256>::new` and `expand`. Expansion fails only for more than 255 blocks of 32
/// bytes, so it succeeds here; the output has the length that was asked for.
#[verifier::external_body]
pub(crate) fn hkdf_expand(salt: Option<&[u8]>, ikm: &[u8], info: &[u8], len: usize) -> (r: Vec<u8>)
    requires
        len <= HKDF_LIMIT,
    ensures
        r@ == hkdf_sha256(
            match salt {
                Some(s) => Some(s@),
                None => None,
            },
            ikm@,
            info@,
            len as nat,
        ),
        r@.len() == len,
{
    let mut out = vec![0u8; len];
    Hkdf::<Sha256>::new(salt, ikm).expand(info, &mut out).expect("at most 255 blocks");
    out
}

/// The pseudorandom key that HKDF-SHA256 extracts, which is HMAC-SHA256 under the salt.
pub uninterp spec fn hkdf_extracted(salt: Seq<u8>, ikm: Seq<u8>) -> Seq<u8>;

/// `hkdf::Hkdf::<Sha256>::extract` with a salt.
#[verifier::external_body]
pub(crate) fn hkdf_extract(salt: &[u8], ikm: &[u8]) -> (r: [u8; 32])
    ensures
        r@ == hkdf_extracted(salt@, ikm@),
{
    Hkdf::<Sha256>::extract(Some(salt), ikm).0.into()
}

/// The 32 bytes that Argon2id (version 0x13) gives for a password and a salt, at this cost: so many KiB of
/// memory, so many passes, so many lanes.
pub uninterp spec fn argon2id(
    password: Seq<u8>,
    salt: Seq<u8>,
    memory_kib: u32,
    passes: u32,
    lanes: u32,
) -> Seq<u8>;

/// What `argon2` says of a password or a salt that it does not take.
pub uninterp spec fn argon2id_refusal(password: Seq<u8>, salt: Seq<u8>) -> Seq<char>;

/// A password and a salt of a length that Argon2 takes.
pub open spec fn argon2id_takes(password: Seq<u8>, salt: Seq<u8>) -> bool {
    password.len() <= 0xffff_ffff && 8 <= salt.len() <= 0xffff_ffff
}

/// A cost that Argon2 takes: at least one pass and one lane, and eight KiB or more for each lane. More than
/// one GiB is left out.
pub open spec fn argon2id_cost(memory_kib: u32, passes: u32, lanes: u32) -> bool {
    1 <= passes && 1 <= lanes && 8 * lanes <= memory_kib <= 0x10_0000
}

/// `argon2::Params::new` and `argon2::Argon2::hash_password_into`, for Argon2id in version 0x13. At a valid
/// cost, hashing fails exactly for a password or a salt of a length that Argon2 does not take.
#[verifier::external_body]
pub(crate) fn argon2id_hash(
    password: &[u8],
    salt: &[u8],
    memory_kib: u32,
    passes: u32,
    lanes: u32,
) -> (r: Result<[u8; 32], String>)
    requires
        argon2id_cost(memory_kib, passes, lanes),
    ensures
        argon2id_takes(password@, salt@) ==> r is Ok && r->Ok_0@ == argon2id(
            password@,
            salt@,
            memory_kib,
            passes,
            lanes,
        ),
        !argon2id_takes(password@, salt@) ==> r is Err && r->Err_0@ == argon2id_refusal(
            password@,
            salt@,
        ),
{
    let params = Params::new(memory_kib, passes, lanes, Some(32)).map_err(|e| e.to_string())?;
    let mut out = [0u8; 32];
    Argon2::new(Algorithm::Argon2id, Version::V0x13, params)
        .hash_password_into(password, salt, &mut out)
        .map_err(|e| e.to_string())?;
    Ok(out)
}

// ---------------------------------------------------------------------------------------------
// Text forms of bytes
// ---------------------------------------------------------------------------------------------

/// Bytes that could be read.
pub open spec fn read(bytes: Seq<u8>) -> Result<Seq<u8>, Seq<char>> {
    Ok(bytes)
}

/// Nothing that could be read, and what is said of it.
pub open spec fn unread(words: Seq<char>) -> Result<Seq<u8>, Seq<char>> {
    Err(words)
}

/// Standard padded base64 of `bytes`.
pub uninterp spec fn base64_text(bytes: Seq<u8>) -> Seq<char>;

/// The bytes that a standard padded base64 text stands for, or what is said of a text that is none.
pub uninterp spec fn base64_bytes(encoded: Seq<char>) -> Result<Seq<u8>, Seq<char>>;

/// `base64`'s `STANDARD.encode`. What it writes, `STANDARD.decode` reads back.
#[verifier::external_body]
pub(crate) fn base64_encode(bytes: &[u8]) -> (r: String)
    ensures
        r@ == base64_text(bytes@),
        base64_bytes(r@) == read(bytes@),
{
    STANDARD.encode(bytes)
}

/// `base64`'s `STANDARD.decode`, an error as its message.
#[verifier::external_body]
pub(crate) fn base64_decode(encoded: &str) -> (r: Result<Vec<u8>, String>)
    ensures
        match r {
            Ok(bytes) => base64_bytes(encoded@) == read(bytes@),
            Err(words) => base64_bytes(encoded@) == unread(words@),
        },
{
    STANDARD.decode(encoded).map_err(|e| e.to_string())
}

/// URL-safe base64 of `bytes`, without padding.
pub uninterp spec fn base64_url_text(bytes: Seq<u8>) -> Seq<char>;

/// A character of URL-safe base64.
pub open spec fn is_url_safe(c: char) -> bool {
    ('A' <= c && c <= 'Z') || ('a' <= c && c <= 'z') || ('0' <= c && c <= '9') || c == '-' || c
        == '_'
}

/// `base64`'s `URL_SAFE_NO_PAD.encode`. Three bytes make four characters of the URL-safe alphabet, and
/// there is no padding.
#[verifier::external_body]
pub(crate) fn base64_url_encode(bytes: &[u8]) -> (r: String)
    ensures
        r@ == base64_url_text(bytes@),
        r@.len() == (4 * bytes@.len() + 2) / 3,
        forall|i: int| 0 <= i < r@.len() ==> is_url_safe(#[trigger] r@[i]),
{
    URL_SAFE_NO_PAD.encode(bytes)
}

/// The lower-case hexadecimal digit of `n`.
pub open spec fn hex_char(n: int) -> char {
    if n < 10 {
        (48 + n) as u8 as char
    } else {
        (87 + n) as u8 as char
    }
}

/// `bytes` in lower-case hexadecimal, two digits for each byte.
pub open spec fn hex_text(bytes: Seq<u8>) -> Seq<char> {
    Seq::new(
        2 * bytes.len(),
        |i: int|
            if i % 2 == 0 {
                hex_char((bytes[i / 2] / 16) as int)
            } else {
                hex_char((bytes[i / 2] % 16) as int)
            },
    )
}

/// `hex::encode`: two lower-case digits for each byte.
#[verifier::external_body]
pub(crate) fn hex_encode(bytes: &[u8]) -> (r: String)
    ensures
        r@ == hex_text(bytes@),
{
    hex::encode(bytes)
}

/// `hex::decode`: the bytes that an even number of hexadecimal digits writes; nothing for any other
/// text.
#[verifier::external_body]
pub(crate) fn hex_decode(digits: &str) -> (r: Option<Vec<u8>>)
    ensures
        r is Some == (digits@.len() % 2 == 0 && forall|i: int|
            0 <= i < digits@.len() ==> crate::text::is_hex_digit(#[trigger] digits@[i])),
        r matches Some(b) ==> hex_text(b@) == crate::text::lower_all(digits@),
{
    hex::decode(digits).ok()
}

proof fn lemma_hex_chars(x: u8, y: u8)
    requires
        hex_char((x / 16) as int) == hex_char((y / 16) as int),
        hex_char((x % 16) as int) == hex_char((y % 16) as int),
    ensures
        x == y,
{
    assert(x / 16 < 16 && y / 16 < 16);
    assert((x / 16) == (y / 16));
    assert((x % 16) == (y % 16));
    assert(x == (x / 16) * 16 + x % 16);
    assert(y == (y / 16) * 16 + y % 16);
}

/// Hexadecimal digits write one sequence of bytes, in lower case as they are.
pub proof fn lemma_hex_text(a: Seq<u8>, b: Seq<u8>)
    ensures
        hex_text(a) == hex_text(b) ==> a == b,
        crate::text::lower_all(hex_text(a)) == hex_text(a),
        forall|i: int|
            0 <= i < hex_text(a).len() ==> crate::text::is_hex_digit(#[trigger] hex_text(a)[i]),
{
    let h = hex_text(a);
    assert forall|i: int| 0 <= i < h.len() implies crate::text::is_lower_hex(#[trigger] h[i]) by {
        assert(a[i / 2] / 16 < 16);
        assert(a[i / 2] % 16 < 16);
    }
    assert forall|i: int| 0 <= i < h.len() implies crate::text::is_hex_digit(#[trigger] h[i]) by {
        assert(crate::text::is_lower_hex(h[i]));
    }
    assert(crate::text::lower_all(h) =~= h) by {
        assert forall|i: int| 0 <= i < h.len() implies crate::text::lower_all(h)[i] == h[i] by {
            assert(crate::text::is_lower_hex(h[i]));
        }
    }
    if hex_text(a) == hex_text(b) {
        assert(a.len() == b.len());
        assert forall|i: int| 0 <= i < a.len() implies a[i] == b[i] by {
            assert(hex_text(a)[2 * i] == hex_text(b)[2 * i]);
            assert(hex_text(a)[2 * i + 1] == hex_text(b)[2 * i + 1]);
            lemma_hex_chars(a[i], b[i]);
        }
        assert(a =~= b);
    }
}

// ---------------------------------------------------------------------------------------------
// Authenticated encryption
// ---------------------------------------------------------------------------------------------

/// The ciphertext and tag of `message` under ChaCha20-Poly1305.
pub uninterp spec fn sealed(key: Seq<u8>, nonce: Seq<u8>, aad: Seq<u8>, message: Seq<u8>) -> Seq<
    u8,
>;

/// The message that ChaCha20-Poly1305 finds in a ciphertext with its tag, if the tag is right.
pub uninterp spec fn opened(key: Seq<u8>, nonce: Seq<u8>, aad: Seq<u8>, sealed: Seq<u8>) -> Option<
    Seq<u8>,
>;

/// `ChaCha20Poly1305::encrypt`. It fails exactly for a message of `SEAL_LIMIT` bytes or more; the
/// result is 16 bytes longer than the message, and `decrypt` opens it under the same key, nonce
/// and associated data. No other ciphertext opens to the same message there: the body of one is the message
/// under the key stream, and its tag is computed from the body. That a changed ciphertext does not open at
/// all is not stated: it is certain only up to the chance of guessing a tag.
#[verifier::external_body]
pub(crate) fn seal(key: &[u8; 32], nonce: &[u8; 12], aad: &[u8], message: &[u8]) -> (r: Option<
    Vec<u8>,
>)
    ensures
        r is Some == (message@.len() < SEAL_LIMIT),
        r matches Some(c) ==> c@ == sealed(key@, nonce@, aad@, message@) && c@.len() == message@.len()
            + 16 && opened(key@, nonce@, aad@, c@) == Some(message@),
        r matches Some(c) ==> forall|other: Seq<u8>| #[trigger]
            opened(key@, nonce@, aad@, other) == Some(message@) ==> other == c@,
{
    ChaCha20Poly1305::new(Key::from_slice(key))
        .encrypt(Nonce::from_slice(nonce), Payload { msg: message, aad })
        .ok()
}

/// `ChaCha20Poly1305::decrypt`. What it opens is 16 bytes shorter than the ciphertext.
#[verifier::external_body]
pub(crate) fn open(key: &[u8; 32], nonce: &[u8; 12], aad: &[u8], ciphertext: &[u8]) -> (r: Option<
    Vec<u8>,
>)
    ensures
        match r {
            Some(m) => opened(key@, nonce@, aad@, ciphertext@) == Some(m@) && m@.len() + 16
                == ciphertext@.len(),
            None => opened(key@, nonce@, aad@, ciphertext@) is None,
        },
{
    ChaCha20Poly1305::new(Key::from_slice(key))
        .decrypt(Nonce::from_slice(nonce), Payload { msg: ciphertext, aad })
        .ok()
}

// ---------------------------------------------------------------------------------------------
// Elliptic curves
// ---------------------------------------------------------------------------------------------

/// The X25519 public key of a secret.
pub uninterp spec fn x25519_public(secret: Seq<u8>) -> Seq<u8>;

/// The X25519 shared secret of our secret and their public key.
pub uninterp spec fn x25519_shared(secret: Seq<u8>, public: Seq<u8>) -> Seq<u8>;

/// `x25519_dalek::PublicKey::from(&StaticSecret)`. Of two secrets, each with the other's public
/// key gives the same shared secret. It is never zero: the clamped secrets are multiples of eight below
/// eight times the prime order of the base point, so no product of them leads to a point of small order.
#[verifier::external_body]
pub(crate) fn x25519_public_key(secret: &[u8; 32]) -> (r: [u8; 32])
    ensures
        r@ == x25519_public(secret@),
        forall|other: Seq<u8>|
            other.len() == 32 ==> #[trigger] x25519_shared(secret@, x25519_public(other))
                == x25519_shared(other, r@),
        forall|other: Seq<u8>|
            other.len() == 32 ==> #[trigger] x25519_shared(other, r@) != zeros32(),
{
    PublicKey::from(&StaticSecret::from(*secret)).to_bytes()
}

/// Thirty-two zero bytes.
pub open spec fn zeros32() -> Seq<u8> {
    Seq::new(32, |i: int| 0u8)
}

/// `x25519_dalek::StaticSecret::diffie_hellman`, with `SharedSecret::was_contributory`: the shared
/// secret and whether it is other than zero.
#[verifier::external_body]
pub(crate) fn x25519_diffie_hellman(secret: &[u8; 32], public: &[u8; 32]) -> (r: ([u8; 32], bool))
    ensures
        r.0@ == x25519_shared(secret@, public@),
        r.1 == (r.0@ != zeros32()),
{
    let shared = StaticSecret::from(*secret).diffie_hellman(&PublicKey::from(*public));
    (shared.to_bytes(), shared.was_contributory())
}

/// The Ed25519 public key of a seed.
pub uninterp spec fn ed25519_public(seed: Seq<u8>) -> Seq<u8>;

/// The X25519 public key that an Ed25519 public key corresponds to, or what is said of 32 bytes
/// that are no Ed25519 public key.
pub uninterp spec fn ed25519_to_x25519(public: Seq<u8>) -> Result<Seq<u8>, Seq<char>>;

/// `ed25519_dalek::SigningKey::from_bytes` and `verifying_key`. The X25519 form of the public key
/// is the X25519 public key of the first half of the seed's SHA-512 digest; of two seeds, the first
/// half of either's digest gives the same shared secret with the other's public key in that form, and it
/// is not zero, as with any two X25519 key pairs.
#[verifier::external_body]
pub(crate) fn ed25519_public_key(seed: &[u8; 32]) -> (r: [u8; 32])
    ensures
        r@ == ed25519_public(seed@),
        ed25519_to_x25519(r@) == read(x25519_public(sha512(seed@).take(32))),
        forall|other: Seq<u8>|
            other.len() == 32 ==> #[trigger] x25519_shared(
                sha512(other).take(32),
                ed25519_to_x25519(r@)->Ok_0,
            ) == x25519_shared(sha512(seed@).take(32), x25519_public(sha512(other).take(32))),
        forall|other: Seq<u8>|
            other.len() == 32 ==> #[trigger] x25519_shared(
                sha512(other).take(32),
                ed25519_to_x25519(r@)->Ok_0,
            ) != zeros32(),
{
    SigningKey::from_bytes(seed).verifying_key().to_bytes()
}

/// `ed25519_dalek::VerifyingKey::from_bytes` and `to_montgomery`, an error as its message.
#[verifier::external_body]
pub(crate) fn ed25519_montgomery(public: &[u8; 32]) -> (r: Result<[u8; 32], String>)
    ensures
        match r {
            Ok(x) => ed25519_to_x25519(public@) == read(x@),
            Err(words) => ed25519_to_x25519(public@) == unread(words@),
        },
{
    match VerifyingKey::from_bytes(public) {
        Ok(key) => Ok(key.to_montgomery().to_bytes()),
        Err(e) => Err(e.to_string()),
    }
}

// ---------------------------------------------------------------------------------------------
// ML-KEM-768
// ---------------------------------------------------------------------------------------------

/// The ML-KEM-768 encapsulation key of a 64-byte seed.
pub uninterp spec fn mlkem_public(seed: Seq<u8>) -> Seq<u8>;

/// The ciphertext and the shared secret that encapsulating `m` to a key gives; nothing for bytes
/// that are no encapsulation key.
pub uninterp spec fn mlkem_encapsulated(ek: Seq<u8>, m: Seq<u8>) -> Option<(Seq<u8>, Seq<u8>)>;

/// The shared secret that a ciphertext decapsulates to.
pub uninterp spec fn mlkem_decapsulated(seed: Seq<u8>, ct: Seq<u8>) -> Seq<u8>;

/// `ml_kem::DecapsulationKey::<MlKem768>::from_seed`, then `encapsulation_key` and `to_bytes`. It
/// is a key that can be encapsulated to.
#[verifier::external_body]
pub(crate) fn mlkem_public_key(seed: &[u8; 64]) -> (r: [u8; MLKEM_EK_LEN])
    ensures
        r@ == mlkem_public(seed@),
        forall|m: Seq<u8>| m.len() == 32 ==> (#[trigger] mlkem_encapsulated(r@, m)) is Some,
{
    let dk = DecapsulationKey::<MlKem768>::from_seed(Array(*seed));
    let mut out = [0u8; MLKEM_EK_LEN];
    out.copy_from_slice(&dk.encapsulation_key().to_bytes());
    out
}

/// `ml_kem::EncapsulationKey::<MlKem768>::new`, then `encapsulate_deterministic`: the ciphertext
/// and the shared secret, or nothing for bytes that are no encapsulation key.
#[verifier::external_body]
pub(crate) fn mlkem_encapsulate(ek: &[u8], m: &[u8; 32]) -> (r: Option<(Vec<u8>, [u8; 32])>)
    requires
        ek@.len() == MLKEM_EK_LEN,
    ensures
        match r {
            Some((ct, ss)) => mlkem_encapsulated(ek@, m@) == Some((ct@, ss@)) && ct@.len()
                == MLKEM_CT_LEN,
            None => mlkem_encapsulated(ek@, m@) is None,
        },
{
    let bytes = Array::try_from(ek).ok()?;
    let key = EncapsulationKey::<MlKem768>::new(&bytes).ok()?;
    let (ct, ss) = key.encapsulate_deterministic(&Array(*m));
    Some((ct.to_vec(), ss.into()))
}

/// `ml_kem::DecapsulationKey::<MlKem768>::from_seed`, then `decapsulate`. That this is the secret
/// that was encapsulated is not stated: for a seed and a message chosen at random ML-KEM-768 fails
/// to agree with a probability below two to the power of minus 164, but not never.
#[verifier::external_body]
pub(crate) fn mlkem_decapsulate(seed: &[u8; 64], ct: &[u8]) -> (r: [u8; 32])
    requires
        ct@.len() == MLKEM_CT_LEN,
    ensures
        r@ == mlkem_decapsulated(seed@, ct@),
{
    let dk = DecapsulationKey::<MlKem768>::from_seed(Array(*seed));
    let bytes = Array::try_from(ct).expect("the length of a ciphertext");
    dk.decapsulate(&bytes).into()
}

// ---------------------------------------------------------------------------------------------
// Chance
// ---------------------------------------------------------------------------------------------

/// `rand::RngCore::fill_bytes` on the thread's generator: bytes that nothing is known of.
#[verifier::external_body]
pub(crate) fn random_32() -> (r: [u8; 32])
{
    let mut out = [0u8; 32];
    rand::thread_rng().fill_bytes(&mut out);
    out
}

/// `rand::RngCore::fill_bytes` on the operating system's generator: bytes that nothing is known of.
#[verifier::external_body]
pub(crate) fn os_random_32() -> (r: [u8; 32])
{
    let mut out = [0u8; 32];
    rand::rngs::OsRng.fill_bytes(&mut out);
    out
}

/// `rand::Rng::gen_range` on the thread's generator: a number below `n`.
#[verifier::external_body]
pub(crate) fn random_below(n: usize) -> (r: usize)
    requires
        n > 0,
    ensures
        r < n,
{
    rand::thread_rng().gen_range(0..n)
}

/// `zeroize::Zeroize::zeroize`: the bytes are zero afterwards.
#[verifier::external_body]
pub(crate) fn wipe_32(bytes: &mut [u8; 32])
    ensures
        final(bytes)@ == zeros32(),
{
    bytes.zeroize();
}

/// `zeroize::Zeroize::zeroize`: the bytes are zero afterwards.
#[verifier::external_body]
pub(crate) fn wipe_64(bytes: &mut [u8; 64])
    ensures
        final(bytes)@ == Seq::new(64, |i: int| 0u8),
{
    bytes.zeroize();
}

/// `zeroize::Zeroize::zeroize` on a vector: its bytes are overwritten, and it is empty afterwards.
#[verifier::external_body]
pub(crate) fn wipe_vec(bytes: &mut Vec<u8>)
    ensures
        final(bytes)@ == Seq::<u8>::empty(),
{
    bytes.zeroize();
}

} // verus!
