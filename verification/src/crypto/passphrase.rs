//! Keys from passphrases, and the wrapping of secrets under a key.
//!
//! Argon2id makes a 32-byte key of a passphrase and the room's salt. ChaCha20-Poly1305 wraps the
//! secret that is to travel; whoever holds passphrase and salt can unwrap it.
use crate::bytes;
use crate::crypto::primitives;
use crate::error::{ErrorView, HuddleError};
use crate::text;
use vstd::prelude::*;
use vstd::slice::slice_subrange;

verus! {

pub const SALT_LEN: usize = 16;

pub const KEY_LEN: usize = 32;

pub const NONCE_LEN: usize = 12;

/// How much memory it takes to derive a key, in KiB.
pub const ARGON2_MEMORY_KIB: u32 = 19_456;

/// How many passes over that memory.
pub const ARGON2_PASSES: u32 = 2;

/// On how many lanes.
pub const ARGON2_LANES: u32 = 1;

/// A random salt for a new encrypted room.
pub fn random_salt() -> (r: [u8; SALT_LEN])
    ensures
        r@.len() == SALT_LEN,
{
    let bytes: [u8; 32] = primitives::os_random_32();
    bytes::array_16(slice_subrange(bytes.as_slice(), 0, 16))
}

/// The key of a passphrase and a salt, or why there is none.
pub open spec fn key_of(passphrase: Seq<char>, salt: Seq<u8>) -> Result<Seq<u8>, ErrorView> {
    let password = vstd::utf8::encode_utf8(passphrase);
    if primitives::argon2id_takes(password, salt) {
        Ok(
            primitives::argon2id(
                password,
                salt,
                ARGON2_MEMORY_KIB,
                ARGON2_PASSES,
                ARGON2_LANES,
            ),
        )
    } else {
        Err(
            ErrorView::Session(
                "argon2 derive: "@ + primitives::argon2id_refusal(password, salt),
            ),
        )
    }
}

/// The 32-byte key that Argon2id derives from a passphrase and a salt.
pub fn derive_key(passphrase: &str, salt: &[u8]) -> (r: Result<[u8; KEY_LEN], HuddleError>)
    ensures
        crate::error::result_view(r) == key_of(passphrase@, salt@),
{
    match primitives::argon2id_hash(
        passphrase.as_bytes(),
        salt,
        ARGON2_MEMORY_KIB,
        ARGON2_PASSES,
        ARGON2_LANES,
    ) {
        Ok(key) => Ok(key),
        Err(words) => Err(HuddleError::Session(text::join2("argon2 derive: ", words.as_str()))),
    }
}

/// The text of a wrapped secret: the nonce and the sealed secret, in base64.
pub open spec fn wrapped(plaintext: Seq<u8>, key: Seq<u8>, nonce: Seq<u8>) -> Seq<char> {
    primitives::base64_text(nonce + primitives::sealed(key, nonce, Seq::empty(), plaintext))
}

/// The secret in a wrapped text, or why there is none.
pub open spec fn unwrapped(encoded: Seq<char>, key: Seq<u8>) -> Result<Seq<u8>, ErrorView> {
    match primitives::base64_bytes(encoded) {
        Err(words) => Err(ErrorView::Session("bad base64: "@ + words)),
        Ok(bytes) => if bytes.len() < NONCE_LEN + 16 {
            Err(ErrorView::Session("wrapped key too short"@))
        } else {
            match primitives::opened(
                key,
                bytes.take(NONCE_LEN as int),
                Seq::empty(),
                bytes.skip(NONCE_LEN as int),
            ) {
                Some(m) => Ok(m),
                None => Err(
                    ErrorView::Session("unwrap failed (wrong passphrase?): aead::Error"@),
                ),
            }
        },
    }
}

/// Wraps a secret under a key with this nonce. What is wrapped unwraps to the secret again.
pub fn wrap_with_nonce(
    plaintext: &[u8],
    passphrase_key: &[u8; KEY_LEN],
    nonce: &[u8; NONCE_LEN],
) -> (r: Result<String, HuddleError>)
    ensures
        match r {
            Ok(s) => plaintext@.len() < primitives::SEAL_LIMIT && s@ == wrapped(
                plaintext@,
                passphrase_key@,
                nonce@,
            ) && unwrapped(s@, passphrase_key@) == Ok::<Seq<u8>, ErrorView>(plaintext@),
            Err(e) => plaintext@.len() >= primitives::SEAL_LIMIT && e@ == ErrorView::Session(
                "wrap failed: aead::Error"@,
            ),
        },
{
    match primitives::seal(passphrase_key, nonce, &[], plaintext) {
        None => Err(crate::error::session_error("wrap failed: aead::Error")),
        Some(ciphertext) => {
            let combined: Vec<u8> = bytes::concat(nonce.as_slice(), ciphertext.as_slice());
            proof {
                let none: [u8; 0] = [];
                assert(none@ =~= Seq::<u8>::empty());
                assert(combined@.take(NONCE_LEN as int) =~= nonce@);
                assert(combined@.skip(NONCE_LEN as int) =~= ciphertext@);
            }
            Ok(primitives::base64_encode(combined.as_slice()))
        },
    }
}

/// Wraps a secret (a session key, as a rule) under a key, with a nonce drawn for it. Whatever the
/// nonce is, the text unwraps to the secret again.
pub fn wrap(plaintext: &[u8], passphrase_key: &[u8; KEY_LEN]) -> (r: Result<String, HuddleError>)
    ensures
        match r {
            Ok(s) => plaintext@.len() < primitives::SEAL_LIMIT && (exists|nonce: Seq<u8>|
                nonce.len() == NONCE_LEN && s@ == #[trigger] wrapped(
                    plaintext@,
                    passphrase_key@,
                    nonce,
                )) && unwrapped(s@, passphrase_key@) == Ok::<Seq<u8>, ErrorView>(plaintext@),
            Err(e) => plaintext@.len() >= primitives::SEAL_LIMIT && e@ == ErrorView::Session(
                "wrap failed: aead::Error"@,
            ),
        },
{
    let random: [u8; 32] = primitives::os_random_32();
    let nonce: [u8; 12] = bytes::array_12(slice_subrange(random.as_slice(), 0, 12));
    wrap_with_nonce(plaintext, passphrase_key, &nonce)
}

/// Unwraps what `wrap` made under the same key.
pub fn unwrap(encoded: &str, passphrase_key: &[u8; KEY_LEN]) -> (r: Result<Vec<u8>, HuddleError>)
    ensures
        crate::error::result_view(r) == unwrapped(encoded@, passphrase_key@),
{
    match primitives::base64_decode(encoded) {
        Err(words) => Err(HuddleError::Session(text::join2("bad base64: ", words.as_str()))),
        Ok(bytes) => {
            if bytes.len() < NONCE_LEN + 16 {
                return Err(crate::error::session_error("wrapped key too short"));
            }
            let nonce: [u8; 12] = bytes::array_12(slice_subrange(bytes.as_slice(), 0, NONCE_LEN));
            let ciphertext: &[u8] = slice_subrange(bytes.as_slice(), NONCE_LEN, bytes.len());
            proof {
                let none: [u8; 0] = [];
                assert(none@ =~= Seq::<u8>::empty());
                assert(nonce@ =~= bytes@.take(NONCE_LEN as int));
                assert(ciphertext@ =~= bytes@.skip(NONCE_LEN as int));
            }
            match primitives::open(passphrase_key, &nonce, &[], ciphertext) {
                Some(m) => Ok(m),
                None => Err(
                    crate::error::session_error("unwrap failed (wrong passphrase?): aead::Error"),
                ),
            }
        },
    }
}

} // verus!
