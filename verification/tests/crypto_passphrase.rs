//! Keys from passphrases, and wrapped secrets.
use argon2::{Algorithm, Argon2, Params, Version};
use huddle_core::crypto::passphrase::{
    derive_key, random_salt, unwrap, wrap, wrap_with_nonce, SALT_LEN,
};

#[test]
fn derive_is_deterministic() {
    let salt = [42u8; SALT_LEN];
    let k1 = derive_key("hunter2", &salt).unwrap();
    let k2 = derive_key("hunter2", &salt).unwrap();
    assert_eq!(k1, k2);
}

#[test]
fn keys_are_derived_at_a_fixed_cost() {
    let salt = [42u8; SALT_LEN];
    let cost = Params::new(19_456, 2, 1, Some(32)).unwrap();
    let mut expected = [0u8; 32];
    Argon2::new(Algorithm::Argon2id, Version::V0x13, cost)
        .hash_password_into(b"hunter2", &salt, &mut expected)
        .unwrap();
    assert_eq!(derive_key("hunter2", &salt).unwrap(), expected);
}

#[test]
fn different_passphrases_different_keys() {
    let salt = [42u8; SALT_LEN];
    let k1 = derive_key("hunter2", &salt).unwrap();
    let k2 = derive_key("hunter3", &salt).unwrap();
    assert_ne!(k1, k2);
}

#[test]
fn different_salts_different_keys() {
    let k1 = derive_key("same", &[1u8; SALT_LEN]).unwrap();
    let k2 = derive_key("same", &[2u8; SALT_LEN]).unwrap();
    assert_ne!(k1, k2);
}

#[test]
fn wrap_unwrap_round_trip() {
    let salt = random_salt();
    let key = derive_key("hunter2", &salt).unwrap();
    let secret = b"this is a megolm session key";
    let wrapped = wrap(secret, &key).unwrap();
    let recovered = unwrap(&wrapped, &key).unwrap();
    assert_eq!(recovered, secret);
}

#[test]
fn wrong_passphrase_fails_unwrap() {
    let salt = random_salt();
    let right_key = derive_key("hunter2", &salt).unwrap();
    let wrong_key = derive_key("hunter3", &salt).unwrap();
    let wrapped = wrap(b"secret", &right_key).unwrap();
    assert!(unwrap(&wrapped, &wrong_key).is_err());
}

#[test]
fn wrapped_output_is_nondeterministic() {
    let salt = random_salt();
    let key = derive_key("hunter2", &salt).unwrap();
    let w1 = wrap(b"hello", &key).unwrap();
    let w2 = wrap(b"hello", &key).unwrap();
    assert_ne!(w1, w2, "nonce should differ each time");
}

#[test]
fn a_salt_that_is_too_short_is_refused() {
    let e = derive_key("hunter2", &[1u8; 4]).unwrap_err();
    assert!(e.message().starts_with("session error: argon2 derive: "));
}

#[test]
fn what_is_no_wrapped_text_does_not_unwrap() {
    let key = [3u8; 32];
    assert!(unwrap("not base64!", &key).unwrap_err().message().starts_with("session error: bad base64: "));
    assert_eq!(
        unwrap("AAAA", &key).unwrap_err().message(),
        "session error: wrapped key too short"
    );
    let wrapped = wrap_with_nonce(b"x", &key, &[9u8; 12]).unwrap();
    assert_eq!(
        unwrap(&wrapped, &[4u8; 32]).unwrap_err().message(),
        "session error: unwrap failed (wrong passphrase?): aead::Error"
    );
    assert_eq!(unwrap(&wrapped, &key).unwrap(), b"x");
    assert_eq!(wrapped, wrap_with_nonce(b"x", &key, &[9u8; 12]).unwrap());
}
