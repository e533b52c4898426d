//! Encrypted files.
use base64::engine::general_purpose::STANDARD as B64;
use base64::Engine;
use huddle_core::crypto::megolm::RoomCrypto;
use huddle_core::files::encryption::{decrypt_file, encrypt_file, sha256_hex};

fn pair() -> (RoomCrypto, RoomCrypto) {
    let alice = RoomCrypto::new_for_room("r1".into(), "alice-fp".into(), [0u8; 32]).unwrap();
    let mut bob = RoomCrypto::new_for_room("r1".into(), "bob-fp".into(), [0u8; 32]).unwrap();
    bob.add_inbound_session("alice-fp", &alice.our_session_key_b64())
        .unwrap();
    (alice, bob)
}

#[test]
fn round_trip_alice_to_bob() {
    let (mut alice, mut bob) = pair();
    let plaintext = b"the quick brown fox jumps over the lazy dog. this is a test file.";
    let (ciphertext, meta) = encrypt_file(plaintext, &mut alice, false).unwrap();
    assert_ne!(&ciphertext[..], &plaintext[..]);
    assert!(meta.content_mac_b64.is_none());
    assert_eq!(meta.content_hash, sha256_hex(plaintext));

    let recovered = decrypt_file(&ciphertext, &meta, &mut bob, "alice-fp").unwrap();
    assert_eq!(recovered, plaintext);
}

#[test]
fn round_trip_private_meta_carries_no_plaintext_hash() {
    let (mut alice, mut bob) = pair();
    let plaintext = b"a known candidate document the relay must not be able to confirm";
    let (ciphertext, meta) = encrypt_file(plaintext, &mut alice, true).unwrap();
    assert!(meta.content_hash.is_empty());
    let mac_b64 = meta.content_mac_b64.clone().expect("v2 carries the MAC");
    assert_ne!(
        B64.decode(&mac_b64).unwrap(),
        hex::decode(sha256_hex(plaintext)).unwrap(),
        "the commitment must not equal SHA256(plaintext)"
    );

    let recovered = decrypt_file(&ciphertext, &meta, &mut bob, "alice-fp").unwrap();
    assert_eq!(recovered, plaintext);
}

#[test]
fn private_meta_tamper_is_rejected() {
    let (mut alice, mut bob) = pair();
    let (mut ct, meta) = encrypt_file(b"secret attachment", &mut alice, true).unwrap();
    ct[0] ^= 0x01;
    assert!(decrypt_file(&ct, &meta, &mut bob, "alice-fp").is_err());
}

#[test]
fn tampered_ciphertext_fails() {
    let (mut alice, mut bob) = pair();
    let plaintext = b"sensitive content";
    let (mut ct, meta) = encrypt_file(plaintext, &mut alice, false).unwrap();
    ct[0] ^= 0x01;
    assert!(decrypt_file(&ct, &meta, &mut bob, "alice-fp").is_err());
}

#[test]
fn wrong_sender_fingerprint_fails() {
    let (mut alice, mut bob) = pair();
    let (ct, meta) = encrypt_file(b"hi", &mut alice, false).unwrap();
    assert!(decrypt_file(&ct, &meta, &mut bob, "evil-fp").is_err());
}

#[test]
fn a_file_under_another_hash_is_refused() {
    let (mut alice, mut bob) = pair();
    let (ct, mut meta) = encrypt_file(b"hi", &mut alice, false).unwrap();
    meta.content_hash = sha256_hex(b"ho");
    assert!(decrypt_file(&ct, &meta, &mut bob, "alice-fp").is_err());
    let (ct, mut meta) = encrypt_file(b"hi", &mut alice, true).unwrap();
    meta.content_mac_b64 = Some("AAAA".into());
    assert_eq!(
        decrypt_file(&ct, &meta, &mut bob, "alice-fp")
            .unwrap_err()
            .message(),
        "bad content_mac_b64"
    );
    meta.wrapped_key_b64 = "!".into();
    assert!(decrypt_file(&ct, &meta, &mut bob, "alice-fp")
        .unwrap_err()
        .message()
        .starts_with("bad wrapped_key_b64: "));
}

#[test]
fn the_digest_of_nothing() {
    assert_eq!(
        sha256_hex(b""),
        "e3b0c44298fc1c149afbf4c8996fb92427ae41e4649b934ca495991b7852b855"
    );
}
