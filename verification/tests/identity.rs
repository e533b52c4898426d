//! Identities.
use huddle_core::crypto::mnemonic::{phrase_to_seed, seed_to_phrase};
use huddle_core::crypto::pqc;
use huddle_core::identity::{compute_fingerprint, safety_code, Identity};

#[test]
fn fingerprint_is_deterministic() {
    let key_bytes = [42u8; 32];
    let id = Identity::from_secret_bytes(key_bytes).unwrap();
    let id2 = Identity::from_secret_bytes(key_bytes).unwrap();
    assert_eq!(id.fingerprint(), id2.fingerprint());
}

#[test]
fn fingerprint_format_is_correct() {
    let id = Identity::generate().unwrap();
    let fp = id.fingerprint();
    let parts: Vec<&str> = fp.split('-').collect();
    assert_eq!(parts.len(), 6);
    for part in &parts {
        assert_eq!(part.len(), 4);
        assert!(part.chars().all(|c| c.is_ascii_hexdigit()));
    }
}

#[test]
fn fingerprint_is_the_head_of_the_digest() {
    // SHA-256 of 32 zero bytes begins with 66687aadf862bd776c8fc18b.
    assert_eq!(
        compute_fingerprint(&[0u8; 32]),
        "6668-7aad-f862-bd77-6c8f-c18b"
    );
}

#[test]
fn different_keys_produce_different_fingerprints() {
    let id1 = Identity::generate().unwrap();
    let id2 = Identity::generate().unwrap();
    assert_ne!(id1.fingerprint(), id2.fingerprint());
}

#[test]
fn round_trip_through_bytes() {
    let id1 = Identity::generate().unwrap();
    let bytes = id1.secret_bytes();
    let id2 = Identity::from_secret_bytes(bytes).unwrap();
    assert_eq!(id1.fingerprint(), id2.fingerprint());
    assert_eq!(id1.peer_id(), id2.peer_id());
}

#[test]
fn peer_id_is_derived_from_same_key() {
    let id = Identity::generate().unwrap();
    let pid = id.peer_id();
    assert!(!pid.to_string().is_empty());
    let keypair = libp2p::identity::Keypair::ed25519_from_bytes(id.secret_bytes()).unwrap();
    assert_eq!(keypair.public().to_peer_id().to_string(), pid);
}

#[test]
fn mlkem_pubkey_is_stable_across_reload() {
    let bytes = Identity::generate().unwrap().secret_bytes();
    let a = Identity::from_secret_bytes(bytes).unwrap();
    let b = Identity::from_secret_bytes(bytes).unwrap();
    assert_eq!(a.mlkem_public_bytes(), b.mlkem_public_bytes());
    assert_eq!(a.mlkem_public_bytes().len(), pqc::MLKEM_EK_LEN);
}

#[test]
fn mlkem_pubkey_differs_per_identity() {
    let a = Identity::generate().unwrap();
    let b = Identity::generate().unwrap();
    assert_ne!(a.mlkem_public_bytes(), b.mlkem_public_bytes());
}

#[test]
fn mlkem_keypair_round_trips_against_self() {
    let id = Identity::generate().unwrap();
    let ek = id.mlkem_public_bytes();
    let (ct, ss_send) = pqc::encapsulate_deterministic(&ek, &[1u8; pqc::SS_LEN]).unwrap();
    let ss_recv = id.pq_keypair().decapsulate(&ct).unwrap();
    assert_eq!(ss_send, ss_recv);
}

#[test]
fn safety_code_is_stable_and_well_formed() {
    let key = [7u8; 32];
    let a = safety_code(&key);
    let b = safety_code(&key);
    assert_eq!(a, b);
    assert!(a.starts_with("SAFE-"));
    let groups: Vec<&str> = a.trim_start_matches("SAFE-").split('-').collect();
    assert_eq!(groups.len(), 3);
    for g in &groups {
        assert_eq!(g.len(), 4);
        assert!(g
            .chars()
            .all(|c| c.is_ascii_hexdigit() && c.is_ascii_uppercase() || c.is_ascii_digit()));
    }
}

#[test]
fn seed_matches_secret_bytes() {
    let id = Identity::generate().unwrap();
    assert_eq!(id.seed(), id.secret_bytes());
}

#[test]
fn from_seed_round_trips_identity() {
    let id = Identity::generate().unwrap();
    let restored = Identity::from_seed(id.seed()).unwrap();
    assert_eq!(id.fingerprint(), restored.fingerprint());
    assert_eq!(id.peer_id(), restored.peer_id());
    assert_eq!(id.mlkem_public_bytes(), restored.mlkem_public_bytes());
}

#[test]
fn bip39_phrase_fully_restores_identity() {
    let id = Identity::generate().unwrap();
    let phrase = seed_to_phrase(&id.seed());
    let seed = phrase_to_seed(&phrase).unwrap();
    let restored = Identity::from_seed(seed).unwrap();
    assert_eq!(id.fingerprint(), restored.fingerprint());
    assert_eq!(id.peer_id(), restored.peer_id());
    assert_eq!(id.mlkem_public_bytes(), restored.mlkem_public_bytes());
}
