//! The keys of chats between two.
use huddle_core::crypto::dm::{
    derive_dm_key, derive_dm_key_hybrid_initiator, derive_dm_key_hybrid_responder,
    must_refuse_classical_fallback,
};
use huddle_core::identity::Identity;

#[test]
fn dm_key_is_commutative() {
    let alice = Identity::generate().unwrap();
    let bob = Identity::generate().unwrap();
    let room_id = "deadbeefcafef00d1234567890abcdef";
    let k_a = derive_dm_key(&alice.secret_bytes(), &bob.public_bytes(), room_id).unwrap();
    let k_b = derive_dm_key(&bob.secret_bytes(), &alice.public_bytes(), room_id).unwrap();
    assert_eq!(k_a, k_b, "both peers must derive the same DM key");
}

#[test]
fn dm_key_is_deterministic() {
    let alice = Identity::generate().unwrap();
    let bob = Identity::generate().unwrap();
    let room_id = "room-1";
    let k1 = derive_dm_key(&alice.secret_bytes(), &bob.public_bytes(), room_id).unwrap();
    let k2 = derive_dm_key(&alice.secret_bytes(), &bob.public_bytes(), room_id).unwrap();
    assert_eq!(k1, k2);
}

#[test]
fn dm_key_binds_to_room_id() {
    let alice = Identity::generate().unwrap();
    let bob = Identity::generate().unwrap();
    let k1 = derive_dm_key(&alice.secret_bytes(), &bob.public_bytes(), "room-1").unwrap();
    let k2 = derive_dm_key(&alice.secret_bytes(), &bob.public_bytes(), "room-2").unwrap();
    assert_ne!(
        k1, k2,
        "different room_ids must produce different keys (HKDF info parameter)"
    );
}

#[test]
fn dm_key_differs_per_pair() {
    let alice = Identity::generate().unwrap();
    let bob = Identity::generate().unwrap();
    let carol = Identity::generate().unwrap();
    let room = "room";
    let k_ab = derive_dm_key(&alice.secret_bytes(), &bob.public_bytes(), room).unwrap();
    let k_ac = derive_dm_key(&alice.secret_bytes(), &carol.public_bytes(), room).unwrap();
    assert_ne!(k_ab, k_ac);
}

#[test]
fn rejects_invalid_ed25519_pubkey() {
    let alice = Identity::generate().unwrap();
    let mut bad = [0u8; 32];
    bad[31] = 0xff;
    let r = derive_dm_key(&alice.secret_bytes(), &bad, "room");
    let _ = r;
}

#[test]
fn a_key_that_is_no_point_is_refused() {
    let alice = Identity::generate().unwrap();
    let mut refused = 0;
    for first in 0u8..32 {
        let mut key = [0u8; 32];
        key[0] = first;
        match derive_dm_key(&alice.secret_bytes(), &key, "room") {
            Ok(_) => {}
            Err(e) => {
                refused += 1;
                assert!(e.message().starts_with("session error: "));
            }
        }
    }
    assert!(refused > 0);
}

#[test]
fn rejects_small_order_partner_pubkey() {
    let alice = Identity::generate().unwrap();
    let mut id_point = [0u8; 32];
    id_point[0] = 1;
    let r = derive_dm_key(&alice.secret_bytes(), &id_point, "room");
    assert!(r.is_err(), "small-order partner pubkey must be rejected");
}

#[test]
fn hybrid_keys_of_both_sides_agree() {
    let alice = Identity::generate().unwrap();
    let bob = Identity::generate().unwrap();
    let (key, ct) = derive_dm_key_hybrid_initiator(
        &alice.secret_bytes(),
        &bob.public_bytes(),
        &bob.mlkem_public_bytes(),
        "room",
    )
    .unwrap();
    let other = derive_dm_key_hybrid_responder(
        &bob.pq_keypair(),
        &bob.secret_bytes(),
        &alice.public_bytes(),
        &ct,
        "room",
    )
    .unwrap();
    assert_eq!(key, other);
    let classical = derive_dm_key(&alice.secret_bytes(), &bob.public_bytes(), "room").unwrap();
    assert_ne!(key, classical);
    let (again, ct_again) = derive_dm_key_hybrid_initiator(
        &alice.secret_bytes(),
        &bob.public_bytes(),
        &bob.mlkem_public_bytes(),
        "room",
    )
    .unwrap();
    assert_eq!((again, ct_again), (key, ct));
}

#[test]
fn classical_fallback_is_refused_for_a_partner_who_speaks_mlkem() {
    assert!(must_refuse_classical_fallback(true, false));
    assert!(!must_refuse_classical_fallback(true, true));
    assert!(!must_refuse_classical_fallback(false, false));
    assert!(!must_refuse_classical_fallback(false, true));
}
