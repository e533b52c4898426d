//! The sessions of a room.
use huddle_core::crypto::megolm::{
    reencrypt_megolm_sessions, RoomCrypto, RotationPolicy, SessionWrite, StoredMegolmSession,
    MISSING_INBOUND_SESSION_ERR,
};

/// Does to a table what a room wants to have written.
fn store(rows: &mut Vec<StoredMegolmSession>, crypto: &mut RoomCrypto) {
    for write in crypto.take_writes() {
        match write {
            SessionWrite::Save(row) => {
                rows.retain(|r| {
                    !(r.room_id == row.room_id
                        && r.sender_fingerprint == row.sender_fingerprint
                        && r.session_id == row.session_id)
                });
                rows.push(row);
            }
            SessionWrite::DeleteOutbound {
                room_id,
                fingerprint,
            } => {
                rows.retain(|r| {
                    !(r.room_id == room_id && r.sender_fingerprint == fingerprint && r.is_outbound)
                });
            }
        }
    }
}

fn room(fp: &str) -> RoomCrypto {
    RoomCrypto::new_for_room("room".into(), fp.into(), [0u8; 32]).unwrap()
}

fn load(rows: &Vec<StoredMegolmSession>, fp: &str) -> RoomCrypto {
    RoomCrypto::load(rows, "room".into(), fp.into(), [0u8; 32])
        .expect("should have outbound session")
}

#[test]
fn outbound_encrypt_inbound_decrypt() {
    let mut alice = room("alice-fp");
    let mut bob = room("bob-fp");
    bob.add_inbound_session("alice-fp", &alice.our_session_key_b64())
        .unwrap();

    let (session_id, ciphertext) = alice.encrypt(b"hello group").unwrap();
    let (plaintext, index) = bob.decrypt("alice-fp", &session_id, &ciphertext).unwrap();
    assert_eq!(plaintext, b"hello group");
    assert_eq!(index, 0);
}

#[test]
fn bidirectional_round_trip() {
    let mut alice = room("a-fp");
    let mut bob = room("b-fp");
    alice
        .add_inbound_session("b-fp", &bob.our_session_key_b64())
        .unwrap();
    bob.add_inbound_session("a-fp", &alice.our_session_key_b64())
        .unwrap();

    let (sid_a, ct_a) = alice.encrypt(b"from alice").unwrap();
    assert_eq!(bob.decrypt("a-fp", &sid_a, &ct_a).unwrap().0, b"from alice");

    let (sid_b, ct_b) = bob.encrypt(b"from bob").unwrap();
    assert_eq!(alice.decrypt("b-fp", &sid_b, &ct_b).unwrap().0, b"from bob");
}

#[test]
fn outbound_persists_and_reloads() {
    let mut rows = Vec::new();
    let mut crypto = room("me-fp");
    let original_session_id = crypto.our_session_id();
    let (_, _) = crypto.encrypt(b"advance the ratchet").unwrap();
    store(&mut rows, &mut crypto);
    drop(crypto);

    let reloaded = load(&rows, "me-fp");
    assert_eq!(reloaded.our_session_id(), original_session_id);
}

#[test]
fn decrypt_surfaces_monotonic_message_index() {
    let mut rows = Vec::new();
    let mut alice = room("alice-fp");
    let mut bob = room("bob-fp");
    bob.add_inbound_session("alice-fp", &alice.our_session_key_b64())
        .unwrap();

    let (sid, ct0) = alice.encrypt(b"zero").unwrap();
    assert_eq!(bob.decrypt("alice-fp", &sid, &ct0).unwrap().1, 0);
    let (_, ct1) = alice.encrypt(b"one").unwrap();
    assert_eq!(bob.decrypt("alice-fp", &sid, &ct1).unwrap().1, 1);

    store(&mut rows, &mut bob);
    drop(bob);
    let mut bob = load(&rows, "bob-fp");
    let (_, ct2) = alice.encrypt(b"two").unwrap();
    assert_eq!(bob.decrypt("alice-fp", &sid, &ct2).unwrap().1, 2);
}

#[test]
fn rotate_outbound_mints_new_session_preserves_inbound_and_dedups_row() {
    let mut rows = Vec::new();
    let mut alice = room("alice-fp");
    let mut bob = room("bob-fp");

    alice
        .add_inbound_session("bob-fp", &bob.our_session_key_b64())
        .unwrap();
    let (sid1, ct1) = bob.encrypt(b"before rotate").unwrap();
    assert_eq!(
        alice.decrypt("bob-fp", &sid1, &ct1).unwrap().0,
        b"before rotate"
    );

    let old_outbound = alice.our_session_id();

    alice.rotate_outbound();
    let new_outbound = alice.our_session_id();
    assert_ne!(
        old_outbound, new_outbound,
        "rotate must mint a fresh outbound session"
    );

    let (sid2, ct2) = bob.encrypt(b"after rotate").unwrap();
    assert_eq!(
        alice.decrypt("bob-fp", &sid2, &ct2).unwrap().0,
        b"after rotate",
        "rotate_outbound must NOT discard inbound sessions"
    );

    store(&mut rows, &mut alice);
    let outbound: Vec<_> = rows.iter().filter(|s| s.is_outbound).collect();
    assert_eq!(outbound.len(), 1, "exactly one outbound row after rotate");
    assert_eq!(outbound[0].session_id, new_outbound);

    drop(alice);
    let reloaded = load(&rows, "alice-fp");
    assert_eq!(reloaded.our_session_id(), new_outbound);
}

#[test]
fn message_count_increments_on_encrypt() {
    let mut crypto = room("me-fp");
    assert_eq!(crypto.messages_since_rotation(), 0);
    for _ in 0..3 {
        crypto.encrypt(b"msg").unwrap();
    }
    assert_eq!(crypto.messages_since_rotation(), 3);
}

#[test]
fn rotate_outbound_resets_message_count() {
    let mut crypto = room("me-fp");
    for _ in 0..5 {
        crypto.encrypt(b"msg").unwrap();
    }
    assert_eq!(crypto.messages_since_rotation(), 5);
    let old_session = crypto.our_session_id();

    crypto.rotate_outbound();
    assert_ne!(
        crypto.our_session_id(),
        old_session,
        "rotate mints a new session"
    );
    assert_eq!(
        crypto.messages_since_rotation(),
        0,
        "rotate resets the epoch counter"
    );
}

#[test]
fn restore_rotation_state_rehydrates_after_load() {
    let mut rows = Vec::new();
    let mut crypto = room("me-fp");
    crypto.encrypt(b"one").unwrap();
    crypto.encrypt(b"two").unwrap();
    crypto.encrypt(b"three").unwrap();
    assert_eq!(crypto.messages_since_rotation(), 3);
    store(&mut rows, &mut crypto);
    drop(crypto);

    let mut reloaded = load(&rows, "me-fp");
    assert_eq!(
        reloaded.messages_since_rotation(),
        0,
        "load starts the counter at zero"
    );

    reloaded.restore_rotation_state(3, 1000);
    assert_eq!(reloaded.messages_since_rotation(), 3);
    assert_eq!(reloaded.last_rotation_at(), 1000);

    reloaded.encrypt(b"four").unwrap();
    reloaded.encrypt(b"five").unwrap();
    assert_eq!(reloaded.messages_since_rotation(), 5);
}

#[test]
fn rotation_policy_triggers_and_disables() {
    let by_count = RotationPolicy::new(5, 0);
    assert!(by_count.is_enabled());
    assert!(!by_count.should_rotate(4, 0));
    assert!(by_count.should_rotate(5, 0));
    assert!(by_count.should_rotate(6, 0));

    let by_age = RotationPolicy::from_messages_and_hours(0, 1);
    assert_eq!(by_age.max_age_secs, 3600);
    assert!(!by_age.should_rotate(10_000, 3599));
    assert!(by_age.should_rotate(0, 3600));

    let off = RotationPolicy::disabled();
    assert!(!off.is_enabled());
    assert!(!off.should_rotate(u32::MAX, i64::MAX));

    let dflt = RotationPolicy::default();
    assert_eq!(dflt.max_messages, 1000);
    assert_eq!(dflt.max_age_secs, 24 * 3600);
}

#[test]
fn should_rotate_reads_live_bookkeeping() {
    let mut crypto = room("me-fp");
    let policy = RotationPolicy::new(3, 0);

    crypto.encrypt(b"a").unwrap();
    crypto.encrypt(b"b").unwrap();
    assert!(!crypto.should_rotate(&policy));
    crypto.encrypt(b"c").unwrap();
    assert!(crypto.should_rotate(&policy));

    crypto.rotate_outbound();
    assert!(!crypto.should_rotate(&policy));
}

#[test]
fn decrypt_unknown_sender_errors() {
    let mut crypto = room("me-fp");
    let err = crypto.decrypt("unknown-fp", "session-id", b"junk");
    assert!(err.is_err());
    assert!(
        err.unwrap_err()
            .message()
            .contains(MISSING_INBOUND_SESSION_ERR),
        "missing-session error must contain MISSING_INBOUND_SESSION_ERR"
    );
}

#[test]
fn a_reloaded_reader_reads_what_it_read_before() {
    let mut rows = Vec::new();
    let mut alice = room("alice-fp");
    let mut bob = room("bob-fp");
    bob.add_inbound_session("alice-fp", &alice.our_session_key_b64())
        .unwrap();
    let sent: Vec<(String, Vec<u8>)> = (0..4u8).map(|i| alice.encrypt(&[i]).unwrap()).collect();
    let read = |who: &mut RoomCrypto, k: usize| {
        who.decrypt("alice-fp", &sent[k].0, &sent[k].1).unwrap()
    };
    assert_eq!(read(&mut bob, 2), (vec![2], 2));
    store(&mut rows, &mut bob);
    let mut again = load(&rows, "bob-fp");
    for k in [3, 0, 2, 1] {
        assert_eq!(read(&mut again, k), (vec![k as u8], k as u32));
        assert_eq!(read(&mut bob, k), (vec![k as u8], k as u32));
    }
    let missing = again.decrypt("carol-fp", &sent[0].0, &sent[0].1).unwrap_err();
    assert!(missing.message().contains(MISSING_INBOUND_SESSION_ERR));
}

#[test]
fn junk_is_no_message_and_no_key() {
    let alice = room("alice-fp");
    let mut bob = room("bob-fp");
    bob.add_inbound_session("alice-fp", &alice.our_session_key_b64())
        .unwrap();
    let id = alice.our_session_id();
    assert!(bob.has_inbound_session("alice-fp", &id));
    assert!(!bob.has_inbound_session("bob-fp", &id));
    let e = bob.decrypt("alice-fp", &id, b"junk").unwrap_err();
    assert!(e.message().starts_with("session error: bad megolm message: "));
    let e = bob.add_inbound_session("alice-fp", "junk").unwrap_err();
    assert!(e.message().starts_with("session error: bad session key: "));
}

#[test]
fn a_message_of_another_session_does_not_decrypt() {
    let alice = room("alice-fp");
    let mut carol = room("carol-fp");
    let mut bob = room("bob-fp");
    bob.add_inbound_session("alice-fp", &alice.our_session_key_b64())
        .unwrap();
    let (_, ct) = carol.encrypt(b"x").unwrap();
    let e = bob
        .decrypt("alice-fp", &alice.our_session_id(), &ct)
        .unwrap_err();
    assert!(e.message().starts_with("session error: megolm decrypt failed: "));
}

#[test]
fn the_age_of_a_session() {
    let mut crypto = room("me-fp");
    crypto.restore_rotation_state(7, 1_000);
    assert_eq!(crypto.seconds_since_rotation_at(1_600), 600);
    assert_eq!(crypto.seconds_since_rotation_at(900), 0);
    assert!(crypto.should_rotate_at(&RotationPolicy::new(0, 600), 1_600));
    assert!(!crypto.should_rotate_at(&RotationPolicy::new(0, 601), 1_600));
    assert_eq!(crypto.room_id(), "room");
    assert_eq!(crypto.our_fingerprint(), "me-fp");
}

#[test]
fn stored_sessions_move_to_another_key() {
    let mut rows = Vec::new();
    let mut alice = room("alice-fp");
    let mut bob = room("bob-fp");
    alice
        .add_inbound_session("bob-fp", &bob.our_session_key_b64())
        .unwrap();
    store(&mut rows, &mut alice);
    rows.push(StoredMegolmSession {
        room_id: "room".into(),
        sender_fingerprint: "x".into(),
        session_id: "y".into(),
        session_data: vec![0xff, 0xfe],
        is_outbound: false,
        created_at: 0,
    });
    let new_key = [5u8; 32];
    let moved = reencrypt_megolm_sessions(&rows, &[0u8; 32], &new_key);
    assert_eq!(moved.len(), 2, "what cannot be read is left alone");
    assert!(RoomCrypto::load(&moved, "room".into(), "alice-fp".into(), [0u8; 32]).is_none());
    let mut again =
        RoomCrypto::load(&moved, "room".into(), "alice-fp".into(), new_key).expect("moved");
    assert_eq!(again.our_session_id(), alice.our_session_id());
    assert_eq!(again.our_session_key_b64(), alice.our_session_key_b64());
    let (sid, ct) = bob.encrypt(b"still there").unwrap();
    assert_eq!(again.decrypt("bob-fp", &sid, &ct).unwrap().0, b"still there");
}

#[test]
fn messages_are_read_in_any_order() {
    let mut alice = room("alice-fp");
    let mut bob = room("bob-fp");
    bob.add_inbound_session("alice-fp", &alice.our_session_key_b64())
        .unwrap();
    let sid = alice.our_session_id();
    let sent: Vec<Vec<u8>> = (0..5u8)
        .map(|i| alice.encrypt(&[i; 3]).unwrap().1)
        .collect();
    for i in [3usize, 0, 4, 1, 2, 0] {
        let (plain, index) = bob.decrypt("alice-fp", &sid, &sent[i]).unwrap();
        assert_eq!(plain, vec![i as u8; 3]);
        assert_eq!(index, i as u32);
    }
}

#[test]
fn a_late_key_reads_what_comes_after_it() {
    let mut alice = room("alice-fp");
    let mut carol = room("carol-fp");
    let (sid, early) = alice.encrypt(b"early").unwrap();
    carol
        .add_inbound_session("alice-fp", &alice.our_session_key_b64())
        .unwrap();
    let (_, late) = alice.encrypt(b"late").unwrap();
    let (_, later) = alice.encrypt(b"later").unwrap();
    assert!(carol.decrypt("alice-fp", &sid, &early).is_err());
    assert_eq!(carol.decrypt("alice-fp", &sid, &later).unwrap().0, b"later");
    assert_eq!(carol.decrypt("alice-fp", &sid, &late).unwrap().0, b"late");
}
