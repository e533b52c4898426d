//! What happens in rooms, between two peers and more.
use base64::engine::general_purpose::STANDARD as B64;
use base64::Engine;
use huddle_core::app::code_join::{CODE_JOIN_TIMEOUT_SECS, JOIN_CODE_TTL_SECS};
use huddle_core::app::effects::{Effect, Write};
use huddle_core::app::events::{AppEvent, RoomKind};
use huddle_core::app::facts::{AttachmentFacts, Envelope, RoomFacts};
use huddle_core::app::messages::RoomMessage;
use huddle_core::app::records::{AttachmentStatus, StoredAttachment, StoredRoom};
use huddle_core::app::rooms::{DirectStart, Restore, RoomPlan};
use huddle_core::app::{canonical_dm_room_id, AppHandle, RoomTransport, SendReadiness};
use huddle_core::crypto::megolm::{
    RoomCrypto, RotationPolicy, SessionWrite, StoredMegolmSession,
};
use huddle_core::crypto::passphrase::{derive_key, wrap};
use huddle_core::files::transfer::CHUNK_SIZE;
use huddle_core::identity::Identity;

const NOW: i64 = 1_000_000;
const PASSPHRASE: &str = "correct horse";

fn app() -> AppHandle {
    let order = vec!["iroh-p2p".to_string(), "relay-onion-ws".to_string()];
    AppHandle::new(Identity::generate().unwrap(), "/data", [3u8; 32], order, true, 0)
}

fn fp(a: &AppHandle) -> String {
    a.fingerprint().to_string()
}

fn facts() -> RoomFacts {
    RoomFacts {
        room: None,
        owners: vec![],
        banned: vec![],
        verified_only: false,
        subject_verified: false,
        subject_blocked: false,
        subject_is_contact: false,
        subject_mlkem_pubkey: None,
        subject_pq_verified: false,
        target_sender: None,
        seen_indices: vec![],
        attachment: None,
        cached_file: None,
        inbox_room_id: "inbox".into(),
        proof_allowed: true,
    }
}

fn envelope(room: &str, signer: Option<&str>) -> Envelope {
    Envelope {
        room_id: room.into(),
        signer: signer.map(|s| s.to_string()),
        signed_at_ms: signer.map(|_| NOW * 1000 + 7),
        now: NOW,
        now_ms: NOW * 1000,
    }
}

fn give(to: &mut AppHandle, f: &RoomFacts, signer: Option<&str>, msg: RoomMessage) -> Vec<Effect> {
    to.handle_room_message(f, &envelope("room", signer), msg)
}

/// The first message that is sent.
fn sent(effects: Vec<Effect>) -> RoomMessage {
    for e in effects {
        match e {
            Effect::Publish { message, .. }
            | Effect::PublishPaced { message, .. }
            | Effect::PublishSigned { message, .. }
            | Effect::PublishDirect { message, .. } => return message,
            _ => {}
        }
    }
    panic!("nothing is sent")
}

fn events(effects: &[Effect]) -> String {
    let mut out = String::new();
    for e in effects {
        match e {
            Effect::Emit(e)
            | Effect::StoreThen(_, e)
            | Effect::ChangeThen(_, e)
            | Effect::StoreOffer(_, e) => {
                let text = format!("{:?}", e);
                let name = text.split([' ', '(']).next().unwrap().to_string();
                out.push_str(&name);
                out.push(' ');
            }
            _ => {}
        }
    }
    out.trim_end().to_string()
}

fn open_room(a: &mut AppHandle) -> StoredRoom {
    let plan = a
        .start_room("room", "Room", false, None, RoomKind::Group, NOW)
        .unwrap();
    let info = plan.info.copy();
    a.enter_started(plan);
    info
}

fn enter(a: &mut AppHandle, info: &StoredRoom) {
    let plan = RoomPlan {
        info: info.copy(),
        key: None,
    };
    a.enter_joined(plan, &vec![], None);
}

/// Two peers in one encrypted room, who know each other's sessions.
fn encrypted_pair() -> (AppHandle, AppHandle) {
    let mut alice = app();
    let mut bob = app();
    let plan = alice
        .start_room("room", "Room", true, Some(PASSPHRASE), RoomKind::Group, NOW)
        .unwrap();
    let info = plan.info.copy();
    alice.enter_started(plan);
    let ann = alice.room_announcement(&info, 1, &vec![], false, NOW);
    assert_eq!(events(&bob.room_announced(ann, false, NOW)), "RoomDiscovered");
    let plan = bob.join_room("room", Some(PASSPHRASE), None, NOW).unwrap();
    bob.enter_joined(plan, &vec![], None);
    let a = alice.member_announce("room", None).unwrap();
    let b = bob.member_announce("room", Some("Bob".into())).unwrap();
    let (fa, fb) = (fp(&alice), fp(&bob));
    assert_eq!(events(&give(&mut bob, &facts(), Some(&fa), a)), "MemberJoined");
    let eff = give(&mut alice, &facts(), Some(&fb), b);
    assert_eq!(events(&eff), "MemberJoined");
    assert!(matches!(&eff[2], Effect::Store(Write::MemberDisplayName { name, .. }) if name == "Bob"));
    (alice, bob)
}

fn policy() -> RotationPolicy {
    RotationPolicy::disabled()
}

#[test]
fn a_message_reaches_the_other_side_once() {
    let (mut alice, mut bob) = encrypted_pair();
    let fa = fp(&alice);
    let eff = alice
        .send_room_message("room", "hello", &policy(), NOW)
        .unwrap();
    let msg = sent(eff);
    let (session, ciphertext) = match &msg {
        RoomMessage::Encrypted {
            session_id,
            ciphertext_b64,
            ..
        } => (session_id.clone(), ciphertext_b64.clone()),
        other => panic!("{other:?}"),
    };
    assert!(bob.can_decrypt("room", &fa, &session));
    assert!(bob.may_acknowledge("room", &msg, false, false));
    let eff = give(&mut bob, &facts(), None, msg);
    assert_eq!(events(&eff), "MessageReceived");
    assert!(eff.iter().any(|e| matches!(e, Effect::Store(Write::Message { body, .. }) if body == "hello")));

    let again = RoomMessage::Encrypted {
        sender_fingerprint: fa.clone(),
        session_id: session,
        ciphertext_b64: ciphertext,
        client_msg_id: None,
        reply_to: None,
    };
    let mut f = facts();
    f.seen_indices = vec![0];
    assert!(give(&mut bob, &f, None, again).is_empty());
}

#[test]
fn a_message_under_an_unknown_session_asks_for_keys() {
    let (_, mut bob) = encrypted_pair();
    let stranger = || RoomMessage::Encrypted {
        sender_fingerprint: "stranger".into(),
        session_id: "s".into(),
        ciphertext_b64: "AAAA".into(),
        client_msg_id: None,
        reply_to: None,
    };
    assert!(!bob.may_acknowledge("room", &stranger(), false, true));
    let eff = give(&mut bob, &facts(), None, stranger());
    assert!(matches!(&eff[..], [Effect::RequestKeys { .. }]));
    assert!(give(&mut bob, &facts(), None, stranger()).is_empty(), "not again so soon");
}

#[test]
fn a_request_for_keys_is_answered_now_and_then() {
    let (mut alice, bob) = encrypted_pair();
    let ask = || RoomMessage::SessionKeyRequest {
        requester_fingerprint: fp(&bob),
    };
    let eff = give(&mut alice, &facts(), None, ask());
    assert!(matches!(&eff[..], [Effect::AnnounceMember { delay_ms: 0, .. }]));
    assert!(give(&mut alice, &facts(), None, ask()).is_empty());
    let own = RoomMessage::SessionKeyRequest {
        requester_fingerprint: fp(&alice),
    };
    assert!(give(&mut alice, &facts(), None, own).is_empty());
}

#[test]
fn mentions_are_told_of() {
    let mut alice = app();
    open_room(&mut alice);
    let body = format!("hi HD-{}", &fp(&alice).replace('-', "")[..8]);
    let msg = RoomMessage::Plain {
        sender_fingerprint: "bob".into(),
        body: body.clone(),
        client_msg_id: Some("id".into()),
        reply_to: None,
    };
    let eff = give(&mut alice, &facts(), None, msg);
    assert!(events(&eff).contains("MessageReceived"));
    assert!(events(&eff).contains("MentionReceived"));
}

#[test]
fn nothing_in_the_clear_in_an_encrypted_room() {
    let (mut alice, _) = encrypted_pair();
    let mut f = facts();
    f.room = alice.active_room_info("room");
    let msg = RoomMessage::Plain {
        sender_fingerprint: "bob".into(),
        body: "x".into(),
        client_msg_id: None,
        reply_to: None,
    };
    assert!(give(&mut alice, &f, None, msg).is_empty());
}

#[test]
fn whoever_is_banned_is_not_heard() {
    let mut alice = app();
    open_room(&mut alice);
    let mut f = facts();
    f.banned = vec!["bob".into()];
    let msg = RoomMessage::Plain {
        sender_fingerprint: "bob".into(),
        body: "x".into(),
        client_msg_id: None,
        reply_to: None,
    };
    assert!(give(&mut alice, &f, None, msg).is_empty());
    let typing = RoomMessage::Typing {
        sender_fingerprint: "bob".into(),
    };
    assert!(give(&mut alice, &f, None, typing).is_empty());
    assert!(alice.typers_in_room("room", NOW).is_empty());
}

#[test]
fn typing_shows_for_a_moment() {
    let mut alice = app();
    open_room(&mut alice);
    let typing = RoomMessage::Typing {
        sender_fingerprint: "bob".into(),
    };
    assert_eq!(events(&give(&mut alice, &facts(), None, typing)), "TypingChanged");
    assert_eq!(alice.typers_in_room("room", NOW + 2), vec!["bob".to_string()]);
    assert!(alice.typers_in_room("room", NOW + 3).is_empty());
    assert!(matches!(
        sent(alice.broadcast_typing("room")),
        RoomMessage::Typing { .. }
    ));
}

#[test]
fn forged_and_unsigned_announcements_are_void() {
    let mut alice = app();
    open_room(&mut alice);
    let bob = app();
    let mut bob_in = app();
    open_room(&mut bob_in);
    let _ = bob;
    let announce = || bob_in.member_announce("room", None).unwrap();
    let fb = fp(&bob_in);
    assert!(give(&mut alice, &facts(), None, announce()).is_empty());
    assert!(give(&mut alice, &facts(), Some("mallory"), announce()).is_empty());
    assert_eq!(events(&give(&mut alice, &facts(), Some(&fb), announce())), "MemberJoined");
    assert!(alice.room_members("room").contains(&fb));
}

#[test]
fn a_room_for_verified_members_refuses_others() {
    let mut alice = app();
    open_room(&mut alice);
    let mut bob = app();
    open_room(&mut bob);
    let fb = fp(&bob);
    let mut f = facts();
    f.verified_only = true;
    f.owners = vec![fp(&alice)];
    let eff = give(&mut alice, &f, Some(&fb), bob.member_announce("room", None).unwrap());
    let refusal = sent(eff);
    assert!(matches!(&refusal, RoomMessage::JoinRefused { target_fingerprint, .. } if *target_fingerprint == fb));
    let fa = fp(&alice);
    let eff = give(&mut bob, &f, Some(&fa), refusal);
    assert!(matches!(&eff[..], [Effect::Emit(AppEvent::Error { description })]
        if description == "join refused: room requires SAS verification — ask an existing member to verify you"));
    f.subject_verified = true;
    let eff = give(&mut alice, &f, Some(&fb), bob.member_announce("room", None).unwrap());
    assert_eq!(events(&eff), "MemberJoined");
}

#[test]
fn only_owners_ban() {
    let mut alice = app();
    open_room(&mut alice);
    let mut bob = app();
    open_room(&mut bob);
    let (fa, fb) = (fp(&alice), fp(&bob));
    let eff = give(&mut alice, &facts(), Some(&fb), bob.member_announce("room", None).unwrap());
    assert_eq!(events(&eff), "MemberJoined");
    let ban = |who: &str| RoomMessage::BanMember {
        room_id: "room".into(),
        target_fingerprint: who.to_string(),
    };
    let mut f = facts();
    f.owners = vec!["carol".into()];
    assert!(give(&mut alice, &f, Some("dave"), ban(&fb)).is_empty());
    assert!(give(&mut alice, &f, None, ban(&fb)).is_empty());
    let other = RoomMessage::BanMember {
        room_id: "elsewhere".into(),
        target_fingerprint: fb.clone(),
    };
    assert!(give(&mut alice, &f, Some("carol"), other).is_empty());
    let eff = give(&mut alice, &f, Some("carol"), ban(&fb));
    assert_eq!(events(&eff), "MemberLeft");
    assert!(!alice.room_members("room").contains(&fb));
    let eff = give(&mut alice, &f, Some("carol"), ban(&fa));
    assert_eq!(events(&eff), "RoomLeft");
    assert!(alice.active_room_info("room").is_none());
}

#[test]
fn owners_are_made_by_owners() {
    let mut alice = app();
    open_room(&mut alice);
    let fa = fp(&alice);
    let mut f = facts();
    assert!(alice.grant_owner(&f, "room", "bob").is_err());
    f.owners = vec![fa.clone()];
    let eff = alice.grant_owner(&f, "room", "bob").unwrap();
    let grant = sent(eff);
    let mut carol = app();
    open_room(&mut carol);
    let eff = give(&mut carol, &f, Some(&fa), grant);
    assert!(matches!(&eff[..], [Effect::Store(Write::MemberRole { fingerprint, role, .. })]
        if fingerprint == "bob" && role == "owner"));
}

#[test]
fn kicking_a_member_moves_the_room_to_another_passphrase() {
    let (mut alice, mut bob) = encrypted_pair();
    let (fa, fb) = (fp(&alice), fp(&bob));
    let mut f = facts();
    f.owners = vec![fa.clone()];
    assert!(alice.kick_member(&f, "room", &fa, NOW).is_err());
    let before = alice.get_room_salt("room");
    let (passphrase, eff) = alice.kick_member(&f, "room", &fb, NOW).unwrap();
    assert!(eff.iter().any(|e| matches!(e, Effect::PublishBan { fingerprint, .. } if *fingerprint == fb)));
    assert_ne!(alice.get_room_salt("room"), before);
    assert!(!alice.room_members("room").contains(&fb));
    assert_eq!(passphrase.len(), 24);

    let rotate = eff
        .into_iter()
        .find_map(|e| match e {
            Effect::PublishSigned {
                message: RoomMessage::RotateRoomKey { new_salt, .. },
                ..
            } => Some(new_salt),
            _ => None,
        })
        .expect("the rotation is announced");
    assert_eq!(Some(rotate.clone()), alice.get_room_salt("room"));
    let told = give(
        &mut bob,
        &f,
        Some(&fa),
        RoomMessage::RotateRoomKey {
            rotator_fingerprint: fa.clone(),
            new_salt: rotate.clone(),
            room_id: Some("room".into()),
        },
    );
    assert_eq!(events(&told), "RotationRequested");
    let eff = bob.accept_rotation("room", &rotate, &passphrase).unwrap();
    assert!(matches!(&eff[..], [
        Effect::RequestKeys { delay_ms: 0, .. },
        Effect::AnnounceMember { delay_ms: 0, .. },
        Effect::MustStore(Write::Room(_)),
    ]));
    let eff = give(&mut bob, &facts(), Some(&fa), alice.member_announce("room", None).unwrap());
    assert_eq!(events(&eff), "", "a member already");
    let msg = sent(alice.send_room_message("room", "after", &policy(), NOW).unwrap());
    assert_eq!(events(&give(&mut bob, &facts(), None, msg)), "MessageReceived");
}

#[test]
fn a_rotation_needs_a_good_passphrase_and_an_encrypted_room() {
    let mut alice = app();
    open_room(&mut alice);
    assert_eq!(
        alice.rotate_room("room", "short").unwrap_err().message(),
        "passphrase must be at least 8 characters"
    );
    assert_eq!(
        alice.rotate_room("room", PASSPHRASE).unwrap_err().message(),
        "rotation only applies to encrypted rooms"
    );
    assert_eq!(
        alice.rotate_room("none", PASSPHRASE).unwrap_err().message(),
        "not in room none"
    );
}

#[test]
fn reactions_edits_and_deletions() {
    let mut alice = app();
    let info = open_room(&mut alice);
    let mut bob = app();
    enter(&mut bob, &info);
    let fa = fp(&alice);
    let mut f = facts();
    f.room = Some(info.copy());
    f.target_sender = Some(fa.clone());
    let reaction = sent(alice.send_reaction(true, "room", "m1", "👍", false, NOW).unwrap());
    assert_eq!(reaction.target().as_deref(), Some("m1"));
    assert!(!bob.may_acknowledge("room", &reaction, true, false));
    assert!(bob.may_acknowledge("room", &reaction, true, true));
    let eff = give(&mut bob, &f, Some(&fa), reaction);
    assert!(matches!(&eff[..], [Effect::StoreThen(Write::AddReaction { emoji, .. }, AppEvent::ReactionAdded { removed: false, .. })] if emoji == "👍"));

    let edit = sent(alice.edit_message(&f, "room", "m1", "new words", NOW, NOW * 1000).unwrap());
    let eff = give(&mut bob, &f, Some(&fa), edit);
    assert!(events(&eff).contains("MessageEdited"));
    let delete = sent(alice.delete_message(&f, "room", "m1", NOW * 1000).unwrap());
    let eff = give(&mut bob, &f, Some(&fa), delete);
    assert!(events(&eff).contains("MessageDeleted"));

    f.target_sender = Some("somebody else".into());
    assert!(alice.edit_message(&f, "room", "m1", "x", NOW, NOW * 1000).is_err());
    assert!(alice.delete_message(&f, "room", "m1", NOW * 1000).is_err());
    let foreign = RoomMessage::Delete {
        sender_fingerprint: fa.clone(),
        target_msg_id: "m1".into(),
    };
    assert!(give(&mut bob, &f, Some(&fa), foreign).is_empty());
    assert!(alice.send_reaction(false, "room", "m1", "👍", false, NOW).is_err());
}

#[test]
fn edits_in_an_encrypted_room_are_encrypted() {
    let (mut alice, mut bob) = encrypted_pair();
    let fa = fp(&alice);
    let mut f = facts();
    f.room = alice.active_room_info("room");
    f.target_sender = Some(fa.clone());
    let eff = alice.edit_message(&f, "room", "m1", "sealed", NOW, NOW * 1000).unwrap();
    assert!(matches!(&eff[0], Effect::Store(Write::RotationState { room_id, messages_since_rotation: 1, .. })
        if room_id == "room"));
    let edit = sent(eff);
    assert!(matches!(&edit, RoomMessage::Edit { new_body: None, .. }));
    let eff = give(&mut bob, &f, Some(&fa), edit);
    assert!(eff.iter().any(|e| matches!(e,
        Effect::ChangeThen(Write::EditMessage { new_body, .. }, _)
        if new_body == "sealed")));
}

#[test]
fn the_time_that_messages_stay() {
    let mut alice = app();
    let info = open_room(&mut alice);
    let mut bob = app();
    enter(&mut bob, &info);
    let fa = fp(&alice);
    let mut f = facts();
    f.room = Some(info);
    let setting = sent(alice.set_room_disappearing_ttl("room", Some(60)));
    let eff = give(&mut bob, &f, Some(&fa), setting);
    assert_eq!(events(&eff), "RoomTtlChanged");
    let foreign = RoomMessage::RoomSetting {
        sender_fingerprint: "carol".into(),
        disappearing_ttl_secs: 60,
        room_id: Some("room".into()),
    };
    assert!(give(&mut bob, &f, Some("carol"), foreign).is_empty());
    let forever = RoomMessage::RoomSetting {
        sender_fingerprint: fa.clone(),
        disappearing_ttl_secs: 0,
        room_id: None,
    };
    let eff = give(&mut bob, &f, Some(&fa), forever);
    assert!(matches!(&eff[..], [Effect::StoreThen(Write::RoomTtl { ttl_secs: None, .. }, _)]));
    let long = RoomMessage::RoomSetting {
        sender_fingerprint: fa.clone(),
        disappearing_ttl_secs: u64::MAX,
        room_id: None,
    };
    let eff = give(&mut bob, &f, Some(&fa), long);
    assert!(matches!(&eff[..], [Effect::StoreThen(Write::RoomTtl { ttl_secs: Some(u32::MAX), .. }, _)]));
}

#[test]
fn members_leave_and_rename_themselves() {
    let mut alice = app();
    open_room(&mut alice);
    let mut bob = app();
    open_room(&mut bob);
    let fb = fp(&bob);
    give(&mut alice, &facts(), Some(&fb), bob.member_announce("room", None).unwrap());
    let profile = sent(bob.set_username(Some("Bob".into()), 5));
    let eff = give(&mut alice, &facts(), Some(&fb), profile);
    assert_eq!(events(&eff), "PeerProfileUpdated");
    let leave = sent(bob.leave_room("room"));
    let eff = give(&mut alice, &facts(), Some(&fb), leave);
    assert_eq!(events(&eff), "MemberLeft");
    assert!(bob.active_room_info("room").is_none());
}

#[test]
fn two_peers_come_to_a_hybrid_key() {
    let mut alice = app();
    let mut bob = app();
    let (fa, fb) = (fp(&alice), fp(&bob));
    let room = canonical_dm_room_id(&fa, &fb);
    for (me, other) in [(&mut alice, &fb), (&mut bob, &fa)] {
        let (eff, start) = me.start_direct(other, false, None, NOW).ok().unwrap();
        assert!(matches!(&eff[..], [
            Effect::RegisterDm { partner_fingerprint, .. },
            Effect::RegisterDm { .. },
            Effect::Store(Write::Contact(c)),
        ] if partner_fingerprint == other && c.source == "dm"));
        let plan = match start {
            DirectStart::New(plan) => plan,
            _ => panic!("new"),
        };
        assert_eq!(plan.info.id, room);
        assert!(plan.info.encrypted);
        assert!(!me.room_writes(&plan, "owner", NOW).is_empty());
        me.enter_started(plan);
        let (eff, start) = me.start_direct(other, true, None, NOW).ok().unwrap();
        assert!(matches!(start, DirectStart::Open));
        assert_eq!(events(&eff), "RoomJoined");
    }
    assert!(alice.start_direct(&fa, false, None, NOW).is_err());

    // Announcements go to and fro until both have a key.
    for _ in 0..3 {
        let a = alice.member_announce(&room, None).unwrap();
        bob.handle_room_message(&facts(), &envelope(&room, Some(&fa)), a);
        let b = bob.member_announce(&room, None).unwrap();
        alice.handle_room_message(&facts(), &envelope(&room, Some(&fb)), b);
    }
    assert_eq!(alice.dm_partner_fingerprint(&room), Some(fb.clone()));
    let msg = sent(alice.send_room_message(&room, "secret", &policy(), NOW).unwrap());
    let eff = bob.handle_room_message(&facts(), &envelope(&room, None), msg);
    assert_eq!(events(&eff), "MessageReceived");
    let msg = sent(bob.send_reply(&room, "yes", "m", &policy(), NOW).unwrap());
    let eff = alice.handle_room_message(&facts(), &envelope(&room, None), msg);
    assert!(eff.iter().any(|e| matches!(e, Effect::Store(Write::Message { reply_to: Some(r), body, .. }) if r == "m" && body == "yes")));

    let mut carol = app();
    let plan = RoomPlan {
        info: StoredRoom {
            id: room.clone(),
            name: "x".into(),
            creator_fingerprint: fp(&carol),
            encrypted: false,
            passphrase_salt: None,
            created_at: 0,
            last_active: None,
            kind: RoomKind::Group,
        },
        key: None,
    };
    carol.enter_joined(plan, &vec![], None);
    let fc = fp(&carol);
    let third = carol.member_announce(&room, None).unwrap();
    let eff = alice.handle_room_message(&facts(), &envelope(&room, Some(&fc)), third);
    assert!(eff.is_empty(), "there are two members already");
}

#[test]
fn a_member_joins_by_a_code() {
    let mut alice = app();
    let plan = alice
        .start_room("room", "Room", true, Some(PASSPHRASE), RoomKind::Group, NOW)
        .unwrap();
    let info = plan.info.copy();
    alice.enter_started(plan);
    let fa = fp(&alice);
    let mut f = facts();
    assert!(alice.generate_join_code(&f, "room", NOW).is_err(), "we are no owner yet");
    f.owners = vec![fa.clone()];
    let code = alice.generate_join_code(&f, "room", NOW).unwrap();

    let mut bob = app();
    let fb = fp(&bob);
    assert!(bob.plan_code_join("room", NOW).is_err());
    let ann = alice.room_announcement(&info, 1, &vec![fa.clone()], false, NOW);
    bob.room_announced(ann, false, NOW);
    let plan = bob.plan_code_join("room", NOW).unwrap();
    let (secret, public) = AppHandle::new_join_keys();
    let proof = [9u8; 32];
    let eff = bob.join_room_with_code(plan, &code, &proof, secret, public);
    assert!(matches!(&eff[0], Effect::CodeJoinDeadline { after_secs: CODE_JOIN_TIMEOUT_SECS, .. }));
    assert!(bob.is_room_read_only("room"));
    assert!(bob.send_room_message("room", "x", &policy(), NOW).is_err());
    let request = sent(eff);

    let eff = give(&mut alice, &f, Some(&fb), request);
    let wrap_key = [5u8; 32];
    let (owner_secret, owner_public) = AppHandle::new_join_keys();
    let _ = owner_secret;
    let (joiner, joiner_public, code) = match eff.into_iter().next().expect("an answer") {
        Effect::AnswerJoin {
            joiner_fingerprint,
            joiner_public,
            code,
            ..
        } => (joiner_fingerprint, joiner_public, code),
        Effect::CheckJoinProof {
            joiner_fingerprint,
            joiner_public,
            mut codes,
            proof: p,
            ..
        } => {
            assert_eq!(p, proof);
            (joiner_fingerprint, joiner_public, codes.remove(0))
        }
        other => panic!("{other:?}"),
    };
    assert_eq!(joiner_public, public);
    assert_eq!(joiner, fb);
    let eff = alice.code_join_answer("room", joiner.clone(), &code, owner_public, Some(wrap_key), NOW);
    let response = sent(eff);
    assert!(alice
        .code_join_answer("room", joiner, &code, owner_public, Some(wrap_key), NOW)
        .is_empty(), "a code lets one in");

    let eff = give(&mut bob, &f, Some(&fa), response);
    let (owner, wrapped) = match eff.into_iter().next().expect("a key") {
        Effect::DeriveJoinKey {
            owner_fingerprint,
            secret: s,
            owner_public: p,
            wrapped_session_key_b64,
            ..
        } => {
            assert_eq!(s, secret);
            assert_eq!(p, owner_public);
            (owner_fingerprint, wrapped_session_key_b64)
        }
        other => panic!("{other:?}"),
    };
    let eff = bob.code_join_finish("room", owner, &wrapped, &wrap_key, NOW);
    assert_eq!(events(&eff), "MemberJoined");
    let msg = sent(alice.send_room_message("room", "welcome", &policy(), NOW).unwrap());
    assert_eq!(events(&give(&mut bob, &facts(), None, msg)), "MessageReceived");
    assert!(bob.code_join_timed_out("room").is_empty());
}

#[test]
fn an_expired_code_lets_nobody_in() {
    let mut alice = app();
    let plan = alice
        .start_room("room", "Room", true, Some(PASSPHRASE), RoomKind::Group, NOW)
        .unwrap();
    alice.enter_started(plan);
    let mut f = facts();
    f.owners = vec![fp(&alice)];
    let code = alice.generate_join_code(&f, "room", NOW - JOIN_CODE_TTL_SECS).unwrap();
    let (_, public) = AppHandle::new_join_keys();
    let eff = alice.code_join_answer("room", "bob".into(), &code, public, Some([1; 32]), NOW);
    assert!(eff.is_empty());
}

#[test]
fn a_join_that_is_not_answered_times_out() {
    let alice = app();
    let plan = alice
        .start_room("room", "Room", true, Some(PASSPHRASE), RoomKind::Group, NOW)
        .unwrap();
    let info = plan.info.copy();
    let mut bob = app();
    let ann = alice.room_announcement(&info, 1, &vec![], false, NOW);
    bob.room_announced(ann, false, NOW);
    let plan = bob.plan_code_join("room", NOW).unwrap();
    let (secret, public) = AppHandle::new_join_keys();
    bob.join_room_with_code(plan, "v2-ABCD", &[0; 32], secret, public);
    let eff = bob.code_join_timed_out("room");
    assert!(events(&eff).contains("CodeJoinTimedOut"));
    assert!(AppHandle::code_needs_proof("v2-ABCD"));
    assert!(!AppHandle::code_needs_proof("ABCD"));
}

#[test]
fn a_file_goes_from_one_to_the_other() {
    let (mut alice, mut bob) = encrypted_pair();
    let fa = fp(&alice);
    let data: Vec<u8> = (0..CHUNK_SIZE as u32 + 100).map(|i| (i % 251) as u8).collect();
    let (eff, file_id) = alice.send_file("room", "a.png", "/home/a.png", &data, true, NOW);
    let file_id = file_id.unwrap();
    assert!(matches!(&eff[0], Effect::Store(Write::RotationState { room_id, messages_since_rotation: 1, .. })
        if room_id == "room"));
    assert!(matches!(&eff[1], Effect::CacheFile { path, contents }
        if *path == format!("/data/files/cache/{file_id}") && contents.len() == data.len() + 16));
    let mut row: Option<StoredAttachment> = None;
    let mut f = facts();
    f.room = bob.active_room_info("room");
    let mut contents: Option<Vec<u8>> = None;
    for e in eff {
        match e {
            Effect::PublishSigned { message, .. } => {
                let out = give(&mut bob, &f, Some(&fa), message);
                for o in out {
                    if let Effect::StoreOffer(a, AppEvent::FileOffered { size_bytes, .. }) = o {
                        bob.file_offer_stored(&a.room_id, &a.file_id, size_bytes);
                        f.attachment = Some(AttachmentFacts {
                            status: AttachmentStatus::Offered,
                            size_bytes: a.size_bytes,
                        });
                        row = Some(a);
                    }
                }
                assert!(row.is_some());
            }
            Effect::PublishPaced { message, .. } => {
                let out = give(&mut bob, &f, None, message);
                for o in out {
                    if let Effect::WriteFile { path, contents: c } = o {
                        assert_eq!(path, format!("/data/files/cache/{file_id}"));
                        contents = Some(c);
                    }
                }
            }
            _ => {}
        }
    }
    let mut a = row.expect("stored");
    assert_eq!(a.name, "a.png");
    assert_eq!(a.mime.as_deref(), Some("image/png"));
    a.status = AttachmentStatus::Ready;
    assert_eq!(AttachmentStatus::Ready.as_str(), "ready");
    let plain = bob.decrypt_attachment("room", &a, contents.expect("written")).unwrap();
    assert_eq!(plain, data);
    assert!(!AppHandle::file_saved("room", &file_id, "/downloads/a.png").is_empty());
    a.saved_path = Some("/downloads/a.png".into());
    assert_eq!(AppHandle::open_saved(&Some(a)).unwrap(), "/downloads/a.png");
    assert!(AppHandle::open_saved(&None).is_err());
    assert!(bob.save_source(&None, false).is_err());
    assert!(bob.cached_path("../x").is_err());
    assert_eq!(bob.cached_path(&file_id).unwrap(), format!("/data/files/cache/{file_id}"));
}

#[test]
fn a_cancelled_file_is_not_taken_up_again_by_a_late_chunk() {
    let mut alice = app();
    let info = open_room(&mut alice);
    let mut bob = app();
    enter(&mut bob, &info);
    let fa = fp(&alice);
    let data = vec![7u8; 2 * CHUNK_SIZE];
    let (eff, file_id) = alice.send_file("room", "a.bin", "/home/a.bin", &data, false, NOW);
    let file_id = file_id.unwrap();
    let mut f = facts();
    f.room = bob.active_room_info("room");
    let mut offer: Option<StoredAttachment> = None;
    let mut chunks: Vec<RoomMessage> = vec![];
    for e in eff {
        match e {
            Effect::PublishSigned { message, .. } => {
                for o in give(&mut bob, &f, Some(&fa), message) {
                    if let Effect::StoreOffer(a, _) = o {
                        offer = Some(a);
                    }
                }
            }
            Effect::PublishPaced { message, .. } => chunks.push(message),
            _ => {}
        }
    }
    let a = offer.expect("offered");
    bob.file_offer_stored("room", &file_id, a.size_bytes as u64);
    f.attachment = Some(AttachmentFacts {
        status: AttachmentStatus::Offered,
        size_bytes: a.size_bytes,
    });
    assert_eq!(chunks.len(), 2);
    let last = chunks.pop().unwrap();
    let first = chunks.pop().unwrap();
    let again = match &first {
        RoomMessage::FileChunk { file_id, chunk_index, total_chunks, data_b64, sender_fingerprint } => {
            RoomMessage::FileChunk {
                sender_fingerprint: sender_fingerprint.clone(),
                file_id: file_id.clone(),
                chunk_index: *chunk_index,
                total_chunks: *total_chunks,
                data_b64: data_b64.clone(),
            }
        }
        other => panic!("{other:?}"),
    };
    assert!(!give(&mut bob, &f, None, first).is_empty());

    let eff = bob.cancel_transfer("room", &file_id);
    assert!(matches!(&eff[..], [Effect::MustStore(Write::DeleteAttachment { room_id, file_id: gone })]
        if room_id == "room" && *gone == file_id));
    f.attachment = None;
    assert!(give(&mut bob, &f, None, last).is_empty(), "a late chunk is refused");

    bob.file_offer_stored("room", &file_id, a.size_bytes as u64);
    f.attachment = Some(AttachmentFacts {
        status: AttachmentStatus::Offered,
        size_bytes: a.size_bytes,
    });
    assert!(!give(&mut bob, &f, None, again).is_empty(), "another offer is another chance");
}

#[test]
fn a_chat_between_two_has_one_partner() {
    let mut a = app();
    let us = fp(&a);
    for (id, kind, members, partner) in [
        ("two", RoomKind::Direct, vec!["bob"], Some("bob")),
        ("three", RoomKind::Direct, vec!["bob", "carol"], None),
        ("alone", RoomKind::Direct, vec![], None),
        ("group", RoomKind::Group, vec!["bob"], None),
    ] {
        let info = StoredRoom {
            id: id.into(),
            name: "x".into(),
            creator_fingerprint: us.clone(),
            encrypted: false,
            passphrase_salt: None,
            created_at: 0,
            last_active: None,
            kind,
        };
        a.enter_open(info, &members.iter().map(|m| m.to_string()).collect());
        assert_eq!(a.dm_partner_fingerprint(id), partner.map(|p| p.to_string()), "{id}");
    }
    assert_eq!(a.dm_partner_fingerprint("nowhere"), None);
}

#[test]
fn a_proof_is_held_against_one_code_after_another() {
    let step = |codes: Vec<String>, derived: Option<[u8; 32]>| {
        AppHandle::join_proof_derived("room".into(), "bob".into(), [1; 32], codes, [9; 32], derived)
    };
    let codes = || vec!["v2-A".to_string(), "v2-B".to_string()];
    let next = step(codes(), Some([8; 32]));
    assert!(matches!(&next[..], [Effect::CheckJoinProof { codes, proof, .. }]
        if *codes == vec!["v2-B".to_string()] && *proof == [9; 32]));
    let next = step(codes(), None);
    assert!(matches!(&next[..], [Effect::CheckJoinProof { .. }]));
    let next = step(codes(), Some([9; 32]));
    assert!(matches!(&next[..], [Effect::AnswerJoin { code, joiner_fingerprint, joiner_public, .. }]
        if code == "v2-A" && joiner_fingerprint == "bob" && *joiner_public == [1; 32]));
    assert!(step(vec!["v2-B".into()], Some([8; 32])).is_empty());
    assert!(step(vec![], Some([9; 32])).is_empty());
}

#[test]
fn only_proofs_that_are_looked_at_count() {
    let alice = app();
    let fa = fp(&alice);
    let request = |room: &str, code_proof: Option<String>| RoomMessage::CodeJoinRequest {
        room_id: room.into(),
        joiner_x25519_pubkey_b64: B64.encode([1u8; 32]),
        code: String::new(),
        code_proof,
    };
    let shown = || Some(B64.encode([2u8; 32]));
    let mut f = facts();
    let signed = envelope("room", Some("bob"));
    assert!(!alice.counts_as_proof(&f, &signed, &request("room", shown())), "not an owner");
    f.owners = vec![fa];
    assert!(alice.counts_as_proof(&f, &signed, &request("room", shown())));
    assert!(!alice.counts_as_proof(&f, &envelope("room", None), &request("room", shown())));
    assert!(!alice.counts_as_proof(&f, &signed, &request("elsewhere", shown())));
    assert!(!alice.counts_as_proof(&f, &signed, &request("room", None)));
    assert!(!alice.counts_as_proof(&f, &signed, &RoomMessage::Mls));
}

#[test]
fn codes_are_compared_in_a_room() {
    let mut alice = app();
    let info = open_room(&mut alice);
    let mut bob = app();
    enter(&mut bob, &info);
    let (fa, fb) = (fp(&alice), fp(&bob));
    let (tx, eff) = alice.sas_start("room", &fb, NOW);
    let eff = give(&mut bob, &facts(), Some(&fa), sent(eff));
    assert_eq!(events(&eff), "SasCodeReady");
    let eff = give(&mut alice, &facts(), Some(&fb), sent(eff));
    assert_eq!(events(&eff), "SasCodeReady");
    let a = sent(alice.sas_match(&tx, NOW).unwrap());
    assert!(give(&mut bob, &facts(), Some(&fa), a).is_empty());
    let eff = bob.sas_match(&tx, NOW).unwrap();
    assert_eq!(events(&eff), "SasVerified");
    let eff = give(&mut alice, &facts(), Some(&fb), sent(eff));
    assert_eq!(events(&eff), "SasVerified");
    assert!(eff.iter().any(|e| matches!(e, Effect::MustStore(Write::VerifiedPeer { fingerprint, .. }) if *fingerprint == fb)));
    assert!(alice.sas_match(&tx, NOW).is_err());
    let (tx, _) = alice.sas_start("room", &fb, NOW);
    alice.sas_cancel(&tx);
    assert!(alice.sas_match(&tx, NOW).is_err());
}

#[test]
fn requests_to_be_a_contact() {
    let mut alice = app();
    let request = || RoomMessage::ContactRequest {
        requester_fingerprint: "bob".into(),
        display_name: Some("Bob".into()),
        note: None,
        sender_ed25519_pubkey: None,
    };
    let at = |room: &str| envelope(room, Some("bob"));
    assert!(alice.handle_room_message(&facts(), &at("room"), request()).is_empty());
    let eff = alice.handle_room_message(&facts(), &at("inbox"), request());
    assert_eq!(events(&eff), "ContactRequestReceived");
    let mut f = facts();
    f.subject_is_contact = true;
    let eff = alice.handle_room_message(&f, &at("inbox"), request());
    assert!(matches!(&eff[1], Effect::StartDirect { partner_fingerprint } if partner_fingerprint == "bob"));
    f.subject_blocked = true;
    assert!(alice.handle_room_message(&f, &at("inbox"), request()).is_empty());
    assert_eq!(request().subject(&None).as_deref(), Some("bob"));
}

#[test]
fn rooms_come_back_after_a_restart() {
    let mut alice = app();
    let plan = alice
        .start_room("room", "Room", true, Some(PASSPHRASE), RoomKind::Group, NOW)
        .unwrap();
    let info = plan.info.copy();
    alice.enter_started(plan);
    let mut rows: Vec<StoredMegolmSession> = Vec::new();
    for w in alice.take_session_writes("room") {
        if let SessionWrite::Save(row) = w {
            rows.push(row);
        }
    }
    assert!(!rows.is_empty());
    assert!(matches!(alice.restore_room(&info, &vec![]), Restore::Park));
    let mut dm = info.copy();
    dm.kind = RoomKind::Direct;
    assert!(matches!(alice.restore_room(&dm, &vec![fp(&alice), "bob".into()]), Restore::Direct(p) if p == "bob"));
    assert!(matches!(alice.restore_room(&dm, &vec![fp(&alice)]), Restore::Park));
    let mut open = info.copy();
    open.encrypted = false;
    assert!(matches!(alice.restore_room(&open, &vec![]), Restore::Open));

    let mut later = app();
    later.park_room(info.copy());
    assert!(later.discovered_rooms(NOW).iter().any(|r| r.room_id == "room" && r.restorable));
    assert_eq!(
        later.join_room("room", None, None, NOW).err().unwrap().message(),
        "encrypted room requires a passphrase"
    );
    let plan = later.join_room("room", Some(PASSPHRASE), None, NOW).unwrap();
    let eff = later.enter_joined(plan, &rows, Some((4, 77)));
    assert!(events(&eff).contains("RoomJoined"));
    assert!(later.discovered_rooms(NOW).iter().all(|r| !r.restorable));
    assert_eq!(
        later.join_room("nowhere", None, None, NOW).err().unwrap().message(),
        "room nowhere not found"
    );
}

#[test]
fn what_a_room_needs_to_begin() {
    let mut alice = app();
    assert!(alice
        .start_room("r", "R", true, None, RoomKind::Group, NOW)
        .is_err());
    assert!(alice
        .start_room("r", "R", true, Some("short"), RoomKind::Group, NOW)
        .is_err());
    open_room(&mut alice);
    assert!(matches!(
        alice.room_send_readiness("room", &vec![], false),
        SendReadiness::Connecting
    ));
    assert!(alice.room_send_readiness("room", &vec![], true).can_send());
    assert!(matches!(
        alice.room_transport("room", &vec![], true),
        RoomTransport::Relay
    ));
    let writes = alice.room_writes(
        &alice.start_room("r", "R", false, None, RoomKind::Group, NOW).unwrap(),
        "owner",
        NOW,
    );
    assert!(matches!(&writes[..], [Write::Room(_), Write::Member(m)] if m.role == "owner"));
}

#[test]
fn sessions_rotate_when_they_are_due() {
    let (mut alice, mut bob) = encrypted_pair();
    let fa = fp(&alice);
    let one = RotationPolicy::new(1, 0);
    let eff = alice.send_room_message("room", "first", &one, NOW).unwrap();
    assert!(eff.iter().any(|e| matches!(e, Effect::AnnounceMember { .. })));
    assert_eq!(events(&give(&mut bob, &facts(), None, sent(eff))), "MessageReceived");
    let msg = sent(alice.send_room_message("room", "second", &one, NOW).unwrap());
    assert!(matches!(&give(&mut bob, &facts(), None, msg)[..], [Effect::RequestKeys { .. }]));
    let announce = alice.member_announce("room", None).unwrap();
    give(&mut bob, &facts(), Some(&fa), announce);
    let msg = sent(alice.send_room_message("room", "third", &policy(), NOW).unwrap());
    assert_eq!(events(&give(&mut bob, &facts(), None, msg)), "MessageReceived");
}

#[test]
fn bytes_that_are_no_text_are_shown_with_replacements() {
    let mut bob = app();
    let plan = bob
        .start_room("room", "Room", true, Some(PASSPHRASE), RoomKind::Group, NOW)
        .unwrap();
    let salt = plan.info.passphrase_salt.clone().unwrap();
    bob.enter_started(plan);
    let key = derive_key(PASSPHRASE, &salt).unwrap();
    let mut alice = RoomCrypto::new_for_room("room".into(), "alice".into(), [0u8; 32]).unwrap();
    let announce = RoomMessage::MemberAnnounce {
        sender_fingerprint: "alice".into(),
        wrapped_session_key: Some(wrap(alice.our_session_key_b64().as_bytes(), &key).unwrap()),
        display_name: None,
        sender_ed25519_pubkey: None,
        sender_mlkem_pubkey: None,
        mlkem_ciphertext: None,
        capabilities: 6,
    };
    give(&mut bob, &facts(), Some("alice"), announce);
    assert_eq!(bob.peer_capabilities("alice"), 6);
    let (session_id, ciphertext) = alice.encrypt(&[b'h', b'i', 0xff]).unwrap();
    let msg = RoomMessage::Encrypted {
        sender_fingerprint: "alice".into(),
        session_id,
        ciphertext_b64: B64.encode(ciphertext),
        client_msg_id: None,
        reply_to: None,
    };
    let eff = give(&mut bob, &facts(), None, msg);
    assert!(matches!(eff.last(), Some(Effect::Emit(AppEvent::MessageReceived { body, .. }))
        if body == "hi\u{fffd}"));
}
