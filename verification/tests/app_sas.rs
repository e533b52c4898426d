//! Verifications by a short code.
use base64::engine::general_purpose::STANDARD as B64;
use base64::Engine;
use huddle_core::app::events::AppEvent;
use huddle_core::app::messages::RoomMessage;
use huddle_core::app::sas_actor::{
    SasActor, SasError, SasOutcome, SAS_FLOWS_PER_PEER, SAS_FLOW_TTL_SECS,
};
use huddle_core::crypto::sas::{new_session, TX_ID_LEN};
use huddle_core::identity::Identity;

fn actor_for(id: &Identity) -> SasActor {
    SasActor::new(id.fingerprint().to_string(), id.mlkem_public_bytes())
}

fn expect_publish(out: &[SasOutcome]) -> &RoomMessage {
    out.iter()
        .find_map(|o| match o {
            SasOutcome::Publish { msg, .. } => Some(msg),
            _ => None,
        })
        .expect("expected a Publish outcome")
}

fn expect_code_ready(out: &[SasOutcome]) -> String {
    out.iter()
        .find_map(|o| match o {
            SasOutcome::Emit(AppEvent::SasCodeReady { decimal, .. }) => Some(decimal.clone()),
            _ => None,
        })
        .expect("expected a SasCodeReady event")
}

fn has_finalize(out: &[SasOutcome]) -> bool {
    out.iter().any(|o| matches!(o, SasOutcome::Finalize { .. }))
}

#[test]
fn full_handshake_converges_to_matching_codes_and_finalizes() {
    let alice = Identity::generate().unwrap();
    let bob = Identity::generate().unwrap();
    let mut a = actor_for(&alice);
    let mut b = actor_for(&bob);

    let (tx, out) = a.start("room", bob.fingerprint(), 0);
    let init = expect_publish(&out);
    let (init_tx, init_pub, init_target) = match init {
        RoomMessage::SasInit {
            tx_id,
            ephemeral_x25519_pubkey_b64,
            target_fingerprint,
        } => (tx_id, ephemeral_x25519_pubkey_b64, target_fingerprint),
        _ => panic!("expected SasInit"),
    };
    assert_eq!(init_tx, &tx);
    assert_eq!(init_target, bob.fingerprint());

    let bob_out = b.inbound_init(
        "room",
        init_tx.clone(),
        init_pub,
        init_target,
        Some(alice.fingerprint().to_string()),
        0,
        None,
    );
    let resp = expect_publish(&bob_out);
    let (resp_pub,) = match resp {
        RoomMessage::SasResponse {
            ephemeral_x25519_pubkey_b64,
            ..
        } => (ephemeral_x25519_pubkey_b64,),
        _ => panic!("expected SasResponse"),
    };
    let bob_code = expect_code_ready(&bob_out);

    let alice_out = a.inbound_response(
        "room",
        tx.clone(),
        resp_pub,
        Some(bob.fingerprint().to_string()),
        0,
        None,
    );
    let alice_code = expect_code_ready(&alice_out);
    assert_eq!(
        alice_code, bob_code,
        "both sides must derive the same SAS code"
    );

    let a_match = a.user_match(&tx, 0).unwrap();
    assert!(
        !has_finalize(&a_match),
        "alice can't finalize before bob confirms"
    );
    let _ = b.inbound_confirm(&tx, true, Some(alice.fingerprint().to_string()));
    let b_match = b.user_match(&tx, 0).unwrap();
    assert!(has_finalize(&b_match), "bob finalizes once both confirmed");
    let a_final = a.inbound_confirm(&tx, true, Some(bob.fingerprint().to_string()));
    assert!(has_finalize(&a_final), "alice finalizes on bob's confirm");
    assert!(matches!(a.user_match(&tx, 0), Err(SasError::UnknownTx)));
}

#[test]
fn match_before_code_is_refused() {
    let alice = Identity::generate().unwrap();
    let mut a = actor_for(&alice);
    let bob = Identity::generate().unwrap();
    let (tx, _) = a.start("room", bob.fingerprint(), 0);
    assert!(matches!(a.user_match(&tx, 0), Err(SasError::CodeNotReady)));
}

#[test]
fn unknown_tx_match_errors() {
    let mut a = actor_for(&Identity::generate().unwrap());
    assert!(matches!(a.user_match("nope", 0), Err(SasError::UnknownTx)));
}

#[test]
fn init_not_addressed_to_us_is_ignored() {
    let me = Identity::generate().unwrap();
    let mut a = actor_for(&me);
    let out = a.inbound_init(
        "room",
        B64.encode([1u8; TX_ID_LEN]),
        &B64.encode([2u8; 32]),
        "someone-else",
        Some("signer".into()),
        0,
        None,
    );
    assert!(out.is_empty());
}

#[test]
fn reap_drops_stale_flows() {
    let mut a = actor_for(&Identity::generate().unwrap());
    let (tx, _) = a.start("room", "partner", 0);
    a.reap(SAS_FLOW_TTL_SECS);
    assert!(a.user_match(&tx, 0).is_err());
    assert!(matches!(a.user_match(&tx, 0), Err(SasError::CodeNotReady)));
    a.reap(SAS_FLOW_TTL_SECS + 1);
    assert!(matches!(a.user_match(&tx, 0), Err(SasError::UnknownTx)));
}

#[test]
fn a_peer_cannot_begin_too_many() {
    let me = Identity::generate().unwrap();
    let mut a = actor_for(&me);
    let (_, _, public) = new_session();
    let mut taken = 0;
    for i in 0..20u8 {
        let out = a.inbound_init(
            "room",
            B64.encode([i; TX_ID_LEN]),
            &B64.encode(public),
            me.fingerprint(),
            Some("peer".into()),
            0,
            None,
        );
        taken += out.len() / 2;
    }
    assert_eq!(taken, SAS_FLOWS_PER_PEER);
}

#[test]
fn unsigned_and_malformed_steps_do_nothing() {
    let me = Identity::generate().unwrap();
    let mut a = actor_for(&me);
    let (_, _, public) = new_session();
    let key = B64.encode(public);
    let tx = B64.encode([3u8; TX_ID_LEN]);
    let fp = me.fingerprint().to_string();
    let signer = || Some("peer".to_string());
    assert!(a.inbound_init("room", tx.clone(), &key, &fp, None, 0, None).is_empty());
    assert!(a.inbound_init("room", tx.clone(), "!", &fp, signer(), 0, None).is_empty());
    assert!(a.inbound_init("room", "AAAA".into(), &key, &fp, signer(), 0, None).is_empty());
    let zero = B64.encode([0u8; 32]);
    assert!(a.inbound_init("room", tx.clone(), &zero, &fp, signer(), 0, None).is_empty());
    assert!(a.inbound_response("room", tx.clone(), &key, signer(), 0, None).is_empty());
    assert_eq!(a.inbound_init("room", tx.clone(), &key, &fp, signer(), 0, None).len(), 2);
    assert!(a.inbound_response("room", tx.clone(), &key, Some("other".into()), 0, None).is_empty());
    assert!(a.inbound_confirm(&tx, true, Some("other".into())).is_empty());
    assert!(a.inbound_confirm(&tx, true, None).is_empty());
    assert!(a.inbound_confirm(&tx, false, signer()).is_empty());
    assert!(matches!(a.user_match(&tx, 0), Err(SasError::UnknownTx)));
    let (tx2, _) = a.start("room", "peer", 0);
    a.cancel(&tx2);
    assert!(matches!(a.user_match(&tx2, 0), Err(SasError::UnknownTx)));
}
