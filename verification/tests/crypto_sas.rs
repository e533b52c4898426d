//! Short codes that both sides compare.
use base64::engine::general_purpose::STANDARD as B64;
use base64::Engine;
use huddle_core::crypto::pqc::MLKEM_EK_LEN;
use huddle_core::crypto::sas::{
    derive_sas_code, new_session, parse_pubkey, sas_info, session_from, SasCode, SAS_EMOJI,
};
use sha2::{Digest, Sha256};

const SAS_INFO_PQBIND: &[u8] = b"huddle-sas-pqbind-v1";

fn fake_ek(fill: u8) -> Vec<u8> {
    vec![fill; MLKEM_EK_LEN]
}

#[test]
fn both_sides_derive_same_code() {
    let (tx_id, alice_secret, alice_pub) = new_session();
    let (_, bob_secret, bob_pub) = new_session();

    let alice_code = derive_sas_code(&alice_secret, &bob_pub, &tx_id, None, None).unwrap();
    let bob_code = derive_sas_code(&bob_secret, &alice_pub, &tx_id, None, None).unwrap();
    assert_eq!(alice_code, bob_code);
    let parts: Vec<&str> = alice_code.decimal.split('-').collect();
    assert_eq!(parts.len(), 3);
    for p in parts {
        assert_eq!(p.len(), 4);
        let n: u32 = p.parse().unwrap();
        assert!((1000..=9191).contains(&n));
    }
    for i in alice_code.emoji_indices {
        assert!((i as usize) < SAS_EMOJI.len());
    }
}

#[test]
fn different_tx_id_yields_different_code() {
    let (tx_id_a, alice_secret, _) = new_session();
    let (_, bob_secret, bob_pub) = new_session();
    let alice_code = derive_sas_code(&alice_secret, &bob_pub, &tx_id_a, None, None).unwrap();

    let mut tx_id_b = tx_id_a;
    tx_id_b[0] ^= 0xff;
    let alice_code_b = derive_sas_code(&alice_secret, &bob_pub, &tx_id_b, None, None).unwrap();
    let _ = bob_secret;
    assert_ne!(alice_code, alice_code_b);
}

#[test]
fn mitm_substitute_yields_different_code() {
    let (tx_id, alice_secret, alice_pub) = new_session();
    let (_, bob_secret, bob_pub) = new_session();
    let (_, _mallory_secret, mallory_pub) = new_session();

    let alice_thinks_bob =
        derive_sas_code(&alice_secret, &mallory_pub, &tx_id, None, None).unwrap();
    let bob_thinks_alice = derive_sas_code(&bob_secret, &mallory_pub, &tx_id, None, None).unwrap();
    assert_ne!(alice_thinks_bob, bob_thinks_alice);

    let alice_real = derive_sas_code(&alice_secret, &bob_pub, &tx_id, None, None).unwrap();
    let bob_real = derive_sas_code(&bob_secret, &alice_pub, &tx_id, None, None).unwrap();
    assert_eq!(alice_real, bob_real);
}

#[test]
fn rejects_small_order_ephemeral() {
    let (tx_id, our_secret, _) = new_session();
    let zero_pub = [0u8; 32];
    assert!(derive_sas_code(&our_secret, &zero_pub, &tx_id, None, None).is_err());
}

#[test]
fn pq_binding_changes_the_code() {
    let (tx_id, alice_secret, _) = new_session();
    let (_, _bob_secret, bob_pub) = new_session();
    let our = fake_ek(0xA4);
    let ek = fake_ek(0xA5);

    let classical = derive_sas_code(&alice_secret, &bob_pub, &tx_id, None, None).unwrap();
    let bound = derive_sas_code(&alice_secret, &bob_pub, &tx_id, Some(&our), Some(&ek)).unwrap();
    assert_ne!(
        classical, bound,
        "binding the ML-KEM ek must change the derived SAS code"
    );
}

#[test]
fn both_sides_distinct_eks_agree() {
    let (tx_id, alice_secret, alice_pub) = new_session();
    let (_, bob_secret, bob_pub) = new_session();
    let ek_a = fake_ek(0x11);
    let ek_b = fake_ek(0x22);

    let alice = derive_sas_code(&alice_secret, &bob_pub, &tx_id, Some(&ek_a), Some(&ek_b)).unwrap();
    let bob = derive_sas_code(&bob_secret, &alice_pub, &tx_id, Some(&ek_b), Some(&ek_a)).unwrap();
    assert_eq!(
        alice, bob,
        "sorted dual-ek binding must agree across peers in opposite roles"
    );
}

#[test]
fn one_side_bound_other_not_diverges() {
    let (tx_id, alice_secret, alice_pub) = new_session();
    let (_, bob_secret, bob_pub) = new_session();
    let ek_a = fake_ek(0x77);
    let ek_b = fake_ek(0x88);

    let alice_bound =
        derive_sas_code(&alice_secret, &bob_pub, &tx_id, Some(&ek_a), Some(&ek_b)).unwrap();
    let bob_stripped = derive_sas_code(&bob_secret, &alice_pub, &tx_id, Some(&ek_b), None).unwrap();
    assert_ne!(
        alice_bound, bob_stripped,
        "a stripped (classical) side must not match a bound side"
    );
}

#[test]
fn different_ek_yields_different_code() {
    let (tx_id, secret, _) = new_session();
    let (_, _b, peer_pub) = new_session();
    let our = fake_ek(0x00);
    let a = derive_sas_code(&secret, &peer_pub, &tx_id, Some(&our), Some(&fake_ek(0x01))).unwrap();
    let b = derive_sas_code(&secret, &peer_pub, &tx_id, Some(&our), Some(&fake_ek(0x02))).unwrap();
    assert_ne!(a, b, "different bound eks must yield different codes");
}

#[test]
fn pqbind_is_order_independent() {
    let ek_a = fake_ek(0x33);
    let ek_b = fake_ek(0x44);
    assert_eq!(
        sas_info(Some(&ek_a), Some(&ek_b)),
        sas_info(Some(&ek_b), Some(&ek_a)),
        "dual-ek binding must be order-independent"
    );
}

#[test]
fn classical_none_path_is_unchanged_golden() {
    assert_eq!(sas_info(None, None), b"huddle-sas-v1".to_vec());
    assert_eq!(
        sas_info(Some(&fake_ek(0x01)), None),
        b"huddle-sas-v1".to_vec(),
        "PQ-capable self + classical partner must stay on the 1.x transcript"
    );
    let ek_a = fake_ek(0x5C);
    let ek_b = fake_ek(0x6D);
    let info = sas_info(Some(&ek_a), Some(&ek_b));
    assert_eq!(info.len(), SAS_INFO_PQBIND.len() + 32);
    assert!(info.starts_with(SAS_INFO_PQBIND));
    let mut sorted = [ek_a.as_slice(), ek_b.as_slice()];
    sorted.sort_unstable();
    let mut h = Sha256::new();
    for e in sorted {
        h.update(e);
    }
    assert_eq!(&info[SAS_INFO_PQBIND.len()..], &h.finalize()[..]);
}

#[test]
fn pubkey_round_trip() {
    let (_, _, pub_) = new_session();
    let encoded = B64.encode(pub_);
    let decoded = parse_pubkey(&encoded).unwrap();
    assert_eq!(decoded, pub_);
}

#[test]
fn what_is_no_public_key() {
    assert!(parse_pubkey("!").unwrap_err().message().starts_with("session error: bad x25519 pubkey b64: "));
    assert_eq!(
        parse_pubkey(&B64.encode([1u8; 31])).unwrap_err().message(),
        "session error: x25519 pubkey is 31 bytes, expected 32"
    );
}

#[test]
fn a_code_in_words_and_symbols() {
    let code = SasCode {
        emoji_indices: [0, 1, 2, 3, 4, 5, 48],
        decimal: "1000-2000-3000".into(),
    };
    let labels: Vec<&str> = vec![0usize, 1, 2, 3, 4, 5, 48]
        .into_iter()
        .map(|i| SAS_EMOJI[i].1)
        .collect();
    assert_eq!(code.emoji_labels(), labels.join(" / "));
    assert_eq!(code.emoji_string().split(' ').count(), 7);
    assert!(code.emoji_string().starts_with(SAS_EMOJI[0].0));
}

#[test]
fn a_session_of_given_bytes() {
    let (tx, secret, public) = session_from([7u8; 16], [9u8; 32]);
    assert_eq!(tx, [7u8; 16]);
    assert_eq!(secret, [9u8; 32]);
    let expected = x25519_dalek::PublicKey::from(&x25519_dalek::StaticSecret::from([9u8; 32]));
    assert_eq!(&public, expected.as_bytes());
}
