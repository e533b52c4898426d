//! Names, codes and addresses.
use huddle_core::app::addresses::{address_preference, parse_dial_address};
use huddle_core::app::dm_key::{plan_dm_key, DmKeyAction};
use huddle_core::app::ids::{
    canonical_dm_room_id, ct_eq_32, expand_tilde_with, fingerprint_from_phrase,
    generate_alphanumeric_code, generate_join_passphrase, import_identity_from_phrase,
    msg_id_from, new_client_msg_id, normalize_connect_code, normalize_to_fingerprint, salt_len,
    short_fp_for_msg, validate_passphrase_len,
};
use huddle_core::app::mention::mentions_peer;
use huddle_core::clock::{now_unix, now_unix_ms, unix_milliseconds, unix_seconds};
use huddle_core::crypto::mnemonic::seed_to_phrase;
use huddle_core::identity::Identity;
use sha2::{Digest, Sha256};

#[test]
fn tilde_expansion_matches_posix_basics() {
    let home = Some("/home/alice");
    assert_eq!(expand_tilde_with("~", home), "/home/alice");
    assert_eq!(
        expand_tilde_with("~/docs/f.txt", home),
        "/home/alice/docs/f.txt"
    );
    assert_eq!(expand_tilde_with("/etc/hosts", home), "/etc/hosts");
    assert_eq!(expand_tilde_with("rel/f", home), "rel/f");
    assert_eq!(expand_tilde_with("~bob/f", home), "~bob/f");
    assert_eq!(expand_tilde_with("~/f", None), "~/f");
}

#[test]
fn tilde_joins_paths_as_paths() {
    assert_eq!(expand_tilde_with("~//abs", Some("/home/a")), "/home/a//abs");
    assert_eq!(
        expand_tilde_with("~//etc/hosts", Some("/home/alice")),
        "/home/alice//etc/hosts"
    );
    assert_eq!(expand_tilde_with("~/f", Some("/")), "/f");
    assert_eq!(expand_tilde_with("~/", Some("/home/a")), "/home/a/");
}

#[test]
fn client_msg_id_is_uuid_v4_shaped_and_unique() {
    let a = new_client_msg_id();
    let b = new_client_msg_id();
    assert_ne!(a, b, "two minted ids must differ");
    let parts: Vec<&str> = a.split('-').collect();
    assert_eq!(parts.len(), 5);
    assert_eq!(
        parts.iter().map(|p| p.len()).collect::<Vec<_>>(),
        vec![8, 4, 4, 4, 12]
    );
    assert!(a.chars().all(|c| c == '-' || c.is_ascii_hexdigit()));
    assert_eq!(&parts[2][..1], "4");
    assert!(matches!(&parts[3][..1], "8" | "9" | "a" | "b"));
}

#[test]
fn msg_id_of_given_bytes() {
    assert_eq!(
        msg_id_from([0xff; 16]),
        "ffffffff-ffff-4fff-bfff-ffffffffffff"
    );
    assert_eq!(
        msg_id_from([0; 16]),
        "00000000-0000-4000-8000-000000000000"
    );
}

#[test]
fn fingerprint_from_phrase_matches_identity_and_import_round_trips() {
    let id = Identity::generate().unwrap();
    let phrase = seed_to_phrase(&id.seed());
    assert_eq!(fingerprint_from_phrase(&phrase).unwrap(), id.fingerprint());
    let restored = import_identity_from_phrase(&phrase).unwrap();
    assert_eq!(restored.fingerprint(), id.fingerprint());
    assert_eq!(restored.mlkem_public_bytes(), id.mlkem_public_bytes());
}

#[test]
fn fingerprint_from_phrase_rejects_garbage() {
    assert!(fingerprint_from_phrase("not a valid bip39 phrase at all").is_err());
}

#[test]
fn settled_hybrid_is_never_touched() {
    for &pq in &[true, false] {
        for &init in &[true, false] {
            for &ct in &[true, false] {
                assert_eq!(
                    plan_dm_key(true, true, pq, init, ct),
                    DmKeyAction::Noop,
                    "settled hybrid must stay Noop (pq={pq}, init={init}, ct={ct})"
                );
            }
        }
    }
}

#[test]
fn pq_capable_partner_never_yields_classical() {
    for &keyed in &[true, false] {
        for &init in &[true, false] {
            for &ct in &[true, false] {
                let a = plan_dm_key(keyed, false, true, init, ct);
                assert_ne!(a, DmKeyAction::Classical, "PQ peer must not go classical");
                assert_ne!(
                    a,
                    DmKeyAction::Noop,
                    "PQ peer must act (derive/upgrade/request)"
                );
            }
        }
    }
}

#[test]
fn fresh_pq_handshake_roles() {
    assert_eq!(
        plan_dm_key(false, false, true, true, false),
        DmKeyAction::HybridInitiator,
        "initiator encapsulates even without a ciphertext"
    );
    assert_eq!(
        plan_dm_key(false, false, true, false, true),
        DmKeyAction::HybridResponder,
        "responder with the ciphertext decapsulates"
    );
    assert_eq!(
        plan_dm_key(false, false, true, false, false),
        DmKeyAction::RequestCiphertext,
        "responder without the ciphertext asks for it"
    );
}

#[test]
fn classical_locked_upgrades_when_partner_is_pq() {
    assert_eq!(
        plan_dm_key(true, false, true, true, false),
        DmKeyAction::HybridInitiator,
        "classical-locked initiator upgrades"
    );
    assert_eq!(
        plan_dm_key(true, false, true, false, true),
        DmKeyAction::HybridResponder,
        "classical-locked responder upgrades once it has the ciphertext"
    );
    assert_eq!(
        plan_dm_key(true, false, true, false, false),
        DmKeyAction::RequestCiphertext,
        "classical-locked responder asks for the ciphertext to upgrade"
    );
}

#[test]
fn genuine_pre_1_3_peer_uses_classical_once_then_settles() {
    assert_eq!(
        plan_dm_key(false, false, false, true, false),
        DmKeyAction::Classical,
        "non-PQ partner, not keyed → classical"
    );
    assert_eq!(
        plan_dm_key(false, false, false, false, false),
        DmKeyAction::Classical
    );
    assert_eq!(
        plan_dm_key(true, false, false, true, false),
        DmKeyAction::Noop,
        "non-PQ partner already classical-keyed → no-op (no rederivation)"
    );
}

#[test]
fn parses_ipv4_port() {
    let m = parse_dial_address("10.3.72.53:9027").unwrap();
    assert_eq!(m.to_string(), "/ip4/10.3.72.53/tcp/9027");
}

#[test]
fn parses_bracketed_ipv6() {
    let m = parse_dial_address("[::1]:9027").unwrap();
    assert_eq!(m.to_string(), "/ip6/::1/tcp/9027");
}

#[test]
fn rejects_unbracketed_ipv6() {
    let err = parse_dial_address("fe80::1:9027").unwrap_err();
    assert!(err.message().contains("brackets"));
}

#[test]
fn passes_through_raw_multiaddr() {
    let m = parse_dial_address("/ip4/1.2.3.4/tcp/9000").unwrap();
    assert_eq!(m.to_string(), "/ip4/1.2.3.4/tcp/9000");
}

#[test]
fn empty_address_is_error() {
    assert!(parse_dial_address("   ").is_err());
}

#[test]
fn rejects_bad_port() {
    assert!(parse_dial_address("1.2.3.4:notaport").is_err());
}

#[test]
fn every_fault_of_an_address_is_named() {
    let words = |s: &str| parse_dial_address(s).unwrap_err().message();
    assert_eq!(words(""), "address is empty");
    assert_eq!(words("1.2.3.4"), "expected ip:port, got 1.2.3.4");
    assert_eq!(words("[::1"), "expected [ipv6]:port, got [::1");
    assert_eq!(words("[::1]:x"), "invalid port: x");
    assert_eq!(words("1.2.3.4:65536"), "invalid port: 65536");
    assert!(words("/nonsense/1").starts_with("invalid multiaddr: "));
    assert!(words("[zz]:1").starts_with("invalid ipv6 address: "));
    assert!(words("host:1").starts_with("invalid address: "));
    assert_eq!(
        parse_dial_address(" 1.2.3.4:+080 ").unwrap(),
        "/ip4/1.2.3.4/tcp/80"
    );
}

#[test]
fn lan_beats_public_beats_circuit() {
    let lan = address_preference("/ip4/192.168.1.5/tcp/9027");
    let pub_v4 = address_preference("/ip4/8.8.8.8/tcp/9027");
    let circuit =
        address_preference("/ip4/1.2.3.4/tcp/4001/p2p/12D3Koo/p2p-circuit/p2p/12D3KooXYZ");
    assert!(lan < pub_v4, "LAN {} should beat public {}", lan, pub_v4);
    assert!(
        pub_v4 < circuit,
        "public {} should beat circuit {}",
        pub_v4,
        circuit
    );
}

#[test]
fn all_rfc1918_ranges_are_lan() {
    assert_eq!(
        address_preference("/ip4/10.0.0.1/tcp/9027"),
        address_preference("/ip4/192.168.0.1/tcp/9027"),
    );
    assert_eq!(
        address_preference("/ip4/172.16.0.1/tcp/9027"),
        address_preference("/ip4/192.168.0.1/tcp/9027"),
    );
    assert!(
        address_preference("/ip4/172.32.0.1/tcp/9027")
            > address_preference("/ip4/172.16.0.1/tcp/9027")
    );
}

#[test]
fn every_rank_of_an_address() {
    assert_eq!(address_preference("/ip4/127.0.0.1/tcp/1"), 1);
    assert_eq!(address_preference("/ip4/169.254.3.4/tcp/1"), 0);
    assert_eq!(address_preference("/ip4/300.1.1.1/tcp/1"), 3);
    assert_eq!(address_preference("/ip4/010.0.0.1/tcp/1"), 3);
    assert_eq!(address_preference("/ip4/10.0.0/tcp/1"), 3);
    assert_eq!(address_preference("/ip6/::1/tcp/1"), 4);
    assert_eq!(address_preference("/dns4/example.com/tcp/1"), 5);
    assert_eq!(address_preference("/dnsaddr/example.com"), 5);
    assert_eq!(address_preference("elsewhere"), 7);
    assert_eq!(address_preference("/ip6/::1/p2p-circuit"), 9);
}

#[test]
fn normalize_id_accepts_branded_and_raw() {
    let canon = "aaaa-bbbb-cccc-dddd-eeee-ffff";
    assert_eq!(
        normalize_to_fingerprint("HD-AAAA-BBBB-CCCC-DDDD-EEEE-FFFF").as_deref(),
        Some(canon)
    );
    assert_eq!(
        normalize_to_fingerprint("aaaabbbbccccddddeeeeffff").as_deref(),
        Some(canon)
    );
    assert_eq!(normalize_to_fingerprint(canon).as_deref(), Some(canon));
    assert!(normalize_to_fingerprint("alice").is_none());
    assert!(normalize_to_fingerprint("HD-ZZZZ").is_none());
}

#[test]
fn dm_room_id_is_commutative() {
    let a = "aaaa-bbbb-cccc-dddd-eeee-ffff";
    let b = "1111-2222-3333-4444-5555-6666";
    assert_eq!(canonical_dm_room_id(a, b), canonical_dm_room_id(b, a));
}

#[test]
fn dm_room_id_differs_per_pair() {
    let a = "aaaa-bbbb-cccc-dddd-eeee-ffff";
    let b = "1111-2222-3333-4444-5555-6666";
    let c = "9999-8888-7777-6666-5555-4444";
    assert_ne!(canonical_dm_room_id(a, b), canonical_dm_room_id(a, c));
    assert_ne!(canonical_dm_room_id(a, b), canonical_dm_room_id(b, c));
}

#[test]
fn dm_room_id_is_stable() {
    let a = "aaaa-bbbb-cccc-dddd-eeee-ffff";
    let b = "1111-2222-3333-4444-5555-6666";
    let id1 = canonical_dm_room_id(a, b);
    let id2 = canonical_dm_room_id(a, b);
    assert_eq!(id1, id2);
    assert_eq!(id1.len(), 32);
    let digest = Sha256::digest(
        b"huddle-dm-v1\x001111-2222-3333-4444-5555-6666\x00aaaa-bbbb-cccc-dddd-eeee-ffff",
    );
    assert_eq!(id1, hex::encode(&digest[..16]));
}

#[test]
fn connect_codes_as_users_type_them() {
    assert_eq!(
        normalize_connect_code(" abcd-2345 ").as_deref(),
        Some("ABCD2345")
    );
    assert_eq!(normalize_connect_code("abcd 2345").as_deref(), Some("ABCD2345"));
    assert!(normalize_connect_code("abcd-234").is_none());
    assert!(normalize_connect_code("abcd-234I").is_none());
    assert!(normalize_connect_code("abcd-234é").is_none());
}

#[test]
fn short_names_of_peers() {
    assert_eq!(short_fp_for_msg("ab12-cd34-0000"), "HD-AB12…");
    assert_eq!(short_fp_for_msg("a-b"), "HD-AB…");
}

#[test]
fn keys_are_compared_whole() {
    let a = [5u8; 32];
    let mut b = a;
    assert!(ct_eq_32(&a, &b));
    b[31] = 6;
    assert!(!ct_eq_32(&a, &b));
}

#[test]
fn passphrases_have_a_least_length() {
    assert_eq!(
        validate_passphrase_len("1234567").unwrap_err().message(),
        "passphrase must be at least 8 characters"
    );
    assert!(validate_passphrase_len("12345678").is_ok());
    assert!(validate_passphrase_len("éééééééé").is_ok());
    assert_eq!(salt_len(), 16);
}

#[test]
fn generated_codes_and_passphrases() {
    let code = generate_alphanumeric_code(8);
    assert_eq!(code.len(), 9);
    assert_eq!(code.as_bytes()[4], b'-');
    let alphabet = "ABCDEFGHJKMNPQRSTUVWXYZ23456789";
    assert!(code.chars().all(|c| c == '-' || alphabet.contains(c)));
    let long = generate_alphanumeric_code(400);
    assert_eq!(long.len(), 400);
    assert!(long.chars().all(|c| alphabet.contains(c)));
    for c in alphabet.chars() {
        assert!(
            generate_alphanumeric_code(2000).contains(c),
            "every character is drawn now and then"
        );
    }
    let p = generate_join_passphrase();
    assert_eq!(p.len(), 24);
    assert_ne!(p, generate_join_passphrase());
    assert!(p.chars().all(|c| c.is_ascii_alphanumeric() || c == '-' || c == '_'));
}

#[test]
fn no_text_is_both_a_code_and_an_id() {
    let id = "a3b1-c2d4-0000-1111-2222-3333";
    assert_eq!(normalize_to_fingerprint(id).as_deref(), Some(id));
    assert!(normalize_connect_code(id).is_none());
    assert!(normalize_connect_code("HD-a3b1c2d4000011112222333").is_none());
    assert!(normalize_connect_code("abcd-2345").is_some());
    assert!(normalize_to_fingerprint("abcd-2345").is_none());
}

#[test]
fn mentions_by_full_and_short_id() {
    let fp = "a3b1-c2d4-0000-1111-2222-3333";
    assert!(mentions_peer("hi A3B1-C2D4-0000-1111-2222-3333!", fp));
    assert!(mentions_peer("hey HD-A3b1c2d4 there", fp));
    assert!(mentions_peer("a3b1c2d4", fp));
    assert!(!mentions_peer("fa3b1c2d4", fp));
    assert!(!mentions_peer("a3b1c2d4e", fp));
    assert!(!mentions_peer("a3b1", fp));
    assert!(!mentions_peer("a3b1-c2d4", fp));
    assert!(mentions_peer("hey HD-A3B1-C2D4!", fp));
    assert!(!mentions_peer("hey HD-A3B1-C2D5!", fp));
}

#[test]
fn addresses_are_written_in_one_way() {
    assert_eq!(
        parse_dial_address("/ip6/0:0:0:0:0:0:0:1/tcp/080").unwrap(),
        "/ip6/::1/tcp/80"
    );
    assert_eq!(
        parse_dial_address("[2001:DB8::0:1]:443").unwrap(),
        "/ip6/2001:db8::1/tcp/443"
    );
}

#[test]
fn the_clock_goes_by_the_epoch() {
    assert!(now_unix() > 1_600_000_000);
    assert!(now_unix_ms() / 1000 - now_unix() <= 1);
    assert_eq!(unix_seconds(Some((5, 999))), 5);
    assert_eq!(unix_milliseconds(Some((5, 999))), 5999);
    assert_eq!(unix_seconds(None), 0);
    assert_eq!(unix_milliseconds(Some((u64::MAX, 0))), i64::MAX);
}
