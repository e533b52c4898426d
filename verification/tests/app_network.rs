//! Peers, contacts, the lobby, settings and the account.
use huddle_core::app::account::{is_account_file, ACCOUNT_FILES};
use huddle_core::app::contacts::{ContactFacts, InviteRoom};
use huddle_core::app::effects::{Effect, Write};
use huddle_core::app::events::{AppEvent, RoomKind};
use huddle_core::app::messages::{RoomAnnouncement, RoomMessage};
use huddle_core::app::network::{
    NetworkEvent, PeerFacts, HOST_ADDR_DIAL_BACKOFF_SECS, MAX_DISCOVERED_ROOMS,
    PROFILE_REBROADCAST_FLOOR_MS,
};
use huddle_core::app::relay_link::{LinkAction, LinkEvent, RelayLink};
use huddle_core::app::records::{Contact, KnownPeer, PendingFriendRequest, StoredRoom};
use huddle_core::app::settings::Settings;
use huddle_core::app::ticker::{
    reconnect, reconnect_delay_ms, RelayBackoff, DISCOVERED_TTL_SECS, DM_KEY_RETRY_MAX,
};
use huddle_core::app::transport::{resolved_order, unless_blank};
use huddle_core::app::{
    canonical_dm_room_id, AppHandle, RoomTransport, SendReadiness, TransportConfig,
    DEFAULT_CLEARNET_URL, DEFAULT_TOR_SOCKS,
};
use huddle_core::crypto::megolm::RotationPolicy;
use huddle_core::crypto::mnemonic::seed_to_phrase;
use huddle_core::identity::Identity;

const NOW: i64 = 1_000_000;

fn app() -> AppHandle {
    with_key([3u8; 32])
}

fn with_key(key: [u8; 32]) -> AppHandle {
    AppHandle::new(
        Identity::generate().unwrap(),
        "/data",
        key,
        vec!["a".into(), "b".into()],
        false,
        0b101,
    )
}

fn fp(a: &AppHandle) -> String {
    a.fingerprint().to_string()
}

fn peer_facts() -> PeerFacts {
    PeerFacts {
        blocked: false,
        trusted: false,
        verified: false,
        verified_only_inbound: false,
    }
}

fn told(a: &mut AppHandle, f: &PeerFacts, name: Option<&str>, e: NetworkEvent) -> Vec<Effect> {
    let name = name.map(|n| n.to_string());
    a.process_network_event(f, &name, e, NOW, NOW * 1000)
}

fn announcement(room: &str, creator: &str, kind: RoomKind) -> RoomAnnouncement {
    RoomAnnouncement {
        room_id: room.into(),
        name: room.to_uppercase(),
        encrypted: false,
        passphrase_salt: None,
        member_count: 2,
        creator_fingerprint: creator.into(),
        announced_at: NOW,
        owner_fingerprints: vec![],
        verified_only: false,
        host_addrs: vec![],
        kind,
        capabilities: 0,
    }
}

fn known(address: &str, fingerprint: Option<&str>) -> KnownPeer {
    KnownPeer {
        address: address.into(),
        label: None,
        last_connected_at: None,
        last_attempt_at: None,
        created_at: 0,
        fingerprint: fingerprint.map(|s| s.to_string()),
        trusted: false,
    }
}

fn shown(e: &[Effect]) -> String {
    format!("{e:?}")
}

#[test]
fn plain_events_are_passed_on() {
    let mut a = app();
    let e = told(&mut a, &peer_facts(), None, NetworkEvent::PeerDiscovered { peer_id: "p".into() });
    assert_eq!(shown(&e), "[Emit(PeerDiscovered { peer_id: \"p\" })]");
    let e = told(&mut a, &peer_facts(), None, NetworkEvent::ListeningOn { address: "/x".into() });
    assert_eq!(shown(&e), "[Emit(ListeningOn { address: \"/x\" })]");
    let e = told(
        &mut a,
        &peer_facts(),
        None,
        NetworkEvent::DialFailed { address: "/x".into(), error: "no".into() },
    );
    assert_eq!(shown(&e), "[Emit(DialFailed { address: \"/x\", error: \"no\" })]");
    let e = told(
        &mut a,
        &peer_facts(),
        None,
        NetworkEvent::DcutrUpgrade { remote_peer: "0123456789".into(), success: true },
    );
    assert_eq!(shown(&e), "[Emit(DcutrSucceeded { peer_label: \"23456789\" })]");
    assert!(AppHandle::dcutr_upgrade("x", false).is_empty());
    let e = told(
        &mut a,
        &peer_facts(),
        None,
        NetworkEvent::RelayReservationEstablished { address: "/relay".into() },
    );
    assert_eq!(shown(&e), "[Emit(ListeningOn { address: \"/relay\" })]");
    assert_eq!(a.dialable_addrs(), vec!["/relay".to_string()]);
}

#[test]
fn a_dialed_peer_becomes_trusted_and_gets_a_chat() {
    let mut a = app();
    let e = a.dial("1.2.3.4:9000", NOW).unwrap();
    assert!(shown(&e).contains("/ip4/1.2.3.4/tcp/9000"));
    assert!(a.dial("nonsense", NOW).is_err());
    let address = "/ip4/1.2.3.4/tcp/9000".to_string();
    let e = told(
        &mut a,
        &peer_facts(),
        None,
        NetworkEvent::DialSucceeded { peer_id: "p".into(), address: address.clone() },
    );
    assert_eq!(e.len(), 2);
    let peers = a.known_peers(&vec![known(&address, None), known("/other", None)]);
    assert_eq!(peers[0].connected_peer_id.as_deref(), Some("p"));
    assert!(peers[1].connected_peer_id.is_none());
    let identified = || NetworkEvent::PeerIdentified { peer_id: "p".into(), fingerprint: "bob".into() };
    let e = told(&mut a, &peer_facts(), None, identified());
    assert!(matches!(&e[0], Effect::Store(Write::KnownPeer(k)) if k.trusted && k.fingerprint.as_deref() == Some("bob")));
    let room = canonical_dm_room_id(&fp(&a), "bob");
    assert!(matches!(&e[1], Effect::StartDirectThen(p, AppEvent::AutoOpenDm { room_id, .. }, None) if p == "bob" && *room_id == room));
    let e = told(&mut a, &peer_facts(), None, identified());
    assert_eq!(e.len(), 1, "the chat is opened once");
    let e = told(&mut a, &peer_facts(), None, NetworkEvent::PeerDisconnected { peer_id: "p".into() });
    assert_eq!(shown(&e), "[Emit(PeerExpired { peer_id: \"p\" })]");
    assert!(a.known_peers(&vec![known(&address, None)])[0].connected_peer_id.is_none());
}

#[test]
fn an_invite_names_the_peer_it_leads_to() {
    let mut a = app();
    let address = "/ip4/1.2.3.4/tcp/9000";
    let e = a.dial_invite(address, "bob", NOW).unwrap();
    assert!(shown(&e).contains(address));
    a.dial_succeeded(address, "p", NOW);
    let e = a.peer_identified(&peer_facts(), &None, "p", "mallory", NOW, 0);
    assert!(matches!(&e[..], [Effect::Disconnect { .. }, Effect::Emit(AppEvent::InviteFingerprintMismatch { claimed, actual, .. })]
        if claimed == "bob" && actual == "mallory"));
    let e = a.peer_identified(&peer_facts(), &None, "p", "mallory", NOW, 0);
    assert!(matches!(&e[0], Effect::Store(_)));
    assert!(a.dial_invite("nonsense", "bob", NOW).is_err());
}

#[test]
fn our_name_is_told_now_and_then() {
    let mut a = app();
    let plan = a.start_room("room", "R", false, None, RoomKind::Group, NOW).unwrap();
    a.enter_started(plan);
    let name = Some("Alice".to_string());
    let e = a.peer_identified(&peer_facts(), &name, "p", "bob", NOW, 5_000_000);
    assert!(matches!(&e[..], [Effect::PublishSigned { room_id, message: RoomMessage::ProfileUpdate { .. } }] if room_id == "room"));
    let e = a.peer_identified(&peer_facts(), &name, "p", "bob", NOW, 5_000_001);
    assert!(e.is_empty());
    let later = 5_000_000 + PROFILE_REBROADCAST_FLOOR_MS;
    let e = a.peer_identified(&peer_facts(), &name, "p", "bob", NOW, later);
    assert_eq!(e.len(), 1);
}

#[test]
fn who_may_connect() {
    let mut a = app();
    let inbound = || NetworkEvent::InboundDial {
        peer_id: "p".into(),
        fingerprint: "bob".into(),
        address: "/x".into(),
    };
    let mut f = peer_facts();
    let e = told(&mut a, &f, None, inbound());
    assert_eq!(
        shown(&e),
        "[Store(Journal { kind: \"inbound_dial\", detail: \"peer=p fp=\\\"bob\\\" addr=/x\", at: 1000000 }), \
         Emit(InboundDial { peer_id: \"p\", fingerprint: \"bob\", address: \"/x\" })]"
    );
    f.verified_only_inbound = true;
    let e = told(&mut a, &f, None, inbound());
    assert_eq!(shown(&e), "[RejectInbound { peer_id: \"p\" }]");
    f.verified = true;
    assert_eq!(told(&mut a, &f, None, inbound()).len(), 2);
    f.trusted = true;
    let e = told(&mut a, &f, None, inbound());
    assert!(matches!(&e[1], Effect::AcceptInbound { .. }));
    f.blocked = true;
    let e = told(&mut a, &f, None, inbound());
    assert_eq!(shown(&e), "[RejectInbound { peer_id: \"p\" }]");
    assert!(shown(&a.accept_inbound("p", "/x")).contains("AcceptInbound"));
    assert!(shown(&AppHandle::reject_inbound("p", "bob", NOW)).contains("RejectInbound"));
    assert!(shown(&a.trust_inbound("p", "bob", "/x", None, NOW)).contains("trusted: true"));
}

#[test]
fn reachability_changes_are_told() {
    let mut a = app();
    let probe = |x: &str, ok: bool| NetworkEvent::NatProbeResult { tested_addr: x.into(), reachable: ok };
    let e = told(&mut a, &peer_facts(), None, probe("/x", true));
    assert_eq!(shown(&e), "[Emit(NatStatusChanged { label: \"reachable\", reachable: true })]");
    assert!(told(&mut a, &peer_facts(), None, probe("/y", true)).is_empty());
    assert_eq!(a.nat_reachable_addrs(), vec!["/x".to_string(), "/y".to_string()]);
    assert!(told(&mut a, &peer_facts(), None, probe("/x", false)).is_empty());
    let e = told(&mut a, &peer_facts(), None, probe("/y", false));
    assert_eq!(shown(&e), "[Emit(NatStatusChanged { label: \"private\", reachable: false })]");
}

#[test]
fn another_key_of_a_known_signer_is_told() {
    let known = Some("old".to_string());
    assert!(AppHandle::signer_changed("r", "bob", &known, "old", None, NOW).is_none());
    assert!(AppHandle::signer_changed("r", "bob", &None, "new", None, NOW).is_none());
    let e = AppHandle::signer_changed("r", "bob", &known, "new", None, NOW).unwrap();
    assert_eq!(
        shown(&e),
        "[Store(Journal { kind: \"safety_number_changed\", detail: \"room=r peer=bob\", at: 1000000 }), \
         Emit(SafetyNumberChanged { room_id: \"r\", fingerprint: \"bob\", old_pubkey_b64: \"old\", \
         new_pubkey_b64: \"new\", display_name: None })]"
    );
}

#[test]
fn announced_rooms_are_listed_and_forgotten() {
    let mut a = app();
    let e = a.room_announced(announcement("room", "bob", RoomKind::Group), false, NOW);
    assert!(matches!(&e[..], [Effect::Emit(AppEvent::RoomDiscovered(d))] if d.name == "ROOM" && d.member_count == 2));
    assert_eq!(a.discovered_rooms(NOW).len(), 1);
    let e = a.prune(NOW + DISCOVERED_TTL_SECS, 0);
    assert!(e.is_empty());
    let e = a.prune(NOW + DISCOVERED_TTL_SECS + 1, 0);
    assert_eq!(shown(&e), "[Emit(RoomLost { room_id: \"room\" })]");
    assert!(a.discovered_rooms(NOW).is_empty());
}

#[test]
fn what_peers_can_do_is_remembered() {
    let mut a = app();
    assert_eq!(a.our_capabilities(), 0b101);
    assert_eq!(a.peer_capabilities("bob"), 0);
    let mut heard = announcement("room", "bob", RoomKind::Group);
    heard.capabilities = 0b1001;
    told(&mut a, &peer_facts(), None, NetworkEvent::RoomAnnouncementReceived(heard));
    assert_eq!(a.peer_capabilities("bob"), 0b1001);
    assert_eq!(a.discovered_rooms(NOW)[0].capabilities, 0b1001);
    let mut heard = announcement("room", "bob", RoomKind::Group);
    heard.capabilities = 0b0010;
    told(&mut a, &peer_facts(), None, NetworkEvent::RoomAnnouncementReceived(heard));
    assert_eq!(a.peer_capabilities("bob"), 0b1011, "nothing is taken back");
    assert_eq!(a.discovered_rooms(NOW)[0].capabilities, 0b0010);
    assert_eq!(a.peer_capabilities("carol"), 0);
}

#[test]
fn rooms_are_listed_once() {
    let mut a = app();
    let plan = a.start_room("mine", "Mine", false, None, RoomKind::Group, NOW).unwrap();
    a.enter_started(plan);
    a.room_announced(announcement("mine", "bob", RoomKind::Group), false, NOW);
    a.room_announced(announcement("other", "bob", RoomKind::Group), false, NOW);
    let mut ids: Vec<String> = a.discovered_rooms(NOW).iter().map(|r| r.room_id.clone()).collect();
    ids.sort();
    assert_eq!(ids, vec!["mine".to_string(), "other".to_string()]);
    assert!(a.discovered_rooms(NOW).iter().all(|r| !r.restorable));
}

#[test]
fn the_doors_of_the_relay_are_tried_in_order() {
    let mut link = RelayLink::new();
    assert_eq!(link.step(LinkEvent::Started, false), LinkAction::LookForDoors);
    let doors = || LinkEvent::Doors(vec!["a".into(), "b".into(), "c".into()]);
    assert_eq!(link.step(doors(), false), LinkAction::TryDoor("a".into()));
    assert_eq!(link.step(LinkEvent::Shut, false), LinkAction::TryDoor("b".into()));
    assert_eq!(link.step(LinkEvent::Shut, false), LinkAction::TryDoor("c".into()));
    assert_eq!(link.step(LinkEvent::Shut, false), LinkAction::Wait { secs: 1 });
    assert_eq!(link.step(LinkEvent::Waited { woken: false }, false), LinkAction::LookForDoors);
    assert_eq!(link.step(LinkEvent::Doors(vec![]), false), LinkAction::Wait { secs: 2 });
    assert_eq!(link.step(LinkEvent::Waited { woken: false }, false), LinkAction::LookForDoors);
    assert_eq!(link.step(doors(), false), LinkAction::TryDoor("a".into()));
    assert_eq!(link.step(LinkEvent::Shut, false), LinkAction::TryDoor("b".into()));
    assert_eq!(link.step(LinkEvent::Opened, false), LinkAction::Serve("b".into()));
    assert_eq!(link.step(LinkEvent::Lost, false), LinkAction::Wait { secs: 1 });
    assert_eq!(link.step(LinkEvent::Waited { woken: true }, false), LinkAction::LookForDoors);
    assert_eq!(link.step(LinkEvent::Doors(vec![]), false), LinkAction::Wait { secs: 2 });
    assert_eq!(link.step(LinkEvent::Waited { woken: false }, true), LinkAction::Stop);
    assert_eq!(link.step(LinkEvent::Lost, true), LinkAction::Stop);
    assert_eq!(link.step(LinkEvent::Shut, true), LinkAction::Stop);
    assert_eq!(link.step(LinkEvent::Started, true), LinkAction::Stop);
}

#[test]
fn chats_of_others_are_not_listed() {
    let mut a = app();
    let e = a.room_announced(announcement("room", "bob", RoomKind::Direct), false, NOW);
    assert!(e.is_empty());
    assert!(a.discovered_rooms(NOW).is_empty());
    let ours = canonical_dm_room_id(&fp(&a), "bob");
    assert!(a.room_announced(announcement(&ours, "bob", RoomKind::Direct), true, NOW).is_empty());
    let e = a.room_announced(announcement(&ours, "bob", RoomKind::Direct), false, NOW);
    assert!(matches!(&e[..], [Effect::Emit(AppEvent::RoomDiscovered(_)), Effect::StartDirect { .. }]));
}

#[test]
fn announcers_are_dialed_once_in_a_while() {
    let mut a = app();
    let ann = || {
        let mut x = announcement("room", "bob", RoomKind::Group);
        x.host_addrs = vec!["/ip4/1.2.3.4/tcp/9000".into()];
        x
    };
    let e = a.room_announced(ann(), false, NOW);
    assert!(matches!(&e[0], Effect::Dial(k) if k.address == "/ip4/1.2.3.4/tcp/9000"));
    let e = a.room_announced(ann(), false, NOW + 1);
    assert!(!e.iter().any(|e| matches!(e, Effect::Dial(_))));
    let e = a.room_announced(ann(), false, NOW + HOST_ADDR_DIAL_BACKOFF_SECS);
    assert!(e.iter().any(|e| matches!(e, Effect::Dial(_))));
}

#[test]
fn the_stalest_room_gives_way() {
    let mut a = app();
    for i in 0..MAX_DISCOVERED_ROOMS {
        a.room_announced(announcement(&format!("r{i}"), "bob", RoomKind::Group), false, NOW + i as i64);
    }
    a.room_announced(announcement("last", "bob", RoomKind::Group), false, NOW + 5000);
    let rooms = a.discovered_rooms(NOW + 5000);
    assert_eq!(rooms.len(), MAX_DISCOVERED_ROOMS);
    assert!(rooms.iter().all(|r| r.room_id != "r0"));
    assert!(rooms.iter().any(|r| r.room_id == "last"));
}

#[test]
fn the_heartbeat_announces_rooms_and_rotates() {
    let mut a = app();
    let plan = a
        .start_room("room", "R", true, Some("correct horse"), RoomKind::Group, NOW)
        .unwrap();
    a.enter_started(plan);
    let off = RotationPolicy::disabled();
    let e = a.heartbeat(&off, &vec![], NOW);
    assert!(matches!(&e[..], [Effect::AnnounceRoom(r, 1)] if r.id == "room"));
    a.send_room_message("room", "x", &off, NOW).unwrap();
    let e = a.heartbeat(&RotationPolicy::new(1, 0), &vec![], NOW);
    assert!(e.iter().any(|e| matches!(e, Effect::AnnounceMember { .. })));
    assert_eq!(a.active_room_ids(), vec!["room".to_string()]);
    assert!(a.relay_membership_ids().contains(&"room".to_string()));
}

#[test]
fn a_partner_is_asked_for_the_key_so_often() {
    let mut a = app();
    let (_, start) = a.start_direct("bob", false, None, NOW).ok().unwrap();
    if let huddle_core::app::rooms::DirectStart::New(plan) = start {
        a.enter_started(plan);
    }
    let off = RotationPolicy::disabled();
    let mut asked = 0;
    for _ in 0..20 {
        let e = a.heartbeat(&off, &vec![], NOW);
        asked += e.iter().filter(|e| matches!(e, Effect::RequestKeys { .. })).count();
    }
    assert_eq!(asked, DM_KEY_RETRY_MAX as usize);
}

#[test]
fn inboxes_are_listened_to_once() {
    let mut a = app();
    let e = a.listen_to("inbox");
    assert_eq!(shown(&e), "[Subscribe { room_id: \"inbox\" }]");
    assert!(a.relay_membership_ids().contains(&"inbox".to_string()));
}

#[test]
fn the_relay_is_dialed_less_and_less_often() {
    let mut b = RelayBackoff::new();
    let mut waits = vec![];
    for _ in 0..7 {
        waits.push(b.delay_secs());
        b.waited(false);
    }
    assert_eq!(waits, vec![1, 2, 4, 8, 16, 30, 30]);
    b.waited(true);
    assert_eq!(b.delay_secs(), 2);
    b.connected();
    assert_eq!(b.delay_secs(), 1);
    assert_eq!(reconnect_delay_ms(2, "/ip4/1.2.3.4"), 300 + (12 * 37) % 200);
}

#[test]
fn doors_and_codes_of_the_relay() {
    let mut a = app();
    assert_eq!(a.doors(&vec!["b".into(), "c".into()]), vec!["b".to_string()]);
    let e = AppHandle::connect_code_created("ABCD2345".into(), 60, NOW);
    assert_eq!(shown(&e), "[Emit(ConnectCodeCreated { code: \"ABCD2345\", expires_at: 1000060 })]");
    assert!(AppHandle::redeem_connect_code("abcd-2345").is_ok());
    assert!(AppHandle::redeem_connect_code("abcd").is_err());
    let e = a.set_transport_order(vec!["b".into()], vec!["a".into()]);
    assert!(e.iter().any(|e| matches!(e, Effect::Reconnect)));
    assert_eq!(a.current_transport_order()[0], "b");
}

#[test]
fn peers_are_found_by_id_and_name() {
    let mut a = app();
    let own = fp(&a);
    let words = |r: (Vec<Effect>, Result<(), huddle_core::error::HuddleError>)| r.1.unwrap_err().message();
    assert_eq!(words(a.dial_by_id_or_username(" ", &vec![], &vec![], NOW)), "input is empty");
    assert_eq!(
        words(a.dial_by_id_or_username("zed", &vec![], &vec![], NOW)),
        "no peer named `zed` known yet — paste their invite link instead"
    );
    assert_eq!(
        words(a.dial_by_id_or_username("zed", &vec!["x".into(), "y".into()], &vec![], NOW)),
        "username `zed` is ambiguous (2 peers share it) — use their HD- ID instead"
    );
    assert_eq!(words(a.dial_by_id_or_username(&own, &vec![], &vec![], NOW)), "that's your own ID");
    let id = "aaaa-bbbb-cccc-dddd-eeee-ffff";
    assert_eq!(
        words(a.dial_by_id_or_username(id, &vec![], &vec![], NOW)),
        "haven't seen `HD-AAAA…` on the network yet — ask them for an invite link"
    );
    assert_eq!(
        words(a.dial_by_id_or_username(id, &vec![], &vec![known("junk", Some(id))], NOW)),
        "every known address for that peer is malformed"
    );
    let peers = vec![
        known("/ip4/8.8.8.8/tcp/1", Some(id)),
        known("/ip4/192.168.0.7/tcp/1", Some(id)),
        known("/ip4/8.8.4.4/tcp/1", Some("other")),
    ];
    let (e, r) = a.dial_by_id_or_username(id, &vec![], &peers, NOW);
    assert!(r.is_ok());
    assert!(matches!(&e[2], Effect::Emit(AppEvent::Dialing { address }) if address == "/ip4/192.168.0.7/tcp/1"));
    assert!(matches!(&e[3], Effect::DialAll { addresses } if addresses.len() == 2));
}

#[test]
fn contacts_are_asked_for_added_and_listed() {
    let mut a = app();
    let own = fp(&a);
    assert!(a.send_contact_request(&own, None, None, None, NOW).is_err());
    let e = a
        .send_contact_request("aaaa-bbbb-cccc-dddd-eeee-ffff", Some("hi".into()), None, None, NOW)
        .unwrap();
    assert!(e.iter().any(|e| matches!(e, Effect::PublishDirect { message: RoomMessage::ContactRequest { .. }, .. })));
    let e = a.accept_contact_request("bob", None, None, NOW);
    assert!(matches!(&e[3], Effect::MustStartDirect { partner_fingerprint } if partner_fingerprint == "bob"));
    let e = AppHandle::reject_contact_request("bob", true, NOW);
    assert!(e.iter().any(|e| matches!(e, Effect::Store(Write::Block { .. }) | Effect::MustStore(Write::Block { .. }))));
    let e = a.add_contact("bob", "manual", None, NOW, true);
    assert!(shown(&e).contains("Contact("));

    a.dial_succeeded("/x", "p", NOW);
    let rows = vec![ContactFacts {
        contact: Contact {
            fingerprint: "bob".into(),
            ed25519_pubkey: None,
            note: None,
            alias: Some("Bobby".into()),
            dm_room_id: Some("dm".into()),
            source: "manual".into(),
            added_at: 1,
            last_seen: None,
        },
        username: None,
        verified: false,
        trusted: true,
    }];
    let list = a.list_contacts(&rows, &vec![known("/x", Some("bob"))], false);
    assert!(list[0].lan_connected && list[0].reachable);
    assert_eq!(list[0].alias.as_deref(), Some("Bobby"));
    let list = a.list_contacts(&rows, &vec![], false);
    assert!(!list[0].lan_connected && !list[0].reachable);
    a.forget_peer("/x");
    let list = a.list_contacts(&rows, &vec![known("/x", Some("bob"))], true);
    assert!(!list[0].lan_connected && list[0].reachable);
}

#[test]
fn requests_of_friends_wait_for_an_answer() {
    let mut a = app();
    let pending = vec![PendingFriendRequest {
        fingerprint: "bob".into(),
        peer_id: "p".into(),
        address: "/x".into(),
        received_at: 0,
    }];
    let (e, r) = a.accept_pending_friend_request("carol", &pending, None, NOW);
    assert!(r.is_ok());
    assert_eq!(e.len(), 3);
    let (e, r) = a.accept_pending_friend_request("bob", &pending, None, NOW);
    assert_eq!(r.unwrap_err().message(), "invalid multiaddr: unknown protocol string: x");
    assert_eq!(e.len(), 4);
    let e = AppHandle::reject_pending_friend_request("bob", NOW);
    assert!(shown(&e).contains("DeletePendingFriends"));
}

#[test]
fn invites_bring_rooms_to_the_lobby() {
    let mut a = app();
    let room = InviteRoom {
        id: "room".into(),
        name: "R".into(),
        encrypted: true,
        salt_b64: Some("AAECAwQFBgcICQoLDA0ODw==".into()),
        creator_fingerprint: "bob".into(),
    };
    a.seed_invite_room(&room, NOW);
    assert_eq!(a.get_room_salt("room"), Some((0u8..16).collect()));
    assert_eq!(a.discovered_rooms(NOW).len(), 1);
}

#[test]
fn connect_codes_lead_to_contacts() {
    let a = app();
    let e = a.on_connect_code_resolved(None, None, None, None, NOW);
    assert!(matches!(&e[..], [Effect::Emit(AppEvent::ConnectCodeFailed { .. })]));
    let own = fp(&a);
    let e = a.on_connect_code_resolved(Some(own), None, None, None, NOW);
    assert!(matches!(&e[..], [Effect::Emit(AppEvent::ConnectCodeFailed { .. })]));
}

#[test]
fn ways_to_the_members_of_a_room() {
    let mut a = app();
    let info = StoredRoom {
        id: "room".into(),
        name: "R".into(),
        creator_fingerprint: "bob".into(),
        encrypted: false,
        passphrase_salt: None,
        created_at: 0,
        last_active: None,
        kind: RoomKind::Group,
    };
    a.enter_open(info, &vec!["bob".into()]);
    let peers = vec![known("/x", Some("bob"))];
    assert_eq!(a.room_transport("room", &peers, false), RoomTransport::Offline);
    assert_eq!(a.room_send_readiness("room", &peers, false), SendReadiness::Disconnected);
    assert_eq!(a.room_transport("room", &peers, true), RoomTransport::Relay);
    a.dial_succeeded("/x", "p", NOW);
    assert_eq!(a.room_transport("room", &peers, true), RoomTransport::LanDirect);
    assert_eq!(a.room_send_readiness("room", &peers, false), SendReadiness::Ready);
    assert_eq!(RoomTransport::LanDirect.label(), "lan");
    assert_eq!(RoomTransport::Relay.label(), "relay");
    assert_eq!(RoomTransport::Offline.label(), "offline");
    assert_eq!(SendReadiness::Connecting.reason(), "connecting to relay — message held");
    assert!(!SendReadiness::Disconnected.can_send());
}

#[test]
fn how_the_relay_is_reached() {
    let c = TransportConfig::default();
    assert_eq!(c.resolved_tor_socks(None), DEFAULT_TOR_SOCKS);
    assert_eq!(c.resolved_tor_socks(Some("1.1.1.1:1".into())), "1.1.1.1:1");
    assert_eq!(c.resolved_clearnet_url(None, None), None);
    assert_eq!(c.resolved_clearnet_url(None, Some("wss://x".into())).as_deref(), Some("wss://x"));
    let onion = TransportConfig::onion_only("ws://x.onion".into());
    assert_eq!(onion.onion_url.as_deref(), Some("ws://x.onion"));
    assert!(onion.clearnet_url.is_none() && onion.tor_socks.is_none() && onion.tor_bridge.is_none());
    assert!(onion.pin.is_none() && onion.order.is_none());
    assert_eq!(onion.resolved_clearnet_url(None, None).as_deref(), Some(DEFAULT_CLEARNET_URL));
    assert_eq!(unless_blank(Some("  ".into())), None);
    let order = |x: &str| vec![x.to_string()];
    let known: Vec<String> = ["a", "b", "c", "d"].iter().map(|d| d.to_string()).collect();
    let resolve = |pin: Option<&str>, saved_pin: Option<&str>, said: Option<&str>, saved: Option<&str>| {
        resolved_order(
            pin.map(|p| p.to_string()),
            saved_pin.map(|p| p.to_string()),
            said.map(order),
            saved.map(|s| s.to_string()),
            &known,
            order("d"),
        )
    };
    assert_eq!(resolve(None, None, None, None), order("d"));
    assert_eq!(resolve(None, None, None, Some("c")), order("c"));
    assert_eq!(resolve(None, None, None, Some(" c, nope ,a")), vec!["c".to_string(), "a".to_string()]);
    assert_eq!(resolve(None, None, Some("b"), Some("c")), order("b"));
    assert_eq!(resolve(Some("a"), None, Some("b"), None), order("a"));
    assert_eq!(resolve(Some("nope"), Some("c"), Some("b"), None), order("c"));
    assert_eq!(resolve(Some("nope"), None, Some("b"), None), order("b"));
    assert_eq!(resolve(Some("nope"), Some("nor this"), Some("nope"), Some("nope,")), order("d"));
}

#[test]
fn a_dialed_peer_is_told_our_name_in_the_chat() {
    let mut a = app();
    let plan = a.start_room("room", "Room", false, None, RoomKind::Group, NOW).unwrap();
    a.enter_started(plan);
    let address = "/ip4/1.2.3.4/tcp/9000".to_string();
    let connect = |a: &mut AppHandle| {
        a.dial(&address, NOW).unwrap();
        let peer_id = "p".to_string();
        told(a, &peer_facts(), None, NetworkEvent::DialSucceeded { peer_id, address: address.clone() });
    };
    let identified = || NetworkEvent::PeerIdentified { peer_id: "p".into(), fingerprint: "bob".into() };
    connect(&mut a);
    let e = told(&mut a, &peer_facts(), Some("Alice"), identified());
    let chat = canonical_dm_room_id(&fp(&a), "bob");
    assert!(matches!(&e[1], Effect::StartDirectThen(_, AppEvent::AutoOpenDm { room_id, .. },
        Some(RoomMessage::ProfileUpdate { username: Some(name), .. })) if *room_id == chat && name == "Alice"));
    assert!(matches!(&e[2..], [Effect::PublishSigned { room_id, .. }] if room_id == "room"));
    connect(&mut a);
    let e = told(&mut a, &peer_facts(), Some("Alice"), identified());
    assert!(matches!(&e[1..], [Effect::StartDirectThen(_, _, None)]), "told a moment ago");
}

#[test]
fn strangers_are_written_down_as_they_are_called() {
    let mut a = app();
    let mut detail = |fingerprint: &str| {
        let e = told(
            &mut a,
            &peer_facts(),
            None,
            NetworkEvent::InboundDial {
                peer_id: "p".into(),
                fingerprint: fingerprint.into(),
                address: "/x".into(),
            },
        );
        match &e[0] {
            Effect::Store(Write::Journal { detail, .. }) => detail.clone(),
            other => panic!("{other:?}"),
        }
    };
    assert_eq!(detail("ab12-cd34"), "peer=p fp=\"ab12-cd34\" addr=/x");
    assert_eq!(detail("a\"b\n"), "peer=p fp=\"a\\\"b\\n\" addr=/x");
}

#[test]
fn known_addresses_are_dialed_at_startup() {
    let e = reconnect("/ip4/1.2.3.4/tcp/9000".into(), NOW);
    assert!(matches!(&e[..], [Effect::Dial(k)]
        if k.address == "/ip4/1.2.3.4/tcp/9000" && k.last_attempt_at == Some(NOW) && !k.trusted));
    assert!(reconnect("1.2.3.4:9000".into(), NOW).is_empty());
    assert!(reconnect("/ip4/1.2.3.4/tcp/9000 ".into(), NOW).is_empty());
}

/// Saves what is to be saved.
fn keep(s: &mut Settings, effects: Vec<Effect>) {
    for e in effects {
        if let Effect::MustStore(Write::Setting { key, value }) = e {
            s.set(&key, &value);
        }
    }
}

#[test]
fn switches_as_they_are_saved() {
    let mut s = Settings::new();
    assert!(!AppHandle::verified_only_inbound(&s));
    assert!(!AppHandle::mdns_enabled(&s));
    assert!(!AppHandle::attach_via_path(&s));
    assert!(AppHandle::notifications_enabled(&s));
    for on in [true, false] {
        keep(&mut s, AppHandle::set_verified_only_inbound(on));
        keep(&mut s, AppHandle::set_mdns_enabled(on));
        keep(&mut s, AppHandle::set_attach_via_path(on));
        keep(&mut s, AppHandle::set_notifications_enabled(on));
        assert_eq!(AppHandle::verified_only_inbound(&s), on);
        assert_eq!(AppHandle::mdns_enabled(&s), on);
        assert_eq!(AppHandle::attach_via_path(&s), on);
        assert_eq!(AppHandle::notifications_enabled(&s), on);
    }
    assert_eq!(s.get("mdns_enabled").as_deref(), Some("0"));
    s.set("mdns_enabled", "yes");
    assert!(!AppHandle::mdns_enabled(&s));
}

#[test]
fn texts_as_they_are_saved() {
    let mut s = Settings::new();
    assert_eq!(AppHandle::theme(&s), "system");
    keep(&mut s, AppHandle::set_theme("dark"));
    assert_eq!(AppHandle::theme(&s), "dark");
    keep(&mut s, AppHandle::set_theme(" "));
    assert_eq!(AppHandle::theme(&s), "system");
    assert_eq!(AppHandle::last_known_remote_version(&s), None);
    keep(&mut s, AppHandle::set_last_known_remote_version("1.2.3"));
    assert_eq!(AppHandle::last_known_remote_version(&s).as_deref(), Some("1.2.3"));
    let order = |x: &str| vec![x.to_string(), "c".to_string()];
    let (e, used) = AppHandle::set_clearnet_relay(Some(" wss://x "), order("a"), order("b"));
    assert_eq!(used, order("a"));
    keep(&mut s, e);
    assert_eq!(AppHandle::clearnet_relay(&s).as_deref(), Some("wss://x"));
    assert_eq!(s.get("transport_order").as_deref(), Some("a,c"));
    let (e, used) = AppHandle::set_clearnet_relay(None, order("a"), order("b"));
    assert_eq!(used, order("b"));
    keep(&mut s, e);
    assert_eq!(AppHandle::clearnet_relay(&s), None);
    assert_eq!(s.get("transport_order").as_deref(), Some("b,c"));
    keep(&mut s, AppHandle::transport_order_setting(&vec![], &order("d")));
    assert_eq!(s.get("transport_order").as_deref(), Some("d,c"));
}

#[test]
fn numbers_as_they_are_saved() {
    let mut s = Settings::new();
    assert_eq!(AppHandle::megolm_rotation_policy(&s), RotationPolicy::default());
    keep(&mut s, AppHandle::set_megolm_rotation_max_messages(5));
    keep(&mut s, AppHandle::set_megolm_rotation_max_hours(2));
    let p = AppHandle::megolm_rotation_policy(&s);
    assert_eq!((p.max_messages, p.max_age_secs), (5, 7200));
    assert_eq!(AppHandle::megolm_rotation_config(&s), (5, 2));
    keep(&mut s, AppHandle::set_megolm_rotation_max_hours(-2));
    assert_eq!(AppHandle::megolm_rotation_policy(&s).max_age_secs, 0);
    s.set("megolm_rotation_max_messages", "x");
    assert_eq!(AppHandle::megolm_rotation_policy(&s).max_messages, 1000);
    s.set("megolm_rotation_max_messages", "-0");
    assert_eq!(AppHandle::megolm_rotation_policy(&s).max_messages, 1000);
    s.set("megolm_rotation_max_hours", "+3");
    assert_eq!(AppHandle::megolm_rotation_policy(&s).max_age_secs, 3 * 3600);
    assert_eq!(AppHandle::last_update_check_at(&s), 0);
    for at in [77, -5, i64::MAX, i64::MIN] {
        keep(&mut s, AppHandle::set_last_update_check_at(at));
        assert_eq!(AppHandle::last_update_check_at(&s), at);
    }
}

#[test]
fn the_account_and_its_passphrase() {
    let open = with_key([0u8; 32]);
    assert!(!open.has_master_passphrase());
    assert!(open.export_seed_phrase().is_err());
    assert!(open.go_dark(&[0; 32], "short").is_err());
    assert!(open.go_dark(&[0; 32], "long enough").is_ok());
    assert!(open.change_master_passphrase(&[0; 32], "long enough").is_err());
    let mut a = app();
    let phrase = a.export_seed_phrase().unwrap();
    assert!(a.verify_seed_reentry(&phrase).unwrap());
    assert!(!a.verify_seed_reentry(&seed_to_phrase(&[1; 32])).unwrap());
    assert!(a.verify_seed_reentry("junk").is_err());
    assert_eq!(
        a.change_master_passphrase(&[0; 32], "long enough").unwrap_err().message(),
        "incorrect current passphrase"
    );
    assert!(a.change_master_passphrase(&[3; 32], "short").is_err());
    assert!(a.change_master_passphrase(&[3; 32], "long enough").is_ok());
    assert_eq!(a.go_dark(&[0; 32], "x").unwrap_err().message(), "incorrect master passphrase");
    a.set_persist_key([4; 32]);
    assert!(a.go_dark(&[4; 32], "x").is_ok());
    assert!(ACCOUNT_FILES.iter().all(|f| is_account_file(f)));
    assert!(!is_account_file("notes.txt"));
}

#[test]
fn connect_codes_need_the_relay() {
    assert!(AppHandle::create_connect_code(true).is_ok());
    assert_eq!(
        AppHandle::create_connect_code(false).unwrap_err().message(),
        "network error: not connected to the relay — can't create a connect code"
    );
    assert_eq!(
        AppHandle::connect_code_asked(false).unwrap_err().message(),
        "network error: not connected to the relay — can't redeem a connect code"
    );
}

#[test]
fn undecided_requests_are_kept() {
    let e = AppHandle::spill_pending_friend_request("p", "bob", "/x", NOW);
    assert_eq!(
        shown(&e),
        "[MustStore(PendingFriend(PendingFriendRequest { fingerprint: \"bob\", address: \"/x\", \
         peer_id: \"p\", received_at: 1000000 }))]"
    );
}

#[test]
fn members_are_marked_as_verified() {
    let e = AppHandle::set_member_verified(&vec!["bob".into()], "room", "bob", true, NOW);
    assert!(matches!(&e[..], [Effect::MustStore(Write::MemberVerified { verified: true, .. })]));
    let e = AppHandle::set_member_verified(&vec![], "room", "bob", false, NOW);
    assert!(matches!(
        &e[..],
        [
            Effect::MustStore(Write::Member(m)),
            Effect::MustStore(Write::MemberVerified { verified: false, .. })
        ] if m.role == "member" && !m.verified
    ));
}
