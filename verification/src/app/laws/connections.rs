//! Connections: who is let in, what is known of where peers are, and what the user hears of that.
use super::{shown, shows, writes, written};
use crate::app::effects::{EffectView, WriteView};
use crate::app::events::EventView;
use crate::app::messages::MessageView;
use crate::app::moderation;
use crate::app::network::{self, NetworkEvent, PeerFacts};
use crate::app::records::KnownPeerView;
use crate::app::{addresses, ids, AppView};
use crate::error::ErrorView;
use crate::strmap;
use vstd::prelude::*;

verus! {

/// An address is stored with what is known of it.
pub open spec fn keeps_address(
    eff: Seq<EffectView>,
    address: Seq<char>,
    fingerprint: Option<Seq<char>>,
    trusted: bool,
    now: i64,
) -> bool {
    exists|k: KnownPeerView|
        #![trigger writes(eff, WriteView::KnownPeer(k))]
        writes(eff, WriteView::KnownPeer(k)) && k.address == address && k.fingerprint == fingerprint
            && k.trusted == trusted && k.last_connected_at == Some(now) && k.last_attempt_at == Some(now)
            && k.created_at == now && k.label is None
}

/// An address that was dialed leads to whoever answered, until they are gone; the user hears of both.
pub proof fn law_connections_are_kept(
    app: AppView,
    facts: PeerFacts,
    username: Option<Seq<char>>,
    event: NetworkEvent,
    now: i64,
    now_ms: i64,
    after: AppView,
    eff: Seq<EffectView>,
)
    requires
        network::processed(app, facts, username, event, now, now_ms, after, eff),
    ensures
        event matches NetworkEvent::DialSucceeded { peer_id, address } ==> {
            &&& after.connected == app.connected.insert(address@, peer_id@)
            &&& keeps_address(eff, address@, None, false, now)
            &&& shows(eff, EventView::DialSucceeded { address: address@, peer_id: peer_id@ })
        },
        event matches NetworkEvent::DialFailed { address, error } ==> after == app && shows(
            eff,
            EventView::DialFailed { address: address@, error: error@ },
        ),
        event matches NetworkEvent::PeerExpired { peer_id } ==> forgotten(
            app,
            after,
            peer_id@,
            eff,
        ),
        event matches NetworkEvent::PeerDisconnected { peer_id } ==> forgotten(
            app,
            after,
            peer_id@,
            eff,
        ),
        event matches NetworkEvent::PeerDiscovered { peer_id } ==> after == app && shows(
            eff,
            EventView::PeerDiscovered { peer_id: peer_id@ },
        ),
        event matches NetworkEvent::ListeningOn { address } ==> after == app && shows(
            eff,
            EventView::ListeningOn { address: address@ },
        ),
        event matches NetworkEvent::RelayReservationEstablished { address } ==> {
            &&& forall|a: Seq<char>| #[trigger]
                after.relayed.contains(a) <==> a == address@ || app.relayed.contains(a)
            &&& shows(eff, EventView::ListeningOn { address: address@ })
        },
        event matches NetworkEvent::DcutrUpgrade { remote_peer, success } ==> {
            &&& after == app
            &&& !success ==> eff.len() == 0
            &&& success ==> eff.len() == 1 && exists|head: Seq<char>, label: Seq<char>|
                #![trigger head + label]
                remote_peer@ == head + label && label.len() <= 8 && (head.len() > 0 ==> label.len()
                    == 8) && shows(eff, EventView::DcutrSucceeded { peer_label: label })
        },
        !(event is RoomAnnouncementReceived) ==> after.rooms == app.rooms && after.discovered
            == app.discovered,
{
    match event {
        NetworkEvent::DialSucceeded { peer_id, address } => {
            assert(written(eff[0]) is Some);
            assert(writes(eff, WriteView::KnownPeer(written(eff[0])->0->KnownPeer_0)));
            assert(shown(eff[1]) is Some);
        },
        NetworkEvent::RelayReservationEstablished { address } => {
            strmap::lemma_push_contains(app.relayed, address@);
            assert(shown(eff[0]) is Some);
        },
        NetworkEvent::DcutrUpgrade { remote_peer, success } => {
            if success {
                let label = shown(eff[0])->0->peer_label;
                let head = remote_peer@.take(remote_peer@.len() - label.len());
                assert(remote_peer@ =~= head + label);
                assert(shown(eff[0]) is Some);
            }
        },
        NetworkEvent::PeerExpired { .. } | NetworkEvent::PeerDisconnected { .. }
        | NetworkEvent::PeerDiscovered { .. } | NetworkEvent::ListeningOn { .. }
        | NetworkEvent::DialFailed { .. } => {
            assert(shown(eff[0]) is Some);
        },
        _ => {},
    }
}

/// No address leads to this peer any more, the others lead to whom they led, and the user hears of it.
pub open spec fn forgotten(
    app: AppView,
    after: AppView,
    peer_id: Seq<char>,
    eff: Seq<EffectView>,
) -> bool {
    &&& forall|a: Seq<char>| #[trigger]
        after.connected.dom().contains(a) <==> app.connected.dom().contains(a) && app.connected[a]
            != peer_id
    &&& forall|a: Seq<char>| #[trigger]
        after.connected.dom().contains(a) ==> after.connected[a] == app.connected[a]
    &&& shows(eff, EventView::PeerExpired { peer_id })
}

/// Whoever is blocked is turned away, and so are strangers where only verified or trusted peers may come;
/// whoever is trusted is let in, and their address is kept; the user is asked about all others, and nothing
/// is decided before.
pub proof fn law_inbound_peers_are_sorted(
    app: AppView,
    facts: PeerFacts,
    username: Option<Seq<char>>,
    event: NetworkEvent,
    now: i64,
    now_ms: i64,
    after: AppView,
    eff: Seq<EffectView>,
)
    requires
        network::processed(app, facts, username, event, now, now_ms, after, eff),
        event is InboundDial,
    ensures
        ({
            let peer_id = event->InboundDial_peer_id@;
            let fingerprint = event->InboundDial_fingerprint@;
            let address = event->InboundDial_address@;
            let barred = facts.blocked || (facts.verified_only_inbound && !facts.verified
                && !facts.trusted);
            &&& eff.contains(EffectView::RejectInbound { peer_id }) <==> barred
            &&& eff.contains(EffectView::AcceptInbound { peer_id }) <==> facts.trusted
                && !facts.blocked
            &&& shows(eff, EventView::InboundDial { peer_id, fingerprint, address }) <==> !barred
                && !facts.trusted
            &&& !barred && !facts.trusted ==> writes(
                eff,
                WriteView::Journal {
                    kind: "inbound_dial"@,
                    detail: "peer="@ + peer_id + " fp="@ + crate::text::debug_form(fingerprint)
                        + " addr="@ + address,
                    at: now,
                },
            )
            &&& facts.trusted && !facts.blocked ==> after.connected == app.connected.insert(
                address,
                peer_id,
            ) && keeps_address(eff, address, Some(fingerprint), true, now)
            &&& !(facts.trusted && !facts.blocked) ==> after == app
        }),
{
    if eff.len() == 2 {
        assert(written(eff[0]) is Some);
        if facts.trusted {
            assert(eff[1] == EffectView::AcceptInbound { peer_id: event->InboundDial_peer_id@ });
            assert(writes(eff, WriteView::KnownPeer(written(eff[0])->0->KnownPeer_0)));
        } else {
            assert(shown(eff[1]) is Some);
        }
    } else {
        assert(eff[0] == EffectView::RejectInbound { peer_id: event->InboundDial_peer_id@ });
    }
}

/// Whether we can be reached is what the last probes say: an address that was reached is one of ours, one that
/// was not is none, and the user hears of it exactly when the first is found or the last is lost.
pub proof fn law_reachability_follows_the_probes(
    app: AppView,
    facts: PeerFacts,
    username: Option<Seq<char>>,
    event: NetworkEvent,
    now: i64,
    now_ms: i64,
    after: AppView,
    eff: Seq<EffectView>,
)
    requires
        network::processed(app, facts, username, event, now, now_ms, after, eff),
        event is NatProbeResult,
    ensures
        ({
            let address = event->tested_addr@;
            &&& event->reachable ==> forall|a: Seq<char>| #[trigger]
                after.reachable.contains(a) <==> a == address || app.reachable.contains(a)
            &&& !event->reachable ==> forall|a: Seq<char>| #[trigger]
                after.reachable.contains(a) <==> a != address && app.reachable.contains(a)
            &&& app.reachable.len() == 0 && after.reachable.len() > 0 <==> exists|label: Seq<char>|
                shows(eff, #[trigger] nat_status(label, true))
            &&& app.reachable.len() > 0 && after.reachable.len() == 0 <==> exists|label: Seq<char>|
                shows(eff, #[trigger] nat_status(label, false))
        }),
{
    let address = event->tested_addr@;
    if event->reachable {
        strmap::lemma_push_contains(app.reachable, address);
    } else {
        lemma_dropped(app.reachable, address);
    }
    if eff.len() > 0 {
        assert(shown(eff[0]) is Some);
        let v = shown(eff[0])->0;
        assert(v == nat_status(v->label, v->NatStatusChanged_reachable));
    }
}

proof fn lemma_dropped(v: Seq<Seq<char>>, s: Seq<char>)
    ensures
        forall|a: Seq<char>| #[trigger]
            crate::text::dropped(v, s).contains(a) <==> a != s && v.contains(a),
    decreases v.len(),
{
    reveal(Seq::filter);
    let d = crate::text::dropped(v, s);
    if v.len() > 0 {
        let rest = v.drop_last();
        lemma_dropped(rest, s);
        strmap::lemma_push_contains(rest, v.last());
        strmap::lemma_push_contains(crate::text::dropped(rest, s), v.last());
        assert(v =~= rest.push(v.last()));
    }
}

/// The user is told whether we can be reached.
pub open spec fn nat_status(label: Seq<char>, reachable: bool) -> EventView {
    EventView::NatStatusChanged { label, reachable }
}

/// A key that differs from the one that is known of its owner is always reported, with both keys; one that is
/// the same, or the first, never is.
pub proof fn law_changed_keys_are_reported(
    room_id: Seq<char>,
    fingerprint: Seq<char>,
    known: Option<Seq<char>>,
    claimed: Seq<char>,
    name: Option<Seq<char>>,
    now: i64,
)
    ensures
        ({
            let r = network::signer_alarm(room_id, fingerprint, known, claimed, name, now);
            &&& r is Some <==> known is Some && known != Some(claimed)
            &&& r matches Some(eff) ==> writes(
                eff,
                WriteView::Journal {
                    kind: "safety_number_changed"@,
                    detail: "room="@ + room_id + " peer="@ + fingerprint,
                    at: now,
                },
            ) && shows(
                eff,
                EventView::SafetyNumberChanged {
                    room_id,
                    fingerprint,
                    old_pubkey_b64: known->0,
                    new_pubkey_b64: claimed,
                    display_name: name,
                },
            )
        }),
{
    let r = network::signer_alarm(room_id, fingerprint, known, claimed, name, now);
    if r is Some {
        assert(written((r->0)[0]) is Some && shown((r->0)[1]) is Some);
    }
}

/// Whoever answers at an address that the user dialed gets a chat, unless they are blocked; their address is
/// stored as theirs. Where an invite said that somebody else is there, they are disconnected instead, and the
/// user is told who was claimed and who it was.
pub proof fn law_dialed_peers_get_a_chat(
    app: AppView,
    input: Seq<char>,
    claimed: Option<Seq<char>>,
    dialed_at: i64,
    address: String,
    peer_id: String,
    fingerprint: String,
    facts: PeerFacts,
    username: Option<Seq<char>>,
    now: i64,
    now_ms: i64,
    connected: AppView,
    said: Seq<EffectView>,
    after: AppView,
    eff: Seq<EffectView>,
)
    requires
        addresses::dial_address(input) == Ok::<Seq<char>, ErrorView>(address@),
        claimed is None ==> !app.invite_dials.dom().contains(address@),
        forall|a: Seq<char>| #[trigger]
            app.connected.dom().contains(a) && app.connected[a] == peer_id@ ==> a == address@,
        network::processed(
            app.dialed(input, claimed, dialed_at).0,
            facts,
            username,
            NetworkEvent::DialSucceeded { peer_id, address },
            now,
            now_ms,
            connected,
            said,
        ),
        network::processed(
            connected,
            facts,
            username,
            NetworkEvent::PeerIdentified { peer_id, fingerprint },
            now,
            now_ms,
            after,
            eff,
        ),
    ensures
        ({
            let out = app.dialed(input, claimed, dialed_at).1;
            &&& out is Ok && out->Ok_0.len() == 1
            &&& out->Ok_0[0] matches EffectView::Dial(k) && k.address == address@
                && k.last_connected_at is None && !k.trusted
        }),
        claimed is None || claimed == Some(fingerprint@) ==> {
            &&& keeps_address(eff, address@, Some(fingerprint@), true, now)
            &&& !eff.contains(EffectView::Disconnect { peer_id: peer_id@ })
            &&& (exists|i: int|
                0 <= i < eff.len() && #[trigger] eff[i] is StartDirectThen) <==> !facts.blocked
                && fingerprint@ != app.our_fp()
            &&& forall|i: int|
                0 <= i < eff.len() ==> (#[trigger] eff[i] matches EffectView::StartDirectThen(p, v, m)
                    ==> p == fingerprint@ && v == (EventView::AutoOpenDm {
                    room_id: ids::dm_room_id(app.our_fp(), fingerprint@),
                    fingerprint: fingerprint@,
                }) && (m is Some ==> m == Some(
                    MessageView::ProfileUpdate {
                        sender_fingerprint: app.our_fp(),
                        username,
                        updated_at: now_ms,
                    },
                )))
        },
        claimed is Some && claimed != Some(fingerprint@) ==> {
            &&& eff.contains(EffectView::Disconnect { peer_id: peer_id@ })
            &&& shows(
                eff,
                EventView::InviteFingerprintMismatch {
                    address: address@,
                    claimed: claimed->0,
                    actual: fingerprint@,
                },
            )
            &&& forall|w: WriteView| !#[trigger] writes(eff, w)
        },
        !after.auto_dm.contains(address@) || (claimed is Some && claimed != Some(fingerprint@)),
        !after.invite_dials.dom().contains(address@),
{
    let (addrs, order) = choose|addrs: Seq<Seq<char>>, order: Seq<Seq<char>>| #[trigger]
        network::addresses_of(connected.connected, peer_id@, addrs) && #[trigger]
        moderation::room_order(connected, order) && (after, eff) == connected.on_peer_identified(
            facts,
            username,
            peer_id@,
            fingerprint@,
            now,
            now_ms,
            addrs,
            order,
        );
    assert(addrs.contains(address@));
    assert(addrs.len() == 1) by {
        let i = choose|i: int| 0 <= i < addrs.len() && addrs[i] == address@;
        if addrs.len() > 1 {
            let j: int = if i == 0 {
                1
            } else {
                0
            };
            assert(addrs.contains(addrs[j]));
            assert(addrs[i] != addrs[j]);
        }
    }
    assert(addrs[0] == address@);
    assert(addrs.skip(1) =~= Seq::<Seq<char>>::empty());
    reveal_with_fuel(network::invites_checked, 3);
    if claimed is Some && claimed != Some(fingerprint@) {
        assert(eff[0] == EffectView::Disconnect { peer_id: peer_id@ });
        assert(shown(eff[1]) is Some);
    } else {
        let stored = network::trusted_effects(addrs, fingerprint@, now);
        assert(eff[0] == stored[0]);
        assert(written(eff[0]) is Some);
        assert(writes(eff, WriteView::KnownPeer(written(eff[0])->0->KnownPeer_0)));
        assert(connected.auto_dm.contains(address@));
        assert(addrs.to_set().contains(address@));
        if !facts.blocked && fingerprint@ != app.our_fp() {
            assert(eff[1] is StartDirectThen);
        }
    }
}

/// When a peer is identified, our name is told in every room that we are in, and then not again within a
/// minute on account of the same peer.
pub proof fn law_names_are_told_once(
    app: AppView,
    facts: PeerFacts,
    name: Seq<char>,
    peer_id: String,
    fingerprint: String,
    now: i64,
    now_ms: i64,
    after: AppView,
    eff: Seq<EffectView>,
)
    requires
        network::processed(
            app,
            facts,
            Some(name),
            NetworkEvent::PeerIdentified { peer_id, fingerprint },
            now,
            now_ms,
            after,
            eff,
        ),
        app.invite_dials == Map::<Seq<char>, Seq<char>>::empty(),
    ensures
        ({
            let msg = MessageView::ProfileUpdate {
                sender_fingerprint: app.our_fp(),
                username: Some(name),
                updated_at: now_ms,
            };
            let lately = app.profiles_sent.dom().contains(fingerprint@) && now_ms
                - app.profiles_sent[fingerprint@] < 60_000;
            &&& lately ==> forall|i: int| 0 <= i < eff.len() ==> super::sent(#[trigger] eff[i]) is None
            &&& !lately ==> forall|r: Seq<char>| #[trigger]
                app.rooms.dom().contains(r) ==> super::sends(eff, r, msg)
            &&& !lately ==> after.profiles_sent.dom().contains(fingerprint@)
                && after.profiles_sent[fingerprint@] == now_ms
        }),
{
    let (addrs, order) = choose|addrs: Seq<Seq<char>>, order: Seq<Seq<char>>| #[trigger]
        network::addresses_of(app.connected, peer_id@, addrs) && #[trigger] moderation::room_order(
            app,
            order,
        ) && (after, eff) == app.on_peer_identified(
            facts,
            Some(name),
            peer_id@,
            fingerprint@,
            now,
            now_ms,
            addrs,
            order,
        );
    lemma_no_invites(addrs, fingerprint@);
    let msg = MessageView::ProfileUpdate {
        sender_fingerprint: app.our_fp(),
        username: Some(name),
        updated_at: now_ms,
    };
    let told = moderation::profile_effects(app.our_fp(), Some(name), now_ms, order);
    let lately = app.profiles_sent.dom().contains(fingerprint@) && now_ms
        - app.profiles_sent[fingerprint@] < 60_000;
    if !lately {
        assert forall|r: Seq<char>| #[trigger] app.rooms.dom().contains(r) implies super::sends(
            eff,
            r,
            msg,
        ) by {
            assert(order.to_set().contains(r));
            let i = choose|i: int| 0 <= i < order.len() && order[i] == r;
            let j = eff.len() - told.len() + i;
            assert(eff[j] == told[i]);
            assert(super::sent(eff[j]) == Some((r, msg)));
        }
    }
}

proof fn lemma_no_invites(addrs: Seq<Seq<char>>, fingerprint: Seq<char>)
    ensures
        network::invites_checked(Map::<Seq<char>, Seq<char>>::empty(), addrs, fingerprint) == (
            Map::<Seq<char>, Seq<char>>::empty(),
            None::<(Seq<char>, Seq<char>)>,
        ),
    decreases addrs.len(),
{
    if addrs.len() > 0 {
        let none = Map::<Seq<char>, Seq<char>>::empty();
        assert(none.remove(addrs[0]) =~= none);
        lemma_no_invites(addrs.skip(1), fingerprint);
    }
}

/// We offer at most four addresses, and only such as lead to us; all of them where there are no more than four, and
/// those at relays first.
pub proof fn law_we_offer_our_own_addresses(relayed: Seq<Seq<char>>, reachable: Seq<Seq<char>>)
    ensures
        ({
            let all = addresses::offered(relayed, reachable);
            &&& all.len() <= 4
            &&& forall|a: Seq<char>| #[trigger]
                all.contains(a) ==> relayed.contains(a) || reachable.contains(a)
            &&& relayed.len() + reachable.len() <= 4 ==> forall|a: Seq<char>|
                relayed.contains(a) || reachable.contains(a) ==> #[trigger] all.contains(a)
            &&& forall|i: int| 0 <= i < relayed.len() && i < 4 ==> #[trigger] all[i] == relayed[i]
            &&& relayed.len() > 0 || reachable.len() > 0 ==> all.len() > 0
        }),
{
    let fresh = |a: Seq<char>| !relayed.contains(a);
    let more = reachable.filter(fresh);
    let all = relayed + more;
    let out = addresses::offered(relayed, reachable);
    reachable.filter_lemma(fresh);
    assert(out == if all.len() > 4 {
        all.take(4)
    } else {
        all
    });
    assert forall|a: Seq<char>| #[trigger] out.contains(a) implies relayed.contains(a)
        || reachable.contains(a) by {
        let i = choose|i: int| 0 <= i < out.len() && out[i] == a;
        if i >= relayed.len() {
            assert(more[i - relayed.len()] == a);
            assert(more.contains(a));
            reachable.lemma_filter_contains_rev(fresh, a);
        }
    }
    assert forall|a: Seq<char>|
        relayed.len() + reachable.len() <= 4 && (relayed.contains(a) || reachable.contains(
            a,
        )) implies #[trigger] out.contains(a) by {
        if relayed.contains(a) {
            let i = choose|i: int| 0 <= i < relayed.len() && relayed[i] == a;
            assert(out[i] == a);
        } else {
            let i = choose|i: int| 0 <= i < reachable.len() && reachable[i] == a;
            assert(more.contains(reachable[i]));
            let j = choose|j: int| 0 <= j < more.len() && more[j] == a;
            assert(out[relayed.len() + j] == a);
        }
    }
    if relayed.len() == 0 && reachable.len() > 0 {
        assert(more.contains(reachable[0]));
    }
}

/// Whoever announces a room with an address is dialed there, unless it is us or they were dialed lately; what they
/// say that they can do is remembered.
pub proof fn law_announcers_are_dialed(
    app: AppView,
    a: crate::app::messages::AnnouncementView,
    blocked: bool,
    now: i64,
    after: AppView,
    eff: Seq<EffectView>,
)
    requires
        app.on_room_announcement(a, blocked, now, after, eff),
        a.creator_fingerprint != app.our_fp(),
        a.host_addrs.len() > 0,
        addresses::multiaddr_text(a.host_addrs[0]) is Ok,
        app.host_dials == Map::<Seq<char>, i64>::empty(),
    ensures
        exists|k: KnownPeerView| #[trigger]
            eff.contains(EffectView::Dial(k)) && k.address == addresses::multiaddr_text(
                a.host_addrs[0],
            )->Ok_0 && k.last_connected_at is None && k.fingerprint is None && !k.trusted,
        after.host_dials.dom().contains(a.creator_fingerprint),
        after.host_dials[a.creator_fingerprint] == now,
        after.capabilities_of(a.creator_fingerprint) == app.capabilities_of(a.creator_fingerprint)
            | a.capabilities,
{
    let (salted, said) = choose|salted: AppView, said: Seq<EffectView>| #[trigger]
        app.salt_noted(a, salted) && #[trigger] salted.dial_decided(
            a,
            now,
        ).0.with_capabilities(a.creator_fingerprint, a.capabilities).discovery(
            a,
            blocked,
            now,
            after,
            said,
        ) && eff == salted.dial_decided(a, now).1 + said;
    let kept = strmap::recent(salted.host_dials, now, network::HOST_ADDR_DIAL_BACKOFF_SECS);
    assert(kept =~= Map::<Seq<char>, i64>::empty());
    assert(kept.dom().len() == 0);
    let k = eff[0]->Dial_0;
    assert(eff[0] == EffectView::Dial(k));
    assert(eff.contains(EffectView::Dial(k)));
}

/// Whoever was dialed because they announced a room is not dialed for that within five minutes; nobody is forgotten
/// sooner.
pub proof fn law_announcers_are_left_alone_for_five_minutes(
    app: AppView,
    a: crate::app::messages::AnnouncementView,
    now: i64,
)
    requires
        a.creator_fingerprint != app.our_fp(),
        a.host_addrs.len() > 0,
        app.host_dials.dom().contains(a.creator_fingerprint),
        addresses::multiaddr_text(a.host_addrs[0]) is Ok,
        app.host_dials.dom().finite(),
        app.host_dials.dom().len() < 4096,
    ensures
        app.dial_decided(a, now).1.len() == 0 <==> now - app.host_dials[a.creator_fingerprint] < 300,
{
    let kept = strmap::recent(app.host_dials, now, 300);
    assert(kept.dom().subset_of(app.host_dials.dom()));
    vstd::set_lib::lemma_len_subset(kept.dom(), app.host_dials.dom());
}

/// As many as 1024 announced rooms are remembered at a time without forgetting one.
pub proof fn law_rooms_are_remembered(
    before: Map<Seq<char>, crate::app::events::DiscoveredView>,
    room: crate::app::events::DiscoveredView,
    after: Map<Seq<char>, crate::app::events::DiscoveredView>,
    other: Seq<char>,
)
    requires
        network::room_remembered(before, room, after),
        before.dom().len() < 1024 || before.dom().contains(room.room_id),
    ensures
        after.dom().contains(room.room_id),
        after[room.room_id] == room,
        other != room.room_id ==> (after.dom().contains(other) <==> before.dom().contains(other))
            && (before.dom().contains(other) ==> after[other] == before[other]),
{
}

} // verus!
