//! The keys of chats between two, and of rooms: how those who are meant to have one come to it.
use super::{reads_back, sent, shows, writes, written};
use crate::app::chat;
use crate::app::dm_key::{self, DmKeyOutcome};
use crate::app::effects::{EffectView, WriteView};
use crate::app::events::{EventView, RoomKind};
use crate::app::facts::{EnvelopeView, FactsView};
use crate::app::handlers::handled;
use crate::app::membership::{self, AnnounceView};
use crate::app::messages::MessageView;
use crate::app::moderation;
use crate::app::rooms;
use crate::app::{AppView, RoomView};
use crate::crypto::passphrase;
use crate::crypto::{dm, pqc, primitives};
use crate::error::ErrorView;
use crate::identity::IdentityView;
use crate::text;
use vstd::prelude::*;

verus! {

/// What the announcement of a member says.
spec fn said(msg: MessageView) -> AnnounceView {
    AnnounceView {
        sender: msg->MemberAnnounce_sender_fingerprint,
        wrapped_session_key: msg->wrapped_session_key,
        display_name: msg->MemberAnnounce_display_name,
        ed25519: msg->MemberAnnounce_sender_ed25519_pubkey,
        mlkem: msg->sender_mlkem_pubkey,
        ciphertext: msg->mlkem_ciphertext,
        capabilities: msg->capabilities,
    }
}

/// A member announces themselves in a room that we are in, and nothing speaks against them: they signed it,
/// are not banned, are verified where that is asked for, and are not a third in a chat between two.
pub open spec fn welcome(app: AppView, f: FactsView, e: EnvelopeView, sender: Seq<char>) -> bool {
    &&& sender != app.our_fp()
    &&& e.signer == Some(sender)
    &&& !f.banned.contains(sender)
    &&& f.verified_only ==> f.subject_verified
    &&& app.rooms.dom().contains(e.room_id)
    &&& app.rooms[e.room_id].info.kind == RoomKind::Direct ==> app.rooms[e.room_id].members.contains(
        sender,
    ) || app.rooms[e.room_id].members.len() < 2
}

proof fn lemma_direct_announce(
    app: AppView,
    f: FactsView,
    e: EnvelopeView,
    msg: MessageView,
    after: AppView,
    eff: Seq<EffectView>,
) -> (r: (RoomView, RoomView))
    requires
        handled(app, f, e, msg, after, eff),
        msg is MemberAnnounce,
        welcome(app, f, e, msg->MemberAnnounce_sender_fingerprint),
        app.rooms[e.room_id].info.kind == RoomKind::Direct,
    ensures
        ({
            let m = said(msg);
            let room = app.rooms[e.room_id];
            let (joined, keyed) = r;
            let step = dm_key::dm_step(
                joined,
                app.identity,
                e.room_id,
                m.sender,
                membership::partner_keys(f, m),
            );
            &&& joined == (RoomView { members: room.members.insert(m.sender), ..room })
            &&& dm_key::dm_applied(joined, step.1, e.now, keyed)
            &&& after.rooms.dom().contains(e.room_id)
            &&& after.rooms[e.room_id] == membership::session_taken(
                keyed,
                m.sender,
                m.wrapped_session_key,
                e.now,
            )
            &&& step.0 == DmKeyOutcome::ReBroadcast ==> eff.len() > 0 && eff.last()
                == (EffectView::AnnounceMember { room_id: e.room_id, delay_ms: 0 })
            &&& step.0 == DmKeyOutcome::ReBroadcast && joined.key is Some && keyed.crypto is Some
                ==> eff.len() > 1 && eff[eff.len() - 2] == membership::rotation_state(
                keyed.crypto->0,
            )
        }),
{
    let m = said(msg);
    let heard = app.capabilities_heard(e, m);
    let room = app.rooms[e.room_id];
    let joined = RoomView { members: room.members.insert(m.sender), ..room };
    assert(heard.announce_admitted(f, e, m.sender));
    assert(!heard.announce_refused(f, e, m.sender));
    let step = dm_key::dm_step(
        joined,
        heard.identity,
        e.room_id,
        m.sender,
        membership::partner_keys(f, m),
    );
    let stored = membership::member_stored(
        e.room_id,
        m,
        !room.members.contains(m.sender),
        e.now,
    );
    let keyed = choose|keyed: RoomView| #[trigger]
        dm_key::dm_applied(joined, step.1, e.now, keyed) && ({
            let there = heard.with_room(
                e.room_id,
                membership::session_taken(keyed, m.sender, m.wrapped_session_key, e.now),
            );
            match step.0 {
                DmKeyOutcome::ReBroadcast => after == there && eff == stored + (
                if joined.key is Some && keyed.crypto is Some {
                    seq![membership::rotation_state(keyed.crypto->0)]
                } else {
                    Seq::empty()
                }) + seq![EffectView::AnnounceMember { room_id: e.room_id, delay_ms: 0 }],
                DmKeyOutcome::RequestCiphertext => after == there.keys_wanted(e.room_id, e.now).0
                    && eff == stored + there.keys_wanted(e.room_id, e.now).1,
                DmKeyOutcome::Noop => after == there && eff == stored,
            }
        });
    (joined, keyed)
}

/// Whenever an announcement gives a chat between two another key, we announce ourselves in it: the partner
/// gets what they need to come to the same key, and our session under it. A key takes the place of another
/// only as a hybrid one, and with a session that was never used under the old key.
pub proof fn law_new_keys_are_announced(
    app: AppView,
    f: FactsView,
    e: EnvelopeView,
    msg: MessageView,
    after: AppView,
    eff: Seq<EffectView>,
)
    requires
        handled(app, f, e, msg, after, eff),
        msg is MemberAnnounce,
        app.rooms.dom().contains(e.room_id),
        app.rooms[e.room_id].info.kind == RoomKind::Direct,
    ensures
        after.rooms.dom().contains(e.room_id),
        ({
            let old_room = app.rooms[e.room_id];
            let new_room = after.rooms[e.room_id];
            &&& new_room.key != old_room.key ==> eff.contains(
                EffectView::AnnounceMember { room_id: e.room_id, delay_ms: 0 },
            )
            &&& old_room.key is Some ==> new_room.key is Some
            &&& old_room.key is Some && new_room.key != old_room.key ==> new_room.is_hybrid
            &&& old_room.key is Some && new_room.key != old_room.key && old_room.crypto is Some
                ==> new_room.crypto is Some && new_room.crypto->0.is_unused() && writes(
                eff,
                WriteView::RotationState {
                    room_id: old_room.crypto->0.room_id,
                    fingerprint: old_room.crypto->0.our_fingerprint,
                    messages_since_rotation: 0,
                    last_rotation_at: e.now,
                },
            )
            &&& new_room.info == old_room.info
        }),
{
    let sender = msg->MemberAnnounce_sender_fingerprint;
    let m = said(msg);
    let heard = app.capabilities_heard(e, m);
    if welcome(app, f, e, sender) {
        let (joined, keyed) = lemma_direct_announce(app, f, e, msg, after, eff);
        let d = dm_key::dm_step(
            joined,
            app.identity,
            e.room_id,
            m.sender,
            membership::partner_keys(f, m),
        ).1;
        if d is Some {
            assert(eff[eff.len() - 1] == EffectView::AnnounceMember {
                room_id: e.room_id,
                delay_ms: 0,
            });
            if joined.key is Some {
                let pickle = choose|pickle: Seq<char>|
                    keyed == joined.keyed(
                        d->0,
                        #[trigger] dm_key::crypto_rotated(joined.crypto, pickle, e.now),
                    );
                assert(keyed == joined.keyed(
                    d->0,
                    dm_key::crypto_rotated(joined.crypto, pickle, e.now),
                ));
                if joined.crypto is Some {
                    assert(written(eff[eff.len() - 2]) is Some);
                }
            }
        }
    } else {
        assert(!heard.announce_admitted(f, e, sender));
    }
}

/// Two peers who each know the other's announcement come to one hybrid key: the one whose fingerprint is
/// the smaller takes the other's announcement, and the other takes the announcement that follows. Where the
/// session keys travel with it, the second reads the first from then on.
pub proof fn law_two_peers_come_to_one_key(
    a: AppView,
    b: AppView,
    room_id: Seq<char>,
    name: Option<Seq<char>>,
    from_b: MessageView,
    fa: FactsView,
    ea: EnvelopeView,
    a2: AppView,
    eff_a: Seq<EffectView>,
    from_a: MessageView,
    fb: FactsView,
    eb: EnvelopeView,
    b2: AppView,
    eff_b: Seq<EffectView>,
)
    requires
        a.wf() && b.wf() && a.identity.wf() && b.identity.wf(),
        text::text_lt(a.our_fp(), b.our_fp()),
        a.rooms.dom().contains(room_id) && b.rooms.dom().contains(room_id),
        a.rooms[room_id].info.kind == RoomKind::Direct && a.rooms[room_id].info.encrypted,
        b.rooms[room_id].info.kind == RoomKind::Direct && b.rooms[room_id].info.encrypted,
        a.rooms[room_id].key is None,
        !(b.rooms[room_id].key is Some && b.rooms[room_id].is_hybrid),
        rooms::announce_made(b, room_id, name, Ok(from_b)),
        ea.room_id == room_id,
        welcome(a, fa, ea, b.our_fp()),
        handled(a, fa, ea, from_b, a2, eff_a),
        rooms::announce_made(a2, room_id, name, Ok(from_a)),
        eb.room_id == room_id,
        welcome(b, fb, eb, a.our_fp()),
        handled(b, fb, eb, from_a, b2, eff_b),
        ({
            let b_kem = pqc::mlkem_seed(b.identity.seed);
            let ek = primitives::mlkem_public(b_kem);
            let a_ek = primitives::mlkem_public(pqc::mlkem_seed(a.identity.seed));
            let sent_out = pqc::encapsulated(ek, dm::kem_message(a.identity.seed, ek, room_id));
            &&& sent_out is Ok
            &&& pqc::decapsulated(b_kem, sent_out->Ok_0.0) == Ok::<Seq<u8>, ErrorView>(
                sent_out->Ok_0.1,
            )
            &&& a_ek.len() == pqc::MLKEM_EK_LEN
            &&& reads_back(ek) && reads_back(a_ek) && reads_back(sent_out->Ok_0.0)
            &&& reads_back(a.identity.public) && reads_back(b.identity.public)
        }),
    ensures
        a2.rooms.dom().contains(room_id) && b2.rooms.dom().contains(room_id),
        a2.rooms[room_id].key is Some,
        b2.rooms[room_id].key == a2.rooms[room_id].key,
        a2.rooms[room_id].is_hybrid && b2.rooms[room_id].is_hybrid,
        eff_a.contains(EffectView::AnnounceMember { room_id, delay_ms: 0 }),
        eff_b.contains(EffectView::AnnounceMember { room_id, delay_ms: 0 }),
        a2.rooms[room_id].members.contains(b.our_fp()),
        b2.rooms[room_id].members.contains(a.our_fp()),
        b2.crypto_of(room_id) is Some,
        b2.crypto_of(room_id)->0.holds(a.our_fp(), a2.rooms[room_id].crypto->0),
{
    broadcast use vstd::utf8::encode_utf8_valid_utf8, vstd::utf8::encode_utf8_decode_utf8;

    let b_kem = pqc::mlkem_seed(b.identity.seed);
    let ek = primitives::mlkem_public(b_kem);
    let (joined_a, keyed_a) = lemma_direct_announce(a, fa, ea, from_b, a2, eff_a);
    dm::law_hybrid_keys_agree(a.identity, b.identity, room_id);
    dm::law_shared_secret_is_commutative(a.identity, b.identity);
    text::lemma_text_order(a.our_fp(), b.our_fp());
    let sent_out = dm::hybrid_initiator(a.identity.seed, b.identity.public, ek, room_id);
    assert(sent_out is Ok);
    let keys_a = membership::partner_keys(fa, said(from_b));
    assert(dm_key::decoded_to(keys_a.ed25519, 32) == Some(b.identity.public));
    assert(dm_key::decoded_to(keys_a.ek(), pqc::MLKEM_EK_LEN as nat) == Some(ek));
    let step_a = dm_key::dm_step(joined_a, a.identity, room_id, b.our_fp(), keys_a);
    assert(step_a.1 is Some && step_a.1->0.hybrid && step_a.1->0.key == sent_out->Ok_0.0);
    assert(eff_a[eff_a.len() - 1] == EffectView::AnnounceMember { room_id, delay_ms: 0 });
    assert(a2.rooms[room_id].key == Some(sent_out->Ok_0.0));
    assert(a2.rooms[room_id].kem_ciphertext == Some(
        primitives::base64_text(sent_out->Ok_0.1),
    ));
    assert(a2.identity == a.identity);
    let (joined_b, keyed_b) = lemma_direct_announce(b, fb, eb, from_a, b2, eff_b);
    let keys_b = membership::partner_keys(fb, said(from_a));
    assert(dm_key::decoded_to(keys_b.ed25519, 32) == Some(a.identity.public));
    assert(dm_key::decoded(keys_b.ciphertext) == Some(sent_out->Ok_0.1));
    let step_b = dm_key::dm_step(joined_b, b.identity, room_id, a.our_fp(), keys_b);
    assert(step_b.1 is Some && step_b.1->0.hybrid && step_b.1->0.key == sent_out->Ok_0.0);
    assert(eff_b[eff_b.len() - 1] == EffectView::AnnounceMember { room_id, delay_ms: 0 });
    if joined_b.key is Some {
        let pickle = choose|pickle: Seq<char>|
            keyed_b == joined_b.keyed(
                step_b.1->0,
                #[trigger] dm_key::crypto_rotated(joined_b.crypto, pickle, eb.now),
            );
        assert(keyed_b == joined_b.keyed(
            step_b.1->0,
            dm_key::crypto_rotated(joined_b.crypto, pickle, eb.now),
        ));
    }
    let from = a2.rooms[room_id].crypto->0;
    let plain = vstd::utf8::encode_utf8(from.session_key());
    assert(vstd::utf8::decode_utf8(plain) == from.session_key());
    assert(b.rooms[room_id].wf());
    let c = keyed_b.crypto->0;
    lemma_taken(c, a.our_fp(), from, eb.now);
}

/// Whoever takes in a session key that can be shared reads its sender, whatever other sessions are in order.
proof fn lemma_taken(
    c: crate::crypto::megolm::RoomCryptoView,
    sender: Seq<char>,
    from: crate::crypto::megolm::RoomCryptoView,
    now: i64,
)
    requires
        c.wf(),
        from.is_shareable(),
    ensures
        crate::crypto::megolm::megolm_imported(from.session_key(), c.persist_key) is Ok,
        c.with_inbound(
            sender,
            crate::crypto::megolm::megolm_imported(from.session_key(), c.persist_key)->Ok_0.1,
            crate::crypto::megolm::megolm_imported(from.session_key(), c.persist_key)->Ok_0.0,
            now,
        ).holds(sender, from),
{
    crate::crypto::megolm::law_session_keys_are_handed_over(c, sender, from, now);
}

/// With an older peer, who speaks no ML-KEM and never did, we come to the classical key, which is the key that
/// the peer derives from our public key; and we announce ourselves under it. It is derived once.
pub proof fn law_older_peers_share_the_classical_key(
    a: AppView,
    peer: IdentityView,
    f: FactsView,
    e: EnvelopeView,
    msg: MessageView,
    a2: AppView,
    eff: Seq<EffectView>,
)
    requires
        a.identity.wf() && peer.wf(),
        msg is MemberAnnounce,
        msg->MemberAnnounce_sender_fingerprint == peer.fingerprint,
        msg->MemberAnnounce_sender_ed25519_pubkey == Some(primitives::base64_text(peer.public)),
        msg->sender_mlkem_pubkey is None,
        reads_back(peer.public),
        f.subject_mlkem_pubkey is None,
        !f.subject_pq_verified,
        welcome(a, f, e, peer.fingerprint),
        a.rooms[e.room_id].info.kind == RoomKind::Direct,
        handled(a, f, e, msg, a2, eff),
    ensures
        a2.rooms.dom().contains(e.room_id),
        a.rooms[e.room_id].key is None ==> {
            &&& a2.rooms[e.room_id].key is Some
            &&& dm::dm_key(peer.seed, a.identity.public, e.room_id) == Ok::<Seq<u8>, ErrorView>(
                a2.rooms[e.room_id].key->0,
            )
            &&& !a2.rooms[e.room_id].is_hybrid
            &&& eff.contains(EffectView::AnnounceMember { room_id: e.room_id, delay_ms: 0 })
        },
        a.rooms[e.room_id].key is Some ==> a2.rooms[e.room_id].key == a.rooms[e.room_id].key
            && a2.rooms[e.room_id].is_hybrid == a.rooms[e.room_id].is_hybrid,
{
    let (joined, keyed) = lemma_direct_announce(a, f, e, msg, a2, eff);
    dm::law_dm_key_is_commutative(a.identity, peer, e.room_id);
    let keys = membership::partner_keys(f, said(msg));
    assert(dm_key::decoded_to(keys.ed25519, 32) == Some(peer.public));
    let step = dm_key::dm_step(joined, a.identity, e.room_id, peer.fingerprint, keys);
    if a.rooms[e.room_id].key is None {
        assert(step.1 is Some);
        assert(eff[eff.len() - 1] == EffectView::AnnounceMember {
            room_id: e.room_id,
            delay_ms: 0,
        });
    }
}

/// Whoever has to decapsulate and was sent nothing to decapsulate asks for it, unless they asked a moment ago;
/// and the partner, asked, announces themselves again, unless they did so a moment ago.
pub proof fn law_missing_ciphertexts_are_asked_for(
    b: AppView,
    f: FactsView,
    e: EnvelopeView,
    msg: MessageView,
    b2: AppView,
    eff: Seq<EffectView>,
    a: AppView,
    fa: FactsView,
    ea: EnvelopeView,
    a2: AppView,
    eff_a: Seq<EffectView>,
)
    requires
        msg is MemberAnnounce,
        msg->mlkem_ciphertext is None,
        msg->sender_mlkem_pubkey is Some || f.subject_mlkem_pubkey is Some || f.subject_pq_verified,
        dm_key::decoded_to(msg->MemberAnnounce_sender_ed25519_pubkey, 32) is Some,
        welcome(b, f, e, msg->MemberAnnounce_sender_fingerprint),
        !text::text_lt(b.our_fp(), msg->MemberAnnounce_sender_fingerprint),
        b.rooms[e.room_id].info.kind == RoomKind::Direct,
        !(b.rooms[e.room_id].key is Some && b.rooms[e.room_id].is_hybrid),
        e.now >= 15,
        handled(b, f, e, msg, b2, eff),
        handled(
            a,
            fa,
            ea,
            MessageView::SessionKeyRequest { requester_fingerprint: b.our_fp() },
            a2,
            eff_a,
        ),
        a.our_fp() != b.our_fp(),
        ea.now >= 10,
    ensures
        !(b.key_requests.dom().contains(e.room_id) && e.now - b.key_requests[e.room_id] < 15)
            ==> eff.contains(EffectView::RequestKeys { room_id: e.room_id, delay_ms: 0 }),
        b2.rooms[e.room_id].key == b.rooms[e.room_id].key,
        !(a.answers.dom().contains(ea.room_id) && ea.now - a.answers[ea.room_id] < 10) ==> eff_a
            == seq![EffectView::AnnounceMember { room_id: ea.room_id, delay_ms: 0 }]
            && a2.answers.dom().contains(ea.room_id) && a2.answers[ea.room_id] == ea.now,
        a.answers.dom().contains(ea.room_id) && ea.now - a.answers[ea.room_id] < 10 ==> eff_a
            == Seq::<EffectView>::empty() && a2 == a,
        a2.rooms == a.rooms,
{
    let m = said(msg);
    let heard = b.capabilities_heard(e, m);
    let room = b.rooms[e.room_id];
    let joined = RoomView { members: room.members.insert(m.sender), ..room };
    assert(heard.announce_admitted(f, e, m.sender));
    assert(!heard.announce_refused(f, e, m.sender));
    let keys = membership::partner_keys(f, m);
    let step = dm_key::dm_step(joined, heard.identity, e.room_id, m.sender, keys);
    assert(step.0 == DmKeyOutcome::RequestCiphertext && step.1 is None);
    let stored = membership::member_stored(
        e.room_id,
        m,
        !room.members.contains(m.sender),
        e.now,
    );
    let keyed = choose|keyed: RoomView| #[trigger]
        dm_key::dm_applied(joined, step.1, e.now, keyed) && ({
            let there = heard.with_room(
                e.room_id,
                membership::session_taken(keyed, m.sender, m.wrapped_session_key, e.now),
            );
            b2 == there.keys_wanted(e.room_id, e.now).0 && eff == stored + there.keys_wanted(
                e.room_id,
                e.now,
            ).1
        });
    let there = heard.with_room(
        e.room_id,
        membership::session_taken(keyed, m.sender, m.wrapped_session_key, e.now),
    );
    if !(b.key_requests.dom().contains(e.room_id) && e.now - b.key_requests[e.room_id] < 15) {
        assert(there.keys_wanted(e.room_id, e.now).1 == seq![
            EffectView::RequestKeys { room_id: e.room_id, delay_ms: 0 },
        ]);
        assert(eff[eff.len() - 1] == EffectView::RequestKeys {
            room_id: e.room_id,
            delay_ms: 0,
        });
    }
}

/// A rotation brings every member who knows the new passphrase to the same key: what the rotator sends makes
/// every other member ask for the passphrase with the salt of the new key, and whoever accepts with that salt
/// and the passphrase has the rotator's key and salt, stores them, asks for the sessions under them, and
/// announces their own.
pub proof fn law_rotations_reach_the_same_key(
    a: AppView,
    room_id: Seq<char>,
    new_passphrase: Seq<char>,
    salt: Seq<u8>,
    a2: AppView,
    out: Seq<EffectView>,
    msg: MessageView,
    b: AppView,
    f: FactsView,
    e: EnvelopeView,
    b2: AppView,
    eff: Seq<EffectView>,
    b3: AppView,
    accepted: Result<Seq<EffectView>, ErrorView>,
    told: EventView,
)
    requires
        chat::room_rotated(a, room_id, new_passphrase, salt, a2, Ok(out)),
        exists|i: int| 0 <= i < out.len() && sent(#[trigger] out[i]) == Some((room_id, msg)),
        handled(b, f, e, msg, b2, eff),
        e.room_id == room_id,
        e.signer == Some(a.our_fp()),
        a.our_fp() != b.our_fp(),
        b.rooms.dom().contains(room_id),
        shows(eff, told),
        b2.rotation_accepted(room_id, told->new_salt, new_passphrase) == (b3, accepted),
    ensures
        msg matches MessageView::RotateRoomKey { new_salt, .. } && new_salt == salt,
        told == (EventView::RotationRequested {
            room_id,
            rotator_fingerprint: a.our_fp(),
            new_salt: salt,
        }),
        b2 == b,
        a2.rooms.dom().contains(room_id) && b3.rooms.dom().contains(room_id),
        a2.rooms[room_id].key is Some,
        passphrase::key_of(new_passphrase, salt) == Ok::<Seq<u8>, ErrorView>(
            a2.rooms[room_id].key->0,
        ),
        b3.rooms[room_id].key == a2.rooms[room_id].key,
        a2.rooms[room_id].info.passphrase_salt == Some(salt),
        b3.rooms[room_id].info.passphrase_salt == Some(salt),
        writes(out, WriteView::Room(a2.rooms[room_id].info)),
        out.contains(EffectView::AnnounceMember { room_id, delay_ms: 0 }),
        a2.rooms[room_id].crypto is Some && a2.rooms[room_id].crypto->0.is_unused(),
        a2.rooms[room_id].members == a.rooms[room_id].members,
        b3.rooms[room_id].members == b.rooms[room_id].members,
        b3.rooms[room_id].crypto == b.rooms[room_id].crypto,
        !a2.answers.dom().contains(room_id) && !b3.answers.dom().contains(room_id),
        accepted matches Ok(more) && {
            &&& writes(more, WriteView::Room(b3.rooms[room_id].info))
            &&& more.contains(EffectView::RequestKeys { room_id, delay_ms: 0 })
            &&& more.contains(EffectView::AnnounceMember { room_id, delay_ms: 0 })
        },
{
    let c = choose|c: crate::crypto::megolm::RoomCryptoView| #[trigger]
        rooms::fresh_crypto(c, room_id, a.our_fp(), a.persist_key) && a2 == a.rekeyed(
            room_id,
            passphrase::key_of(new_passphrase, salt)->Ok_0,
            salt,
            Some(c),
        ) && out == seq![
            membership::rotation_state(c),
            EffectView::PublishSigned {
                room_id,
                message: MessageView::RotateRoomKey {
                    rotator_fingerprint: a.our_fp(),
                    new_salt: salt,
                    room_id: Some(room_id),
                },
            },
            EffectView::AnnounceMember { room_id, delay_ms: 0 },
            EffectView::MustStore(WriteView::Room(a2.rooms[room_id].info)),
        ];
    let k = choose|k: int| 0 <= k < out.len() && sent(#[trigger] out[k]) == Some((room_id, msg));
    assert(k == 1);
    let j = choose|j: int| 0 <= j < eff.len() && super::shown(#[trigger] eff[j]) == Some(told);
    assert(j == 0);
    assert(written(out[3]) is Some);
    assert(out[2] == EffectView::AnnounceMember { room_id, delay_ms: 0 });
    let more = accepted->Ok_0;
    assert(more[0] == EffectView::RequestKeys { room_id, delay_ms: 0 });
    assert(more[1] == EffectView::AnnounceMember { room_id, delay_ms: 0 });
    assert(written(more[2]) is Some);
}

/// A rotation is asked about by whoever hears of it: the one event that it causes names the room and the
/// rotator and carries the salt as it was sent.
pub proof fn law_rotations_are_asked_about(
    app: AppView,
    f: FactsView,
    e: EnvelopeView,
    rotator: Seq<char>,
    salt: Seq<u8>,
    claimed: Option<Seq<char>>,
    after: AppView,
    eff: Seq<EffectView>,
)
    requires
        handled(
            app,
            f,
            e,
            MessageView::RotateRoomKey {
                rotator_fingerprint: rotator,
                new_salt: salt,
                room_id: claimed,
            },
            after,
            eff,
        ),
        e.signer == Some(rotator),
        rotator != app.our_fp(),
        claimed is None || claimed == Some(e.room_id),
    ensures
        after == app,
        eff.len() == 1,
        shows(
            eff,
            EventView::RotationRequested {
                room_id: e.room_id,
                rotator_fingerprint: rotator,
                new_salt: salt,
            },
        ),
{
    assert(super::shown(eff[0]) is Some);
}

/// Whoever is kicked is out: no member of the room any more, banned by us for everybody, and, in an encrypted
/// room, without the passphrase that the room moves to. Only the passphrase that comes back makes the new key.
pub proof fn law_kicked_members_are_out(
    a: AppView,
    f: FactsView,
    room_id: Seq<char>,
    target: Seq<char>,
    now: i64,
    a2: AppView,
    r: Result<(Seq<char>, Seq<EffectView>), ErrorView>,
)
    requires
        moderation::member_kicked(a, f, room_id, target, now, a2, r),
    ensures
        r is Ok ==> f.owners.contains(a.our_fp()) && !f.banned.contains(a.our_fp()) && target
            != a.our_fp() && a.rooms.dom().contains(room_id),
        r is Err ==> a2 == a,
        f.owners.contains(a.our_fp()) && !f.banned.contains(a.our_fp()) && target != a.our_fp()
            && a.rooms.dom().contains(room_id) ==> r is Ok,
        r matches Ok(k) ==> {
            &&& a2.rooms.dom().contains(room_id)
            &&& a2.rooms[room_id].members == a.rooms[room_id].members.remove(target)
            &&& k.1.contains(
                EffectView::PublishBan {
                    room_id,
                    fingerprint: target,
                    banned_by: a.our_fp(),
                    banned_at: now,
                },
            )
            &&& shows(k.1, EventView::MemberLeft { room_id, fingerprint: target })
            &&& !a.rooms[room_id].info.encrypted ==> k.0.len() == 0 && a2.rooms[room_id].key
                == a.rooms[room_id].key
            &&& a.rooms[room_id].info.encrypted ==> {
                &&& a2.rooms[room_id].info.passphrase_salt is Some
                &&& a2.rooms[room_id].key is Some
                &&& passphrase::key_of(k.0, a2.rooms[room_id].info.passphrase_salt->0) == Ok::<
                    Seq<u8>,
                    ErrorView,
                >(a2.rooms[room_id].key->0)
                &&& super::sends(
                    k.1,
                    room_id,
                    MessageView::RotateRoomKey {
                        rotator_fingerprint: a.our_fp(),
                        new_salt: a2.rooms[room_id].info.passphrase_salt->0,
                        room_id: Some(room_id),
                    },
                )
                &&& k.1.contains(EffectView::AnnounceMember { room_id, delay_ms: 0 })
                &&& writes(k.1, WriteView::Room(a2.rooms[room_id].info))
                &&& a2.rooms[room_id].crypto is Some && a2.rooms[room_id].crypto->0.is_unused()
            }
        },
{
    reveal_strlit("");
    if r is Ok {
        let k = r->Ok_0;
        let banned = moderation::ban_effects(a.our_fp(), room_id, target, now);
        let left = a.without_member(room_id, target);
        if a.rooms[room_id].info.encrypted {
            let (p, salt, more) = choose|p: Seq<char>, salt: Seq<u8>, more: Seq<EffectView>| #[trigger]
                moderation::moved_away(left, room_id, p, salt, a2, more) && r == Ok::<
                    (Seq<char>, Seq<EffectView>),
                    ErrorView,
                >((p, banned + more));
            assert(chat::room_rotated(left, room_id, p, salt, a2, Ok(more)));
            assert(k.1 == banned + more);
            assert(k.1[2] == more[0] && k.1[3] == more[1] && k.1[4] == more[2] && k.1[5]
                == more[3]);
            assert(sent(k.1[3]) is Some);
            assert(k.1[4] == EffectView::AnnounceMember { room_id, delay_ms: 0 });
            assert(written(k.1[5]) is Some);
        }
        assert(k.1[0] == banned[0] && k.1[1] == banned[1]);
        assert(super::shown(k.1[1]) is Some);
    }
}

/// Whoever asks for our session in a room gets it: we announce ourselves there, unless we did so on request within
/// the last ten seconds, or it is ourselves who ask.
pub proof fn law_requests_for_keys_are_answered(
    app: AppView,
    f: FactsView,
    e: EnvelopeView,
    requester: Seq<char>,
    after: AppView,
    eff: Seq<EffectView>,
)
    requires
        handled(
            app,
            f,
            e,
            MessageView::SessionKeyRequest { requester_fingerprint: requester },
            after,
            eff,
        ),
        e.now >= 10,
    ensures
        ({
            let lately = app.answers.dom().contains(e.room_id) && e.now - app.answers[e.room_id]
                < 10;
            let answered = requester != app.our_fp() && !lately;
            &&& eff.contains(EffectView::AnnounceMember { room_id: e.room_id, delay_ms: 0 })
                <==> answered
            &&& answered ==> after.answers.dom().contains(e.room_id) && after.answers[e.room_id]
                == e.now
            &&& !answered ==> after == app && eff.len() == 0
            &&& after.rooms == app.rooms
            &&& forall|w: WriteView| !#[trigger] writes(eff, w)
        }),
{
    if eff.len() > 0 {
        assert(eff[0] == EffectView::AnnounceMember { room_id: e.room_id, delay_ms: 0 });
    }
}

/// What a member says in their announcement that they can do is remembered of them, and of nobody else, if they
/// signed it.
pub proof fn law_announced_capabilities_are_heard(
    app: AppView,
    f: FactsView,
    e: EnvelopeView,
    msg: MessageView,
    after: AppView,
    eff: Seq<EffectView>,
    other: Seq<char>,
)
    requires
        handled(app, f, e, msg, after, eff),
        msg is MemberAnnounce,
        msg->MemberAnnounce_sender_fingerprint != app.our_fp(),
    ensures
        ({
            let sender = msg->MemberAnnounce_sender_fingerprint;
            &&& e.signer == Some(sender) ==> after.capabilities_of(sender) == app.capabilities_of(
                sender,
            ) | msg->capabilities
            &&& e.signer != Some(sender) ==> after.capabilities_of(sender) == app.capabilities_of(
                sender,
            )
            &&& other != sender ==> after.capabilities_of(other) == app.capabilities_of(other)
        }),
{
    let m = said(msg);
    let heard = app.capabilities_heard(e, m);
    assert(after.capabilities == heard.capabilities);
}

} // verus!
