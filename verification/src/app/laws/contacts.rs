//! Contacts: how two peers come to know each other, and what is kept of that.
use super::{reads_back, shown, shows, writes, written};
use crate::app::contacts::{self, ContactFactsView, ContactShown, InviteRoomView};
use crate::app::effects::{EffectView, WriteView};
use crate::app::events::{EventView, RoomKind};
use crate::app::facts::{EnvelopeView, FactsView};
use crate::app::handlers::handled;
use crate::app::messages::MessageView;
use crate::app::records::{
    ContactRow, KnownPeerView, PendingContactView, PendingFriendView, StoredRoomView,
};
use crate::app::rooms::PlanView;
use crate::app::{addresses, ids, AppView};
use crate::crypto::primitives;
use crate::error::ErrorView;
use crate::identity;
use vstd::prelude::*;

verus! {

/// One of the effects sends this message to the inbox of this peer.
pub open spec fn sends_direct(eff: Seq<EffectView>, target: Seq<char>, message: MessageView) -> bool {
    eff.contains(EffectView::PublishDirect { target_fingerprint: target, message })
}

/// Somebody is stored as a contact, with the chat that both have.
pub open spec fn keeps_contact(
    eff: Seq<EffectView>,
    ours: Seq<char>,
    fingerprint: Seq<char>,
    source: Seq<char>,
    pubkey_b64: Option<Seq<char>>,
    now: i64,
) -> bool {
    exists|c: ContactRow|
        #![trigger writes(eff, WriteView::Contact(c))]
        writes(eff, WriteView::Contact(c)) && c.fingerprint == fingerprint && c.ed25519_pubkey
            == pubkey_b64 && c.dm_room_id == Some(ids::dm_room_id(ours, fingerprint)) && c.added_at
            == now && c.last_seen == Some(now) && c.alias is None && c.note is None && c.source
            == source && eff.contains(
            EffectView::RegisterDm {
                room_id: ids::dm_room_id(ours, fingerprint),
                partner_fingerprint: fingerprint,
            },
        )
}

/// What one peer asks, the other is asked: the request reaches them with the name and the note that came with
/// it, is stored, and is shown. Whoever asks has the other as a contact from then on. Whoever is asked by a
/// contact opens the chat, and is asked nothing; whoever is blocked asks in vain.
pub proof fn law_contact_requests_travel(
    a: AppView,
    target: Seq<char>,
    note: Option<Seq<char>>,
    name: Option<Seq<char>>,
    pubkey_b64: Option<Seq<char>>,
    now: i64,
    msg: MessageView,
    b: AppView,
    f: FactsView,
    e: EnvelopeView,
    b2: AppView,
    eff: Seq<EffectView>,
)
    requires
        a.contact_requested(target, note, name, pubkey_b64, now) is Ok,
        target.len() > 0,
        sends_direct(a.contact_requested(target, note, name, pubkey_b64, now)->Ok_0, target, msg),
        b.our_fp() == target,
        handled(b, f, e, msg, b2, eff),
        e.room_id == f.inbox_room_id,
        e.signer == Some(a.our_fp()),
    ensures
        a.our_fp() != target,
        b2 == b,
        keeps_contact(
            a.contact_requested(target, note, name, pubkey_b64, now)->Ok_0,
            a.our_fp(),
            target,
            "request-sent"@,
            pubkey_b64,
            now,
        ),
        f.subject_blocked ==> eff.len() == 0,
        !f.subject_blocked && !f.subject_is_contact ==> {
            &&& writes(
                eff,
                WriteView::PendingContact(
                    PendingContactView {
                        fingerprint: a.our_fp(),
                        display_name: name,
                        note,
                        received_at: e.now,
                    },
                ),
            )
            &&& shows(
                eff,
                EventView::ContactRequestReceived {
                    fingerprint: a.our_fp(),
                    display_name: name,
                    note,
                },
            )
            &&& writes(
                eff,
                WriteView::Journal {
                    kind: "contact_request"@,
                    detail: "from="@ + a.our_fp(),
                    at: e.now,
                },
            )
            &&& !eff.contains(EffectView::StartDirect { partner_fingerprint: a.our_fp() })
        },
        !f.subject_blocked && f.subject_is_contact ==> {
            &&& eff.contains(EffectView::StartDirect { partner_fingerprint: a.our_fp() })
            &&& writes(eff, WriteView::DeletePendingContact { fingerprint: a.our_fp() })
            &&& forall|i: int|
                0 <= i < eff.len() ==> shown(#[trigger] eff[i]) is None && !(eff[i] is MustStore)
        },
{
    let out = a.contact_requested(target, note, name, pubkey_b64, now)->Ok_0;
    lemma_contact_kept(a, target, "request-sent"@, pubkey_b64, now, false, out, 0);
    if !f.subject_blocked {
        assert(written(eff[0]) is Some);
        if f.subject_is_contact {
            assert(eff[1] == EffectView::StartDirect { partner_fingerprint: a.our_fp() });
        } else {
            assert(written(eff[1]) is Some);
            assert(shown(eff[2]) is Some);
        }
    }
}

/// Every peer but ourselves can be asked, and the message goes to them.
pub proof fn law_every_peer_can_be_asked(
    a: AppView,
    target: Seq<char>,
    note: Option<Seq<char>>,
    name: Option<Seq<char>>,
    pubkey_b64: Option<Seq<char>>,
    now: i64,
)
    ensures
        a.contact_requested(target, note, name, pubkey_b64, now) is Ok <==> target != a.our_fp(),
        target != a.our_fp() ==> exists|msg: MessageView|
            sends_direct(
                a.contact_requested(target, note, name, pubkey_b64, now)->Ok_0,
                target,
                msg,
            ),
        forall|i: int, out: Seq<EffectView>|
            #![trigger out[i]]
            a.contact_requested(target, note, name, pubkey_b64, now) == Ok::<
                Seq<EffectView>,
                ErrorView,
            >(out) && 0 <= i < out.len() ==> (out[i] matches EffectView::PublishDirect {
                target_fingerprint,
                message,
            } ==> target_fingerprint == target),
{
    if target != a.our_fp() {
        let out = a.contact_requested(target, note, name, pubkey_b64, now)->Ok_0;
        assert(out.last() is PublishDirect);
        assert(out[out.len() - 1] == EffectView::PublishDirect {
            target_fingerprint: target,
            message: out.last()->PublishDirect_message,
        });
        assert(sends_direct(out, target, out.last()->PublishDirect_message));
    }
}

proof fn lemma_contact_kept(
    app: AppView,
    fingerprint: Seq<char>,
    source: Seq<char>,
    pubkey_b64: Option<Seq<char>>,
    now: i64,
    must: bool,
    eff: Seq<EffectView>,
    k: int,
)
    requires
        fingerprint != app.our_fp(),
        fingerprint.len() > 0,
        0 <= k <= eff.len() - 2,
        eff.subrange(k, k + 2) == app.contact_effects(fingerprint, source, pubkey_b64, now, must)
            || (eff[k] == app.contact_effects(fingerprint, source, pubkey_b64, now, must)[0]
            && eff[k + 1] == app.contact_effects(fingerprint, source, pubkey_b64, now, must)[1]),
    ensures
        keeps_contact(eff, app.our_fp(), fingerprint, source, pubkey_b64, now),
{
    let two = app.contact_effects(fingerprint, source, pubkey_b64, now, must);
    if eff.subrange(k, k + 2) == two {
        assert(eff.subrange(k, k + 2)[0] == eff[k]);
        assert(eff.subrange(k, k + 2)[1] == eff[k + 1]);
    }
    assert(eff[k] == two[0] && eff[k + 1] == two[1]);
    assert(written(eff[k + 1]) is Some);
    let c = written(eff[k + 1])->0->Contact_0;
    assert(writes(eff, WriteView::Contact(c)));
}

/// A request that is accepted makes both contacts of each other: who accepts stores the other, forgets the
/// request and opens the chat; who asked hears of it and opens the same chat.
pub proof fn law_accepted_requests_make_contacts(
    b: AppView,
    asker: AppView,
    name: Option<Seq<char>>,
    pubkey_b64: Option<Seq<char>>,
    now: i64,
    msg: MessageView,
    f: FactsView,
    e: EnvelopeView,
    asker2: AppView,
    eff: Seq<EffectView>,
)
    requires
        asker.our_fp() != b.our_fp(),
        asker.our_fp().len() > 0,
        sends_direct(
            b.contact_accepted(asker.our_fp(), name, pubkey_b64, now),
            asker.our_fp(),
            msg,
        ),
        handled(asker, f, e, msg, asker2, eff),
        e.room_id == f.inbox_room_id,
        e.signer == Some(b.our_fp()),
        f.subject_is_contact,
        !f.subject_blocked,
    ensures
        ({
            let out = b.contact_accepted(asker.our_fp(), name, pubkey_b64, now);
            &&& writes(out, WriteView::DeletePendingContact { fingerprint: asker.our_fp() })
            &&& keeps_contact(out, b.our_fp(), asker.our_fp(), "request"@, pubkey_b64, now)
            &&& out.contains(
                EffectView::MustStartDirect { partner_fingerprint: asker.our_fp() },
            )
        }),
        eff.contains(EffectView::StartDirect { partner_fingerprint: b.our_fp() }),
        ids::dm_room_id(b.our_fp(), asker.our_fp()) == ids::dm_room_id(
            asker.our_fp(),
            b.our_fp(),
        ),
{
    let out = b.contact_accepted(asker.our_fp(), name, pubkey_b64, now);
    let kept = b.contact_effects(asker.our_fp(), "request"@, pubkey_b64, now, true);
    assert(written(out[0]) is Some);
    assert(out[1] == kept[0] && out[2] == kept[1]);
    lemma_contact_kept(b, asker.our_fp(), "request"@, pubkey_b64, now, true, out, 1);
    assert(out[3] == EffectView::MustStartDirect { partner_fingerprint: asker.our_fp() });
    assert(eff[1] == EffectView::StartDirect { partner_fingerprint: b.our_fp() });
    crate::text::lemma_text_order(b.our_fp(), asker.our_fp());
}

/// A request that is rejected is forgotten; whoever made it is blocked if and only if the user says so.
pub proof fn law_rejected_requests_are_forgotten(fingerprint: Seq<char>, block: bool, now: i64)
    ensures
        ({
            let out = contacts::contact_rejected(fingerprint, block, now);
            &&& writes(out, WriteView::DeletePendingContact { fingerprint })
            &&& writes(out, WriteView::Block { fingerprint, blocked_at: now }) <==> block
            &&& forall|w: WriteView| #[trigger]
                writes(out, w) ==> w == (WriteView::DeletePendingContact { fingerprint }) || w == (
                WriteView::Block { fingerprint, blocked_at: now })
        }),
        ({
            let out = contacts::friend_rejected(fingerprint, now);
            &&& writes(out, WriteView::DeletePendingFriends { fingerprint })
            &&& writes(out, WriteView::Block { fingerprint, blocked_at: now })
        }),
{
    let out = contacts::contact_rejected(fingerprint, block, now);
    assert(written(out[0]) is Some);
    if block {
        assert(written(out[1]) is Some);
    }
    let other = contacts::friend_rejected(fingerprint, now);
    assert(written(other[0]) is Some && written(other[1]) is Some);
}

/// A connect code that leads to somebody else, under their own key, makes us ask them; any other leads nowhere,
/// and the user is told so.
pub proof fn law_connect_codes_lead_to_their_owner(
    app: AppView,
    owner: Seq<char>,
    pubkey: Seq<u8>,
    name: Option<Seq<char>>,
    known_pubkey_b64: Option<Seq<char>>,
    now: i64,
)
    requires
        reads_back(pubkey),
        pubkey.len() == 32,
    ensures
        ({
            let out = app.code_resolved(
                Some(owner),
                Some(primitives::base64_text(pubkey)),
                name,
                known_pubkey_b64,
                now,
            );
            let right = owner.len() > 0 && owner != app.our_fp() && identity::fingerprint_of(
                pubkey,
            ) == owner;
            &&& right ==> shows(out, EventView::ConnectCodeRedeemed { fingerprint: owner })
            &&& right ==> keeps_contact(
                out,
                app.our_fp(),
                owner,
                "request-sent"@,
                known_pubkey_b64,
                now,
            )
            &&& right ==> exists|msg: MessageView|
                #![trigger sends_direct(out, owner, msg)]
                sends_direct(out, owner, msg) && msg is ContactRequest
                    && msg->ContactRequest_requester_fingerprint == app.our_fp()
                    && msg->ContactRequest_display_name == name && msg->note is None
            &&& !right ==> out.len() == 1 && shown(out[0]) is Some && shown(out[0])->0
                is ConnectCodeFailed
        }),
        ({
            let out = app.code_resolved(None, None, name, known_pubkey_b64, now);
            out.len() == 1 && shown(out[0]) is Some && shown(out[0])->0 is ConnectCodeFailed
        }),
{
    let out = app.code_resolved(
        Some(owner),
        Some(primitives::base64_text(pubkey)),
        name,
        known_pubkey_b64,
        now,
    );
    assert(crate::app::dm_key::decoded_to(Some(primitives::base64_text(pubkey)), 32) == Some(
        pubkey,
    ));
    if owner.len() > 0 && owner != app.our_fp() && identity::fingerprint_of(pubkey) == owner {
        let kept = app.contact_effects(owner, "request-sent"@, known_pubkey_b64, now, false);
        assert(out[0] == kept[0] && out[1] == kept[1]);
        lemma_contact_kept(app, owner, "request-sent"@, known_pubkey_b64, now, false, out, 0);
        let msg = out[2]->PublishDirect_message;
        assert(out[2] == EffectView::PublishDirect { target_fingerprint: owner, message: msg });
        assert(sends_direct(out, owner, msg));
        assert(shown(out[3]) is Some);
    }
}

/// A room that an invite speaks of can be joined with its passphrase, and under the key with which it was
/// started.
pub proof fn law_invited_rooms_can_be_joined(
    a: AppView,
    room_id: Seq<char>,
    name: Seq<char>,
    encrypted: bool,
    words: Option<Seq<char>>,
    salt: Seq<u8>,
    started_at: i64,
    plan: PlanView,
    b: AppView,
    heard_at: i64,
    b2: AppView,
    stored: Option<StoredRoomView>,
    now: i64,
)
    requires
        a.room_started(room_id, name, encrypted, words, RoomKind::Group, salt, started_at) == Ok::<
            PlanView,
            ErrorView,
        >(plan),
        reads_back(salt),
        !b.rooms.dom().contains(room_id),
        b.invited(
            InviteRoomView {
                id: room_id,
                name,
                encrypted,
                salt_b64: if encrypted {
                    Some(primitives::base64_text(salt))
                } else {
                    None
                },
                creator_fingerprint: a.our_fp(),
            },
            heard_at,
            b2,
        ),
    ensures
        b2.rooms == b.rooms,
        b2.room_joined(room_id, words, stored, now) matches Ok(theirs) && theirs.key == plan.key
            && theirs.info.id == room_id && theirs.info.name == name && theirs.info.encrypted
            == encrypted && theirs.info.creator_fingerprint == a.our_fp() && theirs.info.kind
            == RoomKind::Group,
        b2.discovered[room_id].last_seen == heard_at,
        forall|other: Seq<char>|
            other != room_id && b.discovered.dom().contains(other) ==> #[trigger] b2.discovered[other]
                == b.discovered[other],
{
    if encrypted {
        assert(b2.salts.dom().contains(room_id) && b2.salts[room_id] == salt);
    }
}

/// Whoever dials us and is let in is connected; with trust they are stored as trusted, at their address, and
/// are a contact. Whoever is turned away is blocked; whoever has to wait is stored with where they called from.
pub proof fn law_callers_are_answered(
    app: AppView,
    peer_id: Seq<char>,
    fingerprint: Seq<char>,
    address: Seq<char>,
    pubkey_b64: Option<Seq<char>>,
    now: i64,
)
    ensures
        ({
            let (after, out) = app.inbound_accepted(peer_id, address);
            &&& after.connected.dom().contains(address) && after.connected[address] == peer_id
            &&& out.contains(EffectView::AcceptInbound { peer_id })
            &&& forall|w: WriteView| !#[trigger] writes(out, w)
        }),
        ({
            let (after, out) = app.inbound_trusted(peer_id, fingerprint, address, pubkey_b64, now);
            &&& after.connected.dom().contains(address) && after.connected[address] == peer_id
            &&& out.contains(EffectView::AcceptInbound { peer_id })
            &&& exists|k: KnownPeerView|
                #![trigger writes(out, WriteView::KnownPeer(k))]
                writes(out, WriteView::KnownPeer(k)) && k.address == address && k.fingerprint
                    == Some(fingerprint) && k.trusted && k.last_connected_at == Some(now)
            &&& fingerprint.len() > 0 && fingerprint != app.our_fp() ==> keeps_contact(
                out,
                app.our_fp(),
                fingerprint,
                "dial"@,
                pubkey_b64,
                now,
            )
        }),
        ({
            let out = contacts::rejection_effects(peer_id, fingerprint, now);
            &&& out.contains(EffectView::RejectInbound { peer_id })
            &&& writes(out, WriteView::Block { fingerprint, blocked_at: now })
            &&& !out.contains(EffectView::AcceptInbound { peer_id })
        }),
        writes(
            contacts::spill_effects(peer_id, fingerprint, address, now),
            WriteView::PendingFriend(
                PendingFriendView { fingerprint, address, peer_id, received_at: now },
            ),
        ),
{
    let out = app.inbound_accepted(peer_id, address).1;
    assert(out[0] == EffectView::AcceptInbound { peer_id });
    let (after, out) = app.inbound_trusted(peer_id, fingerprint, address, pubkey_b64, now);
    assert(out[0] == EffectView::AcceptInbound { peer_id });
    assert(written(out[1]) is Some);
    let k = written(out[1])->0->KnownPeer_0;
    assert(writes(out, WriteView::KnownPeer(k)));
    if fingerprint.len() > 0 && fingerprint != app.our_fp() {
        let kept = app.contact_effects(fingerprint, "dial"@, pubkey_b64, now, false);
        assert(out[2] == kept[0] && out[3] == kept[1]);
        lemma_contact_kept(app, fingerprint, "dial"@, pubkey_b64, now, false, out, 2);
    }
    let out = contacts::rejection_effects(peer_id, fingerprint, now);
    assert(out[0] == EffectView::RejectInbound { peer_id });
    assert(written(out[1]) is Some);
    assert(written(contacts::spill_effects(peer_id, fingerprint, address, now)[0]) is Some);
}

/// A request that had to wait and is accepted leads back to where it came from: the first such address of the
/// peer is stored as theirs and trusted, and is dialed if it can be.
pub proof fn law_waiting_requests_are_called_back(
    app: AppView,
    fingerprint: Seq<char>,
    pending: Seq<PendingFriendView>,
    i: int,
    pubkey_b64: Option<Seq<char>>,
    now: i64,
)
    requires
        0 <= i < pending.len(),
        pending[i].fingerprint == fingerprint,
        forall|j: int| 0 <= j < i ==> (#[trigger] pending[j]).fingerprint != fingerprint,
    ensures
        ({
            let address = pending[i].address;
            let (after, out, r) = app.friend_accepted(
                fingerprint,
                contacts::pending_address(pending, fingerprint),
                pubkey_b64,
                now,
            );
            &&& writes(out, WriteView::DeletePendingFriends { fingerprint })
            &&& exists|k: KnownPeerView|
                #![trigger writes(out, WriteView::KnownPeer(k))]
                writes(out, WriteView::KnownPeer(k)) && k.address == address && k.fingerprint
                    == Some(fingerprint) && k.trusted
            &&& fingerprint.len() > 0 && fingerprint != app.our_fp() ==> keeps_contact(
                out,
                app.our_fp(),
                fingerprint,
                "request"@,
                pubkey_b64,
                now,
            )
            &&& r is Ok <==> addresses::dial_address(address) is Ok
            &&& addresses::dial_address(address) matches Ok(m) ==> after.auto_dm.contains(m)
                && exists|k: KnownPeerView| #[trigger]
                out.contains(EffectView::Dial(k)) && k.address == m && !k.trusted && k.fingerprint
                    is None && k.last_connected_at is None
            &&& r is Err ==> after == app
        }),
{
    lemma_first_pending(pending, fingerprint, i);
    let address = pending[i].address;
    let (after, out, r) = app.friend_accepted(fingerprint, Some(address), pubkey_b64, now);
    let kept = app.contact_effects(fingerprint, "request"@, pubkey_b64, now, false);
    let n = kept.len() as int;
    assert(written(out[0]) is Some);
    if n > 0 {
        assert(out[1] == kept[0] && out[2] == kept[1]);
        lemma_contact_kept(app, fingerprint, "request"@, pubkey_b64, now, false, out, 1);
    }
    assert(written(out[n + 1]) is Some);
    let k = written(out[n + 1])->0->KnownPeer_0;
    assert(writes(out, WriteView::KnownPeer(k)));
    if addresses::dial_address(address) is Ok {
        let d = out[n + 2]->Dial_0;
        assert(out[n + 2] == EffectView::Dial(d));
        assert(out.contains(EffectView::Dial(d)));
    }
}

proof fn lemma_first_pending(pending: Seq<PendingFriendView>, fingerprint: Seq<char>, i: int)
    requires
        0 <= i < pending.len(),
        pending[i].fingerprint == fingerprint,
        forall|j: int| 0 <= j < i ==> (#[trigger] pending[j]).fingerprint != fingerprint,
    ensures
        contacts::pending_address(pending, fingerprint) == Some(pending[i].address),
    decreases i,
{
    if i > 0 {
        assert(pending[0].fingerprint != fingerprint);
        let rest = pending.skip(1);
        assert forall|j: int| 0 <= j < i - 1 implies (#[trigger] rest[j]).fingerprint
            != fingerprint by {
            assert(rest[j] == pending[j + 1]);
        }
        lemma_first_pending(rest, fingerprint, i - 1);
    }
}

/// A contact is shown as what is on disk says, with the chat that we have with them. It is reachable where there
/// is a direct connection to one of its addresses, or a relay.
pub open spec fn shown_as(
    app: AppView,
    row: ContactFactsView,
    known: Seq<KnownPeerView>,
    relay_up: bool,
    c: ContactShown,
) -> bool {
    &&& c.fingerprint == row.contact.fingerprint
    &&& c.alias == row.contact.alias
    &&& c.username == row.username
    &&& c.verified == row.verified
    &&& c.trusted == row.trusted
    &&& c.source == row.contact.source
    &&& c.added_at == row.contact.added_at
    &&& c.last_seen == row.contact.last_seen
    &&& row.contact.dm_room_id is None ==> c.dm_room_id == ids::dm_room_id(
        app.our_fp(),
        row.contact.fingerprint,
    )
    &&& row.contact.dm_room_id matches Some(id) ==> c.dm_room_id == id
    &&& c.lan_connected <==> exists|i: int|
        0 <= i < known.len() && (#[trigger] known[i]).fingerprint == Some(c.fingerprint)
            && app.connected.dom().contains(known[i].address)
    &&& c.reachable <==> c.lan_connected || relay_up
}

/// Every contact but ourselves is listed, and nobody else is, in the order of the rows.
pub proof fn law_contacts_are_listed(
    app: AppView,
    rows: Seq<ContactFactsView>,
    known: Seq<KnownPeerView>,
    relay_up: bool,
)
    ensures
        ({
            let list = contacts::listed(app, rows, known, relay_up);
            let others = rows.filter(
                |r: ContactFactsView| r.contact.fingerprint != app.our_fp(),
            );
            &&& list.len() == others.len()
            &&& forall|i: int|
                0 <= i < list.len() ==> shown_as(app, others[i], known, relay_up, #[trigger] list[i])
        }),
    decreases rows.len(),
{
    reveal(Seq::filter);
    if rows.len() > 0 {
        law_contacts_are_listed(app, rows.drop_last(), known, relay_up);
    }
}

/// A known address is shown as it is stored, and as connected exactly while it leads to somebody; an address that
/// is forgotten is not.
pub proof fn law_known_addresses_are_shown(app: AppView, p: KnownPeerView, address: Seq<char>)
    ensures
        ({
            let s = app.status_of(p);
            &&& s.address == p.address
            &&& s.label == p.label
            &&& s.last_connected_at == p.last_connected_at
            &&& s.fingerprint == p.fingerprint
            &&& s.connected_peer_id is Some <==> app.connected.dom().contains(p.address)
            &&& s.connected_peer_id matches Some(peer) ==> peer == app.connected[p.address]
        }),
{
}

/// Somebody who is dialed by their id or by a name that only they go by is dialed at all addresses that are known
/// of them: each is stored as theirs, and whoever answers gets a chat. Where none is known, nothing is done, and
/// the user is told so.
pub proof fn law_peers_are_dialed_by_name(
    app: AppView,
    input: Seq<char>,
    named: Seq<Seq<char>>,
    known: Seq<KnownPeerView>,
    now: i64,
    after: AppView,
    eff: Seq<EffectView>,
    r: Result<(), ErrorView>,
    fingerprint: Seq<char>,
    address: Seq<char>,
)
    requires
        contacts::dialed_by_name(app, input, named, known, now, after, eff, r),
        ids::fingerprint_in(crate::text::trimmed(input)) == Some(fingerprint) || (
        ids::fingerprint_in(crate::text::trimmed(input)) is None && named == seq![fingerprint]),
        crate::text::trimmed(input).len() > 0,
        fingerprint != app.our_fp(),
        exists|id: Seq<char>| #[trigger]
            app.discovered.dom().contains(id) && app.discovered[id].creator_fingerprint
                == fingerprint && app.discovered[id].host_addrs.contains(address),
        addresses::multiaddr_text(address) is Ok,
    ensures
        r is Ok,
        writes(
            eff,
            WriteView::KnownPeer(
                KnownPeerView {
                    address,
                    label: None,
                    last_connected_at: None,
                    last_attempt_at: Some(now),
                    created_at: now,
                    fingerprint: Some(fingerprint),
                    trusted: false,
                },
            ),
        ),
        after.auto_dm.contains(addresses::multiaddr_text(address)->Ok_0),
        exists|all: Seq<Seq<char>>|
            #![trigger dials_all(all)]
            eff.contains(dials_all(all)) && all.contains(addresses::multiaddr_text(address)->Ok_0),
        after.rooms == app.rooms,
{
    assert(contacts::dial_target(app.our_fp(), input, named) == Ok::<Seq<char>, ErrorView>(
        fingerprint,
    ));
    let addrs = choose|addrs: Seq<Seq<char>>| #[trigger]
        contacts::dial_candidates(app, known, fingerprint, addrs) && ({
            let stored = contacts::candidate_effects(addrs, fingerprint, now);
            if addrs.len() == 0 {
                after == app && eff == Seq::<EffectView>::empty() && r is Err
            } else if contacts::canonical(addrs).len() == 0 {
                after == app && eff == stored && r is Err
            } else {
                after == (AppView {
                    auto_dm: app.auto_dm.union(contacts::canonical(addrs).to_set()),
                    ..app
                }) && eff == stored + seq![
                    EffectView::Emit(EventView::Dialing { address: addrs[0] }),
                    EffectView::DialAll { addresses: contacts::canonical(addrs) },
                ] && r == Ok::<(), ErrorView>(())
            }
        });
    assert(addresses::announced_by(app.discovered, fingerprint, address));
    assert(addrs.contains(address));
    lemma_canonical(addrs, address);
    let all = contacts::canonical(addrs);
    assert(all.contains(addresses::multiaddr_text(address)->Ok_0));
    let stored = contacts::candidate_effects(addrs, fingerprint, now);
    let i = choose|i: int| 0 <= i < addrs.len() && addrs[i] == address;
    assert(eff[i] == stored[i]);
    assert(written(eff[i]) is Some);
    assert(eff[eff.len() - 1] == dials_all(all));
    assert(all.to_set().contains(addresses::multiaddr_text(address)->Ok_0));
}

/// These addresses are dialed at the same time.
pub open spec fn dials_all(addresses: Seq<Seq<char>>) -> EffectView {
    EffectView::DialAll { addresses }
}

proof fn lemma_canonical(addrs: Seq<Seq<char>>, address: Seq<char>)
    requires
        addrs.contains(address),
        addresses::multiaddr_text(address) is Ok,
    ensures
        contacts::canonical(addrs).contains(addresses::multiaddr_text(address)->Ok_0),
    decreases addrs.len(),
{
    let m = addresses::multiaddr_text(address)->Ok_0;
    let all = contacts::canonical(addrs);
    let rest = addrs.drop_last();
    if addrs.last() == address {
        assert(all[all.len() - 1] == m);
    } else {
        let i = choose|i: int| 0 <= i < addrs.len() && addrs[i] == address;
        assert(rest[i] == address);
        lemma_canonical(rest, address);
        let c = contacts::canonical(rest);
        let j = choose|j: int| 0 <= j < c.len() && c[j] == m;
        assert(all[j] == m);
    }
}

} // verus!
