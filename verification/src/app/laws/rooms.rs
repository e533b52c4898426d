//! Rooms: who is in them, who may say what happens to them, and what others see of that.
use super::keys::welcome;
use super::{sends, sent, shown, shows, writes, written};
use crate::app::dm_key::{self, DmKeyOutcome};
use crate::app::effects::{EffectView, WriteView};
use crate::app::events::{DiscoveredView, EventView, RoomKind};
use crate::app::facts::{EnvelopeView, FactsView};
use crate::app::handlers::handled;
use crate::app::membership::{self, AnnounceView};
use crate::app::messages::MessageView;
use crate::app::moderation;
use crate::app::network;
use crate::app::records::{MemberView, StoredRoomView};
use crate::app::rooms::{self, DirectStartView, PlanView, RestoreView};
use crate::app::{AppView, RoomView};
use crate::crypto::megolm::{self, RoomCryptoView};
use crate::crypto::passphrase;
use crate::error::ErrorView;
use vstd::prelude::*;

verus! {

/// A room that one peer starts and announces, another hears of as it is, and joins as it is: under the same id
/// and name, with the same creator, and with the same key if the passphrase is the same.
pub proof fn law_announced_rooms_can_be_joined(
    a: AppView,
    room_id: Seq<char>,
    name: Seq<char>,
    encrypted: bool,
    words: Option<Seq<char>>,
    salt: Seq<u8>,
    started_at: i64,
    plan: PlanView,
    count: u32,
    owners: Seq<Seq<char>>,
    verified_only: bool,
    told_at: i64,
    b: AppView,
    blocked: bool,
    heard_at: i64,
    b2: AppView,
    eff: Seq<EffectView>,
    stored: Option<StoredRoomView>,
    now: i64,
)
    requires
        a.room_started(room_id, name, encrypted, words, RoomKind::Group, salt, started_at) == Ok::<
            PlanView,
            ErrorView,
        >(plan),
        !b.rooms.dom().contains(room_id),
        b.on_room_announcement(
            a.announcement(plan.info, count, owners, verified_only, told_at),
            blocked,
            heard_at,
            b2,
            eff,
        ),
    ensures
        plan.info.id == room_id,
        plan.info.name == name,
        plan.info.creator_fingerprint == a.our_fp(),
        plan.info.encrypted == encrypted,
        plan.info.kind == RoomKind::Group,
        plan.key is Some == encrypted,
        encrypted ==> words is Some && plan.info.passphrase_salt == Some(salt)
            && passphrase::key_of(words->0, salt) == Ok::<Seq<u8>, ErrorView>(plan.key->0),
        exists|d: DiscoveredView|
            #![trigger shows(eff, EventView::RoomDiscovered(d))]
            shows(eff, EventView::RoomDiscovered(d)) && d.room_id == room_id && d.name == name
                && d.encrypted == encrypted && d.member_count == count && d.creator_fingerprint
                == a.our_fp() && d.last_seen == heard_at && !d.restorable && d.kind
                == RoomKind::Group && d.capabilities == a.our_capabilities,
        b2.room_joined(room_id, words, stored, now) matches Ok(theirs) && theirs.info.id == room_id
            && theirs.info.name == name && theirs.info.creator_fingerprint == a.our_fp()
            && theirs.info.encrypted == encrypted && theirs.info.kind == RoomKind::Group
            && theirs.info.created_at == now && (encrypted ==> theirs.info.passphrase_salt == Some(
            salt,
        )) && theirs.key == plan.key,
        encrypted ==> b2.room_joined(room_id, None, stored, now) is Err,
        b2.rooms == b.rooms,
{
    let ann = a.announcement(plan.info, count, owners, verified_only, told_at);
    let (salted, said) = choose|salted: AppView, said: Seq<EffectView>| #[trigger]
        b.salt_noted(ann, salted) && #[trigger] salted.dial_decided(
            ann,
            heard_at,
        ).0.with_capabilities(ann.creator_fingerprint, ann.capabilities).discovery(
            ann,
            blocked,
            heard_at,
            b2,
            said,
        ) && eff == salted.dial_decided(ann, heard_at).1 + said;
    let d = network::announced_room(ann, heard_at);
    assert(b2.discovered.dom().contains(room_id) && b2.discovered[room_id] == d);
    assert(eff.last() == EffectView::Emit(EventView::RoomDiscovered(d)));
    assert(shown(eff[eff.len() - 1]) is Some);
    assert(shows(eff, EventView::RoomDiscovered(d)));
    if encrypted {
        assert(salted.salts.dom().contains(room_id) && salted.salts[room_id] == salt);
        assert(b2.salts == salted.salts);
    }
}

/// A room cannot be started without a passphrase if it is to be encrypted, nor joined if nobody has heard of
/// it.
pub proof fn law_unknown_rooms_are_not_joined(
    app: AppView,
    room_id: Seq<char>,
    name: Seq<char>,
    words: Option<Seq<char>>,
    kind: RoomKind,
    salt: Seq<u8>,
    now: i64,
)
    ensures
        app.room_started(room_id, name, true, None, kind, salt, now) is Err,
        !app.discovered.dom().contains(room_id) && !app.restorable.dom().contains(room_id)
            ==> app.room_joined(room_id, words, None, now) is Err,
{
}

/// We are in the room from now on, with what was planned, and in the other rooms as before. In an encrypted
/// room we have sessions under our own name.
pub open spec fn in_room(
    before: AppView,
    after: AppView,
    info: StoredRoomView,
    key: Option<Seq<u8>>,
) -> bool {
    &&& after.rooms.dom() == before.rooms.dom().insert(info.id)
    &&& after.rooms[info.id].info == info
    &&& after.rooms[info.id].key == key
    &&& after.rooms[info.id].members.contains(before.our_fp())
    &&& !after.rooms[info.id].read_only
    &&& after.rooms[info.id].codes.len() == 0
    &&& after.rooms[info.id].typers.dom() == Set::<Seq<char>>::empty()
    &&& after.rooms[info.id].kem_ciphertext is None && !after.rooms[info.id].is_hybrid
    &&& after.rooms[info.id].key_retry == 0
    &&& after.rooms[info.id].crypto is Some == info.encrypted
    &&& info.encrypted ==> after.rooms[info.id].crypto->0.our_fingerprint == before.our_fp()
        && after.rooms[info.id].crypto->0.room_id == info.id
    &&& after.identity == before.identity
    &&& forall|other: Seq<char>|
        other != info.id && before.rooms.dom().contains(other) ==> #[trigger] after.rooms[other]
            == before.rooms[other]
}

/// Whoever starts a room is in it, alone; listens to it, announces it and themselves, and is told so. On disk
/// the room is theirs.
pub proof fn law_started_rooms_are_entered(
    app: AppView,
    plan: PlanView,
    after: AppView,
    eff: Seq<EffectView>,
    now: i64,
)
    requires
        app.started_entered(plan, after, eff),
    ensures
        in_room(app, after, plan.info, plan.key),
        after.rooms[plan.info.id].members == set![app.our_fp()],
        eff.contains(EffectView::Subscribe { room_id: plan.info.id }),
        eff.contains(EffectView::AnnounceRoom(plan.info, 1)),
        eff.contains(member_announced(plan.info.id, 500)),
        shows(eff, EventView::RoomJoined { room_id: plan.info.id }),
        app.plan_writes(plan.info, "owner"@, now).contains(WriteView::Room(plan.info)),
        exists|w: MemberView|
            #[trigger] app.plan_writes(plan.info, "owner"@, now).contains(WriteView::Member(w)) && w.room_id
                == plan.info.id && w.fingerprint == app.our_fp() && w.role == "owner"@ && w.verified
                && w.last_seen == Some(now) && w.ed25519_pubkey is Some,
{
    let c = choose|c: Option<RoomCryptoView>| #[trigger]
        rooms::entry_crypto(
            c,
            plan.info.encrypted,
            plan.info.id,
            app.our_fp(),
            app.persist_key,
            Seq::empty(),
            None,
        ) && after == app.entered(plan, c, set![app.our_fp()], false);
    assert(after.rooms.dom() =~= app.rooms.dom().insert(plan.info.id));
    assert(eff[0] == EffectView::Subscribe { room_id: plan.info.id });
    assert(eff[1] == EffectView::AnnounceRoom(plan.info, 1));
    assert(eff[2] == member_announced(plan.info.id, 500));
    assert(shown(eff[3]) is Some);
    let w = app.plan_writes(plan.info, "owner"@, now);
    assert(w[0] == WriteView::Room(plan.info));
    let row = w[1]->Member_0;
    assert(w[1] == WriteView::Member(row));
    assert(app.plan_writes(plan.info, "owner"@, now).contains(WriteView::Member(row)));
}

/// We announce ourselves.
pub open spec fn member_announced(room_id: Seq<char>, delay_ms: u64) -> EffectView {
    EffectView::AnnounceMember { room_id, delay_ms }
}

/// The members of a room are asked for their keys.
pub open spec fn keys_requested(room_id: Seq<char>, delay_ms: u64) -> EffectView {
    EffectView::RequestKeys { room_id, delay_ms }
}

/// Whoever joins a room is in it; listens to it, announces themselves, asks the others for their keys, and is
/// told so. The room waits no longer.
pub proof fn law_joined_rooms_are_entered(
    app: AppView,
    plan: PlanView,
    rows: Seq<megolm::StoredSessionView>,
    rotation: Option<(u32, i64)>,
    after: AppView,
    eff: Seq<EffectView>,
)
    requires
        app.joined_entered(plan, rows, rotation, after, eff),
    ensures
        in_room(app, after, plan.info, plan.key),
        !after.restorable.dom().contains(plan.info.id),
        eff.contains(EffectView::Subscribe { room_id: plan.info.id }),
        eff.contains(member_announced(plan.info.id, 500)),
        eff.contains(keys_requested(plan.info.id, 500)),
        shows(eff, EventView::RoomJoined { room_id: plan.info.id }),
        plan.info.encrypted && megolm::stored_outbound(rows, app.persist_key) is Some
            ==> after.rooms[plan.info.id].crypto->0.inbound == megolm::stored_inbound(
            rows,
            app.persist_key,
        ),
{
    let c = choose|c: Option<RoomCryptoView>| #[trigger]
        rooms::entry_crypto(
            c,
            plan.info.encrypted,
            plan.info.id,
            app.our_fp(),
            app.persist_key,
            rows,
            rotation,
        ) && after == (AppView {
            restorable: app.restorable.remove(plan.info.id),
            ..app.entered(plan, c, set![app.our_fp()], false)
        });
    assert(after.rooms.dom() =~= app.rooms.dom().insert(plan.info.id));
    assert(eff[0] == EffectView::Subscribe { room_id: plan.info.id });
    assert(eff[1] == member_announced(plan.info.id, 500));
    assert(eff[2] == keys_requested(plan.info.id, 500));
    assert(shown(eff[3]) is Some);
}

/// A chat that is on disk is entered with its partner as a member, and its messages go straight to them; a
/// room in the clear with all its members.
pub proof fn law_stored_rooms_are_entered(
    app: AppView,
    info: StoredRoomView,
    partner: Seq<char>,
    members: Seq<Seq<char>>,
    rows: Seq<megolm::StoredSessionView>,
    rotation: Option<(u32, i64)>,
    after: AppView,
    eff: Seq<EffectView>,
)
    requires
        app.direct_entered(info, partner, members, rows, rotation, after, eff),
    ensures
        in_room(app, after, info, None),
        after.rooms[info.id].members.contains(partner),
        forall|m: Seq<char>| #[trigger]
            after.rooms[info.id].members.contains(m) <==> m == partner || m == app.our_fp()
                || members.contains(m),
        eff.contains(
            EffectView::RegisterDm { room_id: info.id, partner_fingerprint: partner },
        ),
        eff.contains(EffectView::Subscribe { room_id: info.id }),
        eff.contains(EffectView::AnnounceRoom(info, 2)),
        eff.contains(member_announced(info.id, 500)),
        shows(eff, EventView::RoomJoined { room_id: info.id }),
        !info.encrypted ==> in_room(app, app.open_entered(info, members).0, info, None)
            && app.open_entered(info, members).1.contains(
            EffectView::Subscribe { room_id: info.id },
        ),
        forall|m: Seq<char>| #[trigger]
            app.open_entered(info, members).0.rooms[info.id].members.contains(m) <==> m
                == app.our_fp() || members.contains(m),
        app.parked(info).restorable.dom().contains(info.id),
        app.parked(info).restorable[info.id] == info,
        app.parked(info).rooms == app.rooms,
{
    let c = choose|c: Option<RoomCryptoView>| #[trigger]
        rooms::entry_crypto(
            c,
            info.encrypted,
            info.id,
            app.our_fp(),
            app.persist_key,
            rows,
            rotation,
        ) && after == app.entered(
            PlanView { info, key: None },
            c,
            members.to_set().insert(partner).insert(app.our_fp()),
            false,
        );
    assert(after.rooms.dom() =~= app.rooms.dom().insert(info.id));
    assert(eff[0] == EffectView::RegisterDm { room_id: info.id, partner_fingerprint: partner });
    assert(eff[1] == EffectView::Subscribe { room_id: info.id });
    assert(eff[2] == EffectView::AnnounceRoom(info, 2));
    assert(eff[3] == member_announced(info.id, 500));
    assert(shown(eff[4]) is Some);
    let open = app.open_entered(info, members);
    assert(open.0.rooms.dom() =~= app.rooms.dom().insert(info.id));
    assert(open.1[0] == EffectView::Subscribe { room_id: info.id });
}

/// Two peers who begin a chat with each other begin the same encrypted chat, and each finds the other in it
/// when it is found on disk again.
pub proof fn law_direct_chats_are_one(
    a: AppView,
    b: AppView,
    now_a: i64,
    now_b: i64,
    pubkey_b64: Option<Seq<char>>,
)
    requires
        a.our_fp() != b.our_fp(),
        !a.rooms.dom().contains(a.direct_started(b.our_fp(), now_a).id),
        !b.rooms.dom().contains(b.direct_started(a.our_fp(), now_b).id),
    ensures
        ({
            let x = a.direct_begun(b.our_fp(), false, now_a);
            let y = b.direct_begun(a.our_fp(), false, now_b);
            &&& x matches Ok(DirectStartView::New(p)) && y matches Ok(DirectStartView::New(q))
                && p.info.id == q.info.id && p.info.kind == RoomKind::Direct && q.info.kind
                == RoomKind::Direct && p.info.encrypted && q.info.encrypted && p.info.passphrase_salt
                == q.info.passphrase_salt && p.info.creator_fingerprint == a.our_fp()
                && q.info.creator_fingerprint == b.our_fp() && p.key is None && a.direct_effects(
                b.our_fp(),
                pubkey_b64,
                now_a,
            )[0] == (EffectView::RegisterDm {
                room_id: p.info.id,
                partner_fingerprint: b.our_fp(),
            }) && a.restoration(p.info, seq![a.our_fp(), b.our_fp()]) == RestoreView::Direct(
                b.our_fp(),
            ) && a.restoration(p.info, seq![b.our_fp(), a.our_fp()]) == RestoreView::Direct(
                b.our_fp(),
            ) && a.dm_waiting(p.info.id, Some(p.info), seq![a.our_fp(), b.our_fp()]) == Some(
                b.our_fp(),
            )
        }),
        a.direct_begun(a.our_fp(), false, now_a) is Err,
{
    crate::text::lemma_text_order(a.our_fp(), b.our_fp());
    let m = seq![a.our_fp(), b.our_fp()];
    assert(m.skip(1) =~= seq![b.our_fp()]);
    reveal_with_fuel(rooms::other_than, 3);
    let p = a.direct_started(b.our_fp(), now_a);
    assert(a.restoration(p, m) == RestoreView::Direct(b.our_fp()));
    assert(a.restoration(p, seq![b.our_fp(), a.our_fp()]) == RestoreView::Direct(b.our_fp()));
    assert(a.dm_waiting(p.id, Some(p), m) == Some(b.our_fp()));
}

/// Whoever leaves a room is no longer in it, listens to it no longer, and is told so; every other member
/// forgets them, and is told so.
pub proof fn law_departures_travel(
    a: AppView,
    room_id: Seq<char>,
    msg: MessageView,
    b: AppView,
    f: FactsView,
    e: EnvelopeView,
    b2: AppView,
    eff: Seq<EffectView>,
)
    requires
        sends(a.room_left(room_id).1, room_id, msg),
        handled(b, f, e, msg, b2, eff),
        e.room_id == room_id,
        e.signer == Some(a.our_fp()),
        a.our_fp() != b.our_fp(),
        b.rooms.dom().contains(room_id),
        b.rooms[room_id].members.contains(a.our_fp()),
    ensures
        !a.room_left(room_id).0.rooms.dom().contains(room_id),
        a.room_left(room_id).0.rooms.dom() == a.rooms.dom().remove(room_id),
        a.room_left(room_id).1.contains(EffectView::Unsubscribe { room_id }),
        shows(a.room_left(room_id).1, EventView::RoomLeft { room_id }),
        b2.rooms.dom() == b.rooms.dom(),
        b2.rooms[room_id].members == b.rooms[room_id].members.remove(a.our_fp()),
        b2.rooms[room_id].key == b.rooms[room_id].key,
        b2.rooms[room_id].crypto == b.rooms[room_id].crypto,
        shows(eff, EventView::MemberLeft { room_id, fingerprint: a.our_fp() }),
{
    let out = a.room_left(room_id).1;
    assert(sent(out[0]) is Some);
    assert(out[1] == EffectView::Unsubscribe { room_id });
    assert(shown(out[2]) is Some);
    assert(shown(eff[0]) is Some);
    assert(b2.rooms.dom() =~= b.rooms.dom());
}

/// An owner who makes a member an owner stores that, and so does every other member; nobody else can.
pub proof fn law_owners_are_made_by_owners(
    a: AppView,
    fa: FactsView,
    room_id: Seq<char>,
    target: Seq<char>,
    msg: MessageView,
    b: AppView,
    f: FactsView,
    e: EnvelopeView,
    b2: AppView,
    eff: Seq<EffectView>,
)
    requires
        a.owner_granted(fa, room_id, target) is Ok,
        sends(a.owner_granted(fa, room_id, target)->Ok_0, room_id, msg),
        handled(b, f, e, msg, b2, eff),
        e.room_id == room_id,
        e.signer == Some(a.our_fp()),
    ensures
        fa.owners.contains(a.our_fp()) && !fa.banned.contains(a.our_fp()),
        writes(
            a.owner_granted(fa, room_id, target)->Ok_0,
            WriteView::MemberRole { room_id, fingerprint: target, role: "owner"@ },
        ),
        f.owners.contains(a.our_fp()) && !f.banned.contains(a.our_fp()) ==> writes(
            eff,
            WriteView::MemberRole { room_id, fingerprint: target, role: "owner"@ },
        ),
        !f.owners.contains(a.our_fp()) || f.banned.contains(a.our_fp()) ==> eff.len() == 0,
        b2 == b,
{
    let out = a.owner_granted(fa, room_id, target)->Ok_0;
    assert(sent(out[0]) is Some);
    assert(written(out[1]) is Some);
    if eff.len() > 0 {
        assert(written(eff[0]) is Some);
    }
}

/// Every owner who is not banned can make a member an owner.
pub proof fn law_owners_can_grant(app: AppView, f: FactsView, room_id: Seq<char>, target: Seq<char>)
    ensures
        app.owner_granted(f, room_id, target) is Ok <==> f.owners.contains(app.our_fp())
            && !f.banned.contains(app.our_fp()),
{
}

/// The ban of an owner: every other member forgets whom it is about, stores that they are banned, by whom
/// and that they own the room no longer, and is told so. Whoever is banned is out of the room.
pub proof fn law_bans_are_heeded(
    b: AppView,
    f: FactsView,
    e: EnvelopeView,
    owner: Seq<char>,
    target: Seq<char>,
    b2: AppView,
    eff: Seq<EffectView>,
)
    requires
        handled(
            b,
            f,
            e,
            MessageView::BanMember { room_id: e.room_id, target_fingerprint: target },
            b2,
            eff,
        ),
        e.signer == Some(owner),
        f.owners.contains(owner),
        !f.banned.contains(owner),
        b.rooms.dom().contains(e.room_id),
    ensures
        target != b.our_fp() ==> {
            &&& b2.rooms.dom() == b.rooms.dom()
            &&& b2.rooms[e.room_id].members == b.rooms[e.room_id].members.remove(target)
            &&& writes(
                eff,
                WriteView::Ban {
                    room_id: e.room_id,
                    fingerprint: target,
                    banned_by: owner,
                    banned_at: e.now,
                },
            )
            &&& writes(eff, WriteView::RevokeOwner { room_id: e.room_id, fingerprint: target })
            &&& shows(eff, EventView::MemberLeft { room_id: e.room_id, fingerprint: target })
        },
        target == b.our_fp() ==> {
            &&& b2.rooms.dom() == b.rooms.dom().remove(e.room_id)
            &&& shows(eff, EventView::RoomLeft { room_id: e.room_id })
        },
        forall|other: Seq<char>|
            other != e.room_id && b.rooms.dom().contains(other) ==> #[trigger] b2.rooms[other]
                == b.rooms[other],
{
    if target != b.our_fp() {
        assert(written(eff[0]) is Some && written(eff[1]) is Some && shown(eff[2]) is Some);
        assert(b2.rooms.dom() =~= b.rooms.dom());
    } else {
        assert(shown(eff[0]) is Some);
    }
}

/// A member who announces themselves and against whom nothing speaks is a member from then on, and is stored
/// as one, with the keys and the name that they give, neither verified nor an owner by that. The user is told
/// of them if they were none before.
pub proof fn law_members_are_stored(
    app: AppView,
    f: FactsView,
    e: EnvelopeView,
    msg: MessageView,
    after: AppView,
    eff: Seq<EffectView>,
)
    requires
        handled(app, f, e, msg, after, eff),
        msg is MemberAnnounce,
        welcome(app, f, e, msg->MemberAnnounce_sender_fingerprint),
    ensures
        ({
            let sender = msg->MemberAnnounce_sender_fingerprint;
            &&& after.rooms.dom().contains(e.room_id)
            &&& after.rooms[e.room_id].members == app.rooms[e.room_id].members.insert(sender)
            &&& exists|w: MemberView|
                #[trigger] writes(eff, WriteView::Member(w)) && w.room_id == e.room_id && w.fingerprint
                    == sender && w.peer_id == ""@ && w.last_seen == Some(e.now) && !w.verified && w.ed25519_pubkey
                    == msg->MemberAnnounce_sender_ed25519_pubkey && w.mlkem_pubkey
                    == msg->sender_mlkem_pubkey && w.role == "member"@
            &&& shows(eff, EventView::MemberJoined { room_id: e.room_id, fingerprint: sender })
                <==> !app.rooms[e.room_id].members.contains(sender)
            &&& msg->MemberAnnounce_display_name matches Some(name) ==> writes(
                eff,
                WriteView::MemberDisplayName { room_id: e.room_id, fingerprint: sender, name },
            )
        }),
{
    let m = AnnounceView {
        sender: msg->MemberAnnounce_sender_fingerprint,
        wrapped_session_key: msg->wrapped_session_key,
        display_name: msg->MemberAnnounce_display_name,
        ed25519: msg->MemberAnnounce_sender_ed25519_pubkey,
        mlkem: msg->sender_mlkem_pubkey,
        ciphertext: msg->mlkem_ciphertext,
        capabilities: msg->capabilities,
    };
    let heard = app.capabilities_heard(e, m);
    assert(heard.announce_admitted(f, e, m.sender));
    assert(!heard.announce_refused(f, e, m.sender));
    membership::lemma_announce_members(heard, f, e, m, after, eff);
    let newly = !app.rooms[e.room_id].members.contains(m.sender);
    let stored = membership::member_stored(e.room_id, m, newly, e.now);
    let rest = lemma_announce_begins(heard, f, e, m, after, eff);
    let k: int = if newly {
        1
    } else {
        0
    };
    assert(eff[k] == stored[k]);
    assert(written(eff[k]) is Some);
    assert(writes(eff, WriteView::Member(written(eff[k])->0->Member_0)));
    if newly {
        assert(eff[0] == stored[0]);
        assert(shown(eff[0]) is Some);
    } else {
        assert forall|i: int| 0 <= i < eff.len() implies shown(#[trigger] eff[i]) is None by {
            if i < stored.len() {
                assert(eff[i] == stored[i]);
            } else {
                assert(eff[i] == rest[i - stored.len()]);
            }
        }
    }
    if m.display_name is Some {
        assert(eff[k + 1] == stored[k + 1]);
        assert(written(eff[k + 1]) is Some);
    }
}

/// What an announcement causes begins with storing the member, and shows nothing after that.
proof fn lemma_announce_begins(
    app: AppView,
    f: FactsView,
    e: EnvelopeView,
    m: AnnounceView,
    after: AppView,
    eff: Seq<EffectView>,
) -> (rest: Seq<EffectView>)
    requires
        app.announce_taken(f, e, m, after, eff),
        !app.announce_refused(f, e, m.sender),
        app.announce_admitted(f, e, m.sender),
    ensures
        eff == membership::member_stored(
            e.room_id,
            m,
            !app.rooms[e.room_id].members.contains(m.sender),
            e.now,
        ) + rest,
        forall|i: int| 0 <= i < rest.len() ==> shown(#[trigger] rest[i]) is None,
{
    let room = app.rooms[e.room_id];
    let joined = RoomView { members: room.members.insert(m.sender), ..room };
    let stored = membership::member_stored(
        e.room_id,
        m,
        !room.members.contains(m.sender),
        e.now,
    );
    if room.info.kind == RoomKind::Direct {
        let step = dm_key::dm_step(
            joined,
            app.identity,
            e.room_id,
            m.sender,
            membership::partner_keys(f, m),
        );
        let keyed = choose|keyed: RoomView| #[trigger]
            dm_key::dm_applied(joined, step.1, e.now, keyed) && ({
                let there = app.with_room(
                    e.room_id,
                    membership::session_taken(keyed, m.sender, m.wrapped_session_key, e.now),
                );
                match step.0 {
                    DmKeyOutcome::ReBroadcast => after == there && eff == stored + (
                    if joined.key is Some && keyed.crypto is Some {
                        seq![membership::rotation_state(keyed.crypto->0)]
                    } else {
                        Seq::empty()
                    }) + seq![EffectView::AnnounceMember { room_id: e.room_id, delay_ms: 0 }],
                    DmKeyOutcome::RequestCiphertext => after == there.keys_wanted(
                        e.room_id,
                        e.now,
                    ).0 && eff == stored + there.keys_wanted(e.room_id, e.now).1,
                    DmKeyOutcome::Noop => after == there && eff == stored,
                }
            });
        let there = app.with_room(
            e.room_id,
            membership::session_taken(keyed, m.sender, m.wrapped_session_key, e.now),
        );
        match step.0 {
            DmKeyOutcome::ReBroadcast => {
                let x = if joined.key is Some && keyed.crypto is Some {
                    seq![membership::rotation_state(keyed.crypto->0)]
                } else {
                    Seq::empty()
                };
                let rest = x + seq![
                    EffectView::AnnounceMember { room_id: e.room_id, delay_ms: 0 },
                ];
                assert(eff =~= stored + rest);
                rest
            },
            DmKeyOutcome::RequestCiphertext => there.keys_wanted(e.room_id, e.now).1,
            DmKeyOutcome::Noop => {
                assert(eff =~= stored + Seq::<EffectView>::empty());
                Seq::empty()
            },
        }
    } else {
        assert(eff =~= stored + Seq::<EffectView>::empty());
        Seq::empty()
    }
}

/// Where only verified members are let in, exactly one of the owners refuses whoever is not, and the one who
/// is refused is told so by them; nobody takes them in.
pub proof fn law_unverified_members_are_refused(
    owner: AppView,
    f: FactsView,
    e: EnvelopeView,
    msg: MessageView,
    after: AppView,
    eff: Seq<EffectView>,
    reply: MessageView,
    joiner: AppView,
    fj: FactsView,
    ej: EnvelopeView,
    joiner2: AppView,
    told: Seq<EffectView>,
)
    requires
        handled(owner, f, e, msg, after, eff),
        msg is MemberAnnounce,
        msg->MemberAnnounce_sender_fingerprint == joiner.our_fp(),
        joiner.our_fp() != owner.our_fp(),
        e.signer == Some(joiner.our_fp()),
        !f.banned.contains(joiner.our_fp()),
        f.verified_only && !f.subject_verified,
        ej.room_id == e.room_id,
        ej.signer == Some(owner.our_fp()),
        fj.owners.len() == 0 || fj.owners.contains(owner.our_fp()),
        handled(joiner, fj, ej, reply, joiner2, told),
    ensures
        after.rooms == owner.rooms,
        (exists|i: int| 0 <= i < eff.len() && sent(#[trigger] eff[i]) is Some) <==> (
        f.owners.contains(owner.our_fp()) && forall|i: int|
            0 <= i < f.owners.len() ==> !crate::text::text_lt(
                #[trigger] f.owners[i],
                owner.our_fp(),
            )),
        forall|i: int|
            0 <= i < eff.len() ==> (sent(#[trigger] eff[i]) matches Some(s) ==> s.0 == e.room_id),
        forall|w: WriteView| !#[trigger] writes(eff, w),
        sends(eff, e.room_id, reply) ==> exists|words: Seq<char>|
            shows(told, #[trigger] failure(words)),
{
    if sends(eff, e.room_id, reply) {
        assert(shown(told[0]) is Some);
        assert(shown(told[0]) == Some(failure(shown(told[0])->0->Error_description)));
    }
    if eff.len() > 0 {
        assert(sent(eff[0]) is Some);
    }
}

/// The user is told that something went wrong.
pub open spec fn failure(words: Seq<char>) -> EventView {
    EventView::Error { description: words }
}

/// A name that one peer takes is stored, told to every room that they are in, and stored and shown by
/// whoever hears of it there.
pub proof fn law_names_travel(
    a: AppView,
    name: Option<Seq<char>>,
    at_ms: i64,
    out: Seq<EffectView>,
    room_id: Seq<char>,
    msg: MessageView,
    b: AppView,
    f: FactsView,
    e: EnvelopeView,
    b2: AppView,
    eff: Seq<EffectView>,
)
    requires
        a.renamed(name, at_ms, out),
        sends(out, room_id, msg),
        handled(b, f, e, msg, b2, eff),
        e.signer == Some(a.our_fp()),
    ensures
        writes(out, WriteView::DisplayName { name }),
        forall|r: Seq<char>| #[trigger]
            a.rooms.dom().contains(r) <==> exists|m: MessageView| sends(out, r, m),
        b2 == b,
        writes(
            eff,
            WriteView::PeerProfile { fingerprint: a.our_fp(), username: name, updated_at: at_ms },
        ),
        shows(eff, EventView::PeerProfileUpdated { fingerprint: a.our_fp(), username: name }),
{
    let order = choose|order: Seq<Seq<char>>| #[trigger]
        moderation::room_order(a, order) && out == seq![
            EffectView::MustStore(WriteView::DisplayName { name }),
        ] + moderation::profile_effects(a.our_fp(), name, at_ms, order);
    assert(written(out[0]) is Some);
    assert forall|i: int| 1 <= i < out.len() implies sent(#[trigger] out[i]) == Some(
        (
            order[i - 1],
            MessageView::ProfileUpdate {
                sender_fingerprint: a.our_fp(),
                username: name,
                updated_at: at_ms,
            },
        ),
    ) by {}
    assert forall|r: Seq<char>| #[trigger]
        a.rooms.dom().contains(r) <==> exists|m: MessageView| sends(out, r, m) by {
        assert(order.to_set().contains(r) == order.contains(r));
        if order.contains(r) {
            let i = choose|i: int| 0 <= i < order.len() && order[i] == r;
            assert(sent(out[i + 1]) == Some((r, msg)));
            assert(sends(out, r, msg));
        }
        if exists|m: MessageView| sends(out, r, m) {
            let m = choose|m: MessageView| sends(out, r, m);
            let i = choose|i: int| 0 <= i < out.len() && sent(#[trigger] out[i]) == Some((r, m));
            assert(order[i - 1] == r);
        }
    }
    assert(written(eff[0]) is Some && shown(eff[0]) is Some);
}

/// What the user says of a member is what is stored, of that member in that room, and of nobody else.
pub proof fn law_marks_are_stored(
    members: Seq<Seq<char>>,
    room_id: Seq<char>,
    fingerprint: Seq<char>,
    verified: bool,
    now: i64,
)
    ensures
        ({
            let eff = moderation::marked_effects(members, room_id, fingerprint, verified, now);
            &&& writes(eff, WriteView::MemberVerified { room_id, fingerprint, verified })
            &&& forall|i: int|
                0 <= i < eff.len() ==> match #[trigger] written(eff[i]) {
                    Some(WriteView::MemberVerified { room_id: r, fingerprint: m, verified: v }) => r
                        == room_id && m == fingerprint && v == verified,
                    Some(WriteView::Member(w)) => w.room_id == room_id && w.fingerprint
                        == fingerprint && w.verified == verified && w.role == "member"@
                        && !members.contains(fingerprint),
                    _ => false,
                }
            &&& !members.contains(fingerprint) ==> eff.len() == 2
        }),
        writes(
            moderation::block_effects(fingerprint, now),
            WriteView::Block { fingerprint, blocked_at: now },
        ),
{
    let eff = moderation::marked_effects(members, room_id, fingerprint, verified, now);
    assert(written(eff[eff.len() - 1]) is Some);
    assert(written(moderation::block_effects(fingerprint, now)[0]) is Some);
}

/// Whoever is in a room can announce themselves, unless they miss the passphrase of a group or their session key is
/// too long to be wrapped: under their own name and key, with what they can do. In a chat between two their ML-KEM
/// key goes with it.
pub proof fn law_members_can_announce_themselves(
    app: AppView,
    room_id: Seq<char>,
    name: Option<Seq<char>>,
    r: Result<MessageView, ErrorView>,
)
    requires
        rooms::announce_made(app, room_id, name, r),
    ensures
        ({
            let room = app.rooms[room_id];
            let sealed = room.info.encrypted && room.key is Some;
            &&& r is Ok <==> app.rooms.dom().contains(room_id) && (room.info.encrypted && room.key
                is None ==> room.info.kind == RoomKind::Direct) && (sealed
                ==> vstd::utf8::encode_utf8(room.crypto->0.session_key()).len()
                < crate::crypto::primitives::SEAL_LIMIT)
            &&& r matches Ok(msg) ==> msg is MemberAnnounce
                && msg->MemberAnnounce_sender_fingerprint == app.our_fp()
                && msg->MemberAnnounce_display_name == name
                && msg->MemberAnnounce_sender_ed25519_pubkey == Some(
                crate::crypto::primitives::base64_text(app.identity.public),
            ) && msg->capabilities == app.our_capabilities && (msg->wrapped_session_key is Some
                <==> sealed) && (msg->sender_mlkem_pubkey is Some <==> room.info.kind
                == RoomKind::Direct) && (room.info.kind == RoomKind::Direct
                ==> msg->mlkem_ciphertext == room.kem_ciphertext)
        }),
{
}

/// As many as 4096 salts of announced rooms are remembered at a time without forgetting one, and the salt of the
/// room that was announced last is always among them.
pub proof fn law_salts_are_remembered(
    before: Map<Seq<char>, Seq<u8>>,
    room_id: Seq<char>,
    salt: Seq<u8>,
    after: Map<Seq<char>, Seq<u8>>,
    other: Seq<char>,
)
    requires
        rooms::salt_remembered(before, room_id, salt, after),
    ensures
        after.dom().contains(room_id) && after[room_id] == salt,
        other != room_id && (before.dom().len() < 4096 || before.dom().contains(room_id)) ==> (
        after.dom().contains(other) <==> before.dom().contains(other)),
        other != room_id && after.dom().contains(other) ==> before.dom().contains(other)
            && after[other] == before[other],
{
}

} // verus!
