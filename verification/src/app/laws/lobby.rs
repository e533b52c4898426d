//! What the user sees of rooms: the lobby, and whether a message can leave.
use crate::app::effects::EffectView;
use crate::app::events::RoomKind;
use crate::app::lobby;
use crate::app::messages::AnnouncementView;
use crate::app::records::KnownPeerView;
use crate::app::transport::{RoomTransport, SendReadiness};
use crate::app::AppView;
use vstd::prelude::*;

verus! {

/// A room that we are in is listed as one that we are in, and as what it is; one that we only heard of, as it
/// was announced; one that waits on disk, as waiting. Every group is listed that is known in one of these ways.
pub proof fn law_known_rooms_are_listed(app: AppView, id: Seq<char>, now: i64)
    requires
        app.wf(),
    ensures
        app.rooms.dom().contains(id) ==> {
            let e = app.lobby_entry(id, now);
            let room = app.rooms[id];
            &&& app.in_lobby(id, now)
            &&& e.room_id == id
            &&& !e.restorable
            &&& e.last_seen == now
            &&& e.kind == room.info.kind
            &&& room.members.len() <= u32::MAX ==> e.member_count >= room.members.len()
            &&& !app.discovered.dom().contains(id) ==> e.name == room.info.name && e.encrypted
                == room.info.encrypted && e.creator_fingerprint == room.info.creator_fingerprint
                && (room.members.len() <= u32::MAX ==> e.member_count == room.members.len())
        },
        !app.rooms.dom().contains(id) && app.discovered.dom().contains(id) ==> app.lobby_entry(
            id,
            now,
        ) == app.discovered[id] && (app.discovered[id].kind == RoomKind::Group ==> app.in_lobby(
            id,
            now,
        )),
        !app.rooms.dom().contains(id) && !app.discovered.dom().contains(id)
            && app.restorable.dom().contains(id) ==> {
            let e = app.lobby_entry(id, now);
            let s = app.restorable[id];
            &&& e.restorable
            &&& e.name == s.name
            &&& e.encrypted == s.encrypted
            &&& e.creator_fingerprint == s.creator_fingerprint
            &&& e.kind == s.kind
            &&& s.last_active matches Some(t) ==> e.last_seen == t
            &&& s.kind == RoomKind::Group ==> app.in_lobby(id, now)
        },
        app.in_lobby(id, now) ==> app.rooms.dom().contains(id) || app.discovered.dom().contains(id)
            || app.restorable.dom().contains(id),
{
}

/// A group that somebody announces is in the lobby from then on, as they announced it.
pub proof fn law_announced_rooms_are_listed(
    app: AppView,
    a: AnnouncementView,
    blocked: bool,
    now: i64,
    after: AppView,
    eff: Seq<EffectView>,
)
    requires
        !app.rooms.dom().contains(a.room_id),
        a.kind == RoomKind::Group,
        app.on_room_announcement(a, blocked, now, after, eff),
    ensures
        after.in_lobby(a.room_id, now),
        ({
            let e = after.lobby_entry(a.room_id, now);
            &&& e.room_id == a.room_id
            &&& e.name == a.name
            &&& e.encrypted == a.encrypted
            &&& e.member_count == a.member_count
            &&& e.creator_fingerprint == a.creator_fingerprint
            &&& e.host_addrs == a.host_addrs
            &&& e.kind == a.kind
            &&& e.capabilities == a.capabilities
            &&& e.last_seen == now
            &&& !e.restorable
        }),
{
    let (salted, said) = choose|salted: AppView, said: Seq<EffectView>| #[trigger]
        app.salt_noted(a, salted) && #[trigger] salted.dial_decided(
            a,
            now,
        ).0.with_capabilities(a.creator_fingerprint, a.capabilities).discovery(
            a,
            blocked,
            now,
            after,
            said,
        ) && eff == salted.dial_decided(a, now).1 + said;
    assert(after.rooms == app.rooms);
}

/// The lobby lists what was heard of last first, and nothing twice.
pub proof fn law_the_lobby_is_in_order(app: AppView, order: Seq<Seq<char>>, now: i64)
    requires
        app.wf(),
        app.lobby_order(order, now),
        forall|id: Seq<char>| #[trigger]
            app.restorable.dom().contains(id) ==> app.restorable[id].id == id,
    ensures
        ({
            let list = lobby::entries(app, order, now);
            &&& forall|i: int, j: int|
                0 <= i < j < list.len() ==> (#[trigger] list[i]).last_seen >= (
                #[trigger] list[j]).last_seen && list[i].room_id != list[j].room_id
            &&& forall|id: Seq<char>| #[trigger]
                app.rooms.dom().contains(id) ==> exists|i: int|
                    0 <= i < list.len() && (#[trigger] list[i]).room_id == id
        }),
{
    let list = lobby::entries(app, order, now);
    assert forall|i: int| 0 <= i < list.len() implies (#[trigger] list[i]).room_id == order[i] by {
        assert(order.contains(order[i]));
        assert(app.in_lobby(order[i], now));
    }
    assert forall|i: int, j: int| 0 <= i < j < list.len() implies (#[trigger] list[i]).last_seen >= (
    #[trigger] list[j]).last_seen && list[i].room_id != list[j].room_id by {
        assert(app.lobby_entry(order[i], now).last_seen >= app.lobby_entry(
            order[j],
            now,
        ).last_seen);
    }
    assert forall|id: Seq<char>| #[trigger] app.rooms.dom().contains(id) implies exists|i: int|
        0 <= i < list.len() && (#[trigger] list[i]).room_id == id by {
        assert(app.in_lobby(id, now));
        assert(order.contains(id));
        let i = choose|i: int| 0 <= i < order.len() && order[i] == id;
        assert(list[i].room_id == id);
    }
}

/// A message can leave exactly when a member is connected directly, or the relay is; if neither is, the user
/// hears whether to wait.
pub proof fn law_messages_leave_where_there_is_a_way(
    app: AppView,
    room_id: Seq<char>,
    known: Seq<KnownPeerView>,
    server_connected: bool,
)
    requires
        app.rooms.dom().contains(room_id),
    ensures
        ({
            let direct = exists|i: int|
                0 <= i < known.len() && #[trigger] leads_to_member(app, room_id, known[i]);
            let r = app.readiness(room_id, known, server_connected);
            let t = app.transport_of(room_id, known, server_connected);
            &&& r == SendReadiness::Ready <==> direct || server_connected
            &&& r == SendReadiness::Connecting <==> !direct && !server_connected
                && app.server_enabled
            &&& t == RoomTransport::LanDirect <==> direct
            &&& t == RoomTransport::Relay <==> !direct && server_connected
        }),
{
    assert forall|i: int| 0 <= i < known.len() implies app.is_linked(
        app.members_of(room_id),
        #[trigger] known[i],
    ) == leads_to_member(app, room_id, known[i]) by {}
    if exists|i: int| 0 <= i < known.len() && #[trigger] leads_to_member(app, room_id, known[i]) {
        let i = choose|i: int|
            0 <= i < known.len() && #[trigger] leads_to_member(app, room_id, known[i]);
        assert(app.is_linked(app.members_of(room_id), known[i]));
    }
}

/// The address is connected, and belongs to a member of the room.
pub open spec fn leads_to_member(app: AppView, room_id: Seq<char>, p: KnownPeerView) -> bool {
    &&& app.connected.dom().contains(p.address)
    &&& p.fingerprint matches Some(fp) && app.rooms[room_id].members.contains(fp)
}

/// The partner of a chat between two is the other of its two members, and there is only one.
pub proof fn law_partners_are_members(app: AppView, room_id: Seq<char>, p: Seq<char>, q: Seq<char>)
    requires
        app.is_dm_partner(room_id, p),
        app.is_dm_partner(room_id, q),
    ensures
        p == q,
        p != app.our_fp(),
        app.rooms[room_id].members.contains(p),
        app.rooms[room_id].members.contains(app.our_fp()),
        app.rooms[room_id].info.kind == RoomKind::Direct,
        forall|m: Seq<char>| #[trigger]
            app.rooms[room_id].members.contains(m) ==> m == p || m == app.our_fp(),
{
    assert(app.rooms[room_id].members.contains(p));
}

} // verus!
