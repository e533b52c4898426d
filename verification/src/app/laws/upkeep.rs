//! What happens by itself: the heartbeat, forgetting, and what is dialed and listened to.
use super::{shown, shows, writes, written};
use crate::app::effects::{EffectView, WriteView};
use crate::app::events::{EventView, RoomKind};
use crate::app::ticker;
use crate::app::{addresses, AppView, RoomView};
use crate::crypto::megolm::RotationPolicy;
use vstd::prelude::*;

verus! {

/// The session of a room has sent as many messages as the policy says, or is as old as it says. A time before
/// the last rotation counts as no age.
pub open spec fn is_old(room: RoomView, policy: RotationPolicy, now: i64) -> bool {
    room.info.encrypted && room.key is Some && room.crypto is Some && ({
        let c = room.crypto->0;
        ||| policy.max_messages > 0 && c.messages_since_rotation >= policy.max_messages
        ||| policy.max_age_secs > 0 && now - c.last_rotation_at >= policy.max_age_secs
    })
}

/// With every heartbeat each room that we are in is announced as it is, with how many are in it. Where a session
/// is old it gives way to one that was never used: that is stored, and we announce ourselves there and nowhere
/// else. Members, keys and what we read of others stay.
pub proof fn law_the_heartbeat_reaches_every_room(
    app: AppView,
    policy: RotationPolicy,
    pinned: Seq<Seq<char>>,
    now: i64,
    after: AppView,
    eff: Seq<EffectView>,
    room_id: Seq<char>,
)
    requires
        ticker::beaten(app, policy, pinned, now, after, eff),
        app.wf(),
        app.rooms.dom().contains(room_id),
    ensures
        after.rooms.dom() == app.rooms.dom(),
        ({
            let old_room = app.rooms[room_id];
            let new_room = after.rooms[room_id];
            &&& old_room.members.len() <= u32::MAX ==> eff.contains(
                EffectView::AnnounceRoom(old_room.info, old_room.members.len() as u32),
            )
            &&& eff.contains(EffectView::AnnounceMember { room_id, delay_ms: 0 }) <==> is_old(
                old_room,
                policy,
                now,
            )
            &&& is_old(old_room, policy, now) ==> new_room.crypto->0.is_unused() && writes(
                eff,
                WriteView::RotationState {
                    room_id: old_room.crypto->0.room_id,
                    fingerprint: old_room.crypto->0.our_fingerprint,
                    messages_since_rotation: 0,
                    last_rotation_at: now,
                },
            )
            &&& !is_old(old_room, policy, now) ==> new_room.crypto == old_room.crypto
            &&& eff.contains(EffectView::RequestKeys { room_id, delay_ms: 0 }) <==> new_room.key_retry
                > old_room.key_retry
            &&& new_room.members == old_room.members
            &&& new_room.key == old_room.key
            &&& new_room.info == old_room.info
            &&& new_room.codes == old_room.codes
        }),
{
    let (order, ticks) = choose|order: Seq<Seq<char>>, ticks: Seq<(RoomView, RoomView)>| #[trigger]
        ticker::ticked_in_order(app, after, order, ticks, policy, pinned, now) && eff
            == ticker::announced(ticks) + ticker::rotated(ticks, policy, now) + ticker::nudged(
            ticks,
        );
    let a = ticker::announced(ticks);
    let b = ticker::rotated(ticks, policy, now);
    let c = ticker::nudged(ticks);
    assert(order.to_set().contains(room_id));
    let k = choose|k: int| 0 <= k < order.len() && order[k] == room_id;
    let old_room = app.rooms[room_id];
    let new_room = after.rooms[room_id];
    assert(ticks[k].0 == old_room && ticks[k].1 == new_room);
    assert(old_room.info.id == room_id);
    assert(eff[k] == a[k]);
    lemma_rotated(app, after, order, ticks, policy, pinned, now, room_id);
    lemma_nudged(app, after, order, ticks, policy, pinned, now, room_id);
    assert(ticker::session_due(old_room, policy, now) == is_old(old_room, policy, now));
    let me = EffectView::AnnounceMember { room_id, delay_ms: 0 };
    let ask = EffectView::RequestKeys { room_id, delay_ms: 0 };
    assert(!a.contains(me) && !a.contains(ask));
    lemma_among(a, b, c, me);
    lemma_among(a, b, c, ask);
    if is_old(old_room, policy, now) {
        let x = crate::app::membership::rotation_state(new_room.crypto->0);
        lemma_among(a, b, c, x);
        let i = choose|i: int| 0 <= i < eff.len() && eff[i] == x;
        assert(written(eff[i]) is Some);
    }
}

proof fn lemma_among(a: Seq<EffectView>, b: Seq<EffectView>, c: Seq<EffectView>, x: EffectView)
    ensures
        (a + b + c).contains(x) <==> a.contains(x) || b.contains(x) || c.contains(x),
{
    let all = a + b + c;
    if a.contains(x) {
        let i = choose|i: int| 0 <= i < a.len() && a[i] == x;
        assert(all[i] == x);
    }
    if b.contains(x) {
        let i = choose|i: int| 0 <= i < b.len() && b[i] == x;
        assert(all[a.len() + i] == x);
    }
    if c.contains(x) {
        let i = choose|i: int| 0 <= i < c.len() && c[i] == x;
        assert(all[a.len() + b.len() + i] == x);
    }
    if all.contains(x) {
        let i = choose|i: int| 0 <= i < all.len() && all[i] == x;
        if i < a.len() {
            assert(a[i] == x);
        } else if i < a.len() + b.len() {
            assert(b[i - a.len()] == x);
        } else {
            assert(c[i - a.len() - b.len()] == x);
        }
    }
}

proof fn lemma_rotated(
    app: AppView,
    after: AppView,
    order: Seq<Seq<char>>,
    ticks: Seq<(RoomView, RoomView)>,
    policy: RotationPolicy,
    pinned: Seq<Seq<char>>,
    now: i64,
    room_id: Seq<char>,
)
    requires
        app.wf(),
        ticker::ticked_in_order(app, after, order, ticks, policy, pinned, now),
        app.rooms.dom().contains(room_id),
    ensures
        ({
            let b = ticker::rotated(ticks, policy, now);
            let due = ticker::session_due(app.rooms[room_id], policy, now);
            &&& b.contains(EffectView::AnnounceMember { room_id, delay_ms: 0 }) <==> due
            &&& due ==> b.contains(
                crate::app::membership::rotation_state(after.rooms[room_id].crypto->0),
            )
            &&& !b.contains(EffectView::RequestKeys { room_id, delay_ms: 0 })
        }),
{
    assert(order.to_set().contains(room_id));
    assert forall|j: int| 0 <= j < order.len() implies (#[trigger] ticks[j]).0.info.id == order[j] by {
        assert(order.to_set().contains(order[j]));
        assert(app.rooms.dom().contains(order[j]));
    }
    lemma_rotated_prefix(order, ticks, policy, now, room_id);
    let k = choose|k: int| 0 <= k < order.len() && order[k] == room_id;
    assert(ticks[k].0 == app.rooms[room_id]);
    let b = ticker::rotated(ticks, policy, now);
    if b.contains(EffectView::AnnounceMember { room_id, delay_ms: 0 }) {
        let j = choose|j: int|
            0 <= j < ticks.len() && order[j] == room_id && ticker::session_due(
                (#[trigger] ticks[j]).0,
                policy,
                now,
            );
        assert(j == k);
    }
}

proof fn lemma_rotated_prefix(
    order: Seq<Seq<char>>,
    ticks: Seq<(RoomView, RoomView)>,
    policy: RotationPolicy,
    now: i64,
    room_id: Seq<char>,
)
    requires
        ticks.len() <= order.len(),
        forall|j: int|
            0 <= j < ticks.len() ==> (#[trigger] ticks[j]).0.info.id == order[j],
    ensures
        ({
            let b = ticker::rotated(ticks, policy, now);
            &&& b.contains(EffectView::AnnounceMember { room_id, delay_ms: 0 }) <==> exists|j: int|
                0 <= j < ticks.len() && order[j] == room_id && ticker::session_due(
                    (#[trigger] ticks[j]).0,
                    policy,
                    now,
                )
            &&& forall|j: int|
                0 <= j < ticks.len() && ticker::session_due((#[trigger] ticks[j]).0, policy, now)
                    ==> b.contains(crate::app::membership::rotation_state(ticks[j].1.crypto->0))
            &&& !b.contains(EffectView::RequestKeys { room_id, delay_ms: 0 })
        }),
    decreases ticks.len(),
{
    if ticks.len() > 0 {
        let rest = ticks.drop_last();
        let t = ticks.last();
        lemma_rotated_prefix(order, rest, policy, now, room_id);
        let b0 = ticker::rotated(rest, policy, now);
        let more = if ticker::session_due(t.0, policy, now) {
            seq![
                crate::app::membership::rotation_state(t.1.crypto->0),
                EffectView::AnnounceMember { room_id: t.0.info.id, delay_ms: 0 },
            ]
        } else {
            Seq::empty()
        };
        let none = Seq::<EffectView>::empty();
        let b = ticker::rotated(ticks, policy, now);
        assert(b == b0 + more);
        assert(b =~= b0 + more + none);
        let me = EffectView::AnnounceMember { room_id, delay_ms: 0 };
        lemma_among(b0, more, none, me);
        lemma_among(b0, more, none, EffectView::RequestKeys { room_id, delay_ms: 0 });
        let n = ticks.len() - 1;
        if ticker::session_due(t.0, policy, now) {
            assert(more[0] == crate::app::membership::rotation_state(t.1.crypto->0));
            assert(more[1] == EffectView::AnnounceMember { room_id: order[n], delay_ms: 0 });
        }
        assert forall|j: int|
            0 <= j < ticks.len() && ticker::session_due(
                (#[trigger] ticks[j]).0,
                policy,
                now,
            ) implies b.contains(crate::app::membership::rotation_state(ticks[j].1.crypto->0)) by {
            lemma_among(
                b0,
                more,
                none,
                crate::app::membership::rotation_state(ticks[j].1.crypto->0),
            );
            if j < n {
                assert(rest[j] == ticks[j]);
            }
        }
        if b0.contains(me) {
            let j = choose|j: int|
                0 <= j < rest.len() && order[j] == room_id && ticker::session_due(
                    (#[trigger] rest[j]).0,
                    policy,
                    now,
                );
            assert(ticks[j] == rest[j]);
        }
        if exists|j: int|
            0 <= j < ticks.len() && order[j] == room_id && ticker::session_due(
                (#[trigger] ticks[j]).0,
                policy,
                now,
            ) {
            let j = choose|j: int|
                0 <= j < ticks.len() && order[j] == room_id && ticker::session_due(
                    (#[trigger] ticks[j]).0,
                    policy,
                    now,
                );
            if j < n {
                assert(rest[j] == ticks[j]);
            }
        }
        if more.contains(me) {
            assert(order[n] == room_id && ticker::session_due(ticks[n].0, policy, now));
        }
    }
}

proof fn lemma_nudged(
    app: AppView,
    after: AppView,
    order: Seq<Seq<char>>,
    ticks: Seq<(RoomView, RoomView)>,
    policy: RotationPolicy,
    pinned: Seq<Seq<char>>,
    now: i64,
    room_id: Seq<char>,
)
    requires
        app.wf(),
        ticker::ticked_in_order(app, after, order, ticks, policy, pinned, now),
        app.rooms.dom().contains(room_id),
    ensures
        ({
            let c = ticker::nudged(ticks);
            &&& c.contains(EffectView::RequestKeys { room_id, delay_ms: 0 })
                <==> after.rooms[room_id].key_retry > app.rooms[room_id].key_retry
            &&& !c.contains(EffectView::AnnounceMember { room_id, delay_ms: 0 })
        }),
{
    assert(order.to_set().contains(room_id));
    assert forall|j: int| 0 <= j < order.len() implies (#[trigger] ticks[j]).0.info.id == order[j] by {
        assert(order.to_set().contains(order[j]));
        assert(app.rooms.dom().contains(order[j]));
    }
    lemma_nudged_prefix(order, ticks, room_id);
    let k = choose|k: int| 0 <= k < order.len() && order[k] == room_id;
    assert(ticks[k].0 == app.rooms[room_id]);
    let c = ticker::nudged(ticks);
    if c.contains(EffectView::RequestKeys { room_id, delay_ms: 0 }) {
        let j = choose|j: int|
            0 <= j < ticks.len() && order[j] == room_id && (#[trigger] ticks[j]).1.key_retry
                > ticks[j].0.key_retry;
        assert(j == k);
    }
}

proof fn lemma_nudged_prefix(
    order: Seq<Seq<char>>,
    ticks: Seq<(RoomView, RoomView)>,
    room_id: Seq<char>,
)
    requires
        ticks.len() <= order.len(),
        forall|j: int|
            0 <= j < ticks.len() ==> (#[trigger] ticks[j]).0.info.id == order[j],
    ensures
        ({
            let c = ticker::nudged(ticks);
            &&& c.contains(EffectView::RequestKeys { room_id, delay_ms: 0 }) <==> exists|j: int|
                0 <= j < ticks.len() && order[j] == room_id && (#[trigger] ticks[j]).1.key_retry
                    > ticks[j].0.key_retry
            &&& !c.contains(EffectView::AnnounceMember { room_id, delay_ms: 0 })
        }),
    decreases ticks.len(),
{
    if ticks.len() > 0 {
        let rest = ticks.drop_last();
        let t = ticks.last();
        lemma_nudged_prefix(order, rest, room_id);
        let c0 = ticker::nudged(rest);
        let more = if t.1.key_retry > t.0.key_retry {
            seq![EffectView::RequestKeys { room_id: t.0.info.id, delay_ms: 0 }]
        } else {
            Seq::empty()
        };
        let none = Seq::<EffectView>::empty();
        let c = ticker::nudged(ticks);
        assert(c =~= c0 + more + none);
        let ask = EffectView::RequestKeys { room_id, delay_ms: 0 };
        lemma_among(c0, more, none, ask);
        lemma_among(c0, more, none, EffectView::AnnounceMember { room_id, delay_ms: 0 });
        let n = ticks.len() - 1;
        if t.1.key_retry > t.0.key_retry {
            assert(more[0] == EffectView::RequestKeys { room_id: order[n], delay_ms: 0 });
        }
        if c0.contains(ask) {
            let j = choose|j: int|
                0 <= j < rest.len() && order[j] == room_id && (#[trigger] rest[j]).1.key_retry
                    > rest[j].0.key_retry;
            assert(ticks[j] == rest[j]);
        }
        if exists|j: int|
            0 <= j < ticks.len() && order[j] == room_id && (#[trigger] ticks[j]).1.key_retry
                > ticks[j].0.key_retry {
            let j = choose|j: int|
                0 <= j < ticks.len() && order[j] == room_id && (#[trigger] ticks[j]).1.key_retry
                    > ticks[j].0.key_retry;
            if j < n {
                assert(rest[j] == ticks[j]);
            }
        }
        if more.contains(ask) {
            assert(order[n] == room_id && ticks[n].1.key_retry > ticks[n].0.key_retry);
        }
    }
}

/// The partner of an encrypted chat that has no key is asked for it with every heartbeat, ten times; so is one
/// who announced an ML-KEM key while the chat has only a classical one. A chat that has its key asks nobody.
pub proof fn law_partners_are_asked_ten_times(
    app: AppView,
    policy: RotationPolicy,
    pinned: Seq<Seq<char>>,
    now: i64,
    after: AppView,
    eff: Seq<EffectView>,
    room_id: Seq<char>,
    partner: Seq<char>,
)
    requires
        ticker::beaten(app, policy, pinned, now, after, eff),
        app.wf(),
        app.rooms.dom().contains(room_id),
        app.rooms[room_id].info.encrypted && app.rooms[room_id].info.kind == RoomKind::Direct,
        app.rooms[room_id].members == set![app.our_fp(), partner],
        partner != app.our_fp(),
    ensures
        ({
            let room = app.rooms[room_id];
            let wanting = room.key is None || (!room.is_hybrid && pinned.contains(partner));
            &&& eff.contains(EffectView::RequestKeys { room_id, delay_ms: 0 }) <==> wanting
                && room.key_retry < 10
            &&& wanting && room.key_retry < 10 ==> after.rooms[room_id].key_retry == room.key_retry
                + 1
            &&& !wanting ==> after.rooms[room_id].key_retry == 0
        }),
{
    law_the_heartbeat_reaches_every_room(app, policy, pinned, now, after, eff, room_id);
    let (order, ticks) = choose|order: Seq<Seq<char>>, ticks: Seq<(RoomView, RoomView)>| #[trigger]
        ticker::ticked_in_order(app, after, order, ticks, policy, pinned, now) && eff
            == ticker::announced(ticks) + ticker::rotated(ticks, policy, now) + ticker::nudged(
            ticks,
        );
    assert(order.to_set().contains(room_id));
    let k = choose|k: int| 0 <= k < order.len() && order[k] == room_id;
    assert(ticks[k].0 == app.rooms[room_id]);
    let room = app.rooms[room_id];
    let p = choose|p: Option<Seq<char>>| #[trigger]
        ticker::is_other_member(room, app.our_fp(), p) && after.rooms[room_id].key_retry == (
        if !ticker::key_wanting(room, p, pinned) {
            0
        } else if room.key_retry < ticker::DM_KEY_RETRY_MAX {
            (room.key_retry + 1) as u8
        } else {
            room.key_retry
        });
    assert(room.members.contains(partner));
    assert(p == Some(partner));
}

/// An announced room is remembered for 45 seconds after it was last heard of, and the user is told of every one
/// that is forgotten, and of messages whose time is over. The rooms that we are in are not touched.
pub proof fn law_silent_rooms_are_forgotten(
    app: AppView,
    now: i64,
    expired: usize,
    after: AppView,
    eff: Seq<EffectView>,
    room_id: Seq<char>,
)
    requires
        ticker::pruned(app, now, expired, after, eff),
    ensures
        after.discovered.dom().contains(room_id) <==> app.discovered.dom().contains(room_id) && now
            - app.discovered[room_id].last_seen <= 45,
        after.discovered.dom().contains(room_id) ==> after.discovered[room_id]
            == app.discovered[room_id],
        shows(eff, EventView::RoomLost { room_id }) <==> app.discovered.dom().contains(room_id)
            && !after.discovered.dom().contains(room_id),
        expired > 0 ==> shows(eff, EventView::MessagesExpired { count: expired }),
        expired == 0 ==> forall|n: usize| !shows(eff, #[trigger] expiry(n)),
        after.rooms == app.rooms,
        forall|w: WriteView| !#[trigger] writes(eff, w),
{
    let lost = choose|lost: Seq<Seq<char>>| #[trigger]
        ticker::lost_rooms(app.discovered, now, lost) && eff == (if expired > 0 {
            seq![EffectView::Emit(EventView::MessagesExpired { count: expired })]
        } else {
            Seq::empty()
        }) + lost.map_values(
            |id: Seq<char>| EffectView::Emit(EventView::RoomLost { room_id: id }),
        );
    let n: int = if expired > 0 {
        1
    } else {
        0
    };
    assert forall|i: int| n <= i < eff.len() implies #[trigger] eff[i] == EffectView::Emit(
        EventView::RoomLost { room_id: lost[i - n] },
    ) by {}
    assert(eff.len() == n + lost.len());
    if lost.contains(room_id) {
        let i = choose|i: int| 0 <= i < lost.len() && lost[i] == room_id;
        assert(shown(eff[i + n]) == Some(EventView::RoomLost { room_id }));
    }
    if shows(eff, EventView::RoomLost { room_id }) {
        let i = choose|i: int|
            0 <= i < eff.len() && shown(#[trigger] eff[i]) == Some(
                EventView::RoomLost { room_id },
            );
        assert(i >= n);
        assert(lost.contains(lost[i - n]));
    }
    if expired > 0 {
        assert(shown(eff[0]) is Some);
    }
}

/// The user is told that messages expired.
pub open spec fn expiry(count: usize) -> EventView {
    EventView::MessagesExpired { count }
}

/// The relay brings us what is sent to every room that we are in, that waits, or that we said we listen to.
pub proof fn law_every_room_is_listened_to(app: AppView, room_id: Seq<char>, other: Seq<char>)
    ensures
        app.listened_to().contains(room_id) <==> app.rooms.dom().contains(room_id)
            || app.restorable.dom().contains(room_id) || app.aux.contains(room_id),
        app.listening_to(room_id).0.listened_to().contains(room_id),
        other != room_id ==> app.listening_to(room_id).0.listened_to().contains(other)
            == app.listened_to().contains(other),
        app.listening_to(room_id).1.contains(EffectView::Subscribe { room_id }),
        app.listening_to(room_id).0.rooms == app.rooms,
{
    assert(app.listening_to(room_id).1[0] == EffectView::Subscribe { room_id });
}

/// Every known address is dialed at startup, if it is one; a connect code is shown with the time at which it
/// ends.
pub proof fn law_known_addresses_are_dialed(
    address: Seq<char>,
    code: Seq<char>,
    ttl_secs: u64,
    now: i64,
)
    requires
        now + ttl_secs <= i64::MAX,
    ensures
        ({
            let eff = ticker::reconnect_effects(address, now);
            &&& eff.len() == 1 <==> addresses::multiaddr_text(address) is Ok
            &&& eff.len() <= 1
            &&& eff.len() == 1 ==> (eff[0] matches EffectView::Dial(k) && k.address == address
                && k.last_connected_at is None && k.last_attempt_at == Some(now) && !k.trusted
                && k.fingerprint is None)
        }),
        exists|at: i64|
            at - now == ttl_secs && shows(
                ticker::code_effects(code, ttl_secs, now),
                #[trigger] code_made(code, at),
            ),
{
    let eff = ticker::code_effects(code, ttl_secs, now);
    assert(shown(eff[0]) == Some(code_made(code, (now + ttl_secs) as i64)));
}

/// The user is shown a connect code.
pub open spec fn code_made(code: Seq<char>, expires_at: i64) -> EventView {
    EventView::ConnectCodeCreated { code, expires_at }
}

} // verus!
