//! What happens by itself: announcements, the rotation of sessions, and the forgetting of what is
//! past. And the connection to the relay, which is made again whenever it is lost.
use crate::app::addresses;
use crate::app::chat;
use crate::app::dm_key;
use crate::app::effects::{self, Effect, EffectView};
use crate::app::events::{AppEvent, EventView, RoomKind};
use crate::app::membership::{self, rotation_state};
use crate::app::moderation;
use crate::app::network;
use crate::app::transport;
use crate::app::{ActiveRoom, AppHandle, AppView, RoomView};
use crate::crypto::megolm::RotationPolicy;
use crate::strmap::{self, StrSet};
use crate::text;
use vstd::prelude::*;

verus! {

/// How many seconds lie between two announcements of our rooms.
pub const ANNOUNCE_INTERVAL_SECS: u64 = 15;

/// After how many silent seconds an announced room is forgotten.
pub const DISCOVERED_TTL_SECS: i64 = 45;

/// How often a partner is asked for the key of a chat between two before we give up.
pub const DM_KEY_RETRY_MAX: u8 = 10;

// ---------------------------------------------------------------------------------------------
// The heartbeat
// ---------------------------------------------------------------------------------------------

/// How many members an announcement says there are.
pub open spec fn counted(n: nat) -> u32 {
    if n > u32::MAX {
        u32::MAX
    } else {
        n as u32
    }
}

pub(crate) fn count_of(n: usize) -> (r: u32)
    ensures
        r == counted(n as nat),
{
    if n > u32::MAX as usize {
        u32::MAX
    } else {
        n as u32
    }
}

/// The outbound session of a room is due: the room has a key, and so there is somebody to share the
/// next session with.
pub open spec fn session_due(room: RoomView, policy: RotationPolicy, now: i64) -> bool {
    room.info.encrypted && room.key is Some && room.crypto is Some && chat::rotation_due(
        policy,
        room.crypto->0,
        now,
    )
}

/// Another member of the room than us, or nobody where there is none.
pub open spec fn is_other_member(
    room: RoomView,
    our_fp: Seq<char>,
    partner: Option<Seq<char>>,
) -> bool {
    match partner {
        Some(p) => room.members.contains(p) && p != our_fp,
        None => forall|m: Seq<char>| #[trigger] room.members.contains(m) ==> m == our_fp,
    }
}

/// A chat between two that has not come to the key that it should have: none yet, or a classical one
/// with a partner who speaks ML-KEM.
pub open spec fn key_wanting(
    room: RoomView,
    partner: Option<Seq<char>>,
    pinned: Seq<Seq<char>>,
) -> bool {
    room.key is None || (!room.is_hybrid && partner is Some && pinned.contains(partner->0))
}

/// What the heartbeat makes of a room. A session that is due gives way to one that is drawn at
/// random; a chat between two counts how often its partner was asked for the key.
pub open spec fn room_ticked(
    before: RoomView,
    policy: RotationPolicy,
    our_fp: Seq<char>,
    pinned: Seq<Seq<char>>,
    now: i64,
    after: RoomView,
) -> bool {
    &&& after == (RoomView { crypto: after.crypto, key_retry: after.key_retry, ..before })
    &&& if session_due(before, policy, now) {
        (after.crypto matches Some(c) ==> c.is_unused()) && exists|pickle: Seq<char>|
            after.crypto == #[trigger] dm_key::crypto_rotated(before.crypto, pickle, now)
    } else {
        after.crypto == before.crypto
    }
    &&& if before.info.kind != RoomKind::Direct || !before.info.encrypted {
        after.key_retry == before.key_retry
    } else {
        exists|partner: Option<Seq<char>>| #[trigger]
            is_other_member(before, our_fp, partner) && after.key_retry == (if !key_wanting(
                before,
                partner,
                pinned,
            ) {
                0
            } else if before.key_retry < DM_KEY_RETRY_MAX {
                (before.key_retry + 1) as u8
            } else {
                before.key_retry
            })
    }
}

/// Every room is announced.
pub open spec fn announced(ticks: Seq<(RoomView, RoomView)>) -> Seq<EffectView> {
    ticks.map_values(
        |t: (RoomView, RoomView)|
            EffectView::AnnounceRoom(t.0.info, counted(t.0.members.len())),
    )
}

/// In every room whose session was rotated we announce ourselves.
pub open spec fn rotated(ticks: Seq<(RoomView, RoomView)>, policy: RotationPolicy, now: i64) -> Seq<
    EffectView,
>
    decreases ticks.len(),
{
    if ticks.len() == 0 {
        Seq::empty()
    } else {
        let t = ticks.last();
        rotated(ticks.drop_last(), policy, now) + (if session_due(t.0, policy, now) {
            seq![
                rotation_state(t.1.crypto->0),
                EffectView::AnnounceMember { room_id: t.0.info.id, delay_ms: 0 },
            ]
        } else {
            Seq::empty()
        })
    }
}

/// The partner is asked for the key of every chat between two that still counts.
pub open spec fn nudged(ticks: Seq<(RoomView, RoomView)>) -> Seq<EffectView>
    decreases ticks.len(),
{
    if ticks.len() == 0 {
        Seq::empty()
    } else {
        let t = ticks.last();
        nudged(ticks.drop_last()) + (if t.1.key_retry > t.0.key_retry {
            seq![EffectView::RequestKeys { room_id: t.0.info.id, delay_ms: 0 }]
        } else {
            Seq::empty()
        })
    }
}

/// The rooms in this order, before and after the heartbeat.
pub open spec fn ticked_in_order(
    before: AppView,
    after: AppView,
    order: Seq<Seq<char>>,
    ticks: Seq<(RoomView, RoomView)>,
    policy: RotationPolicy,
    pinned: Seq<Seq<char>>,
    now: i64,
) -> bool {
    &&& moderation::room_order(before, order)
    &&& ticks.len() == order.len()
    &&& forall|j: int|
        0 <= j < order.len() ==> {
            &&& (#[trigger] ticks[j]).0 == before.rooms[order[j]]
            &&& ticks[j].1 == after.rooms[order[j]]
            &&& room_ticked(ticks[j].0, policy, before.our_fp(), pinned, now, ticks[j].1)
        }
}

/// What the heartbeat makes of the rooms, and what it causes.
pub open spec fn beaten(
    before: AppView,
    policy: RotationPolicy,
    pinned: Seq<Seq<char>>,
    now: i64,
    after: AppView,
    eff: Seq<EffectView>,
) -> bool {
    &&& after == (AppView { rooms: after.rooms, ..before })
    &&& after.rooms.dom() == before.rooms.dom()
    &&& exists|order: Seq<Seq<char>>, ticks: Seq<(RoomView, RoomView)>| #[trigger]
        ticked_in_order(before, after, order, ticks, policy, pinned, now) && eff == announced(ticks)
            + rotated(ticks, policy, now) + nudged(ticks)
}

impl ActiveRoom {
    /// What the heartbeat makes of a room: whether its session was rotated, and whether its partner
    /// is to be asked for the key.
    fn tick(&mut self, policy: &RotationPolicy, our_fp: &str, pinned: &Vec<String>, now: i64) -> (r: (
        bool,
        bool,
    ))
        requires
            old(self)@.wf(),
        ensures
            final(self)@.wf(),
            room_ticked(
                old(self)@,
                *policy,
                our_fp@,
                text::texts(pinned@),
                now,
                final(self)@,
            ),
            r.0 == session_due(old(self)@, *policy, now),
            r.0 ==> final(self)@.crypto is Some,
            r.1 == (final(self)@.key_retry > old(self)@.key_retry),
    {
        let ghost before = self@;
        let mut due: bool = false;
        if self.info.encrypted && self.passphrase_key.is_some() && policy.is_enabled() {
            match &self.crypto {
                Some(c) => {
                    due = c.should_rotate_at(policy, now);
                },
                None => {},
            }
        }
        if due {
            self.rotate_session(now);
        }
        let ghost mid = self@;
        assert(mid =~= RoomView { crypto: mid.crypto, ..before });
        if self.info.kind != RoomKind::Direct || !self.info.encrypted {
            return (due, false);
        }
        let partner: Option<String> = self.other_member(our_fp);
        let ghost p = text::opt(partner);
        let pq_capable: bool = match &partner {
            Some(p) => text::texts_contain(pinned, p.as_str()),
            None => false,
        };
        let wanting: bool = self.passphrase_key.is_none() || (!self.dm_is_hybrid && pq_capable);
        let mut ask: bool = false;
        if wanting {
            if self.dm_key_retry < DM_KEY_RETRY_MAX {
                self.dm_key_retry = self.dm_key_retry + 1;
                ask = true;
            }
        } else {
            self.dm_key_retry = 0;
        }
        proof {
            assert(self@ =~= RoomView {
                crypto: mid.crypto,
                key_retry: self@.key_retry,
                ..before
            });
            assert(is_other_member(before, our_fp@, p));
            assert(wanting == key_wanting(before, p, text::texts(pinned@)));
        }
        (due, ask)
    }

    /// Another member of the room than us.
    pub(crate) fn other_member(&self, our_fp: &str) -> (r: Option<String>)
        ensures
            is_other_member(self@, our_fp@, text::opt(r)),
    {
        let members: Vec<String> = self.members.to_vec();
        let ghost all = text::texts(members@);
        let mut i: usize = 0;
        while i < members.len()
            invariant
                i <= members@.len(),
                all == text::texts(members@),
                all.to_set() == self@.members,
                forall|j: int| 0 <= j < i ==> #[trigger] all[j] == our_fp@,
            decreases members@.len() - i,
        {
            if !text::same(members[i].as_str(), our_fp) {
                assert(all.contains(all[i as int]));
                assert(all.to_set().contains(all[i as int]));
                return Some(members[i].clone());
            }
            i = i + 1;
        }
        proof {
            assert forall|m: Seq<char>| #[trigger] self@.members.contains(m) implies m == our_fp@ by {
                assert(all.to_set().contains(m));
                let j = choose|j: int| 0 <= j < all.len() && all[j] == m;
                assert(all[j] == our_fp@);
            }
        }
        None
    }
}

impl AppHandle {
    /// The ids of the rooms that we are in.
    pub fn active_room_ids(&self) -> (r: Vec<String>)
        ensures
            moderation::room_order(self@, text::texts(r@)),
    {
        let n: usize = self.active_rooms.len();
        let ghost order = self.active_rooms.keys();
        let mut out: Vec<String> = Vec::new();
        let mut i: usize = 0;
        while i < n
            invariant
                i <= n,
                n == order.len(),
                order == self.active_rooms.keys(),
                text::texts(out@) == order.take(i as int),
            decreases n - i,
        {
            let ghost got = text::texts(out@);
            out.push(text::owned(self.active_rooms.key_at(i)));
            assert(text::texts(out@) =~= got.push(order[i as int]));
            assert(order.take(i + 1) =~= order.take(i as int).push(order[i as int]));
            i = i + 1;
        }
        proof {
            assert(order.take(n as int) =~= order);
            assert forall|k: Seq<char>| order.to_set().contains(k) == self@.rooms.dom().contains(
                k,
            ) by {
                assert(order.contains(k) == self.active_rooms@.dom().contains(k));
            }
            assert(order.to_set() =~= self@.rooms.dom());
        }
        out
    }

    /// The heartbeat: every room is announced, sessions that are due are rotated, and partners are
    /// asked for the keys that are wanting. `pinned` are the peers who announced an ML-KEM key.
    #[verifier::rlimit(60)]
    pub fn heartbeat(&mut self, policy: &RotationPolicy, pinned: &Vec<String>, now: i64) -> (r: Vec<Effect>)
        requires
            old(self)@.wf(),
        ensures
            final(self)@.wf(),
            beaten(
                old(self)@,
                *policy,
                text::texts(pinned@),
                now,
                final(self)@,
                effects::effects(r@),
            ),
    {
        let ghost before = self@;
        let ids: Vec<String> = self.active_room_ids();
        let ghost order = text::texts(ids@);
        let ghost mut ticks: Seq<(RoomView, RoomView)> = Seq::empty();
        let ours: String = text::owned(self.identity.fingerprint());
        let mut out: Vec<Effect> = Vec::new();
        let mut rotations: Vec<Effect> = Vec::new();
        let mut nudges: Vec<Effect> = Vec::new();
        let mut i: usize = 0;
        proof {
            assert(effects::effects(out@) =~= announced(ticks));
            assert(effects::effects(rotations@) =~= rotated(ticks, *policy, now));
            assert(effects::effects(nudges@) =~= nudged(ticks));
            assert(self@ =~= AppView { rooms: self@.rooms, ..before });
        }
        while i < ids.len()
            invariant
                i <= ids@.len(),
                order == text::texts(ids@),
                ours@ == before.our_fp(),
                before == old(self)@,
                before.wf(),
                self@.wf(),
                moderation::room_order(before, order),
                self@ == (AppView { rooms: self@.rooms, ..before }),
                self@.rooms.dom() == before.rooms.dom(),
                ticks.len() == i,
                forall|j: int|
                    0 <= j < i ==> {
                        &&& (#[trigger] ticks[j]).0 == before.rooms[order[j]]
                        &&& ticks[j].1 == self@.rooms[order[j]]
                        &&& room_ticked(
                            ticks[j].0,
                            *policy,
                            before.our_fp(),
                            text::texts(pinned@),
                            now,
                            ticks[j].1,
                        )
                    },
                forall|j: int|
                    i <= j < order.len() ==> self@.rooms[#[trigger] order[j]]
                        == before.rooms[order[j]],
                effects::effects(out@) == announced(ticks),
                effects::effects(rotations@) == rotated(ticks, *policy, now),
                effects::effects(nudges@) == nudged(ticks),
            decreases ids@.len() - i,
        {
            let ghost mid = self@;
            let ghost id = order[i as int];
            let ghost got = effects::effects(out@);
            let ghost got_r = effects::effects(rotations@);
            let ghost got_n = effects::effects(nudges@);
            let ghost done = ticks;
            proof {
                assert(order.contains(id));
                assert(order.to_set().contains(id));
                assert(before.rooms.dom().contains(id));
                assert(mid.rooms.dom().contains(id));
            }
            let mut room: ActiveRoom = self.take_room(ids[i].as_str()).unwrap();
            let ghost room0 = room@;
            let count: u32 = count_of(room.members.len());
            out.push(Effect::AnnounceRoom(room.info.copy(), count));
            let (due, ask): (bool, bool) = room.tick(policy, ours.as_str(), pinned, now);
            let ghost room1 = room@;
            if due {
                match &room.crypto {
                    Some(c) => {
                        rotations.push(membership::rotation_effect(c));
                    },
                    None => {},
                }
                rotations.push(
                    Effect::AnnounceMember { room_id: ids[i].clone(), delay_ms: 0 },
                );
            }
            if ask {
                nudges.push(Effect::RequestKeys { room_id: ids[i].clone(), delay_ms: 0 });
            }
            self.put_room(ids[i].as_str(), room);
            proof {
                super::lemma_put_back(mid, id, room1);
                ticks = done.push((room0, room1));
                assert(ticks.drop_last() =~= done);
                assert(self@ == mid.with_room(id, room1));
                assert(self@.rooms.dom() =~= before.rooms.dom());
                assert(effects::effects(out@) =~= got.push(
                    EffectView::AnnounceRoom(room0.info, counted(room0.members.len())),
                ));
                assert(announced(ticks) =~= announced(done).push(
                    EffectView::AnnounceRoom(room0.info, counted(room0.members.len())),
                ));
                assert(room0.info.id == id);
                assert(effects::effects(rotations@) =~= rotated(ticks, *policy, now));
                assert(effects::effects(nudges@) =~= nudged(ticks));
                assert forall|j: int| 0 <= j < i + 1 implies {
                    &&& (#[trigger] ticks[j]).0 == before.rooms[order[j]]
                    &&& ticks[j].1 == self@.rooms[order[j]]
                    &&& room_ticked(
                        ticks[j].0,
                        *policy,
                        before.our_fp(),
                        text::texts(pinned@),
                        now,
                        ticks[j].1,
                    )
                } by {
                    if j < i {
                        assert(ticks[j] == done[j]);
                        assert(order[j] != order[i as int]);
                    }
                }
                assert forall|j: int| i + 1 <= j < order.len() implies self@.rooms[
                #[trigger] order[j]] == before.rooms[order[j]] by {
                    assert(order[j] != order[i as int]);
                }
            }
            i = i + 1;
        }
        let ghost a = effects::effects(out@);
        let ghost b = effects::effects(rotations@);
        let ghost c = effects::effects(nudges@);
        out.append(&mut rotations);
        out.append(&mut nudges);
        proof {
            assert(effects::effects(out@) =~= a + b + c);
            assert(ticked_in_order(
                before,
                self@,
                order,
                ticks,
                *policy,
                text::texts(pinned@),
                now,
            ));
        }
        out
    }

    /// Every room of which the relay has to know that we listen to it.
    pub fn relay_membership_ids(&self) -> (r: Vec<String>)
        ensures
            text::texts(r@).no_duplicates(),
            text::texts(r@).to_set() == self@.listened_to(),
    {
        let mut set: StrSet = StrSet::new();
        let active: Vec<String> = self.active_room_ids();
        add_all(&mut set, &active);
        let n: usize = self.restorable_rooms.len();
        let ghost keys = self.restorable_rooms.keys();
        let ghost base = set@;
        let mut i: usize = 0;
        assert(base.union(keys.take(0).to_set()) =~= base);
        while i < n
            invariant
                i <= n,
                n == keys.len(),
                keys == self.restorable_rooms.keys(),
                set@ == base.union(keys.take(i as int).to_set()),
            decreases n - i,
        {
            proof {
                let a = keys.take(i as int);
                assert(keys.take(i + 1) =~= a.push(keys[i as int]));
                strmap::lemma_push_contains(a, keys[i as int]);
                assert(keys.take(i + 1).to_set() =~= a.to_set().insert(keys[i as int]));
                assert(base.union(keys.take(i + 1).to_set()) =~= base.union(a.to_set()).insert(
                    keys[i as int],
                ));
            }
            set.insert(text::owned(self.restorable_rooms.key_at(i)));
            i = i + 1;
        }
        let aux: Vec<String> = self.aux_subscriptions.to_vec();
        proof {
            assert(keys.take(n as int) =~= keys);
            assert forall|k: Seq<char>| keys.to_set().contains(k) == self@.restorable.dom().contains(
                k,
            ) by {
                assert(keys.contains(k) == self.restorable_rooms@.dom().contains(k));
            }
            assert(keys.to_set() =~= self@.restorable.dom());
            assert(set@ =~= self@.rooms.dom().union(self@.restorable.dom()));
        }
        add_all(&mut set, &aux);
        set.to_vec()
    }

    /// Listens to a room without being in it.
    pub fn listen_to(&mut self, room_id: &str) -> (r: Vec<Effect>)
        requires
            old(self)@.wf(),
        ensures
            final(self)@.wf(),
            (final(self)@, effects::effects(r@)) == old(self)@.listening_to(room_id@),
    {
        let ghost before = self@;
        self.aux_subscriptions.insert(text::owned(room_id));
        let mut out: Vec<Effect> = Vec::new();
        out.push(Effect::Subscribe { room_id: text::owned(room_id) });
        proof {
            assert(effects::effects(out@) =~= seq![out@[0]@]);
            assert(self@ =~= AppView { aux: self@.aux, ..before });
        }
        out
    }
}

fn add_all(set: &mut StrSet, items: &Vec<String>)
    ensures
        final(set)@ == old(set)@.union(text::texts(items@).to_set()),
{
    let ghost base = set@;
    let ghost all = text::texts(items@);
    let mut i: usize = 0;
    assert(base.union(all.take(0).to_set()) =~= base);
    while i < items.len()
        invariant
            i <= items@.len(),
            all == text::texts(items@),
            set@ == base.union(all.take(i as int).to_set()),
        decreases items@.len() - i,
    {
        proof {
            let a = all.take(i as int);
            assert(all.take(i + 1) =~= a.push(all[i as int]));
            strmap::lemma_push_contains(a, all[i as int]);
            assert(all.take(i + 1).to_set() =~= a.to_set().insert(all[i as int]));
            assert(base.union(all.take(i + 1).to_set()) =~= base.union(a.to_set()).insert(
                all[i as int],
            ));
        }
        set.insert(items[i].clone());
        i = i + 1;
    }
    assert(all.take(all.len() as int) =~= all);
}

// ---------------------------------------------------------------------------------------------
// Forgetting
// ---------------------------------------------------------------------------------------------

/// The announced rooms that were heard of lately.
pub open spec fn fresh_rooms(
    m: Map<Seq<char>, crate::app::events::DiscoveredView>,
    now: i64,
) -> Map<Seq<char>, crate::app::events::DiscoveredView> {
    Map::new(
        |k: Seq<char>| m.dom().contains(k) && now - m[k].last_seen <= DISCOVERED_TTL_SECS,
        |k: Seq<char>| m[k],
    )
}

/// These rooms, each once, in some order: those that were not heard of lately.
pub open spec fn lost_rooms(
    m: Map<Seq<char>, crate::app::events::DiscoveredView>,
    now: i64,
    lost: Seq<Seq<char>>,
) -> bool {
    &&& lost.no_duplicates()
    &&& forall|k: Seq<char>| #[trigger]
        lost.contains(k) <==> m.dom().contains(k) && now - m[k].last_seen > DISCOVERED_TTL_SECS
}

/// What forgetting makes of the state, and what it causes.
pub open spec fn pruned(
    before: AppView,
    now: i64,
    expired: usize,
    after: AppView,
    eff: Seq<EffectView>,
) -> bool {
    &&& after == (AppView {
        discovered: fresh_rooms(before.discovered, now),
        sas: before.sas.reaped(now),
        ..before
    })
    &&& exists|lost: Seq<Seq<char>>| #[trigger]
        lost_rooms(before.discovered, now, lost) && eff == (if expired > 0 {
            seq![EffectView::Emit(EventView::MessagesExpired { count: expired })]
        } else {
            Seq::empty()
        }) + lost.map_values(
            |id: Seq<char>| EffectView::Emit(EventView::RoomLost { room_id: id }),
        )
}

impl AppView {
    /// The rooms that the relay is to bring us the messages of.
    pub open spec fn listened_to(self) -> Set<Seq<char>> {
        self.rooms.dom().union(self.restorable.dom()).union(self.aux)
    }

    /// We listen to a room that we are not in.
    pub open spec fn listening_to(self, room_id: Seq<char>) -> (Self, Seq<EffectView>) {
        (
            AppView { aux: self.aux.insert(room_id), ..self },
            seq![EffectView::Subscribe { room_id }],
        )
    }
}

impl AppHandle {
    /// The announced rooms that were not heard of lately.
    fn find_lost(&self, now: i64) -> (r: Vec<String>)
        ensures
            lost_rooms(self@.discovered, now, text::texts(r@)),
    {
        let n: usize = self.discovered_rooms.len();
        let ghost keys = self.discovered_rooms.keys();
        let ghost m = self@.discovered;
        let mut out: Vec<String> = Vec::new();
        let mut i: usize = 0;
        while i < n
            invariant
                i <= n,
                n == keys.len(),
                keys == self.discovered_rooms.keys(),
                keys.no_duplicates(),
                m == self@.discovered,
                forall|k: Seq<char>|
                    keys.contains(k) == #[trigger] self.discovered_rooms@.dom().contains(k),
                text::texts(out@).no_duplicates(),
                forall|k: Seq<char>| #[trigger]
                    text::texts(out@).contains(k) <==> keys.take(i as int).contains(k) && now
                        - m[k].last_seen > DISCOVERED_TTL_SECS,
            decreases n - i,
        {
            let ghost k0 = keys[i as int];
            let ghost got = text::texts(out@);
            let ghost seen = keys.take(i as int);
            let room = self.discovered_rooms.value_at(i);
            proof {
                assert(keys.take(i + 1) =~= seen.push(k0));
                strmap::lemma_push_contains(seen, k0);
                assert(keys.contains(k0));
                assert(m[k0] == room@);
                assert(!seen.contains(k0)) by {
                    if seen.contains(k0) {
                        let j = choose|j: int| 0 <= j < seen.len() && seen[j] == k0;
                        assert(keys[j] == keys[i as int]);
                    }
                }
            }
            if now as i128 - room.last_seen as i128 > DISCOVERED_TTL_SECS as i128 {
                out.push(text::owned(self.discovered_rooms.key_at(i)));
                proof {
                    assert(text::texts(out@) =~= got.push(k0));
                    strmap::lemma_push_contains(got, k0);
                    assert(!got.contains(k0));
                    assert(text::texts(out@).no_duplicates()) by {
                        let all = text::texts(out@);
                        assert forall|a: int, b: int|
                            0 <= a < all.len() && 0 <= b < all.len() && a != b implies all[a]
                            != all[b] by {
                            if a < got.len() {
                                assert(got.contains(got[a]));
                            }
                            if b < got.len() {
                                assert(got.contains(got[b]));
                            }
                        }
                    }
                }
            }
            i = i + 1;
        }
        proof {
            assert(keys.take(n as int) =~= keys);
            assert(m.dom() =~= self.discovered_rooms@.dom());
        }
        out
    }

    /// Forgets the announced rooms that were not heard of lately, and the verifications that stand
    /// still. `expired` messages were deleted before because their time was over.
    #[verifier::rlimit(60)]
    pub fn prune(&mut self, now: i64, expired: usize) -> (r: Vec<Effect>)
        requires
            old(self)@.wf(),
        ensures
            final(self)@.wf(),
            pruned(old(self)@, now, expired, final(self)@, effects::effects(r@)),
    {
        let ghost before = self@;
        let gone: Vec<String> = self.find_lost(now);
        let ghost lost = text::texts(gone@);
        let ghost said = lost.map_values(
            |id: Seq<char>| EffectView::Emit(EventView::RoomLost { room_id: id }),
        );
        let mut out: Vec<Effect> = Vec::new();
        if expired > 0 {
            out.push(Effect::Emit(AppEvent::MessagesExpired { count: expired }));
        }
        let ghost first = effects::effects(out@);
        proof {
            if expired > 0 {
                assert(first =~= seq![out@[0]@]);
            } else {
                assert(first =~= Seq::<EffectView>::empty());
            }
            assert(first + said.take(0) =~= first);
            assert(before.discovered.remove_keys(lost.take(0).to_set()) =~= before.discovered);
            assert(self@ =~= AppView { discovered: self@.discovered, ..before });
        }
        let mut i: usize = 0;
        while i < gone.len()
            invariant
                i <= gone@.len(),
                before == old(self)@,
                lost == text::texts(gone@),
                said == lost.map_values(
                    |id: Seq<char>| EffectView::Emit(EventView::RoomLost { room_id: id }),
                ),
                effects::effects(out@) == first + said.take(i as int),
                self@ == (AppView {
                    discovered: before.discovered.remove_keys(lost.take(i as int).to_set()),
                    ..before
                }),
            decreases gone@.len() - i,
        {
            let ghost mid = self@;
            let ghost got = effects::effects(out@);
            self.forget_discovered(gone[i].as_str());
            out.push(Effect::Emit(AppEvent::RoomLost { room_id: gone[i].clone() }));
            proof {
                let a = lost.take(i as int);
                assert(lost.take(i + 1) =~= a.push(lost[i as int]));
                strmap::lemma_push_contains(a, lost[i as int]);
                assert(lost.take(i + 1).to_set() =~= a.to_set().insert(lost[i as int]));
                assert(mid.discovered.remove(lost[i as int]) =~= before.discovered.remove_keys(
                    lost.take(i + 1).to_set(),
                ));
                assert(effects::effects(out@) =~= got.push(said[i as int]));
                assert(first + said.take(i + 1) =~= (first + said.take(i as int)).push(
                    said[i as int],
                ));
            }
            i = i + 1;
        }
        let ghost mid = self@;
        self.sas.reap(now);
        proof {
            assert(lost.take(lost.len() as int) =~= lost);
            assert(said.take(lost.len() as int) =~= said);
            assert(mid.discovered =~= fresh_rooms(before.discovered, now)) by {
                assert forall|k: Seq<char>| mid.discovered.dom().contains(k) == fresh_rooms(
                    before.discovered,
                    now,
                ).dom().contains(k) by {
                    assert(lost.to_set().contains(k) == lost.contains(k));
                }
            }
            assert(self@ =~= AppView { sas: before.sas.reaped(now), ..mid });
        }
        out
    }
}

// ---------------------------------------------------------------------------------------------
// The relay
// ---------------------------------------------------------------------------------------------

/// How long to wait before the relay is dialed again.
pub struct RelayBackoff {
    secs: u64,
}

impl View for RelayBackoff {
    type V = nat;

    closed spec fn view(&self) -> nat {
        self.secs as nat
    }
}

/// Twice as long, but at most half a minute.
pub open spec fn longer(secs: nat) -> nat {
    if 2 * secs > 30 {
        30
    } else {
        2 * secs
    }
}

impl RelayBackoff {
    #[verifier::type_invariant]
    spec fn inv(self) -> bool {
        1 <= self.secs <= 30
    }

    pub fn new() -> (r: Self)
        ensures
            r@ == 1,
    {
        RelayBackoff { secs: 1 }
    }

    /// The seconds to wait: from one to thirty.
    pub fn delay_secs(&self) -> (r: u64)
        ensures
            r == self@,
            1 <= r <= 30,
    {
        proof {
            use_type_invariant(self);
        }
        self.secs
    }

    /// The relay was connected.
    pub fn connected(&mut self)
        ensures
            final(self)@ == 1,
    {
        self.secs = 1;
    }

    /// The time was waited out, or a change of the order of the doors woke us up (`woken`).
    pub fn waited(&mut self, woken: bool)
        ensures
            final(self)@ == longer(
                if woken {
                    1
                } else {
                    old(self)@
                },
            ),
    {
        proof {
            use_type_invariant(&*self);
        }
        if woken {
            self.secs = 1;
        }
        let next: u64 = self.secs * 2;
        self.secs = if next > 30 {
            30
        } else {
            next
        };
    }
}

impl AppHandle {
    /// The doors to the relay that can be used, in the order in which they are tried.
    pub fn doors(&self, available: &Vec<String>) -> (r: Vec<String>)
        ensures
            text::texts(r@) == transport::doors_among(self@.order, text::texts(available@)),
    {
        transport::keep_doors(&self.transport_order, available)
    }

    /// The relay made a connect code for us, which lasts for so many seconds.
    pub fn connect_code_created(code: String, ttl_secs: u64, now: i64) -> (r: Vec<Effect>)
        requires
            now + ttl_secs <= i64::MAX,
        ensures
            effects::effects(r@) == code_effects(code@, ttl_secs, now),
    {
        let mut out: Vec<Effect> = Vec::new();
        let expires_at: i64 = (now as i128 + ttl_secs as i128) as i64;
        out.push(Effect::Emit(AppEvent::ConnectCodeCreated { code, expires_at }));
        assert(effects::effects(out@) =~= seq![out@[0]@]);
        out
    }
}

/// What it causes that the relay made a connect code for us.
pub open spec fn code_effects(code: Seq<char>, ttl_secs: u64, now: i64) -> Seq<EffectView> {
    seq![
        EffectView::Emit(
            EventView::ConnectCodeCreated { code, expires_at: (now + ttl_secs) as i64 },
        ),
    ]
}

/// What a known address causes at startup.
pub open spec fn reconnect_effects(address: Seq<char>, now: i64) -> Seq<EffectView> {
    if addresses::multiaddr_text(address) is Ok {
        seq![EffectView::Dial(network::known_peer(address, None, now, None, false))]
    } else {
        Seq::empty()
    }
}

/// How many milliseconds pass before the `index`-th known address is dialed at startup: a while for
/// each address before it, and a little more that depends on the address.
pub fn reconnect_delay_ms(index: u64, address: &str) -> (r: u64)
    requires
        150 * index + 199 <= u64::MAX,
    ensures
        r == 150 * index + (vstd::utf8::encode_utf8(address@).len() * 37) % 200,
{
    let len: u64 = address.as_bytes().len() as u64;
    let small: u64 = len % 200;
    assert((len * 37) % 200 == (small * 37) % 200) by (nonlinear_arith)
        requires
            small == len % 200,
    ;
    150 * index + (small * 37) % 200
}

/// What to do about a known address at startup: it is dialed as it is stored, unless it is no address.
pub fn reconnect(address: String, now: i64) -> (r: Vec<Effect>)
    ensures
        effects::effects(r@) == reconnect_effects(address@, now),
{
    let mut out: Vec<Effect> = Vec::new();
    assert(effects::effects(out@) =~= Seq::<EffectView>::empty());
    if addresses::multiaddr_of(address.as_str()).is_ok() {
        out.push(Effect::Dial(network::new_known_peer(address, None, now, None, false)));
        assert(effects::effects(out@) =~= seq![out@[0]@]);
    }
    out
}

// ---------------------------------------------------------------------------------------------
// Laws
// ---------------------------------------------------------------------------------------------

/// A partner is asked for the key of a chat between two at most ten times in a row.
pub proof fn law_key_requests_are_bounded(
    before: RoomView,
    policy: RotationPolicy,
    our_fp: Seq<char>,
    pinned: Seq<Seq<char>>,
    now: i64,
    after: RoomView,
)
    requires
        room_ticked(before, policy, our_fp, pinned, now, after),
        before.key_retry <= DM_KEY_RETRY_MAX,
    ensures
        after.key_retry <= DM_KEY_RETRY_MAX,
        before.key_retry == DM_KEY_RETRY_MAX ==> after.key_retry <= before.key_retry,
{
}

/// The heartbeat leaves the members, the key and everything else of a room as it is, but for the
/// outbound session and the count of requests. What others sent can still be read.
pub proof fn law_heartbeat_keeps_inbound_sessions(
    before: RoomView,
    policy: RotationPolicy,
    our_fp: Seq<char>,
    pinned: Seq<Seq<char>>,
    now: i64,
    after: RoomView,
)
    requires
        room_ticked(before, policy, our_fp, pinned, now, after),
    ensures
        after.members == before.members,
        after.key == before.key,
        after.info == before.info,
        after.crypto is Some == before.crypto is Some,
        before.crypto is Some ==> after.crypto->0.inbound == before.crypto->0.inbound,
{
}

} // verus!
