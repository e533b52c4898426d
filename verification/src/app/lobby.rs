//! What the user sees of rooms.
use crate::app::events::{DiscoveredRoom, DiscoveredView, RoomKind};
use crate::app::facts;
use crate::app::ids;
use crate::app::records::{self, KnownPeer, KnownPeerView, StoredRoom};
use crate::app::ticker;
use crate::app::transport::{RoomTransport, SendReadiness};
use crate::app::{AppHandle, AppView};
use crate::strmap;
use crate::text;
use vstd::prelude::*;

verus! {

// ---------------------------------------------------------------------------------------------
// The lobby
// ---------------------------------------------------------------------------------------------

impl AppView {
    /// A room as the lobby lists it: as it was announced, as we know it from being in it, or as it
    /// waits on disk.
    pub open spec fn lobby_entry(self, id: Seq<char>, now: i64) -> DiscoveredView {
        let announced = self.discovered.dom().contains(id);
        if self.rooms.dom().contains(id) {
            let room = self.rooms[id];
            let count = ticker::counted(room.members.len());
            if announced {
                let d = self.discovered[id];
                DiscoveredView {
                    last_seen: now,
                    member_count: if count > d.member_count {
                        count
                    } else {
                        d.member_count
                    },
                    restorable: false,
                    kind: room.info.kind,
                    ..d
                }
            } else {
                DiscoveredView {
                    room_id: id,
                    name: room.info.name,
                    encrypted: room.info.encrypted,
                    member_count: count,
                    creator_fingerprint: room.info.creator_fingerprint,
                    last_seen: now,
                    restorable: false,
                    host_addrs: Seq::empty(),
                    kind: room.info.kind,
                    capabilities: 0,
                }
            }
        } else if announced {
            self.discovered[id]
        } else {
            let stored = self.restorable[id];
            DiscoveredView {
                room_id: id,
                name: stored.name,
                encrypted: stored.encrypted,
                member_count: 0,
                creator_fingerprint: stored.creator_fingerprint,
                last_seen: match stored.last_active {
                    Some(t) => t,
                    None => stored.created_at,
                },
                restorable: true,
                host_addrs: Seq::empty(),
                kind: stored.kind,
                capabilities: 0,
            }
        }
    }

    /// The room is a chat between us and this one other, and has no other members.
    pub open spec fn is_dm_partner(self, room_id: Seq<char>, partner: Seq<char>) -> bool {
        &&& self.rooms.dom().contains(room_id)
        &&& self.rooms[room_id].info.kind == RoomKind::Direct
        &&& partner != self.our_fp()
        &&& self.rooms[room_id].members == set![self.our_fp(), partner]
    }

    /// The lobby lists the room: it is known, and if it is a chat between two, it is ours.
    pub open spec fn in_lobby(self, id: Seq<char>, now: i64) -> bool {
        &&& self.discovered.dom().contains(id) || self.rooms.dom().contains(id)
            || self.restorable.dom().contains(id)
        &&& self.lobby_entry(id, now).kind == RoomKind::Direct ==> self.rooms.dom().contains(id)
            || ids::dm_room_id(
            self.our_fp(),
            self.lobby_entry(id, now).creator_fingerprint,
        ) == id
    }

    /// The ids of the rooms that the lobby lists, those that were heard of last first.
    pub open spec fn lobby_order(self, order: Seq<Seq<char>>, now: i64) -> bool {
        &&& order.no_duplicates()
        &&& forall|id: Seq<char>| #[trigger] order.contains(id) <==> self.in_lobby(id, now)
        &&& forall|i: int, j: int|
            0 <= i < j < order.len() ==> self.lobby_entry(#[trigger] order[i], now).last_seen
                >= self.lobby_entry(#[trigger] order[j], now).last_seen
    }
}

pub open spec fn room_views(rooms: Seq<DiscoveredRoom>) -> Seq<DiscoveredView> {
    rooms.map_values(|r: DiscoveredRoom| r@)
}

/// The room is among these, and does not wait for its passphrase.
pub open spec fn lists_active(rooms: Seq<DiscoveredView>, id: Seq<char>) -> bool {
    exists|i: int|
        0 <= i < rooms.len() && (#[trigger] rooms[i]).room_id == id && !rooms[i].restorable
}

/// The entries of these rooms.
pub open spec fn entries(app: AppView, order: Seq<Seq<char>>, now: i64) -> Seq<DiscoveredView> {
    order.map_values(|id: Seq<char>| app.lobby_entry(id, now))
}

/// Puts a room where it belongs.
fn insert_room(rooms: &mut Vec<DiscoveredRoom>, room: DiscoveredRoom) -> (r: usize)
    ensures
        r <= old(rooms)@.len(),
        room_views(final(rooms)@) == room_views(old(rooms)@).insert(r as int, room@),
        forall|j: int|
            0 <= j < r ==> (#[trigger] room_views(old(rooms)@)[j]).last_seen >= room@.last_seen,
        r < old(rooms)@.len() ==> room_views(old(rooms)@)[r as int].last_seen < room@.last_seen,
{
    let ghost before = room_views(rooms@);
    let ghost v = room@;
    let mut i: usize = 0;
    while i < rooms.len() && rooms[i].last_seen >= room.last_seen
        invariant
            i <= rooms@.len(),
            before == room_views(rooms@),
            v == room@,
            forall|j: int| 0 <= j < i ==> (#[trigger] before[j]).last_seen >= v.last_seen,
        decreases rooms@.len() - i,
    {
        i = i + 1;
    }
    proof {
        if i < rooms@.len() {
            assert(before[i as int] == rooms@[i as int]@);
        }
    }
    rooms.insert(i, room);
    assert(room_views(rooms@) =~= before.insert(i as int, v));
    i
}

/// The list with one more room in it.
proof fn lemma_listed(
    app: AppView,
    order: Seq<Seq<char>>,
    at: int,
    id: Seq<char>,
    now: i64,
)
    requires
        order.no_duplicates(),
        !order.contains(id),
        0 <= at <= order.len(),
        forall|i: int, j: int|
            0 <= i < j < order.len() ==> app.lobby_entry(#[trigger] order[i], now).last_seen
                >= app.lobby_entry(#[trigger] order[j], now).last_seen,
        forall|j: int|
            0 <= j < at ==> app.lobby_entry(#[trigger] order[j], now).last_seen >= app.lobby_entry(
                id,
                now,
            ).last_seen,
        at < order.len() ==> app.lobby_entry(order[at], now).last_seen < app.lobby_entry(
            id,
            now,
        ).last_seen,
    ensures
        order.insert(at, id).no_duplicates(),
        forall|k: Seq<char>| #[trigger]
            order.insert(at, id).contains(k) <==> order.contains(k) || k == id,
        forall|i: int, j: int|
            0 <= i < j < order.insert(at, id).len() ==> app.lobby_entry(
                #[trigger] order.insert(at, id)[i],
                now,
            ).last_seen >= app.lobby_entry(#[trigger] order.insert(at, id)[j], now).last_seen,
        entries(app, order.insert(at, id), now) == entries(app, order, now).insert(
            at,
            app.lobby_entry(id, now),
        ),
{
    let w = order.insert(at, id);
    assert forall|i: int, j: int| 0 <= i < j < w.len() implies app.lobby_entry(
        #[trigger] w[i],
        now,
    ).last_seen >= app.lobby_entry(#[trigger] w[j], now).last_seen by {
        let i0 = if i < at {
            i
        } else {
            i - 1
        };
        let j0 = if j < at {
            j
        } else {
            j - 1
        };
        if i == at {
            assert(w[j] == order[j0]);
            assert(at < order.len());
            if j0 > at {
                assert(app.lobby_entry(order[at], now).last_seen >= app.lobby_entry(
                    order[j0],
                    now,
                ).last_seen);
            }
        } else if j == at {
            assert(w[i] == order[i]);
        } else {
            assert(w[i] == order[i0] && w[j] == order[j0]);
        }
    }
    assert forall|a: int, b: int| 0 <= a < w.len() && 0 <= b < w.len() && a != b implies w[a]
        != w[b] by {
        let a0 = if a < at {
            a
        } else {
            a - 1
        };
        let b0 = if b < at {
            b
        } else {
            b - 1
        };
        if a == at {
            assert(order.contains(order[b0]));
        } else if b == at {
            assert(order.contains(order[a0]));
        } else {
            assert(order[a0] != order[b0]);
        }
    }
    assert forall|k: Seq<char>| #[trigger] w.contains(k) <==> order.contains(k) || k == id by {
        if order.contains(k) {
            let j = choose|j: int| 0 <= j < order.len() && order[j] == k;
            if j < at {
                assert(w[j] == k);
            } else {
                assert(w[j + 1] == k);
            }
        }
        assert(w[at] == id);
        if w.contains(k) {
            let j = choose|j: int| 0 <= j < w.len() && w[j] == k;
            if j < at {
                assert(order[j] == k);
            } else if j > at {
                assert(order[j - 1] == k);
            }
        }
    }
    assert(entries(app, w, now) =~= entries(app, order, now).insert(at, app.lobby_entry(id, now)));
}

/// What `AppHandle::list_ids` keeps: the rooms that the lobby lists of those that were looked at.
pub open spec fn listing(
    app: AppView,
    order: Seq<Seq<char>>,
    looked_at: Set<Seq<char>>,
    now: i64,
    rooms: Seq<DiscoveredView>,
) -> bool {
    &&& order.no_duplicates()
    &&& forall|id: Seq<char>| #[trigger]
        order.contains(id) <==> looked_at.contains(id) && app.in_lobby(id, now)
    &&& forall|i: int, j: int|
        0 <= i < j < order.len() ==> app.lobby_entry(#[trigger] order[i], now).last_seen
            >= app.lobby_entry(#[trigger] order[j], now).last_seen
    &&& rooms == entries(app, order, now)
}

impl AppHandle {
    /// The entry of a room that is known.
    fn entry_of(&self, id: &str, now: i64) -> (r: DiscoveredRoom)
        requires
            self@.wf(),
            self@.discovered.dom().contains(id@) || self@.rooms.dom().contains(id@)
                || self@.restorable.dom().contains(id@),
        ensures
            r@ == self@.lobby_entry(id@, now),
    {
        let none: Vec<String> = Vec::new();
        assert(text::texts(none@) =~= Seq::<Seq<char>>::empty());
        match (self.active_rooms.get(id), self.discovered_rooms.get(id)) {
            (Some(room), Some(d)) => {
                let count: u32 = ticker::count_of(room.members.len());
                let mut entry: DiscoveredRoom = d.copy();
                entry.last_seen = now;
                if count > entry.member_count {
                    entry.member_count = count;
                }
                entry.restorable = false;
                entry.kind = room.info.kind;
                assert(entry@ =~= self@.lobby_entry(id@, now));
                entry
            },
            (Some(room), None) => {
                let entry = DiscoveredRoom {
                    room_id: text::owned(id),
                    name: room.info.name.clone(),
                    encrypted: room.info.encrypted,
                    member_count: ticker::count_of(room.members.len()),
                    creator_fingerprint: room.info.creator_fingerprint.clone(),
                    last_seen: now,
                    restorable: false,
                    host_addrs: none,
                    kind: room.info.kind,
                    capabilities: 0,
                };
                assert(entry@ =~= self@.lobby_entry(id@, now));
                entry
            },
            (None, Some(d)) => d.copy(),
            (None, None) => {
                let stored: &StoredRoom = self.restorable_rooms.get(id).unwrap();
                let last: i64 = match stored.last_active {
                    Some(t) => t,
                    None => stored.created_at,
                };
                let entry = DiscoveredRoom {
                    room_id: text::owned(id),
                    name: stored.name.clone(),
                    encrypted: stored.encrypted,
                    member_count: 0,
                    creator_fingerprint: stored.creator_fingerprint.clone(),
                    last_seen: last,
                    restorable: true,
                    host_addrs: none,
                    kind: stored.kind,
                    capabilities: 0,
                };
                assert(entry@ =~= self@.lobby_entry(id@, now));
                entry
            },
        }
    }

    /// Lists a room that is known, unless it was looked at before or is a chat between two others.
    fn list_room(
        &self,
        out: &mut Vec<DiscoveredRoom>,
        id: &str,
        now: i64,
        Ghost(order): Ghost<Seq<Seq<char>>>,
        Ghost(looked_at): Ghost<Set<Seq<char>>>,
    ) -> (r: Ghost<Seq<Seq<char>>>)
        requires
            self@.wf(),
            self@.discovered.dom().contains(id@) || self@.rooms.dom().contains(id@)
                || self@.restorable.dom().contains(id@),
            listing(self@, order, looked_at, now, room_views(old(out)@)),
            !looked_at.contains(id@),
        ensures
            listing(self@, r@, looked_at.insert(id@), now, room_views(final(out)@)),
    {
        let entry: DiscoveredRoom = self.entry_of(id, now);
        let visible: bool = entry.kind != RoomKind::Direct || self.active_rooms.contains_key(id)
            || {
            let expected: String = ids::canonical_dm_room_id(
                self.identity.fingerprint(),
                entry.creator_fingerprint.as_str(),
            );
            text::same(expected.as_str(), id)
        };
        assert(visible == self@.in_lobby(id@, now));
        if !visible {
            return Ghost(order);
        }
        let ghost v = entry@;
        let ghost before = room_views(out@);
        let at: usize = insert_room(out, entry);
        proof {
            assert(!order.contains(id@));
            assert forall|j: int| 0 <= j < at implies self@.lobby_entry(
                #[trigger] order[j],
                now,
            ).last_seen >= v.last_seen by {
                assert(before[j] == self@.lobby_entry(order[j], now));
            }
            if at < order.len() {
                assert(before[at as int] == self@.lobby_entry(order[at as int], now));
            }
            lemma_listed(self@, order, at as int, id@, now);
        }
        Ghost(order.insert(at as int, id@))
    }

    /// The rooms of the lobby: those that were announced, those that we are in, and those that wait
    /// on disk. Those that were heard of last come first.
    #[verifier::rlimit(60)]
    pub fn discovered_rooms(&self, now: i64) -> (r: Vec<DiscoveredRoom>)
        requires
            self@.wf(),
        ensures
            exists|order: Seq<Seq<char>>| #[trigger]
                self@.lobby_order(order, now) && room_views(r@) == entries(self@, order, now),
            forall|i: int, j: int|
                0 <= i < j < r@.len() ==> (#[trigger] r@[i])@.room_id != (#[trigger] r@[j])@.room_id,
            forall|id: Seq<char>| #[trigger]
                self@.rooms.dom().contains(id) ==> lists_active(room_views(r@), id),
    {
        let mut out: Vec<DiscoveredRoom> = Vec::new();
        let ghost mut order: Seq<Seq<char>> = Seq::empty();
        let ghost mut seen: Set<Seq<char>> = Set::empty();
        assert(room_views(out@) =~= entries(self@, order, now));
        let n: usize = self.discovered_rooms.len();
        let ghost dk = self.discovered_rooms.keys();
        let mut i: usize = 0;
        assert(dk.take(0).to_set() =~= seen);
        while i < n
            invariant
                i <= n,
                n == dk.len(),
                dk == self.discovered_rooms.keys(),
                dk.no_duplicates(),
                self@.wf(),
                seen == dk.take(i as int).to_set(),
                forall|k: Seq<char>|
                    dk.contains(k) == #[trigger] self.discovered_rooms@.dom().contains(k),
                listing(self@, order, seen, now, room_views(out@)),
            decreases n - i,
        {
            let id: &str = self.discovered_rooms.key_at(i);
            proof {
                lemma_next(dk, i as int);
                assert(dk.contains(dk[i as int]));
                assert(self@.discovered.dom().contains(id@));
            }
            let Ghost(next) = self.list_room(&mut out, id, now, Ghost(order), Ghost(seen));
            proof {
                order = next;
                seen = seen.insert(id@);
            }
            i = i + 1;
        }
        assert(dk.take(n as int) =~= dk);
        let m: usize = self.active_rooms.len();
        let ghost ak = self.active_rooms.keys();
        let ghost base = seen;
        let mut j: usize = 0;
        assert(base.union(ak.take(0).to_set()) =~= base);
        while j < m
            invariant
                j <= m,
                m == ak.len(),
                ak == self.active_rooms.keys(),
                ak.no_duplicates(),
                self@.wf(),
                base == dk.to_set(),
                seen == base.union(ak.take(j as int).to_set()),
                dk == self.discovered_rooms.keys(),
                forall|k: Seq<char>|
                    dk.contains(k) == #[trigger] self.discovered_rooms@.dom().contains(k),
                forall|k: Seq<char>|
                    ak.contains(k) == #[trigger] self.active_rooms@.dom().contains(k),
                listing(self@, order, seen, now, room_views(out@)),
            decreases m - j,
        {
            let id: &str = self.active_rooms.key_at(j);
            proof {
                lemma_next(ak, j as int);
                assert(ak.contains(ak[j as int]));
                assert(self@.rooms.dom().contains(id@));
                assert(dk.contains(id@) == self.discovered_rooms@.dom().contains(id@));
                assert(base.union(ak.take(j + 1).to_set()) =~= seen.insert(id@));
            }
            if self.discovered_rooms.contains_key(id) {
                assert(seen.insert(id@) =~= seen);
            } else {
                let Ghost(next) = self.list_room(&mut out, id, now, Ghost(order), Ghost(seen));
                proof {
                    order = next;
                }
            }
            proof {
                seen = seen.insert(id@);
            }
            j = j + 1;
        }
        assert(ak.take(m as int) =~= ak);
        let p: usize = self.restorable_rooms.len();
        let ghost rk = self.restorable_rooms.keys();
        let ghost base2 = seen;
        let mut k: usize = 0;
        assert(base2.union(rk.take(0).to_set()) =~= base2);
        while k < p
            invariant
                k <= p,
                p == rk.len(),
                rk == self.restorable_rooms.keys(),
                rk.no_duplicates(),
                self@.wf(),
                base2 == dk.to_set().union(ak.to_set()),
                seen == base2.union(rk.take(k as int).to_set()),
                forall|x: Seq<char>|
                    dk.contains(x) == #[trigger] self.discovered_rooms@.dom().contains(x),
                forall|x: Seq<char>|
                    ak.contains(x) == #[trigger] self.active_rooms@.dom().contains(x),
                forall|x: Seq<char>|
                    rk.contains(x) == #[trigger] self.restorable_rooms@.dom().contains(x),
                listing(self@, order, seen, now, room_views(out@)),
            decreases p - k,
        {
            let id: &str = self.restorable_rooms.key_at(k);
            proof {
                lemma_next(rk, k as int);
                assert(rk.contains(rk[k as int]));
                assert(self@.restorable.dom().contains(id@));
                assert(dk.contains(id@) == self.discovered_rooms@.dom().contains(id@));
                assert(ak.contains(id@) == self.active_rooms@.dom().contains(id@));
                assert(base2.union(rk.take(k + 1).to_set()) =~= seen.insert(id@));
            }
            if self.discovered_rooms.contains_key(id) || self.active_rooms.contains_key(id) {
                assert(seen.insert(id@) =~= seen);
            } else {
                let Ghost(next) = self.list_room(&mut out, id, now, Ghost(order), Ghost(seen));
                proof {
                    order = next;
                }
            }
            proof {
                seen = seen.insert(id@);
            }
            k = k + 1;
        }
        proof {
            assert(rk.take(p as int) =~= rk);
            assert(self@.lobby_order(order, now)) by {
                assert forall|id: Seq<char>| #[trigger]
                    order.contains(id) <==> self@.in_lobby(id, now) by {
                    assert(dk.contains(id) == self.discovered_rooms@.dom().contains(id));
                    assert(ak.contains(id) == self.active_rooms@.dom().contains(id));
                    assert(rk.contains(id) == self.restorable_rooms@.dom().contains(id));
                }
            }
            assert(room_views(out@).len() == out@.len());
            assert(entries(self@, order, now).len() == order.len());
            assert forall|i: int| 0 <= i < order.len() implies (#[trigger] out@[i])@.room_id
                == order[i] by {
                assert(order.contains(order[i]));
                assert(self@.in_lobby(order[i], now));
                assert(entries(self@, order, now)[i] == self@.lobby_entry(order[i], now));
                assert(room_views(out@)[i] == out@[i]@);
                assert(self@.discovered.dom().contains(order[i]) ==> self@.discovered[order[i]].room_id
                    == order[i]);
            }
            assert forall|id: Seq<char>| #[trigger] self@.rooms.dom().contains(id) implies lists_active(
                room_views(out@),
                id,
            ) by {
                assert(self@.in_lobby(id, now));
                assert(order.contains(id));
                let i = choose|i: int| 0 <= i < order.len() && order[i] == id;
                assert(room_views(out@)[i] == self@.lobby_entry(id, now));
            }
        }
        out
    }

    // -----------------------------------------------------------------------------------------
    // A room that we are in
    // -----------------------------------------------------------------------------------------

    /// The partner of a chat between two: of a direct room whose members are us and one other, the other.
    pub fn dm_partner_fingerprint(&self, room_id: &str) -> (r: Option<String>)
        ensures
            r matches Some(p) ==> self@.is_dm_partner(room_id@, p@),
            r is None ==> forall|p: Seq<char>| !#[trigger] self@.is_dm_partner(room_id@, p),
    {
        let ours: &str = self.identity.fingerprint();
        match self.active_rooms.get(room_id) {
            None => None,
            Some(room) => {
                if room.info.kind != RoomKind::Direct {
                    return None;
                }
                let ghost members = self@.rooms[room_id@].members;
                assert(members == room@.members);
                if room.members.len() != 2 || !room.members.contains(ours) {
                    assert forall|p: Seq<char>| !#[trigger] self@.is_dm_partner(room_id@, p) by {
                        if self@.is_dm_partner(room_id@, p) {
                            assert(members == set![self@.our_fp(), p]);
                            assert(set![self@.our_fp(), p].len() == 2);
                        }
                    }
                    return None;
                }
                let partner: Option<String> = room.other_member(ours);
                proof {
                    if partner is Some {
                        let p = partner->0@;
                        let rest = members.remove(ours@).remove(p);
                        assert(rest.len() == 0);
                        assert(members =~= set![ours@, p]) by {
                            assert forall|m: Seq<char>| #[trigger] members.contains(m) implies m
                                == ours@ || m == p by {
                                if m != ours@ && m != p {
                                    assert(rest.contains(m));
                                }
                            }
                        }
                    } else {
                        assert forall|p: Seq<char>| !#[trigger] self@.is_dm_partner(room_id@, p) by {
                            if self@.is_dm_partner(room_id@, p) {
                                assert(members.contains(p));
                            }
                        }
                    }
                }
                partner
            },
        }
    }

    pub fn active_room_info(&self, room_id: &str) -> (r: Option<StoredRoom>)
        ensures
            facts::room_opt(r) == (if self@.rooms.dom().contains(room_id@) {
                Some(self@.rooms[room_id@].info)
            } else {
                None
            }),
    {
        match self.active_rooms.get(room_id) {
            None => None,
            Some(room) => Some(room.info.copy()),
        }
    }

    /// The members of a room, in order.
    pub fn room_members(&self, room_id: &str) -> (r: Vec<String>)
        ensures
            text::is_sorted(text::texts(r@)),
            text::texts(r@).no_duplicates(),
            text::texts(r@).to_set() == self@.members_of(room_id@),
    {
        match self.active_rooms.get(room_id) {
            None => {
                let out: Vec<String> = Vec::new();
                assert(text::texts(out@).to_set() =~= Set::<Seq<char>>::empty());
                out
            },
            Some(room) => room.members.sorted(),
        }
    }

    /// We joined the room by a code, and may only read.
    pub fn is_room_read_only(&self, room_id: &str) -> (r: bool)
        ensures
            r == (self@.rooms.dom().contains(room_id@) && self@.rooms[room_id@].read_only),
    {
        match self.active_rooms.get(room_id) {
            None => false,
            Some(room) => room.read_only,
        }
    }

    /// How the messages of a room reach its members now.
    pub fn room_transport(&self, room_id: &str, known: &Vec<KnownPeer>, server_connected: bool) -> (r:
        RoomTransport)
        ensures
            r == self@.transport_of(room_id@, records::known_peers(known@), server_connected),
    {
        let ghost peers = records::known_peers(known@);
        let ghost members = self@.members_of(room_id@);
        match self.active_rooms.get(room_id) {
            None => {},
            Some(room) => {
                let mut i: usize = 0;
                while i < known.len()
                    invariant
                        i <= known@.len(),
                        peers == records::known_peers(known@),
                        members == room@.members,
                        members == self@.members_of(room_id@),
                        forall|j: int|
                            0 <= j < i ==> !self@.is_linked(members, #[trigger] peers[j]),
                    decreases known@.len() - i,
                {
                    let p: &KnownPeer = &known[i];
                    assert(peers[i as int] == p@);
                    let member: bool = match &p.fingerprint {
                        Some(f) => room.members.contains(f.as_str()),
                        None => false,
                    };
                    assert(self@.connected.dom() =~= self.connected_dial_addrs@.dom());
                    if member && self.connected_dial_addrs.contains_key(p.address.as_str()) {
                        assert(self@.is_linked(members, peers[i as int]));
                        return RoomTransport::LanDirect;
                    }
                    i = i + 1;
                }
            },
        }
        if server_connected {
            RoomTransport::Relay
        } else {
            RoomTransport::Offline
        }
    }

    /// Whether a message that is typed into a room can leave this device now.
    pub fn room_send_readiness(
        &self,
        room_id: &str,
        known: &Vec<KnownPeer>,
        server_connected: bool,
    ) -> (r: SendReadiness)
        ensures
            r == self@.readiness(room_id@, records::known_peers(known@), server_connected),
    {
        match self.room_transport(room_id, known, server_connected) {
            RoomTransport::Offline => if self.server_enabled {
                SendReadiness::Connecting
            } else {
                SendReadiness::Disconnected
            },
            _ => SendReadiness::Ready,
        }
    }

    /// Our addresses that others can reach.
    pub fn nat_reachable_addrs(&self) -> (r: Vec<String>)
        ensures
            text::texts(r@) == self@.reachable,
    {
        text::texts_copy(&self.nat_reachable_addrs)
    }

    /// The addresses under which others can dial us: at most four, those at relays first.
    pub fn dialable_addrs(&self) -> (r: Vec<String>)
        ensures
            text::texts(r@) == crate::app::addresses::offered(self@.relayed, self@.reachable),
    {
        crate::app::addresses::dialable(&self.relay_circuit_addrs, &self.nat_reachable_addrs)
    }
}

proof fn lemma_next(keys: Seq<Seq<char>>, i: int)
    requires
        keys.no_duplicates(),
        0 <= i < keys.len(),
    ensures
        keys.take(i + 1).to_set() == keys.take(i).to_set().insert(keys[i]),
        !keys.take(i).to_set().contains(keys[i]),
{
    let a = keys.take(i);
    assert(keys.take(i + 1) =~= a.push(keys[i]));
    strmap::lemma_push_contains(a, keys[i]);
    assert(keys.take(i + 1).to_set() =~= a.to_set().insert(keys[i]));
    if a.contains(keys[i]) {
        let j = choose|j: int| 0 <= j < a.len() && a[j] == keys[i];
        assert(keys[j] == keys[i]);
    }
}

impl AppView {
    pub open spec fn members_of(self, room_id: Seq<char>) -> Set<Seq<char>> {
        if self.rooms.dom().contains(room_id) {
            self.rooms[room_id].members
        } else {
            Set::empty()
        }
    }

    /// The known address is one of a member, and it is connected.
    pub open spec fn is_linked(self, members: Set<Seq<char>>, p: KnownPeerView) -> bool {
        p.fingerprint is Some && members.contains(p.fingerprint->0)
            && self.connected.dom().contains(p.address)
    }

    /// Whether a message that is typed into a room can leave this device.
    pub open spec fn readiness(
        self,
        room_id: Seq<char>,
        known: Seq<KnownPeerView>,
        server_connected: bool,
    ) -> SendReadiness {
        if self.transport_of(room_id, known, server_connected) != RoomTransport::Offline {
            SendReadiness::Ready
        } else if self.server_enabled {
            SendReadiness::Connecting
        } else {
            SendReadiness::Disconnected
        }
    }

    /// How the messages of a room reach its members: directly where one of them is connected, else by
    /// the relay.
    pub open spec fn transport_of(
        self,
        room_id: Seq<char>,
        known: Seq<KnownPeerView>,
        server_connected: bool,
    ) -> RoomTransport {
        if exists|i: int|
            0 <= i < known.len() && self.is_linked(self.members_of(room_id), #[trigger] known[i]) {
            RoomTransport::LanDirect
        } else if server_connected {
            RoomTransport::Relay
        } else {
            RoomTransport::Offline
        }
    }
}

} // verus!
