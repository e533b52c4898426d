//! What the network tells us: peers that come and go, rooms that are announced, and our own
//! addresses.
use crate::app::addresses;
use crate::app::effects::{self, Effect, EffectView, Write, WriteView};
use crate::app::events::{AppEvent, DiscoveredRoom, DiscoveredView, EventView, RoomKind};
use crate::app::ids;
use crate::app::messages::{AnnouncementView, RoomAnnouncement, RoomMessage};
use crate::app::moderation;
use crate::app::records::{KnownPeer, KnownPeerView};
use crate::app::rooms;
use crate::app::{AppHandle, AppView};
use crate::bytes;
use crate::strmap;
use crate::text;
use vstd::prelude::*;
use vstd::slice::slice_subrange;

verus! {

/// How many seconds pass before an announcer is dialed again because of an announcement.
pub const HOST_ADDR_DIAL_BACKOFF_SECS: i64 = 300;

/// How many such dials are remembered.
pub const HOST_ADDR_DIAL_ATTEMPTS_CAP: usize = 4096;

/// How many milliseconds pass before a peer is told our name again because they were identified.
pub const PROFILE_REBROADCAST_FLOOR_MS: i64 = 60_000;

/// How many announced rooms are remembered.
pub const MAX_DISCOVERED_ROOMS: usize = 1024;

/// What is on disk about a peer.
pub struct PeerFacts {
    pub blocked: bool,
    pub trusted: bool,
    pub verified: bool,
    /// Only verified and trusted peers may connect.
    pub verified_only_inbound: bool,
}

// ---------------------------------------------------------------------------------------------
// Peers
// ---------------------------------------------------------------------------------------------

/// The connected addresses that do not lead to this peer.
pub open spec fn not_of(connected: Map<Seq<char>, Seq<char>>, peer: Seq<char>) -> Map<
    Seq<char>,
    Seq<char>,
> {
    Map::new(
        |a: Seq<char>| connected.dom().contains(a) && connected[a] != peer,
        |a: Seq<char>| connected[a],
    )
}

/// An address that was dialed, as it is stored.
pub open spec fn known_peer(
    address: Seq<char>,
    connected_at: Option<i64>,
    now: i64,
    fingerprint: Option<Seq<char>>,
    trusted: bool,
) -> KnownPeerView {
    KnownPeerView {
        address,
        label: None,
        last_connected_at: connected_at,
        last_attempt_at: Some(now),
        created_at: now,
        fingerprint,
        trusted,
    }
}

pub(crate) fn new_known_peer(
    address: String,
    connected_at: Option<i64>,
    now: i64,
    fingerprint: Option<String>,
    trusted: bool,
) -> (r: KnownPeer)
    ensures
        r@ == known_peer(address@, connected_at, now, text::opt(fingerprint), trusted),
{
    KnownPeer {
        address,
        label: None,
        last_connected_at: connected_at,
        last_attempt_at: Some(now),
        created_at: now,
        fingerprint,
        trusted,
    }
}

/// Effects that there may be, by their views.
pub open spec fn effects_opt(r: Option<Vec<Effect>>) -> Option<Seq<EffectView>> {
    match r {
        Some(out) => Some(effects::effects(out@)),
        None => None,
    }
}

/// What it causes that a message is signed with this key, where that one is known of its sender. The message
/// is taken where nothing is caused.
pub open spec fn signer_alarm(
    room_id: Seq<char>,
    fingerprint: Seq<char>,
    known_pubkey_b64: Option<Seq<char>>,
    claimed_pubkey_b64: Seq<char>,
    display_name: Option<Seq<char>>,
    now: i64,
) -> Option<Seq<EffectView>> {
    match known_pubkey_b64 {
        None => None,
        Some(known) => if known == claimed_pubkey_b64 {
            None
        } else {
            Some(
                seq![
                    EffectView::Store(
                        WriteView::Journal {
                            kind: "safety_number_changed"@,
                            detail: "room="@ + room_id + " peer="@ + fingerprint,
                            at: now,
                        },
                    ),
                    EffectView::Emit(
                        EventView::SafetyNumberChanged {
                            room_id,
                            fingerprint,
                            old_pubkey_b64: known,
                            new_pubkey_b64: claimed_pubkey_b64,
                            display_name,
                        },
                    ),
                ],
            )
        },
    }
}

/// The invites whose addresses were dialed, looked at one address after another: an invite that
/// claims another fingerprint ends it.
pub open spec fn invites_checked(
    dials: Map<Seq<char>, Seq<char>>,
    addrs: Seq<Seq<char>>,
    fingerprint: Seq<char>,
) -> (Map<Seq<char>, Seq<char>>, Option<(Seq<char>, Seq<char>)>)
    decreases addrs.len(),
{
    if addrs.len() == 0 {
        (dials, None)
    } else {
        let a = addrs[0];
        if dials.dom().contains(a) && dials[a] != fingerprint {
            (dials.remove(a), Some((a, dials[a])))
        } else {
            invites_checked(dials.remove(a), addrs.skip(1), fingerprint)
        }
    }
}

/// These addresses, each once, in some order: those that lead to this peer.
pub open spec fn addresses_of(
    connected: Map<Seq<char>, Seq<char>>,
    peer: Seq<char>,
    addrs: Seq<Seq<char>>,
) -> bool {
    &&& addrs.no_duplicates()
    &&& forall|a: Seq<char>| #[trigger]
        addrs.contains(a) <==> connected.dom().contains(a) && connected[a] == peer
}

/// Each of the addresses is stored as one of this peer, whom we trust.
pub open spec fn trusted_effects(addrs: Seq<Seq<char>>, fingerprint: Seq<char>, now: i64) -> Seq<
    EffectView,
> {
    addrs.map_values(
        |a: Seq<char>|
            EffectView::Store(
                WriteView::KnownPeer(known_peer(a, Some(now), now, Some(fingerprint), true)),
            ),
    )
}

impl AppView {
    pub open spec fn with_connected(self, connected: Map<Seq<char>, Seq<char>>) -> Self {
        AppView { connected, ..self }
    }

    /// A peer is identified. An invite that claimed another fingerprint ends the connection.
    /// Otherwise the addresses of the peer are stored, a chat is opened with a peer whom the user
    /// dialed, and our name is told in every room unless the peer was told a moment ago: also in the
    /// chat, once it is open.
    pub open spec fn on_peer_identified(
        self,
        facts: PeerFacts,
        username: Option<Seq<char>>,
        peer_id: Seq<char>,
        fingerprint: Seq<char>,
        now: i64,
        now_ms: i64,
        addrs: Seq<Seq<char>>,
        order: Seq<Seq<char>>,
    ) -> (Self, Seq<EffectView>) {
        let checked = invites_checked(self.invite_dials, addrs, fingerprint);
        let invited = AppView { invite_dials: checked.0, ..self };
        match checked.1 {
            Some(found) => (
                invited,
                seq![
                    EffectView::Disconnect { peer_id },
                    EffectView::Emit(
                        EventView::InviteFingerprintMismatch {
                            address: found.0,
                            claimed: found.1,
                            actual: fingerprint,
                        },
                    ),
                ],
            ),
            None => {
                let dialed = exists|a: Seq<char>| #[trigger]
                    addrs.contains(a) && self.auto_dm.contains(a);
                let opened = AppView {
                    auto_dm: self.auto_dm.difference(addrs.to_set()),
                    ..invited
                };
                let told = strmap::recent(
                    self.profiles_sent,
                    now_ms,
                    PROFILE_REBROADCAST_FLOOR_MS,
                );
                let tell = username is Some && !told.dom().contains(fingerprint);
                let chat = ids::dm_room_id(self.our_fp(), fingerprint);
                (
                    if username is None {
                        opened
                    } else if tell {
                        AppView { profiles_sent: told.insert(fingerprint, now_ms), ..opened }
                    } else {
                        AppView { profiles_sent: told, ..opened }
                    },
                    trusted_effects(addrs, fingerprint, now) + (if dialed && !facts.blocked
                        && fingerprint != self.our_fp() {
                        seq![
                            EffectView::StartDirectThen(
                                fingerprint,
                                EventView::AutoOpenDm { room_id: chat, fingerprint },
                                if tell && !self.rooms.dom().contains(chat) {
                                    Some(moderation::profile(self.our_fp(), username, now_ms))
                                } else {
                                    None
                                },
                            ),
                        ]
                    } else {
                        Seq::empty()
                    }) + (if tell {
                        moderation::profile_effects(self.our_fp(), username, now_ms, order)
                    } else {
                        Seq::empty()
                    }),
                )
            },
        }
    }

    /// A peer connected to us. A blocked peer is rejected, and so is a stranger where only verified
    /// and trusted peers may connect; a trusted peer is accepted; the user decides on any other.
    pub open spec fn on_inbound_dial(
        self,
        facts: PeerFacts,
        peer_id: Seq<char>,
        fingerprint: Seq<char>,
        address: Seq<char>,
        now: i64,
    ) -> (Self, Seq<EffectView>) {
        if facts.blocked || (facts.verified_only_inbound && !facts.verified && !facts.trusted) {
            (self, seq![EffectView::RejectInbound { peer_id }])
        } else if facts.trusted {
            (
                self.with_connected(self.connected.insert(address, peer_id)),
                seq![
                    EffectView::Store(
                        WriteView::KnownPeer(
                            known_peer(address, Some(now), now, Some(fingerprint), true),
                        ),
                    ),
                    EffectView::AcceptInbound { peer_id },
                ],
            )
        } else {
            (
                self,
                seq![
                    EffectView::Store(
                        WriteView::Journal {
                            kind: "inbound_dial"@,
                            detail: "peer="@ + peer_id + " fp="@ + text::debug_form(fingerprint)
                                + " addr="@ + address,
                            at: now,
                        },
                    ),
                    EffectView::Emit(EventView::InboundDial { peer_id, fingerprint, address }),
                ],
            )
        }
    }

    /// An address of ours was probed from outside. The user hears of it when we become reachable,
    /// or are no longer.
    pub open spec fn on_nat_probe(self, address: Seq<char>, reachable: bool) -> (
        Self,
        Seq<EffectView>,
    ) {
        let next = if reachable {
            text::added(self.reachable, address)
        } else {
            text::dropped(self.reachable, address)
        };
        (
            AppView { reachable: next, ..self },
            if (self.reachable.len() == 0) == (next.len() == 0) {
                seq![]
            } else if next.len() > 0 {
                seq![
                    EffectView::Emit(
                        EventView::NatStatusChanged { label: "reachable"@, reachable: true },
                    ),
                ]
            } else {
                seq![
                    EffectView::Emit(
                        EventView::NatStatusChanged { label: "private"@, reachable: false },
                    ),
                ]
            },
        )
    }
}

impl AppHandle {
    /// A peer is gone: its addresses are no longer connected.
    pub fn peer_gone(&mut self, peer_id: &str) -> (r: Vec<Effect>)
        requires
            old(self)@.wf(),
        ensures
            final(self)@.wf(),
            final(self)@ == old(self)@.with_connected(not_of(old(self)@.connected, peer_id@)),
            effects::effects(r@) == seq![
                EffectView::Emit(EventView::PeerExpired { peer_id: peer_id@ }),
            ],
    {
        let ghost before = self@;
        let addrs: Vec<String> = self.addresses_for(peer_id);
        let ghost gone = text::texts(addrs@);
        let mut i: usize = 0;
        assert(self@.connected.remove_keys(gone.take(0).to_set()) =~= self@.connected);
        while i < addrs.len()
            invariant
                i <= addrs@.len(),
                gone == text::texts(addrs@),
                self@ == before.with_connected(
                    before.connected.remove_keys(gone.take(i as int).to_set()),
                ),
            decreases addrs@.len() - i,
        {
            let ghost mid = self@;
            self.connected_dial_addrs.remove(addrs[i].as_str());
            proof {
                let a = gone.take(i as int);
                assert(gone.take(i + 1) =~= a.push(gone[i as int]));
                strmap::lemma_push_contains(a, gone[i as int]);
                assert(gone.take(i + 1).to_set() =~= a.to_set().insert(gone[i as int]));
                assert(self@.connected =~= mid.connected.remove(gone[i as int]));
                assert(self@.connected =~= before.connected.remove_keys(
                    gone.take(i + 1).to_set(),
                ));
                assert(self@ =~= before.with_connected(self@.connected));
            }
            i = i + 1;
        }
        let mut out: Vec<Effect> = Vec::new();
        out.push(Effect::Emit(AppEvent::PeerExpired { peer_id: text::owned(peer_id) }));
        proof {
            assert(gone.take(gone.len() as int) =~= gone);
            assert(self@.connected =~= not_of(before.connected, peer_id@)) by {
                assert forall|a: Seq<char>| self@.connected.dom().contains(a) == not_of(
                    before.connected,
                    peer_id@,
                ).dom().contains(a) by {
                    assert(gone.to_set().contains(a) == gone.contains(a));
                }
            }
            assert(effects::effects(out@) =~= seq![out@[0]@]);
        }
        out
    }

    /// The connected addresses that lead to a peer.
    fn addresses_for(&self, peer_id: &str) -> (r: Vec<String>)
        ensures
            addresses_of(self@.connected, peer_id@, text::texts(r@)),
    {
        let n: usize = self.connected_dial_addrs.len();
        let ghost keys = self.connected_dial_addrs.keys();
        let mut out: Vec<String> = Vec::new();
        let mut i: usize = 0;
        while i < n
            invariant
                i <= n,
                n == keys.len(),
                keys == self.connected_dial_addrs.keys(),
                keys.no_duplicates(),
                forall|k: Seq<char>|
                    keys.contains(k) == #[trigger] self.connected_dial_addrs@.dom().contains(k),
                text::texts(out@).no_duplicates(),
                forall|a: Seq<char>| #[trigger]
                    text::texts(out@).contains(a) <==> keys.take(i as int).contains(a)
                        && self@.connected[a] == peer_id@,
            decreases n - i,
        {
            let ghost k0 = keys[i as int];
            let ghost got = text::texts(out@);
            let ghost seen = keys.take(i as int);
            proof {
                assert(keys.take(i + 1) =~= seen.push(k0));
                strmap::lemma_push_contains(seen, k0);
                assert(keys.contains(k0));
                assert(!seen.contains(k0)) by {
                    if seen.contains(k0) {
                        let j = choose|j: int| 0 <= j < seen.len() && seen[j] == k0;
                        assert(keys[j] == keys[i as int]);
                    }
                }
            }
            if text::same(self.connected_dial_addrs.value_at(i).as_str(), peer_id) {
                out.push(text::owned(self.connected_dial_addrs.key_at(i)));
                proof {
                    assert(text::texts(out@) =~= got.push(k0));
                    strmap::lemma_push_contains(got, k0);
                    assert(!got.contains(k0));
                    assert(text::texts(out@).no_duplicates()) by {
                        let all = text::texts(out@);
                        assert forall|a: int, b: int|
                            0 <= a < all.len() && 0 <= b < all.len() && a != b implies all[a]
                            != all[b] by {
                            if a < got.len() {
                                assert(got.contains(got[a]));
                            }
                            if b < got.len() {
                                assert(got.contains(got[b]));
                            }
                        }
                    }
                }
            }
            i = i + 1;
        }
        proof {
            assert(keys.take(n as int) =~= keys);
            assert(self@.connected.dom() =~= self.connected_dial_addrs@.dom());
        }
        out
    }

    /// A dial succeeded.
    pub fn dial_succeeded(&mut self, address: &str, peer_id: &str, now: i64) -> (r: Vec<Effect>)
        requires
            old(self)@.wf(),
        ensures
            final(self)@.wf(),
            final(self)@ == old(self)@.with_connected(
                old(self)@.connected.insert(address@, peer_id@),
            ),
            effects::effects(r@) == seq![
                EffectView::Store(
                    WriteView::KnownPeer(known_peer(address@, Some(now), now, None, false)),
                ),
                EffectView::Emit(
                    EventView::DialSucceeded { address: address@, peer_id: peer_id@ },
                ),
            ],
    {
        self.connect(address, peer_id);
        let mut out: Vec<Effect> = Vec::new();
        out.push(
            Effect::Store(
                Write::KnownPeer(
                    new_known_peer(text::owned(address), Some(now), now, None, false),
                ),
            ),
        );
        out.push(
            Effect::Emit(
                AppEvent::DialSucceeded {
                    address: text::owned(address),
                    peer_id: text::owned(peer_id),
                },
            ),
        );
        assert(effects::effects(out@) =~= seq![out@[0]@, out@[1]@]);
        out
    }

    /// Notes that an address leads to a peer.
    pub(crate) fn connect(&mut self, address: &str, peer_id: &str)
        ensures
            old(self)@.wf() ==> final(self)@.wf(),
            final(self)@ == old(self)@.with_connected(
                old(self)@.connected.insert(address@, peer_id@),
            ),
    {
        let ghost before = self@;
        self.connected_dial_addrs.insert(text::owned(address), text::owned(peer_id));
        proof {
            assert(self@.connected =~= before.connected.insert(address@, peer_id@));
            assert(self@ =~= before.with_connected(self@.connected));
        }
    }

    /// Looks at the invites whose addresses were dialed: an invite that claims another fingerprint.
    fn check_invites(&mut self, addrs: &Vec<String>, fingerprint: &str) -> (r: Option<(String, String)>)
        ensures
            old(self)@.wf() ==> final(self)@.wf(),
            ({
                let checked = invites_checked(
                    old(self)@.invite_dials,
                    text::texts(addrs@),
                    fingerprint@,
                );
                &&& final(self)@ == (AppView { invite_dials: checked.0, ..old(self)@ })
                &&& match r {
                    Some(found) => checked.1 == Some((found.0@, found.1@)),
                    None => checked.1 is None,
                }
            }),
    {
        let ghost before = self@;
        let ghost all = text::texts(addrs@);
        let ghost whole = invites_checked(before.invite_dials, all, fingerprint@);
        let mut i: usize = 0;
        proof {
            assert(all.skip(0) =~= all);
            assert(self@ =~= AppView { invite_dials: self@.invite_dials, ..before });
        }
        while i < addrs.len()
            invariant
                i <= addrs@.len(),
                all == text::texts(addrs@),
                whole == invites_checked(before.invite_dials, all, fingerprint@),
                whole == invites_checked(self@.invite_dials, all.skip(i as int), fingerprint@),
                self@ == (AppView { invite_dials: self@.invite_dials, ..before }),
                before == old(self)@,
            decreases addrs@.len() - i,
        {
            let ghost mid = self@;
            let claimed: Option<String> = self.pending_invite_dials.remove(addrs[i].as_str());
            proof {
                assert(all.skip(i as int)[0] == addrs@[i as int]@);
                assert(all.skip(i as int).skip(1) =~= all.skip(i + 1));
                assert(self@.invite_dials =~= mid.invite_dials.remove(addrs@[i as int]@));
                assert(self@ =~= AppView { invite_dials: self@.invite_dials, ..before });
            }
            match claimed {
                None => {
                    assert(mid.invite_dials.remove(addrs@[i as int]@) =~= mid.invite_dials);
                },
                Some(c) => {
                    if !text::same(c.as_str(), fingerprint) {
                        return Some((addrs[i].clone(), c));
                    }
                },
            }
            i = i + 1;
        }
        assert(all.skip(all.len() as int) =~= Seq::<Seq<char>>::empty());
        None
    }

    /// Takes these addresses from those that the user dialed, and says whether there was one.
    fn take_dialed(&mut self, addrs: &Vec<String>) -> (r: bool)
        ensures
            old(self)@.wf() ==> final(self)@.wf(),
            final(self)@ == (AppView {
                auto_dm: old(self)@.auto_dm.difference(text::texts(addrs@).to_set()),
                ..old(self)@
            }),
            r == (exists|a: Seq<char>| #[trigger]
                text::texts(addrs@).contains(a) && old(self)@.auto_dm.contains(a)),
    {
        let ghost before = self@;
        let ghost all = text::texts(addrs@);
        let mut any: bool = false;
        let mut i: usize = 0;
        proof {
            assert(before.auto_dm.difference(all.take(0).to_set()) =~= before.auto_dm);
            assert(self@ =~= AppView { auto_dm: self@.auto_dm, ..before });
        }
        while i < addrs.len()
            invariant
                i <= addrs@.len(),
                all == text::texts(addrs@),
                before == old(self)@,
                self@ == (AppView {
                    auto_dm: before.auto_dm.difference(all.take(i as int).to_set()),
                    ..before
                }),
                any == (exists|a: Seq<char>| #[trigger]
                    all.take(i as int).contains(a) && before.auto_dm.contains(a)),
            decreases addrs@.len() - i,
        {
            let ghost mid = self@;
            let ghost a0 = all[i as int];
            let was: bool = self.pending_auto_dm_addrs.remove(addrs[i].as_str());
            proof {
                let a = all.take(i as int);
                assert(all.take(i + 1) =~= a.push(a0));
                strmap::lemma_push_contains(a, a0);
                assert(all.take(i + 1).to_set() =~= a.to_set().insert(a0));
                assert(self@.auto_dm =~= before.auto_dm.difference(all.take(i + 1).to_set()));
                assert(self@ =~= AppView { auto_dm: self@.auto_dm, ..before });
                if was {
                    assert(all.take(i + 1).contains(a0) && before.auto_dm.contains(a0));
                } else if !any {
                    assert forall|x: Seq<char>| #[trigger]
                        all.take(i + 1).contains(x) implies !before.auto_dm.contains(x) by {
                        if x == a0 && a.contains(x) {
                            assert(a.contains(x) ==> !before.auto_dm.contains(x));
                        }
                    }
                } else {
                    let x = choose|x: Seq<char>| #[trigger]
                        a.contains(x) && before.auto_dm.contains(x);
                    assert(all.take(i + 1).contains(x));
                }
            }
            if was {
                any = true;
            }
            i = i + 1;
        }
        assert(all.take(all.len() as int) =~= all);
        any
    }

    /// A peer is identified.
    #[verifier::rlimit(60)]
    pub fn peer_identified(
        &mut self,
        facts: &PeerFacts,
        username: &Option<String>,
        peer_id: &str,
        fingerprint: &str,
        now: i64,
        now_ms: i64,
    ) -> (r: Vec<Effect>)
        requires
            old(self)@.wf(),
        ensures
            final(self)@.wf(),
            exists|addrs: Seq<Seq<char>>, order: Seq<Seq<char>>| #[trigger]
                addresses_of(old(self)@.connected, peer_id@, addrs) && #[trigger]
                moderation::room_order(old(self)@, order) && (
                    final(self)@,
                    effects::effects(r@),
                ) == old(self)@.on_peer_identified(
                    *facts,
                    text::opt(*username),
                    peer_id@,
                    fingerprint@,
                    now,
                    now_ms,
                    addrs,
                    order,
                ),
    {
        let ghost before = self@;
        let mut out: Vec<Effect> = Vec::new();
        let addrs: Vec<String> = self.addresses_for(peer_id);
        let ghost all = text::texts(addrs@);
        let Ghost(some_order) = self.some_room_order();
        match self.check_invites(&addrs, fingerprint) {
            Some((address, claimed)) => {
                out.push(Effect::Disconnect { peer_id: text::owned(peer_id) });
                out.push(
                    Effect::Emit(
                        AppEvent::InviteFingerprintMismatch {
                            address,
                            claimed,
                            actual: text::owned(fingerprint),
                        },
                    ),
                );
                proof {
                    assert(effects::effects(out@) =~= seq![out@[0]@, out@[1]@]);
                    assert(moderation::room_order(before, some_order));
                }
                return out;
            },
            None => {},
        }
        let dialed: bool = self.take_dialed(&addrs);
        let ghost stored = trusted_effects(all, fingerprint@, now);
        let mut i: usize = 0;
        assert(effects::effects(out@) =~= stored.take(0));
        while i < addrs.len()
            invariant
                i <= addrs@.len(),
                all == text::texts(addrs@),
                stored == trusted_effects(all, fingerprint@, now),
                effects::effects(out@) == stored.take(i as int),
            decreases addrs@.len() - i,
        {
            let ghost got = effects::effects(out@);
            out.push(
                Effect::Store(
                    Write::KnownPeer(
                        new_known_peer(
                            addrs[i].clone(),
                            Some(now),
                            now,
                            Some(text::owned(fingerprint)),
                            true,
                        ),
                    ),
                ),
            );
            proof {
                assert(effects::effects(out@) =~= got.push(stored[i as int]));
                assert(stored.take(i + 1) =~= stored.take(i as int).push(stored[i as int]));
            }
            i = i + 1;
        }
        assert(stored.take(all.len() as int) =~= stored);
        let ours: String = text::owned(self.identity.fingerprint());
        let ghost mid = self@;
        let mut tell: bool = false;
        if username.is_some() {
            strmap::keep_recent(
                &mut self.last_profile_broadcast_at_ms,
                now_ms,
                PROFILE_REBROADCAST_FLOOR_MS,
            );
            let ghost told = strmap::recent(
                mid.profiles_sent,
                now_ms,
                PROFILE_REBROADCAST_FLOOR_MS,
            );
            assert(self@ =~= AppView { profiles_sent: told, ..mid });
            if !self.last_profile_broadcast_at_ms.contains_key(fingerprint) {
                self.last_profile_broadcast_at_ms.insert(text::owned(fingerprint), now_ms);
                tell = true;
                assert(self@ =~= AppView {
                    profiles_sent: told.insert(fingerprint@, now_ms),
                    ..mid
                });
            }
        }
        let ghost opens = dialed && !facts.blocked && fingerprint@ != before.our_fp();
        let ghost chat = ids::dm_room_id(before.our_fp(), fingerprint@);
        let ghost greeting = if tell && !before.rooms.dom().contains(chat) {
            Some(moderation::profile(before.our_fp(), text::opt(*username), now_ms))
        } else {
            None
        };
        if dialed && !facts.blocked && !text::same(fingerprint, ours.as_str()) {
            let room_id: String = ids::canonical_dm_room_id(ours.as_str(), fingerprint);
            let message: Option<RoomMessage> = if tell && !self.active_rooms.contains_key(
                room_id.as_str(),
            ) {
                Some(self.our_profile(username, now_ms))
            } else {
                None
            };
            out.push(
                Effect::StartDirectThen(
                    text::owned(fingerprint),
                    AppEvent::AutoOpenDm { room_id, fingerprint: text::owned(fingerprint) },
                    message,
                ),
            );
        }
        let ghost opened = effects::effects(out@);
        let ghost dm = if opens {
            seq![
                EffectView::StartDirectThen(
                    fingerprint@,
                    EventView::AutoOpenDm { room_id: chat, fingerprint: fingerprint@ },
                    greeting,
                ),
            ]
        } else {
            Seq::empty()
        };
        assert(opened =~= stored + dm);
        if !tell {
            proof {
                assert(moderation::room_order(before, some_order));
                assert(opened =~= stored + dm + Seq::<EffectView>::empty());
            }
            return out;
        }
        self.push_profile(&mut out, username, now_ms);
        proof {
            let order = choose|order: Seq<Seq<char>>| #[trigger]
                moderation::room_order(self@, order) && effects::effects(out@) == opened
                    + moderation::profile_effects(
                    self@.our_fp(),
                    text::opt(*username),
                    now_ms,
                    order,
                );
            assert(moderation::room_order(before, order));
        }
        out
    }

    /// A peer connected to us.
    #[verifier::rlimit(60)]
    pub fn inbound_dial(
        &mut self,
        facts: &PeerFacts,
        peer_id: &str,
        fingerprint: &str,
        address: &str,
        now: i64,
    ) -> (r: Vec<Effect>)
        requires
            old(self)@.wf(),
        ensures
            final(self)@.wf(),
            (final(self)@, effects::effects(r@)) == old(self)@.on_inbound_dial(
                *facts,
                peer_id@,
                fingerprint@,
                address@,
                now,
            ),
    {
        let mut out: Vec<Effect> = Vec::new();
        if facts.blocked || (facts.verified_only_inbound && !facts.verified && !facts.trusted) {
            out.push(Effect::RejectInbound { peer_id: text::owned(peer_id) });
            assert(effects::effects(out@) =~= seq![out@[0]@]);
            return out;
        }
        if facts.trusted {
            self.connect(address, peer_id);
            out.push(
                Effect::Store(
                    Write::KnownPeer(
                        new_known_peer(
                            text::owned(address),
                            Some(now),
                            now,
                            Some(text::owned(fingerprint)),
                            true,
                        ),
                    ),
                ),
            );
            out.push(Effect::AcceptInbound { peer_id: text::owned(peer_id) });
            assert(effects::effects(out@) =~= seq![out@[0]@, out@[1]@]);
            return out;
        }
        let shown: String = text::debug_of(fingerprint);
        let mut detail: String = text::join4("peer=", peer_id, " fp=", shown.as_str());
        text::push_str(&mut detail, " addr=");
        text::push_str(&mut detail, address);
        out.push(
            Effect::Store(
                Write::Journal { kind: text::owned("inbound_dial"), detail, at: now },
            ),
        );
        out.push(
            Effect::Emit(
                AppEvent::InboundDial {
                    peer_id: text::owned(peer_id),
                    fingerprint: text::owned(fingerprint),
                    address: text::owned(address),
                },
            ),
        );
        assert(effects::effects(out@) =~= seq![out@[0]@, out@[1]@]);
        out
    }

    /// A relay took us in: its address leads to us.
    pub fn relay_reservation(&mut self, address: &str) -> (r: Vec<Effect>)
        requires
            old(self)@.wf(),
        ensures
            final(self)@.wf(),
            final(self)@ == (AppView {
                relayed: text::added(old(self)@.relayed, address@),
                ..old(self)@
            }),
            effects::effects(r@) == seq![
                EffectView::Emit(EventView::ListeningOn { address: address@ }),
            ],
    {
        let ghost before = self@;
        text::add_text(&mut self.relay_circuit_addrs, text::owned(address));
        let mut out: Vec<Effect> = Vec::new();
        out.push(Effect::Emit(AppEvent::ListeningOn { address: text::owned(address) }));
        proof {
            assert(effects::effects(out@) =~= seq![out@[0]@]);
            assert(self@ =~= AppView { relayed: self@.relayed, ..before });
        }
        out
    }

    /// An address of ours was probed from outside.
    pub fn nat_probe(&mut self, address: &str, reachable: bool) -> (r: Vec<Effect>)
        requires
            old(self)@.wf(),
        ensures
            final(self)@.wf(),
            (final(self)@, effects::effects(r@)) == old(self)@.on_nat_probe(address@, reachable),
    {
        let ghost before = self@;
        let was: bool = self.nat_reachable_addrs.len() == 0;
        if reachable {
            text::add_text(&mut self.nat_reachable_addrs, text::owned(address));
        } else {
            text::drop_text(&mut self.nat_reachable_addrs, address);
        }
        let is: bool = self.nat_reachable_addrs.len() == 0;
        let mut out: Vec<Effect> = Vec::new();
        proof {
            assert(effects::effects(out@) =~= seq![]);
            assert(self@ =~= AppView { reachable: self@.reachable, ..before });
            assert(was == (before.reachable.len() == 0));
            assert(is == (self@.reachable.len() == 0));
        }
        if was != is {
            let label: String = if is {
                text::owned("private")
            } else {
                text::owned("reachable")
            };
            out.push(Effect::Emit(AppEvent::NatStatusChanged { label, reachable: !is }));
            assert(effects::effects(out@) =~= seq![out@[0]@]);
        }
        out
    }

    /// A relayed connection became a direct one.
    pub fn dcutr_upgrade(remote_peer: &str, success: bool) -> (r: Vec<Effect>)
        ensures
            effects::effects(r@) == (if success {
                seq![
                    EffectView::Emit(
                        EventView::DcutrSucceeded {
                            peer_label: if remote_peer@.len() > 8 {
                                remote_peer@.skip(remote_peer@.len() - 8)
                            } else {
                                remote_peer@
                            },
                        },
                    ),
                ]
            } else {
                seq![]
            }),
    {
        let mut out: Vec<Effect> = Vec::new();
        assert(effects::effects(out@) =~= seq![]);
        if success {
            let chars: Vec<char> = text::chars_of(remote_peer);
            let label: String = if chars.len() > 8 {
                let tail: &[char] = slice_subrange(chars.as_slice(), chars.len() - 8, chars.len());
                assert(tail@ =~= remote_peer@.skip(remote_peer@.len() - 8));
                text::string_of(tail)
            } else {
                text::owned(remote_peer)
            };
            out.push(Effect::Emit(AppEvent::DcutrSucceeded { peer_label: label }));
            assert(effects::effects(out@) =~= seq![out@[0]@]);
        }
        out
    }

    /// A message is signed with another key than the one that is known of its sender: it is dropped,
    /// and the user hears of it.
    pub fn signer_changed(
        room_id: &str,
        fingerprint: &str,
        known_pubkey_b64: &Option<String>,
        claimed_pubkey_b64: &str,
        display_name: Option<String>,
        now: i64,
    ) -> (r: Option<Vec<Effect>>)
        ensures
            effects_opt(r) == signer_alarm(
                room_id@,
                fingerprint@,
                text::opt(*known_pubkey_b64),
                claimed_pubkey_b64@,
                text::opt(display_name),
                now,
            ),
    {
        match known_pubkey_b64 {
            None => None,
            Some(known) => {
                if text::same(known.as_str(), claimed_pubkey_b64) {
                    return None;
                }
                let mut out: Vec<Effect> = Vec::new();
                out.push(
                    Effect::Store(
                        Write::Journal {
                            kind: text::owned("safety_number_changed"),
                            detail: text::join4("room=", room_id, " peer=", fingerprint),
                            at: now,
                        },
                    ),
                );
                out.push(
                    Effect::Emit(
                        AppEvent::SafetyNumberChanged {
                            room_id: text::owned(room_id),
                            fingerprint: text::owned(fingerprint),
                            old_pubkey_b64: known.clone(),
                            new_pubkey_b64: text::owned(claimed_pubkey_b64),
                            display_name,
                        },
                    ),
                );
                assert(effects::effects(out@) =~= seq![out@[0]@, out@[1]@]);
                Some(out)
            },
        }
    }
}

// ---------------------------------------------------------------------------------------------
// Announced rooms
// ---------------------------------------------------------------------------------------------

/// A room as it was announced.
pub open spec fn announced_room(a: AnnouncementView, now: i64) -> DiscoveredView {
    DiscoveredView {
        room_id: a.room_id,
        name: a.name,
        encrypted: a.encrypted,
        member_count: a.member_count,
        creator_fingerprint: a.creator_fingerprint,
        last_seen: now,
        restorable: false,
        host_addrs: a.host_addrs,
        kind: a.kind,
        capabilities: a.capabilities,
    }
}

/// No room has not been heard of for longer.
pub open spec fn is_stalest(m: Map<Seq<char>, DiscoveredView>, id: Seq<char>) -> bool {
    m.dom().contains(id) && forall|k: Seq<char>| #[trigger]
        m.dom().contains(k) ==> m[id].last_seen <= m[k].last_seen
}

/// A room is remembered, in place of one that has not been heard of for longest where there are too
/// many.
pub open spec fn room_remembered(
    before: Map<Seq<char>, DiscoveredView>,
    room: DiscoveredView,
    after: Map<Seq<char>, DiscoveredView>,
) -> bool {
    if before.dom().contains(room.room_id) || before.dom().len() < MAX_DISCOVERED_ROOMS {
        after == before.insert(room.room_id, room)
    } else {
        exists|victim: Seq<char>| #[trigger]
            is_stalest(before, victim) && after == before.remove(victim).insert(room.room_id, room)
    }
}

impl AppView {
    /// The announcer is dialed: we are not the announcer, they gave an address, and they were not
    /// dialed a moment ago. A dial that cannot be remembered is not made.
    pub open spec fn dial_decided(self, a: AnnouncementView, now: i64) -> (Self, Seq<EffectView>) {
        if a.creator_fingerprint == self.our_fp() || a.host_addrs.len() == 0 {
            (self, seq![])
        } else {
            let kept = strmap::recent(self.host_dials, now, HOST_ADDR_DIAL_BACKOFF_SECS);
            if kept.dom().contains(a.creator_fingerprint) || kept.dom().len()
                >= HOST_ADDR_DIAL_ATTEMPTS_CAP {
                (AppView { host_dials: kept, ..self }, seq![])
            } else {
                (
                    AppView { host_dials: kept.insert(a.creator_fingerprint, now), ..self },
                    match addresses::multiaddr_text(a.host_addrs[0]) {
                        Ok(address) => seq![
                            EffectView::Dial(known_peer(address, None, now, None, false)),
                        ],
                        Err(_) => seq![],
                    },
                )
            }
        }
    }

    /// A room that was announced is remembered: silently where we are in it; a chat between two only
    /// if it is ours, and it is entered then, unless the partner is blocked.
    pub open spec fn discovery(
        self,
        a: AnnouncementView,
        blocked: bool,
        now: i64,
        after: Self,
        eff: Seq<EffectView>,
    ) -> bool {
        let room = announced_room(a, now);
        if self.rooms.dom().contains(a.room_id) {
            after == (AppView {
                discovered: self.discovered.insert(a.room_id, room),
                ..self
            }) && eff == Seq::<EffectView>::empty()
        } else if a.kind == RoomKind::Direct {
            if ids::dm_room_id(self.our_fp(), a.creator_fingerprint) != a.room_id || blocked {
                after == self && eff == Seq::<EffectView>::empty()
            } else {
                after == (AppView {
                    discovered: self.discovered.insert(a.room_id, room),
                    ..self
                }) && eff == seq![
                    EffectView::Emit(EventView::RoomDiscovered(room)),
                    EffectView::StartDirect { partner_fingerprint: a.creator_fingerprint },
                ]
            }
        } else {
            room_remembered(self.discovered, room, after.discovered) && after == (AppView {
                discovered: after.discovered,
                ..self
            }) && eff == seq![EffectView::Emit(EventView::RoomDiscovered(room))]
        }
    }

    /// A room is announced.
    pub open spec fn on_room_announcement(
        self,
        a: AnnouncementView,
        blocked: bool,
        now: i64,
        after: Self,
        eff: Seq<EffectView>,
    ) -> bool {
        exists|salted: Self, said: Seq<EffectView>| #[trigger]
            self.salt_noted(a, salted) && #[trigger] salted.dial_decided(
                a,
                now,
            ).0.with_capabilities(a.creator_fingerprint, a.capabilities).discovery(
                a,
                blocked,
                now,
                after,
                said,
            ) && eff == salted.dial_decided(a, now).1 + said
    }

    /// The salt of an announced room is remembered.
    pub open spec fn salt_noted(self, a: AnnouncementView, after: Self) -> bool {
        match a.passphrase_salt {
            Some(salt) => rooms::salt_remembered(self.salts, a.room_id, salt, after.salts)
                && after == (AppView { salts: after.salts, ..self }),
            None => after == self,
        }
    }
}

impl AppHandle {
    fn decide_dial(&mut self, a: &RoomAnnouncement, now: i64) -> (r: Vec<Effect>)
        requires
            old(self)@.wf(),
        ensures
            final(self)@.wf(),
            (final(self)@, effects::effects(r@)) == old(self)@.dial_decided(a@, now),
    {
        let ghost before = self@;
        let mut out: Vec<Effect> = Vec::new();
        assert(effects::effects(out@) =~= seq![]);
        if text::same(a.creator_fingerprint.as_str(), self.identity.fingerprint())
            || a.host_addrs.len() == 0 {
            return out;
        }
        strmap::keep_recent(&mut self.host_addr_dial_attempts, now, HOST_ADDR_DIAL_BACKOFF_SECS);
        let ghost kept = self.host_addr_dial_attempts@;
        assert(self@ =~= AppView { host_dials: kept, ..before });
        if self.host_addr_dial_attempts.contains_key(a.creator_fingerprint.as_str())
            || self.host_addr_dial_attempts.len() >= HOST_ADDR_DIAL_ATTEMPTS_CAP {
            return out;
        }
        self.host_addr_dial_attempts.insert(a.creator_fingerprint.clone(), now);
        assert(self@ =~= AppView {
            host_dials: kept.insert(a.creator_fingerprint@, now),
            ..before
        });
        assert(a@.host_addrs[0] == a.host_addrs@[0]@);
        match addresses::multiaddr_of(a.host_addrs[0].as_str()) {
            Err(_) => {},
            Ok(address) => {
                out.push(Effect::Dial(new_known_peer(address, None, now, None, false)));
                assert(effects::effects(out@) =~= seq![out@[0]@]);
            },
        }
        out
    }

    /// The room that has not been heard of for longest.
    fn stalest_room(&self) -> (r: Option<String>)
        ensures
            match r {
                Some(id) => is_stalest(self@.discovered, id@),
                None => self@.discovered.dom().len() == 0,
            },
    {
        let n: usize = self.discovered_rooms.len();
        assert(self@.discovered.dom() =~= self.discovered_rooms@.dom());
        if n == 0 {
            return None;
        }
        let ghost keys = self.discovered_rooms.keys();
        let ghost m = self@.discovered;
        let mut best: usize = 0;
        let mut i: usize = 1;
        while i < n
            invariant
                0 < i <= n,
                best < i,
                n == keys.len(),
                keys == self.discovered_rooms.keys(),
                m == self@.discovered,
                forall|k: Seq<char>|
                    keys.contains(k) == #[trigger] self.discovered_rooms@.dom().contains(k),
                forall|j: int|
                    0 <= j < i ==> m[keys[best as int]].last_seen <= m[#[trigger] keys[j]].last_seen,
            decreases n - i,
        {
            assert(keys.contains(keys[i as int]) && keys.contains(keys[best as int]));
            if self.discovered_rooms.value_at(i).last_seen < self.discovered_rooms.value_at(
                best,
            ).last_seen {
                best = i;
            }
            i = i + 1;
        }
        proof {
            assert(keys.contains(keys[best as int]));
            assert forall|k: Seq<char>| #[trigger]
                m.dom().contains(k) implies m[keys[best as int]].last_seen <= m[k].last_seen by {
                assert(self.discovered_rooms@.dom().contains(k));
                assert(keys.contains(k));
                let j = choose|j: int| 0 <= j < keys.len() && keys[j] == k;
                assert(m[keys[best as int]].last_seen <= m[keys[j]].last_seen);
            }
        }
        Some(text::owned(self.discovered_rooms.key_at(best)))
    }

    pub(crate) fn note_discovered(&mut self, room: DiscoveredRoom)
        ensures
            old(self)@.wf() ==> final(self)@.wf(),
            final(self)@ == (AppView {
                discovered: old(self)@.discovered.insert(room@.room_id, room@),
                ..old(self)@
            }),
    {
        let ghost before = self@;
        let ghost v = room@;
        self.discovered_rooms.insert(room.room_id.clone(), room);
        proof {
            assert(self@.discovered =~= before.discovered.insert(v.room_id, v));
            assert(self@ =~= AppView { discovered: self@.discovered, ..before });
        }
    }

    pub(crate) fn forget_discovered(&mut self, room_id: &str)
        ensures
            old(self)@.wf() ==> final(self)@.wf(),
            final(self)@ == (AppView {
                discovered: old(self)@.discovered.remove(room_id@),
                ..old(self)@
            }),
    {
        let ghost before = self@;
        let gone: Option<DiscoveredRoom> = self.discovered_rooms.remove(room_id);
        proof {
            assert(self@.discovered =~= before.discovered.remove(room_id@));
            assert(self@ =~= AppView { discovered: self@.discovered, ..before });
        }
    }

    #[verifier::rlimit(60)]
    fn discover(&mut self, a: RoomAnnouncement, blocked: bool, now: i64) -> (r: Vec<Effect>)
        requires
            old(self)@.wf(),
        ensures
            final(self)@.wf(),
            old(self)@.discovery(a@, blocked, now, final(self)@, effects::effects(r@)),
    {
        let ghost before = self@;
        let mut out: Vec<Effect> = Vec::new();
        assert(effects::effects(out@) =~= Seq::<EffectView>::empty());
        let room = DiscoveredRoom {
            room_id: a.room_id.clone(),
            name: a.name.clone(),
            encrypted: a.encrypted,
            member_count: a.member_count,
            creator_fingerprint: a.creator_fingerprint.clone(),
            last_seen: now,
            restorable: false,
            host_addrs: text::texts_copy(&a.host_addrs),
            kind: a.kind,
            capabilities: a.capabilities,
        };
        if self.active_rooms.contains_key(a.room_id.as_str()) {
            self.note_discovered(room);
            return out;
        }
        if a.kind == RoomKind::Direct {
            let expected: String = ids::canonical_dm_room_id(
                self.identity.fingerprint(),
                a.creator_fingerprint.as_str(),
            );
            if !text::same(expected.as_str(), a.room_id.as_str()) || blocked {
                return out;
            }
            out.push(Effect::Emit(AppEvent::RoomDiscovered(room.copy())));
            out.push(Effect::StartDirect { partner_fingerprint: a.creator_fingerprint });
            assert(effects::effects(out@) =~= seq![out@[0]@, out@[1]@]);
            self.note_discovered(room);
            return out;
        }
        out.push(Effect::Emit(AppEvent::RoomDiscovered(room.copy())));
        assert(effects::effects(out@) =~= seq![out@[0]@]);
        let n: usize = self.discovered_rooms.len();
        assert(before.discovered.dom() =~= self.discovered_rooms@.dom());
        if n >= MAX_DISCOVERED_ROOMS && !self.discovered_rooms.contains_key(a.room_id.as_str()) {
            match self.stalest_room() {
                Some(id) => {
                    self.forget_discovered(id.as_str());
                },
                None => {},
            }
        }
        self.note_discovered(room);
        out
    }

    /// A room is announced. `blocked` says whether we block the announcer.
    pub fn room_announced(&mut self, a: RoomAnnouncement, blocked: bool, now: i64) -> (r: Vec<Effect>)
        requires
            old(self)@.wf(),
        ensures
            final(self)@.wf(),
            old(self)@.on_room_announcement(
                a@,
                blocked,
                now,
                final(self)@,
                effects::effects(r@),
            ),
    {
        let ghost before = self@;
        match &a.passphrase_salt {
            Some(salt) => {
                self.remember_room_salt(a.room_id.as_str(), bytes::to_vec(salt.as_slice()));
            },
            None => {},
        }
        let ghost salted = self@;
        let mut out: Vec<Effect> = self.decide_dial(&a, now);
        let ghost first = effects::effects(out@);
        let ghost v = a@;
        self.record_peer_capabilities(a.creator_fingerprint.as_str(), a.capabilities);
        let mut more: Vec<Effect> = self.discover(a, blocked, now);
        let ghost said = effects::effects(more@);
        out.append(&mut more);
        proof {
            assert(effects::effects(out@) =~= first + said);
            assert(before.salt_noted(v, salted));
            assert(salted.dial_decided(v, now).0.with_capabilities(
                v.creator_fingerprint,
                v.capabilities,
            ).discovery(v, blocked, now, self@, said));
        }
        out
    }
}

// ---------------------------------------------------------------------------------------------
// Everything that the network tells us
// ---------------------------------------------------------------------------------------------

/// What the network tells us. Messages in rooms are not among it: `AppHandle::handle_room_message` takes
/// those.
pub enum NetworkEvent {
    PeerDiscovered { peer_id: String },
    PeerExpired { peer_id: String },
    PeerDisconnected { peer_id: String },
    ListeningOn { address: String },
    RoomAnnouncementReceived(RoomAnnouncement),
    DialSucceeded { peer_id: String, address: String },
    DialFailed { address: String, error: String },
    PeerIdentified { peer_id: String, fingerprint: String },
    RelayReservationEstablished { address: String },
    NatProbeResult { tested_addr: String, reachable: bool },
    DcutrUpgrade { remote_peer: String, success: bool },
    InboundDial { peer_id: String, fingerprint: String, address: String },
}

/// What becomes of the state when the network tells us something, and what it causes.
pub open spec fn processed(
    app: AppView,
    facts: PeerFacts,
    username: Option<Seq<char>>,
    event: NetworkEvent,
    now: i64,
    now_ms: i64,
    after: AppView,
    eff: Seq<EffectView>,
) -> bool {
    match event {
        NetworkEvent::PeerDiscovered { peer_id } => after == app && eff == seq![
            EffectView::Emit(EventView::PeerDiscovered { peer_id: peer_id@ }),
        ],
        NetworkEvent::PeerExpired { peer_id } => after == app.with_connected(
            not_of(app.connected, peer_id@),
        ) && eff == seq![EffectView::Emit(EventView::PeerExpired { peer_id: peer_id@ })],
        NetworkEvent::PeerDisconnected { peer_id } => after == app.with_connected(
            not_of(app.connected, peer_id@),
        ) && eff == seq![EffectView::Emit(EventView::PeerExpired { peer_id: peer_id@ })],
        NetworkEvent::ListeningOn { address } => after == app && eff == seq![
            EffectView::Emit(EventView::ListeningOn { address: address@ }),
        ],
        NetworkEvent::RoomAnnouncementReceived(a) => app.on_room_announcement(
            a@,
            facts.blocked,
            now,
            after,
            eff,
        ),
        NetworkEvent::DialSucceeded { peer_id, address } => after == app.with_connected(
            app.connected.insert(address@, peer_id@),
        ) && eff == seq![
            EffectView::Store(
                WriteView::KnownPeer(known_peer(address@, Some(now), now, None, false)),
            ),
            EffectView::Emit(EventView::DialSucceeded { address: address@, peer_id: peer_id@ }),
        ],
        NetworkEvent::DialFailed { address, error } => after == app && eff == seq![
            EffectView::Emit(EventView::DialFailed { address: address@, error: error@ }),
        ],
        NetworkEvent::PeerIdentified { peer_id, fingerprint } => exists|
            addrs: Seq<Seq<char>>,
            order: Seq<Seq<char>>,
        | #[trigger]
            addresses_of(app.connected, peer_id@, addrs) && #[trigger] moderation::room_order(
                app,
                order,
            ) && (after, eff) == app.on_peer_identified(
                facts,
                username,
                peer_id@,
                fingerprint@,
                now,
                now_ms,
                addrs,
                order,
            ),
        NetworkEvent::RelayReservationEstablished { address } => after == (AppView {
            relayed: text::added(app.relayed, address@),
            ..app
        }) && eff == seq![EffectView::Emit(EventView::ListeningOn { address: address@ })],
        NetworkEvent::NatProbeResult { tested_addr, reachable } => (after, eff)
            == app.on_nat_probe(tested_addr@, reachable),
        NetworkEvent::DcutrUpgrade { remote_peer, success } => after == app && eff == (
        if success {
            seq![
                EffectView::Emit(
                    EventView::DcutrSucceeded {
                        peer_label: if remote_peer@.len() > 8 {
                            remote_peer@.skip(remote_peer@.len() - 8)
                        } else {
                            remote_peer@
                        },
                    },
                ),
            ]
        } else {
            seq![]
        }),
        NetworkEvent::InboundDial { peer_id, fingerprint, address } => (after, eff)
            == app.on_inbound_dial(facts, peer_id@, fingerprint@, address@, now),
    }
}

fn emit_only(event: AppEvent) -> (r: Vec<Effect>)
    ensures
        effects::effects(r@) == seq![EffectView::Emit(event@)],
{
    let mut out: Vec<Effect> = Vec::new();
    out.push(Effect::Emit(event));
    assert(effects::effects(out@) =~= seq![out@[0]@]);
    out
}

impl AppHandle {
    /// Takes what the network tells us, and says what is to be done. The facts are about the peer of the
    /// event: whoever announced a room, was identified or connected.
    pub fn process_network_event(
        &mut self,
        facts: &PeerFacts,
        username: &Option<String>,
        event: NetworkEvent,
        now: i64,
        now_ms: i64,
    ) -> (r: Vec<Effect>)
        requires
            old(self)@.wf(),
        ensures
            final(self)@.wf(),
            processed(
                old(self)@,
                *facts,
                text::opt(*username),
                event,
                now,
                now_ms,
                final(self)@,
                effects::effects(r@),
            ),
    {
        match event {
            NetworkEvent::PeerDiscovered { peer_id } => emit_only(
                AppEvent::PeerDiscovered { peer_id },
            ),
            NetworkEvent::PeerExpired { peer_id } => self.peer_gone(peer_id.as_str()),
            NetworkEvent::PeerDisconnected { peer_id } => self.peer_gone(peer_id.as_str()),
            NetworkEvent::ListeningOn { address } => emit_only(AppEvent::ListeningOn { address }),
            NetworkEvent::RoomAnnouncementReceived(a) => self.room_announced(
                a,
                facts.blocked,
                now,
            ),
            NetworkEvent::DialSucceeded { peer_id, address } => self.dial_succeeded(
                address.as_str(),
                peer_id.as_str(),
                now,
            ),
            NetworkEvent::DialFailed { address, error } => emit_only(
                AppEvent::DialFailed { address, error },
            ),
            NetworkEvent::PeerIdentified { peer_id, fingerprint } => self.peer_identified(
                facts,
                username,
                peer_id.as_str(),
                fingerprint.as_str(),
                now,
                now_ms,
            ),
            NetworkEvent::RelayReservationEstablished { address } => self.relay_reservation(
                address.as_str(),
            ),
            NetworkEvent::NatProbeResult { tested_addr, reachable } => self.nat_probe(
                tested_addr.as_str(),
                reachable,
            ),
            NetworkEvent::DcutrUpgrade { remote_peer, success } => Self::dcutr_upgrade(
                remote_peer.as_str(),
                success,
            ),
            NetworkEvent::InboundDial { peer_id, fingerprint, address } => self.inbound_dial(
                facts,
                peer_id.as_str(),
                fingerprint.as_str(),
                address.as_str(),
                now,
            ),
        }
    }
}

// ---------------------------------------------------------------------------------------------
// Laws
// ---------------------------------------------------------------------------------------------

/// A chat between two others never enters what we remember of announced rooms.
pub proof fn law_foreign_chats_are_forgotten(
    app: AppView,
    a: AnnouncementView,
    blocked: bool,
    now: i64,
    after: AppView,
    eff: Seq<EffectView>,
)
    requires
        app.discovery(a, blocked, now, after, eff),
        a.kind == RoomKind::Direct,
        !app.rooms.dom().contains(a.room_id),
        ids::dm_room_id(app.our_fp(), a.creator_fingerprint) != a.room_id,
    ensures
        after == app,
        eff == Seq::<EffectView>::empty(),
{
}

/// However many rooms are announced, group rooms that we are not in are remembered up to the cap only.
pub proof fn law_discovered_rooms_are_capped(
    app: AppView,
    a: AnnouncementView,
    blocked: bool,
    now: i64,
    after: AppView,
    eff: Seq<EffectView>,
)
    requires
        app.discovery(a, blocked, now, after, eff),
        a.kind == RoomKind::Group,
        !app.rooms.dom().contains(a.room_id),
        app.discovered.dom().finite(),
        app.discovered.dom().len() <= MAX_DISCOVERED_ROOMS,
    ensures
        after.discovered.dom().finite(),
        after.discovered.dom().len() <= MAX_DISCOVERED_ROOMS,
{
    let room = announced_room(a, now);
    if app.discovered.dom().contains(room.room_id) || app.discovered.dom().len()
        < MAX_DISCOVERED_ROOMS {
        assert(after.discovered.dom() =~= app.discovered.dom().insert(room.room_id));
    } else {
        let victim = choose|victim: Seq<char>| #[trigger]
            is_stalest(app.discovered, victim) && after.discovered == app.discovered.remove(
                victim,
            ).insert(room.room_id, room);
        assert(after.discovered.dom() =~= app.discovered.dom().remove(victim).insert(room.room_id));
    }
}

/// An announcer is dialed at most once in the time between two dials, and never where the dial could not
/// be remembered.
pub proof fn law_announcers_are_not_dialed_again_soon(
    app: AppView,
    a: AnnouncementView,
    now: i64,
    b: AnnouncementView,
    later: i64,
)
    requires
        a.creator_fingerprint == b.creator_fingerprint,
        now <= later < now + HOST_ADDR_DIAL_BACKOFF_SECS,
        app.dial_decided(a, now).1.len() > 0,
    ensures
        app.dial_decided(a, now).0.dial_decided(b, later).1 == Seq::<EffectView>::empty(),
{
}

/// A blocked peer is turned away, and so is a peer who is neither verified nor trusted where that is asked
/// for. Nobody is let in whom we do not trust.
pub proof fn law_strangers_are_not_let_in(
    app: AppView,
    facts: PeerFacts,
    peer_id: Seq<char>,
    fingerprint: Seq<char>,
    address: Seq<char>,
    now: i64,
)
    ensures
        facts.blocked ==> app.on_inbound_dial(facts, peer_id, fingerprint, address, now).1 == seq![
            EffectView::RejectInbound { peer_id },
        ],
        app.on_inbound_dial(facts, peer_id, fingerprint, address, now).1.contains(
            EffectView::AcceptInbound { peer_id },
        ) ==> facts.trusted && !facts.blocked,
{
}

/// Whoever hears of an encrypted room and knows its passphrase comes to the key with which the room was
/// begun.
pub proof fn law_the_passphrase_opens_the_room(
    starter: AppView,
    name: Seq<char>,
    passphrase: Seq<char>,
    salt: Seq<u8>,
    started_at: i64,
    joiner: AppView,
    a: AnnouncementView,
    blocked: bool,
    heard_at: i64,
    after: AppView,
    eff: Seq<EffectView>,
    stored: Option<crate::app::records::StoredRoomView>,
    now: i64,
)
    requires
        starter.room_started(
            a.room_id,
            name,
            true,
            Some(passphrase),
            RoomKind::Group,
            salt,
            started_at,
        ) is Ok,
        a.encrypted,
        a.kind == RoomKind::Group,
        a.passphrase_salt == Some(salt),
        !joiner.rooms.dom().contains(a.room_id),
        joiner.on_room_announcement(a, blocked, heard_at, after, eff),
    ensures
        after.room_joined(a.room_id, Some(passphrase), stored, now) matches Ok(plan) && plan.key
            is Some && plan.key == starter.room_started(
            a.room_id,
            name,
            true,
            Some(passphrase),
            RoomKind::Group,
            salt,
            started_at,
        )->Ok_0.key,
{
    let (salted, said) = choose|salted: AppView, said: Seq<EffectView>| #[trigger]
        joiner.salt_noted(a, salted) && #[trigger] salted.dial_decided(
            a,
            heard_at,
        ).0.with_capabilities(a.creator_fingerprint, a.capabilities).discovery(
            a,
            blocked,
            heard_at,
            after,
            said,
        ) && eff == salted.dial_decided(a, heard_at).1 + said;
    assert(salted.salts.dom().contains(a.room_id) && salted.salts[a.room_id] == salt);
    assert(after.salts == salted.salts);
    assert(after.rooms == joiner.rooms);
    assert(after.discovered.dom().contains(a.room_id));
    assert(after.discovered[a.room_id] == announced_room(a, heard_at));
}

} // verus!
