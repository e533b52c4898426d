//! Dialing peers, and the address book.
use crate::app::addresses;
use crate::app::chat;
use crate::app::dm_key;
use crate::app::effects::{self, Effect, EffectView, Write, WriteView};
use crate::app::events::{AppEvent, DiscoveredRoom, DiscoveredView, EventView, RoomKind};
use crate::app::ids;
use crate::app::messages::{MessageView, RoomMessage};
use crate::app::network;
use crate::app::records::{
    self, Contact, ContactRow, KnownPeer, KnownPeerView, PendingFriendRequest, PendingFriendView,
};
use crate::app::rooms;
use crate::app::{AppHandle, AppView};
use crate::bytes;
use crate::crypto::primitives;
use crate::error::{ErrorView, HuddleError};
use crate::identity;
use crate::strmap;
use crate::text;
use vstd::prelude::*;

verus! {

/// A room that an invite speaks of.
#[derive(Debug, Clone)]
pub struct InviteRoom {
    pub id: String,
    pub name: String,
    pub encrypted: bool,
    pub salt_b64: Option<String>,
    pub creator_fingerprint: String,
}

/// An `InviteRoom`, as contracts speak of it.
#[verifier::ext_equal]
pub struct InviteRoomView {
    pub id: Seq<char>,
    pub name: Seq<char>,
    pub encrypted: bool,
    pub salt_b64: Option<Seq<char>>,
    pub creator_fingerprint: Seq<char>,
}

impl View for InviteRoom {
    type V = InviteRoomView;

    open spec fn view(&self) -> InviteRoomView {
        InviteRoomView {
            id: self.id@,
            name: self.name@,
            encrypted: self.encrypted,
            salt_b64: text::opt(self.salt_b64),
            creator_fingerprint: self.creator_fingerprint@,
        }
    }
}

/// A known address, and whether it is connected.
#[derive(Debug, Clone)]
pub struct KnownPeerStatus {
    pub address: String,
    pub label: Option<String>,
    pub last_connected_at: Option<i64>,
    /// The peer behind it, while it is connected.
    pub connected_peer_id: Option<String>,
    pub fingerprint: Option<String>,
}

/// A `KnownPeerStatus`, as contracts speak of it.
#[verifier::ext_equal]
pub struct PeerStatusView {
    pub address: Seq<char>,
    pub label: Option<Seq<char>>,
    pub last_connected_at: Option<i64>,
    pub connected_peer_id: Option<Seq<char>>,
    pub fingerprint: Option<Seq<char>>,
}

impl View for KnownPeerStatus {
    type V = PeerStatusView;

    open spec fn view(&self) -> PeerStatusView {
        PeerStatusView {
            address: self.address@,
            label: text::opt(self.label),
            last_connected_at: self.last_connected_at,
            connected_peer_id: text::opt(self.connected_peer_id),
            fingerprint: text::opt(self.fingerprint),
        }
    }
}

/// An entry of the address book, and what else is on disk of the contact.
#[derive(Debug, Clone)]
pub struct ContactFacts {
    pub contact: Contact,
    pub username: Option<String>,
    pub verified: bool,
    pub trusted: bool,
}

/// A `ContactFacts`, as contracts speak of it.
#[verifier::ext_equal]
pub struct ContactFactsView {
    pub contact: ContactRow,
    pub username: Option<Seq<char>>,
    pub verified: bool,
    pub trusted: bool,
}

impl View for ContactFacts {
    type V = ContactFactsView;

    open spec fn view(&self) -> ContactFactsView {
        ContactFactsView {
            contact: self.contact@,
            username: text::opt(self.username),
            verified: self.verified,
            trusted: self.trusted,
        }
    }
}

/// A contact as it is shown.
#[derive(Debug, Clone)]
pub struct ContactView {
    pub fingerprint: String,
    /// The name that we gave the contact.
    pub alias: Option<String>,
    /// The name that the contact goes by.
    pub username: Option<String>,
    /// The chat with the contact.
    pub dm_room_id: String,
    pub verified: bool,
    pub trusted: bool,
    /// There is a way to the contact now.
    pub reachable: bool,
    /// There is a direct connection to the contact now.
    pub lan_connected: bool,
    pub source: String,
    pub added_at: i64,
    pub last_seen: Option<i64>,
}

/// A `ContactView`, as contracts speak of it.
#[verifier::ext_equal]
pub struct ContactShown {
    pub fingerprint: Seq<char>,
    pub alias: Option<Seq<char>>,
    pub username: Option<Seq<char>>,
    pub dm_room_id: Seq<char>,
    pub verified: bool,
    pub trusted: bool,
    pub reachable: bool,
    pub lan_connected: bool,
    pub source: Seq<char>,
    pub added_at: i64,
    pub last_seen: Option<i64>,
}

impl View for ContactView {
    type V = ContactShown;

    open spec fn view(&self) -> ContactShown {
        ContactShown {
            fingerprint: self.fingerprint@,
            alias: text::opt(self.alias),
            username: text::opt(self.username),
            dm_room_id: self.dm_room_id@,
            verified: self.verified,
            trusted: self.trusted,
            reachable: self.reachable,
            lan_connected: self.lan_connected,
            source: self.source@,
            added_at: self.added_at,
            last_seen: self.last_seen,
        }
    }
}

/// Facts by their views.
pub open spec fn contact_facts(s: Seq<ContactFacts>) -> Seq<ContactFactsView> {
    s.map_values(|x: ContactFacts| x@)
}

/// Contacts by their views.
pub open spec fn contacts_shown(s: Seq<ContactView>) -> Seq<ContactShown> {
    s.map_values(|x: ContactView| x@)
}

/// Statuses by their views.
pub open spec fn peer_statuses(s: Seq<KnownPeerStatus>) -> Seq<PeerStatusView> {
    s.map_values(|x: KnownPeerStatus| x@)
}

// ---------------------------------------------------------------------------------------------
// Dialing
// ---------------------------------------------------------------------------------------------

/// The addresses of these that are multiaddrs, in their canonical form.
pub open spec fn canonical(addrs: Seq<Seq<char>>) -> Seq<Seq<char>>
    decreases addrs.len(),
{
    if addrs.len() == 0 {
        Seq::empty()
    } else {
        match addresses::multiaddr_text(addrs.last()) {
            Ok(m) => canonical(addrs.drop_last()).push(m),
            Err(_) => canonical(addrs.drop_last()),
        }
    }
}

fn canonical_addresses(addrs: &Vec<String>) -> (r: Vec<String>)
    ensures
        text::texts(r@) == canonical(text::texts(addrs@)),
{
    let ghost all = text::texts(addrs@);
    let mut out: Vec<String> = Vec::new();
    let mut i: usize = 0;
    assert(text::texts(out@) =~= canonical(all.take(0)));
    while i < addrs.len()
        invariant
            i <= addrs@.len(),
            all == text::texts(addrs@),
            text::texts(out@) == canonical(all.take(i as int)),
        decreases addrs@.len() - i,
    {
        let ghost got = text::texts(out@);
        proof {
            assert(all.take(i + 1).drop_last() =~= all.take(i as int));
            assert(all.take(i + 1).last() == addrs@[i as int]@);
        }
        match addresses::multiaddr_of(addrs[i].as_str()) {
            Ok(m) => {
                let ghost v = m@;
                out.push(m);
                assert(text::texts(out@) =~= got.push(v));
            },
            Err(_) => {},
        }
        i = i + 1;
    }
    assert(all.take(all.len() as int) =~= all);
    out
}

/// Every address that is known of a peer, each once, in the order in which they are tried.
pub open spec fn dial_candidates(
    app: AppView,
    known: Seq<KnownPeerView>,
    fingerprint: Seq<char>,
    addrs: Seq<Seq<char>>,
) -> bool {
    &&& addrs.no_duplicates()
    &&& addresses::in_order(addrs)
    &&& forall|a: Seq<char>| #[trigger]
        addrs.contains(a) <==> (addresses::announced_by(app.discovered, fingerprint, a)
            || addresses::dialed_before(known, fingerprint, a))
}

/// Whom a user means by an id or a name, or why nobody.
pub open spec fn dial_target(
    our_fp: Seq<char>,
    input: Seq<char>,
    named: Seq<Seq<char>>,
) -> Result<Seq<char>, ErrorView> {
    let t = text::trimmed(input);
    let found = match ids::fingerprint_in(t) {
        Some(fp) => Ok(fp),
        None => if named.len() == 0 {
            Err(
                ErrorView::Other(
                    "no peer named `"@ + t + "` known yet — paste their invite link instead"@,
                ),
            )
        } else if named.len() > 1 {
            Err(
                ErrorView::Other(
                    "username `"@ + t + "` is ambiguous ("@ + text::decimal(named.len())
                        + " peers share it) — use their HD- ID instead"@,
                ),
            )
        } else {
            Ok(named[0])
        },
    };
    if t.len() == 0 {
        Err(ErrorView::Other("input is empty"@))
    } else {
        match found {
            Err(e) => Err(e),
            Ok(fp) => if fp == our_fp {
                Err(ErrorView::Other("that's your own ID"@))
            } else {
                Ok(fp)
            },
        }
    }
}

/// Each candidate is stored as an address of the peer.
pub open spec fn candidate_effects(addrs: Seq<Seq<char>>, fingerprint: Seq<char>, now: i64) -> Seq<
    EffectView,
> {
    addrs.map_values(
        |a: Seq<char>|
            EffectView::Store(
                WriteView::KnownPeer(network::known_peer(a, None, now, Some(fingerprint), false)),
            ),
    )
}

/// A result without a value, by its view.
pub open spec fn unit_view(r: Result<(), HuddleError>) -> Result<(), ErrorView> {
    match r {
        Ok(_) => Ok(()),
        Err(e) => Err(e@),
    }
}

/// What dialing somebody by their id or name comes to.
pub open spec fn dialed_by_name(
    before: AppView,
    input: Seq<char>,
    named: Seq<Seq<char>>,
    known: Seq<KnownPeerView>,
    now: i64,
    after: AppView,
    eff: Seq<EffectView>,
    r: Result<(), ErrorView>,
) -> bool {
    match dial_target(before.our_fp(), input, named) {
        Err(e) => after == before && eff == Seq::<EffectView>::empty() && r == Err::<
            (),
            ErrorView,
        >(e),
        Ok(fp) => exists|addrs: Seq<Seq<char>>| #[trigger]
            dial_candidates(before, known, fp, addrs) && ({
                let stored = candidate_effects(addrs, fp, now);
                if addrs.len() == 0 {
                    after == before && eff == Seq::<EffectView>::empty() && r == Err::<
                        (),
                        ErrorView,
                    >(
                        ErrorView::Other(
                            "haven't seen `"@ + ids::short_name(fp)
                                + "` on the network yet — ask them for an invite link"@,
                        ),
                    )
                } else if canonical(addrs).len() == 0 {
                    after == before && eff == stored && r == Err::<(), ErrorView>(
                        ErrorView::Other("every known address for that peer is malformed"@),
                    )
                } else {
                    after == (AppView {
                        auto_dm: before.auto_dm.union(canonical(addrs).to_set()),
                        ..before
                    }) && eff == stored + seq![
                        EffectView::Emit(EventView::Dialing { address: addrs[0] }),
                        EffectView::DialAll { addresses: canonical(addrs) },
                    ] && r == Ok::<(), ErrorView>(())
                }
            }),
    }
}

impl AppHandle {
    /// Notes that the user dialed these addresses.
    fn note_dialed(&mut self, addrs: &Vec<String>)
        ensures
            old(self)@.wf() ==> final(self)@.wf(),
            final(self)@ == (AppView {
                auto_dm: old(self)@.auto_dm.union(text::texts(addrs@).to_set()),
                ..old(self)@
            }),
    {
        let ghost before = self@;
        let ghost all = text::texts(addrs@);
        let mut i: usize = 0;
        proof {
            assert(before.auto_dm.union(all.take(0).to_set()) =~= before.auto_dm);
            assert(self@ =~= AppView { auto_dm: self@.auto_dm, ..before });
        }
        while i < addrs.len()
            invariant
                i <= addrs@.len(),
                all == text::texts(addrs@),
                before == old(self)@,
                self@ == (AppView {
                    auto_dm: before.auto_dm.union(all.take(i as int).to_set()),
                    ..before
                }),
            decreases addrs@.len() - i,
        {
            let ghost mid = self@;
            self.pending_auto_dm_addrs.insert(addrs[i].clone());
            proof {
                let a = all.take(i as int);
                assert(all.take(i + 1) =~= a.push(all[i as int]));
                strmap::lemma_push_contains(a, all[i as int]);
                assert(all.take(i + 1).to_set() =~= a.to_set().insert(all[i as int]));
                assert(self@.auto_dm =~= before.auto_dm.union(all.take(i + 1).to_set()));
                assert(self@ =~= AppView { auto_dm: self@.auto_dm, ..before });
            }
            i = i + 1;
        }
        assert(all.take(all.len() as int) =~= all);
    }

    /// Whom a user means by an id or a name.
    fn find_target(&self, input: &str, named: &Vec<String>) -> (r: Result<String, HuddleError>)
        ensures
            crate::error::result_view(r) == dial_target(
                self@.our_fp(),
                input@,
                text::texts(named@),
            ),
    {
        let chars: Vec<char> = text::chars_of(input);
        let trimmed: &[char] = text::trim(chars.as_slice(), text::CharClass::Whitespace);
        let t: String = text::string_of(trimmed);
        if trimmed.len() == 0 {
            return Err(crate::error::other_error("input is empty"));
        }
        let fp: String = match ids::normalize_to_fingerprint(t.as_str()) {
            Some(fp) => fp,
            None => {
                if named.len() == 0 {
                    return Err(
                        HuddleError::Other(
                            text::join3(
                                "no peer named `",
                                t.as_str(),
                                "` known yet — paste their invite link instead",
                            ),
                        ),
                    );
                }
                if named.len() > 1 {
                    let n: String = text::decimal_of(named.len() as u64);
                    let mut words: String = text::join4(
                        "username `",
                        t.as_str(),
                        "` is ambiguous (",
                        n.as_str(),
                    );
                    text::push_str(
                        &mut words,
                        " peers share it) — use their HD- ID instead",
                    );
                    return Err(HuddleError::Other(words));
                }
                named[0].clone()
            },
        };
        if text::same(fp.as_str(), self.identity.fingerprint()) {
            return Err(crate::error::other_error("that's your own ID"));
        }
        Ok(fp)
    }

    /// Dials somebody by their id, or by a name that `named` peers go by. Whatever the result is,
    /// what has to be done comes with it.
    #[verifier::rlimit(60)]
    pub fn dial_by_id_or_username(
        &mut self,
        input: &str,
        named: &Vec<String>,
        known: &Vec<KnownPeer>,
        now: i64,
    ) -> (r: (Vec<Effect>, Result<(), HuddleError>))
        requires
            old(self)@.wf(),
        ensures
            final(self)@.wf(),
            dialed_by_name(
                old(self)@,
                input@,
                text::texts(named@),
                records::known_peers(known@),
                now,
                final(self)@,
                effects::effects(r.0@),
                unit_view(r.1),
            ),
    {
        let ghost before = self@;
        let mut out: Vec<Effect> = Vec::new();
        assert(effects::effects(out@) =~= Seq::<EffectView>::empty());
        let fp: String = match self.find_target(input, named) {
            Err(e) => {
                return (out, Err(e));
            },
            Ok(fp) => fp,
        };
        let addrs: Vec<String> = addresses::resolve_dial_addrs(
            &self.discovered_rooms,
            known,
            fp.as_str(),
        );
        let ghost all = text::texts(addrs@);
        assert(dial_candidates(before, records::known_peers(known@), fp@, all));
        if addrs.len() == 0 {
            let short: String = ids::short_fp_for_msg(fp.as_str());
            return (
                out,
                Err(
                    HuddleError::Other(
                        text::join3(
                            "haven't seen `",
                            short.as_str(),
                            "` on the network yet — ask them for an invite link",
                        ),
                    ),
                ),
            );
        }
        let ghost stored = candidate_effects(all, fp@, now);
        let mut i: usize = 0;
        assert(effects::effects(out@) =~= stored.take(0));
        while i < addrs.len()
            invariant
                i <= addrs@.len(),
                all == text::texts(addrs@),
                stored == candidate_effects(all, fp@, now),
                effects::effects(out@) == stored.take(i as int),
            decreases addrs@.len() - i,
        {
            let ghost got = effects::effects(out@);
            out.push(
                Effect::Store(
                    Write::KnownPeer(
                        network::new_known_peer(
                            addrs[i].clone(),
                            None,
                            now,
                            Some(fp.clone()),
                            false,
                        ),
                    ),
                ),
            );
            proof {
                assert(effects::effects(out@) =~= got.push(stored[i as int]));
                assert(stored.take(i + 1) =~= stored.take(i as int).push(stored[i as int]));
            }
            i = i + 1;
        }
        assert(stored.take(all.len() as int) =~= stored);
        let multiaddrs: Vec<String> = canonical_addresses(&addrs);
        if multiaddrs.len() == 0 {
            return (
                out,
                Err(crate::error::other_error("every known address for that peer is malformed")),
            );
        }
        out.push(Effect::Emit(AppEvent::Dialing { address: addrs[0].clone() }));
        self.note_dialed(&multiaddrs);
        out.push(Effect::DialAll { addresses: multiaddrs });
        proof {
            assert(all[0] == addrs@[0]@);
            assert(effects::effects(out@) =~= stored + seq![
                EffectView::Emit(EventView::Dialing { address: all[0] }),
                EffectView::DialAll { addresses: canonical(all) },
            ]);
        }
        (out, Ok(()))
    }

    /// Dials an address that the user typed. Whoever answers gets a chat with us.
    pub fn dial(&mut self, input: &str, now: i64) -> (r: Result<Vec<Effect>, HuddleError>)
        requires
            old(self)@.wf(),
        ensures
            final(self)@.wf(),
            (final(self)@, chat::outcome(r)) == old(self)@.dialed(input@, None, now),
    {
        let ghost before = self@;
        match addresses::parse_dial_address(input) {
            Err(e) => Err(e),
            Ok(m) => {
                self.pending_auto_dm_addrs.insert(m.clone());
                assert(self@ =~= AppView { auto_dm: self@.auto_dm, ..before });
                let mut out: Vec<Effect> = Vec::new();
                out.push(Effect::Dial(network::new_known_peer(m, None, now, None, false)));
                assert(effects::effects(out@) =~= seq![out@[0]@]);
                Ok(out)
            },
        }
    }

    /// Dials the address of an invite that claims this fingerprint.
    pub fn dial_invite(&mut self, address: &str, claimed_fp: &str, now: i64) -> (r: Result<
        Vec<Effect>,
        HuddleError,
    >)
        requires
            old(self)@.wf(),
        ensures
            final(self)@.wf(),
            (final(self)@, chat::outcome(r)) == old(self)@.dialed(address@, Some(claimed_fp@), now),
    {
        let ghost before = self@;
        match addresses::parse_dial_address(address) {
            Err(e) => Err(e),
            Ok(m) => {
                self.pending_invite_dials.insert(m.clone(), text::owned(claimed_fp));
                proof {
                    assert(self@.invite_dials =~= before.invite_dials.insert(m@, claimed_fp@));
                    assert(self@ =~= AppView { invite_dials: self@.invite_dials, ..before });
                }
                self.dial(address, now)
            },
        }
    }

    /// Takes up the room of an invite, so that it can be joined before it is announced.
    pub fn seed_invite_room(&mut self, room: &InviteRoom, now: i64)
        requires
            old(self)@.wf(),
        ensures
            final(self)@.wf(),
            old(self)@.invited(room@, now, final(self)@),
    {
        match dm_key::decode(crate::app::membership::borrowed(&room.salt_b64)) {
            Some(salt) => {
                self.remember_room_salt(room.id.as_str(), salt);
            },
            None => {},
        }
        let no_addrs: Vec<String> = Vec::new();
        assert(text::texts(no_addrs@) =~= Seq::<Seq<char>>::empty());
        self.note_discovered(
            DiscoveredRoom {
                room_id: room.id.clone(),
                name: room.name.clone(),
                encrypted: room.encrypted,
                member_count: 0,
                creator_fingerprint: room.creator_fingerprint.clone(),
                last_seen: now,
                restorable: false,
                host_addrs: no_addrs,
                kind: RoomKind::Group,
                capabilities: 0,
            },
        );
    }

    /// The known addresses, and which of them are connected.
    pub fn known_peers(&self, stored: &Vec<KnownPeer>) -> (r: Vec<KnownPeerStatus>)
        ensures
            peer_statuses(r@) == records::known_peers(stored@).map_values(
                |p: KnownPeerView| self@.status_of(p),
            ),
    {
        let ghost all = records::known_peers(stored@).map_values(
            |p: KnownPeerView| self@.status_of(p),
        );
        let mut out: Vec<KnownPeerStatus> = Vec::new();
        let mut i: usize = 0;
        while i < stored.len()
            invariant
                i <= stored@.len(),
                all == records::known_peers(stored@).map_values(
                    |p: KnownPeerView| self@.status_of(p),
                ),
                peer_statuses(out@) == all.take(i as int),
            decreases stored@.len() - i,
        {
            let ghost got = peer_statuses(out@);
            let p: &KnownPeer = &stored[i];
            let peer: Option<String> = match self.connected_dial_addrs.get(p.address.as_str()) {
                Some(id) => Some(id.clone()),
                None => None,
            };
            out.push(
                KnownPeerStatus {
                    address: p.address.clone(),
                    label: text::opt_copy(&p.label),
                    last_connected_at: p.last_connected_at,
                    connected_peer_id: peer,
                    fingerprint: text::opt_copy(&p.fingerprint),
                },
            );
            proof {
                assert(all[i as int] == self@.status_of(stored@[i as int]@));
                assert(peer_statuses(out@) =~= got.push(all[i as int]));
                assert(all.take(i + 1) =~= all.take(i as int).push(all[i as int]));
            }
            i = i + 1;
        }
        assert(all.take(all.len() as int) =~= all);
        out
    }

    /// Forgets a known address: what is on disk of it is gone already.
    pub fn forget_peer(&mut self, address: &str)
        requires
            old(self)@.wf(),
        ensures
            final(self)@.wf(),
            final(self)@ == old(self)@.with_connected(old(self)@.connected.remove(address@)),
    {
        let ghost before = self@;
        let gone: Option<String> = self.connected_dial_addrs.remove(address);
        proof {
            assert(self@.connected =~= before.connected.remove(address@));
            assert(self@ =~= before.with_connected(self@.connected));
        }
    }

    /// The user lets a peer in.
    pub fn accept_inbound(&mut self, peer_id: &str, address: &str) -> (r: Vec<Effect>)
        requires
            old(self)@.wf(),
        ensures
            final(self)@.wf(),
            (final(self)@, effects::effects(r@)) == old(self)@.inbound_accepted(peer_id@, address@),
    {
        self.connect(address, peer_id);
        let mut out: Vec<Effect> = Vec::new();
        out.push(Effect::AcceptInbound { peer_id: text::owned(peer_id) });
        assert(effects::effects(out@) =~= seq![out@[0]@]);
        out
    }

    /// A peer that connected to us is kept for later: the user has not decided.
    pub fn spill_pending_friend_request(peer_id: &str, fingerprint: &str, address: &str, now: i64) -> (r:
        Vec<Effect>)
        ensures
            effects::effects(r@) == spill_effects(peer_id@, fingerprint@, address@, now),
    {
        let mut out: Vec<Effect> = Vec::new();
        out.push(
            Effect::MustStore(
                Write::PendingFriend(
                    PendingFriendRequest {
                        fingerprint: text::owned(fingerprint),
                        address: text::owned(address),
                        peer_id: text::owned(peer_id),
                        received_at: now,
                    },
                ),
            ),
        );
        assert(effects::effects(out@) =~= seq![out@[0]@]);
        out
    }

    /// The user turns a peer away, for good.
    pub fn reject_inbound(peer_id: &str, fingerprint: &str, now: i64) -> (r: Vec<Effect>)
        ensures
            effects::effects(r@) == rejection_effects(peer_id@, fingerprint@, now),
    {
        let mut out: Vec<Effect> = Vec::new();
        out.push(Effect::RejectInbound { peer_id: text::owned(peer_id) });
        out.push(
            Effect::MustStore(
                Write::Block { fingerprint: text::owned(fingerprint), blocked_at: now },
            ),
        );
        assert(effects::effects(out@) =~= seq![out@[0]@, out@[1]@]);
        out
    }

    /// The user lets a peer in and trusts them from now on.
    pub fn trust_inbound(
        &mut self,
        peer_id: &str,
        fingerprint: &str,
        address: &str,
        pubkey_b64: Option<String>,
        now: i64,
    ) -> (r: Vec<Effect>)
        requires
            old(self)@.wf(),
        ensures
            final(self)@.wf(),
            (final(self)@, effects::effects(r@)) == old(self)@.inbound_trusted(
                peer_id@,
                fingerprint@,
                address@,
                text::opt(pubkey_b64),
                now,
            ),
    {
        self.connect(address, peer_id);
        let mut out: Vec<Effect> = Vec::new();
        out.push(Effect::AcceptInbound { peer_id: text::owned(peer_id) });
        out.push(
            Effect::MustStore(
                Write::KnownPeer(
                    network::new_known_peer(
                        text::owned(address),
                        Some(now),
                        now,
                        Some(text::owned(fingerprint)),
                        true,
                    ),
                ),
            ),
        );
        let ghost first = effects::effects(out@);
        assert(first =~= seq![out@[0]@, out@[1]@]);
        let mut more: Vec<Effect> = self.add_contact(fingerprint, "dial", pubkey_b64, now, false);
        let ghost said = effects::effects(more@);
        out.append(&mut more);
        assert(effects::effects(out@) =~= first + said);
        out
    }

    /// The user accepts a request that was put off: its address is dialed. Whatever the result is, what
    /// has to be done comes with it.
    pub fn accept_pending_friend_request(
        &mut self,
        fingerprint: &str,
        pending: &Vec<PendingFriendRequest>,
        pubkey_b64: Option<String>,
        now: i64,
    ) -> (r: (Vec<Effect>, Result<(), HuddleError>))
        requires
            old(self)@.wf(),
        ensures
            final(self)@.wf(),
            (final(self)@, effects::effects(r.0@), unit_view(r.1)) == old(self)@.friend_accepted(
                fingerprint@,
                pending_address(pending_views(pending@), fingerprint@),
                text::opt(pubkey_b64),
                now,
            ),
    {
        let address: Option<String> = find_pending(pending, fingerprint);
        let mut out: Vec<Effect> = Vec::new();
        out.push(
            Effect::MustStore(
                Write::DeletePendingFriends { fingerprint: text::owned(fingerprint) },
            ),
        );
        let ghost first = effects::effects(out@);
        assert(first =~= seq![out@[0]@]);
        let mut more: Vec<Effect> = self.add_contact(
            fingerprint,
            "request",
            pubkey_b64,
            now,
            false,
        );
        let ghost said = effects::effects(more@);
        out.append(&mut more);
        let ghost base = effects::effects(out@);
        assert(base =~= first + said);
        match address {
            None => (out, Ok(())),
            Some(a) => {
                let dialed = self.dial(a.as_str(), now);
                let ghost address0 = a@;
                out.push(
                    Effect::MustStore(
                        Write::KnownPeer(
                            network::new_known_peer(
                                a,
                                None,
                                now,
                                Some(text::owned(fingerprint)),
                                true,
                            ),
                        ),
                    ),
                );
                let ghost noted = effects::effects(out@);
                assert(noted =~= base + seq![
                    EffectView::MustStore(
                        WriteView::KnownPeer(
                            network::known_peer(address0, None, now, Some(fingerprint@), true),
                        ),
                    ),
                ]);
                match dialed {
                    Err(e) => (out, Err(e)),
                    Ok(mut last) => {
                        let ghost end = effects::effects(last@);
                        out.append(&mut last);
                        assert(effects::effects(out@) =~= noted + end);
                        (out, Ok(()))
                    },
                }
            },
        }
    }

    /// The user turns a request down that was put off: whoever made it is blocked.
    pub fn reject_pending_friend_request(fingerprint: &str, now: i64) -> (r: Vec<Effect>)
        ensures
            effects::effects(r@) == friend_rejected(fingerprint@, now),
    {
        let mut out: Vec<Effect> = Vec::new();
        out.push(
            Effect::MustStore(
                Write::DeletePendingFriends { fingerprint: text::owned(fingerprint) },
            ),
        );
        out.push(
            Effect::MustStore(
                Write::Block { fingerprint: text::owned(fingerprint), blocked_at: now },
            ),
        );
        assert(effects::effects(out@) =~= seq![out@[0]@, out@[1]@]);
        out
    }
}

pub open spec fn pending_views(s: Seq<PendingFriendRequest>) -> Seq<PendingFriendView> {
    s.map_values(|p: PendingFriendRequest| p@)
}

/// What putting a request off causes.
pub open spec fn spill_effects(
    peer_id: Seq<char>,
    fingerprint: Seq<char>,
    address: Seq<char>,
    now: i64,
) -> Seq<EffectView> {
    seq![
        EffectView::MustStore(
            WriteView::PendingFriend(
                PendingFriendView { fingerprint, address, peer_id, received_at: now },
            ),
        ),
    ]
}

/// What turning somebody away who dialed us causes.
pub open spec fn rejection_effects(
    peer_id: Seq<char>,
    fingerprint: Seq<char>,
    now: i64,
) -> Seq<EffectView> {
    seq![
        EffectView::RejectInbound { peer_id },
        EffectView::MustStore(WriteView::Block { fingerprint, blocked_at: now }),
    ]
}

/// What rejecting a request causes that was put off.
pub open spec fn friend_rejected(fingerprint: Seq<char>, now: i64) -> Seq<EffectView> {
    seq![
        EffectView::MustStore(WriteView::DeletePendingFriends { fingerprint }),
        EffectView::MustStore(WriteView::Block { fingerprint, blocked_at: now }),
    ]
}

/// What rejecting somebody causes who asked to be our contact.
pub open spec fn contact_rejected(fingerprint: Seq<char>, block: bool, now: i64) -> Seq<EffectView> {
    seq![EffectView::MustStore(WriteView::DeletePendingContact { fingerprint })] + (if block {
        seq![EffectView::MustStore(WriteView::Block { fingerprint, blocked_at: now })]
    } else {
        Seq::empty()
    })
}

/// The address of the first request of a peer.
pub open spec fn pending_address(
    pending: Seq<PendingFriendView>,
    fingerprint: Seq<char>,
) -> Option<Seq<char>>
    decreases pending.len(),
{
    if pending.len() == 0 {
        None
    } else if pending[0].fingerprint == fingerprint {
        Some(pending[0].address)
    } else {
        pending_address(pending.skip(1), fingerprint)
    }
}

fn find_pending(pending: &Vec<PendingFriendRequest>, fingerprint: &str) -> (r: Option<String>)
    ensures
        text::opt(r) == pending_address(pending_views(pending@), fingerprint@),
{
    let ghost all = pending_views(pending@);
    let mut i: usize = 0;
    assert(all.skip(0) =~= all);
    while i < pending.len()
        invariant
            i <= pending@.len(),
            all == pending_views(pending@),
            pending_address(all, fingerprint@) == pending_address(
                all.skip(i as int),
                fingerprint@,
            ),
        decreases pending@.len() - i,
    {
        assert(all.skip(i as int)[0] == pending@[i as int]@);
        assert(all.skip(i as int).skip(1) =~= all.skip(i + 1));
        if text::same(pending[i].fingerprint.as_str(), fingerprint) {
            return Some(pending[i].address.clone());
        }
        i = i + 1;
    }
    None
}

impl AppView {
    /// What accepting a request that was put off comes to. An address that cannot be dialed is an
    /// error.
    pub open spec fn friend_accepted(
        self,
        fingerprint: Seq<char>,
        address: Option<Seq<char>>,
        pubkey_b64: Option<Seq<char>>,
        now: i64,
    ) -> (Self, Seq<EffectView>, Result<(), ErrorView>) {
        let base = seq![EffectView::MustStore(WriteView::DeletePendingFriends { fingerprint })]
            + self.contact_effects(fingerprint, "request"@, pubkey_b64, now, false);
        match address {
            None => (self, base, Ok(())),
            Some(a) => {
                let noted = base + seq![
                    EffectView::MustStore(
                        WriteView::KnownPeer(
                            network::known_peer(a, None, now, Some(fingerprint), true),
                        ),
                    ),
                ];
                match addresses::dial_address(a) {
                    Err(e) => (self, noted, Err(e)),
                    Ok(m) => (
                        AppView { auto_dm: self.auto_dm.insert(m), ..self },
                        noted + seq![
                            EffectView::Dial(network::known_peer(m, None, now, None, false)),
                        ],
                        Ok(()),
                    ),
                }
            },
        }
    }
}

// ---------------------------------------------------------------------------------------------
// The address book
// ---------------------------------------------------------------------------------------------

impl AppView {
    /// A known address, and whether it is connected.
    pub open spec fn status_of(self, p: KnownPeerView) -> PeerStatusView {
        PeerStatusView {
            address: p.address,
            label: p.label,
            last_connected_at: p.last_connected_at,
            connected_peer_id: if self.connected.dom().contains(p.address) {
                Some(self.connected[p.address])
            } else {
                None
            },
            fingerprint: p.fingerprint,
        }
    }

    /// What putting somebody into the address book causes. We ourselves are never put there.
    pub open spec fn contact_effects(
        self,
        fingerprint: Seq<char>,
        source: Seq<char>,
        pubkey_b64: Option<Seq<char>>,
        now: i64,
        must: bool,
    ) -> Seq<EffectView> {
        if fingerprint == self.our_fp() || fingerprint.len() == 0 {
            Seq::empty()
        } else {
            let room_id = ids::dm_room_id(self.our_fp(), fingerprint);
            let row = WriteView::Contact(
                ContactRow {
                    fingerprint,
                    alias: None,
                    ed25519_pubkey: pubkey_b64,
                    dm_room_id: Some(room_id),
                    source,
                    note: None,
                    added_at: now,
                    last_seen: Some(now),
                },
            );
            seq![
                EffectView::RegisterDm { room_id, partner_fingerprint: fingerprint },
                if must {
                    EffectView::MustStore(row)
                } else {
                    EffectView::Store(row)
                },
            ]
        }
    }

    /// What asking somebody to be our contact causes.
    pub open spec fn request_effects(
        self,
        target: Seq<char>,
        note: Option<Seq<char>>,
        display_name: Option<Seq<char>>,
        pubkey_b64: Option<Seq<char>>,
        now: i64,
    ) -> Seq<EffectView> {
        self.contact_effects(target, "request-sent"@, pubkey_b64, now, false) + seq![
            EffectView::PublishDirect {
                target_fingerprint: target,
                message: MessageView::ContactRequest {
                    requester_fingerprint: self.our_fp(),
                    display_name,
                    note,
                    sender_ed25519_pubkey: Some(primitives::base64_text(self.identity.public)),
                },
            },
        ]
    }

    /// We ask somebody to be our contact, or why we cannot.
    pub open spec fn contact_requested(
        self,
        target: Seq<char>,
        note: Option<Seq<char>>,
        display_name: Option<Seq<char>>,
        pubkey_b64: Option<Seq<char>>,
        now: i64,
    ) -> Result<Seq<EffectView>, ErrorView> {
        if target == self.our_fp() {
            Err(ErrorView::Other("that's your own ID"@))
        } else {
            Ok(self.request_effects(target, note, display_name, pubkey_b64, now))
        }
    }

    /// What accepting a request causes: whoever asked is a contact, the chat with them is opened, and they
    /// are asked in turn, which tells them.
    pub open spec fn contact_accepted(
        self,
        fingerprint: Seq<char>,
        display_name: Option<Seq<char>>,
        pubkey_b64: Option<Seq<char>>,
        now: i64,
    ) -> Seq<EffectView> {
        seq![EffectView::MustStore(WriteView::DeletePendingContact { fingerprint })]
            + self.contact_effects(fingerprint, "request"@, pubkey_b64, now, true) + seq![
            EffectView::MustStartDirect { partner_fingerprint: fingerprint },
        ] + (if fingerprint == self.our_fp() {
            Seq::empty()
        } else {
            self.request_effects(fingerprint, None, display_name, pubkey_b64, now)
        })
    }

    /// What it causes that a connect code was resolved, to this peer or to nobody.
    pub open spec fn code_resolved(
        self,
        fingerprint: Option<Seq<char>>,
        pubkey_b64: Option<Seq<char>>,
        display_name: Option<Seq<char>>,
        known_pubkey_b64: Option<Seq<char>>,
        now: i64,
    ) -> Seq<EffectView> {
        match self.resolution_fault(fingerprint, pubkey_b64) {
            Some(reason) => seq![EffectView::Emit(EventView::ConnectCodeFailed { reason })],
            None => self.request_effects(fingerprint->0, None, display_name, known_pubkey_b64, now)
                + seq![
                EffectView::Emit(EventView::ConnectCodeRedeemed { fingerprint: fingerprint->0 }),
            ],
        }
    }

    /// The user dials an address, which an invite may say belongs to somebody. Whoever answers gets a chat.
    pub open spec fn dialed(self, input: Seq<char>, claimed_fp: Option<Seq<char>>, now: i64) -> (
        Self,
        Result<Seq<EffectView>, ErrorView>,
    ) {
        match addresses::dial_address(input) {
            Err(e) => (self, Err(e)),
            Ok(m) => (
                AppView {
                    auto_dm: self.auto_dm.insert(m),
                    invite_dials: match claimed_fp {
                        Some(fp) => self.invite_dials.insert(m, fp),
                        None => self.invite_dials,
                    },
                    ..self
                },
                Ok(seq![EffectView::Dial(network::known_peer(m, None, now, None, false))]),
            ),
        }
    }

    /// A room that an invite speaks of is known from now on.
    pub open spec fn invited(self, room: InviteRoomView, now: i64, after: Self) -> bool {
        &&& after == (AppView {
            salts: after.salts,
            discovered: self.discovered.insert(
                room.id,
                (DiscoveredView {
                    room_id: room.id,
                    name: room.name,
                    encrypted: room.encrypted,
                    member_count: 0,
                    creator_fingerprint: room.creator_fingerprint,
                    last_seen: now,
                    restorable: false,
                    host_addrs: Seq::empty(),
                    kind: RoomKind::Group,
                    capabilities: 0,
                }),
            ),
            ..self
        })
        &&& match dm_key::decoded(room.salt_b64) {
            Some(salt) => rooms::salt_remembered(self.salts, room.id, salt, after.salts),
            None => after.salts == self.salts,
        }
    }

    /// Somebody who dialed us is let in.
    pub open spec fn inbound_accepted(self, peer_id: Seq<char>, address: Seq<char>) -> (
        Self,
        Seq<EffectView>,
    ) {
        (
            self.with_connected(self.connected.insert(address, peer_id)),
            seq![EffectView::AcceptInbound { peer_id }],
        )
    }

    /// Somebody who dialed us is let in, now and whenever they dial again.
    pub open spec fn inbound_trusted(
        self,
        peer_id: Seq<char>,
        fingerprint: Seq<char>,
        address: Seq<char>,
        pubkey_b64: Option<Seq<char>>,
        now: i64,
    ) -> (Self, Seq<EffectView>) {
        (
            self.with_connected(self.connected.insert(address, peer_id)),
            seq![
                EffectView::AcceptInbound { peer_id },
                EffectView::MustStore(
                    WriteView::KnownPeer(
                        network::known_peer(address, Some(now), now, Some(fingerprint), true),
                    ),
                ),
            ] + self.contact_effects(fingerprint, "dial"@, pubkey_b64, now, false),
        )
    }

    /// A connected address is known to lead to this peer.
    pub open spec fn on_lan(self, known: Seq<KnownPeerView>, fingerprint: Seq<char>) -> bool {
        exists|i: int|
            0 <= i < known.len() && (#[trigger] known[i]).fingerprint == Some(fingerprint)
                && self.connected.dom().contains(known[i].address)
    }

    /// A contact as it is shown.
    pub open spec fn shown(
        self,
        c: ContactFactsView,
        known: Seq<KnownPeerView>,
        relay_up: bool,
    ) -> ContactShown {
        let lan = self.on_lan(known, c.contact.fingerprint);
        ContactShown {
            fingerprint: c.contact.fingerprint,
            alias: c.contact.alias,
            username: c.username,
            dm_room_id: match c.contact.dm_room_id {
                Some(id) => id,
                None => ids::dm_room_id(self.our_fp(), c.contact.fingerprint),
            },
            verified: c.verified,
            trusted: c.trusted,
            reachable: lan || relay_up,
            lan_connected: lan,
            source: c.contact.source,
            added_at: c.contact.added_at,
            last_seen: c.contact.last_seen,
        }
    }

    /// Why a connect code that was resolved leads nowhere.
    pub open spec fn resolution_fault(
        self,
        fingerprint: Option<Seq<char>>,
        pubkey_b64: Option<Seq<char>>,
    ) -> Option<Seq<char>> {
        if fingerprint is None || fingerprint->0.len() == 0 {
            Some("invalid or expired connect code"@)
        } else if fingerprint->0 == self.our_fp() {
            Some("that's your own connect code"@)
        } else {
            match dm_key::decoded_to(pubkey_b64, 32) {
                Some(key) => if identity::fingerprint_of(key) != fingerprint->0 {
                    Some("connect code resolved to a mismatched identity"@)
                } else {
                    None
                },
                None => None,
            }
        }
    }
}

impl AppHandle {
    /// Puts somebody into the address book. `must` says whether it matters that this succeeds.
    pub fn add_contact(
        &self,
        fingerprint: &str,
        source: &str,
        pubkey_b64: Option<String>,
        now: i64,
        must: bool,
    ) -> (r: Vec<Effect>)
        ensures
            effects::effects(r@) == self@.contact_effects(
                fingerprint@,
                source@,
                text::opt(pubkey_b64),
                now,
                must,
            ),
    {
        let mut out: Vec<Effect> = Vec::new();
        assert(effects::effects(out@) =~= Seq::<EffectView>::empty());
        let chars: Vec<char> = text::chars_of(fingerprint);
        if text::same(fingerprint, self.identity.fingerprint()) || chars.len() == 0 {
            return out;
        }
        let room_id: String = ids::canonical_dm_room_id(self.identity.fingerprint(), fingerprint);
        out.push(
            Effect::RegisterDm {
                room_id: room_id.clone(),
                partner_fingerprint: text::owned(fingerprint),
            },
        );
        let row: Write = Write::Contact(
            Contact {
                fingerprint: text::owned(fingerprint),
                alias: None,
                ed25519_pubkey: pubkey_b64,
                dm_room_id: Some(room_id),
                source: text::owned(source),
                note: None,
                added_at: now,
                last_seen: Some(now),
            },
        );
        if must {
            out.push(Effect::MustStore(row));
        } else {
            out.push(Effect::Store(row));
        }
        assert(effects::effects(out@) =~= seq![out@[0]@, out@[1]@]);
        out
    }

    /// Asks somebody to be our contact. They hear of it wherever they are.
    pub fn send_contact_request(
        &self,
        target_fingerprint: &str,
        note: Option<String>,
        display_name: Option<String>,
        pubkey_b64: Option<String>,
        now: i64,
    ) -> (r: Result<Vec<Effect>, HuddleError>)
        ensures
            chat::outcome(r) == self@.contact_requested(
                target_fingerprint@,
                text::opt(note),
                text::opt(display_name),
                text::opt(pubkey_b64),
                now,
            ),
    {
        if text::same(target_fingerprint, self.identity.fingerprint()) {
            return Err(crate::error::other_error("that's your own ID"));
        }
        let mut out: Vec<Effect> = self.add_contact(
            target_fingerprint,
            "request-sent",
            pubkey_b64,
            now,
            false,
        );
        let ghost first = effects::effects(out@);
        let public: [u8; 32] = self.identity.public_bytes();
        out.push(
            Effect::PublishDirect {
                target_fingerprint: text::owned(target_fingerprint),
                message: RoomMessage::ContactRequest {
                    requester_fingerprint: text::owned(self.identity.fingerprint()),
                    display_name,
                    note,
                    sender_ed25519_pubkey: Some(primitives::base64_encode(public.as_slice())),
                },
            },
        );
        proof {
            let last = out@.last()@;
            assert(effects::effects(out@) =~= first + seq![last]);
        }
        Ok(out)
    }

    /// The user accepts somebody as a contact: they are put into the address book, the chat with them
    /// is opened, and they hear of it.
    pub fn accept_contact_request(
        &self,
        fingerprint: &str,
        display_name: Option<String>,
        pubkey_b64: Option<String>,
        now: i64,
    ) -> (r: Vec<Effect>)
        ensures
            effects::effects(r@) == self@.contact_accepted(
                fingerprint@,
                text::opt(display_name),
                text::opt(pubkey_b64),
                now,
            ),
    {
        let mut out: Vec<Effect> = Vec::new();
        out.push(
            Effect::MustStore(
                Write::DeletePendingContact { fingerprint: text::owned(fingerprint) },
            ),
        );
        let ghost a = effects::effects(out@);
        assert(a =~= seq![out@[0]@]);
        let mut more: Vec<Effect> = self.add_contact(
            fingerprint,
            "request",
            text::opt_copy(&pubkey_b64),
            now,
            true,
        );
        let ghost b = effects::effects(more@);
        out.append(&mut more);
        out.push(Effect::MustStartDirect { partner_fingerprint: text::owned(fingerprint) });
        let ghost c = effects::effects(out@);
        assert(c =~= a + b + seq![
            EffectView::MustStartDirect { partner_fingerprint: fingerprint@ },
        ]);
        match self.send_contact_request(fingerprint, None, display_name, pubkey_b64, now) {
            Err(_) => {
                assert(c =~= c + Seq::<EffectView>::empty());
            },
            Ok(mut last) => {
                let ghost d = effects::effects(last@);
                out.append(&mut last);
                assert(effects::effects(out@) =~= c + d);
            },
        }
        out
    }

    /// The user turns a contact request down, and blocks whoever made it if they want.
    pub fn reject_contact_request(fingerprint: &str, block: bool, now: i64) -> (r: Vec<Effect>)
        ensures
            effects::effects(r@) == contact_rejected(fingerprint@, block, now),
    {
        let mut out: Vec<Effect> = Vec::new();
        out.push(
            Effect::MustStore(
                Write::DeletePendingContact { fingerprint: text::owned(fingerprint) },
            ),
        );
        if block {
            out.push(
                Effect::MustStore(
                    Write::Block { fingerprint: text::owned(fingerprint), blocked_at: now },
                ),
            );
            assert(effects::effects(out@) =~= seq![out@[0]@] + seq![out@[1]@]);
        } else {
            assert(effects::effects(out@) =~= seq![out@[0]@] + Seq::<EffectView>::empty());
        }
        out
    }

    /// We asked the relay for a connect code. `sent` says whether the relay could be asked.
    pub fn create_connect_code(sent: bool) -> (r: Result<(), HuddleError>)
        ensures
            unit_view(r) == (if sent {
                Ok::<(), ErrorView>(())
            } else {
                Err(
                    ErrorView::Network("not connected to the relay — can't create a connect code"@),
                )
            }),
    {
        if sent {
            Ok(())
        } else {
            Err(
                HuddleError::Network(
                    text::owned("not connected to the relay — can't create a connect code"),
                ),
            )
        }
    }

    /// We asked the relay whom a connect code leads to. `sent` says whether the relay could be asked.
    pub fn connect_code_asked(sent: bool) -> (r: Result<(), HuddleError>)
        ensures
            unit_view(r) == (if sent {
                Ok::<(), ErrorView>(())
            } else {
                Err(
                    ErrorView::Network("not connected to the relay — can't redeem a connect code"@),
                )
            }),
    {
        if sent {
            Ok(())
        } else {
            Err(
                HuddleError::Network(
                    text::owned("not connected to the relay — can't redeem a connect code"),
                ),
            )
        }
    }

    /// The code that a user typed to be connected with somebody, as the relay knows it. The relay is asked
    /// whom it leads to (`connect_code_asked`).
    pub fn redeem_connect_code(code: &str) -> (r: Result<String, HuddleError>)
        ensures
            crate::error::result_view(r) == (match ids::connect_code_in(code@) {
                Some(c) => Ok::<Seq<char>, ErrorView>(c),
                None => Err(ErrorView::Other("that doesn't look like a connect code"@)),
            }),
    {
        match ids::normalize_connect_code(code) {
            Some(c) => Ok(c),
            None => Err(crate::error::other_error("that doesn't look like a connect code")),
        }
    }

    fn check_resolution(&self, fingerprint: &Option<String>, pubkey_b64: &Option<String>) -> (r: Option<
        String,
    >)
        ensures
            text::opt(r) == self@.resolution_fault(text::opt(*fingerprint), text::opt(*pubkey_b64)),
    {
        let fp: &String = match fingerprint {
            None => {
                return Some(text::owned("invalid or expired connect code"));
            },
            Some(fp) => fp,
        };
        let chars: Vec<char> = text::chars_of(fp.as_str());
        if chars.len() == 0 {
            return Some(text::owned("invalid or expired connect code"));
        }
        if text::same(fp.as_str(), self.identity.fingerprint()) {
            return Some(text::owned("that's your own connect code"));
        }
        match dm_key::decode_to(crate::app::membership::borrowed(pubkey_b64), 32) {
            None => None,
            Some(b) => {
                let key: [u8; 32] = bytes::array_32(b.as_slice());
                let actual: String = identity::compute_fingerprint(&key);
                if !text::same(actual.as_str(), fp.as_str()) {
                    return Some(text::owned("connect code resolved to a mismatched identity"));
                }
                None
            },
        }
    }

    /// The relay says whose connect code it was: they are asked to be our contact, unless what the
    /// relay says cannot be.
    pub fn on_connect_code_resolved(
        &self,
        fingerprint: Option<String>,
        pubkey_b64: Option<String>,
        display_name: Option<String>,
        known_pubkey_b64: Option<String>,
        now: i64,
    ) -> (r: Vec<Effect>)
        ensures
            effects::effects(r@) == self@.code_resolved(
                text::opt(fingerprint),
                text::opt(pubkey_b64),
                text::opt(display_name),
                text::opt(known_pubkey_b64),
                now,
            ),
    {
        let mut out: Vec<Effect> = Vec::new();
        match self.check_resolution(&fingerprint, &pubkey_b64) {
            Some(reason) => {
                out.push(Effect::Emit(AppEvent::ConnectCodeFailed { reason }));
                assert(effects::effects(out@) =~= seq![out@[0]@]);
                return out;
            },
            None => {},
        }
        let fp: String = fingerprint.unwrap();
        match self.send_contact_request(fp.as_str(), None, display_name, known_pubkey_b64, now) {
            Err(_) => {},
            Ok(sent) => {
                out = sent;
            },
        }
        let ghost first = effects::effects(out@);
        out.push(Effect::Emit(AppEvent::ConnectCodeRedeemed { fingerprint: fp }));
        proof {
            let last = out@.last()@;
            assert(effects::effects(out@) =~= first + seq![last]);
        }
        out
    }

    /// A connected address is known to lead to this peer.
    fn lan_connected(&self, known: &Vec<KnownPeer>, fingerprint: &str) -> (r: bool)
        ensures
            r == self@.on_lan(records::known_peers(known@), fingerprint@),
    {
        let ghost all = records::known_peers(known@);
        let mut i: usize = 0;
        while i < known.len()
            invariant
                i <= known@.len(),
                all == records::known_peers(known@),
                forall|j: int|
                    0 <= j < i ==> !((#[trigger] all[j]).fingerprint == Some(fingerprint@)
                        && self@.connected.dom().contains(all[j].address)),
            decreases known@.len() - i,
        {
            let p: &KnownPeer = &known[i];
            assert(all[i as int] == p@);
            let theirs: bool = match &p.fingerprint {
                Some(f) => text::same(f.as_str(), fingerprint),
                None => false,
            };
            assert(self@.connected.dom() =~= self.connected_dial_addrs@.dom());
            if theirs && self.connected_dial_addrs.contains_key(p.address.as_str()) {
                assert(self@.on_lan(all, fingerprint@));
                return true;
            }
            i = i + 1;
        }
        false
    }

    /// The contacts as they are shown, without ourselves.
    pub fn list_contacts(&self, rows: &Vec<ContactFacts>, known: &Vec<KnownPeer>, relay_up: bool) -> (r:
        Vec<ContactView>)
        ensures
            contacts_shown(r@) == listed(
                self@,
                contact_facts(rows@),
                records::known_peers(known@),
                relay_up,
            ),
    {
        let ghost all = contact_facts(rows@);
        let ghost peers = records::known_peers(known@);
        let mut out: Vec<ContactView> = Vec::new();
        let mut i: usize = 0;
        assert(contacts_shown(out@) =~= listed(self@, all.take(0), peers, relay_up));
        while i < rows.len()
            invariant
                i <= rows@.len(),
                all == contact_facts(rows@),
                peers == records::known_peers(known@),
                contacts_shown(out@) == listed(self@, all.take(i as int), peers, relay_up),
            decreases rows@.len() - i,
        {
            let ghost got = contacts_shown(out@);
            let row: &ContactFacts = &rows[i];
            let c: &Contact = &row.contact;
            proof {
                assert(all.take(i + 1).drop_last() =~= all.take(i as int));
                assert(all.take(i + 1).last() == row@);
            }
            if !text::same(c.fingerprint.as_str(), self.identity.fingerprint()) {
                let lan: bool = self.lan_connected(known, c.fingerprint.as_str());
                let room_id: String = match &c.dm_room_id {
                    Some(id) => id.clone(),
                    None => ids::canonical_dm_room_id(
                        self.identity.fingerprint(),
                        c.fingerprint.as_str(),
                    ),
                };
                let view = ContactView {
                    fingerprint: c.fingerprint.clone(),
                    alias: text::opt_copy(&c.alias),
                    username: text::opt_copy(&row.username),
                    dm_room_id: room_id,
                    verified: row.verified,
                    trusted: row.trusted,
                    reachable: lan || relay_up,
                    lan_connected: lan,
                    source: c.source.clone(),
                    added_at: c.added_at,
                    last_seen: c.last_seen,
                };
                let ghost v = view@;
                out.push(view);
                proof {
                    assert(v =~= self@.shown(row@, peers, relay_up));
                    assert(contacts_shown(out@) =~= got.push(v));
                }
            }
            i = i + 1;
        }
        assert(all.take(all.len() as int) =~= all);
        out
    }
}

/// The contacts of these rows that are not ourselves, as they are shown.
pub open spec fn listed(
    app: AppView,
    rows: Seq<ContactFactsView>,
    known: Seq<KnownPeerView>,
    relay_up: bool,
) -> Seq<ContactShown>
    decreases rows.len(),
{
    if rows.len() == 0 {
        Seq::empty()
    } else {
        let before = listed(app, rows.drop_last(), known, relay_up);
        if rows.last().contact.fingerprint == app.our_fp() {
            before
        } else {
            before.push(app.shown(rows.last(), known, relay_up))
        }
    }
}

} // verus!
