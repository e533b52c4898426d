//! Who is in a room and what they may do: announcements, departures, owners, bans and settings.
use crate::app::dm_key::{self, DmKeyOutcome, PartnerKeys, PartnerKeysView};
use crate::app::effects::{self, Effect, EffectView, Write, WriteView};
use crate::app::events::{AppEvent, EventView, RoomKind};
use crate::app::facts::{Envelope, EnvelopeView, FactsView, RoomFacts};
use crate::app::messages::{MessageView, RoomMessage};
use crate::app::records::{
    MemberView, PendingContactRequest, PendingContactView, StoredRoomMember,
};
use crate::app::{ActiveRoom, AppHandle, AppView, RoomView};
use crate::crypto::megolm::{self, RoomCrypto, RoomCryptoView};
use crate::crypto::passphrase;
use crate::text;
use vstd::prelude::*;

verus! {

/// How many seconds pass before we announce ourselves in a room again because we are asked to.
pub const ANNOUNCE_ON_REQUEST_COOLDOWN_SECS: i64 = 10;

// ---------------------------------------------------------------------------------------------
// What becomes of the state
// ---------------------------------------------------------------------------------------------

/// What a member says when they announce themselves.
pub struct AnnounceView {
    pub sender: Seq<char>,
    pub wrapped_session_key: Option<Seq<char>>,
    pub display_name: Option<Seq<char>>,
    pub ed25519: Option<Seq<char>>,
    pub mlkem: Option<Seq<char>>,
    pub ciphertext: Option<Seq<char>>,
    pub capabilities: u64,
}

/// What a member says when they announce themselves.
pub struct Announce {
    pub sender: String,
    pub wrapped_session_key: Option<String>,
    pub display_name: Option<String>,
    pub ed25519: Option<String>,
    pub mlkem: Option<String>,
    pub ciphertext: Option<String>,
    pub capabilities: u64,
}

impl View for Announce {
    type V = AnnounceView;

    open spec fn view(&self) -> AnnounceView {
        AnnounceView {
            sender: self.sender@,
            wrapped_session_key: text::opt(self.wrapped_session_key),
            display_name: text::opt(self.display_name),
            ed25519: text::opt(self.ed25519),
            mlkem: text::opt(self.mlkem),
            ciphertext: text::opt(self.ciphertext),
            capabilities: self.capabilities,
        }
    }
}

/// The first of the owners in the order of their fingerprints is this one.
pub open spec fn is_first_owner(owners: Seq<Seq<char>>, fingerprint: Seq<char>) -> bool {
    owners.contains(fingerprint) && forall|i: int|
        0 <= i < owners.len() ==> !text::text_lt(#[trigger] owners[i], fingerprint)
}

/// The room after the session key of a member was unwrapped and taken in. A key that does not
/// unwrap changes nothing.
pub open spec fn session_taken(
    room: RoomView,
    sender: Seq<char>,
    wrapped: Option<Seq<char>>,
    now: i64,
) -> RoomView {
    match (wrapped, room.key, room.crypto) {
        (Some(wrapped), Some(key), Some(crypto)) => match passphrase::unwrapped(wrapped, key) {
            Ok(plain) => if room.info.encrypted && vstd::utf8::valid_utf8(plain) {
                match megolm::megolm_imported(
                    vstd::utf8::decode_utf8(plain),
                    crypto.persist_key,
                ) {
                    Ok(session) => RoomView {
                        crypto: Some(crypto.with_inbound(sender, session.1, session.0, now)),
                        ..room
                    },
                    Err(_) => room,
                }
            } else {
                room
            },
            Err(_) => room,
        },
        _ => room,
    }
}

/// The state of the outbound session, to be stored.
pub open spec fn rotation_state(c: RoomCryptoView) -> EffectView {
    EffectView::Store(
        WriteView::RotationState {
            room_id: c.room_id,
            fingerprint: c.our_fingerprint,
            messages_since_rotation: c.messages_since_rotation,
            last_rotation_at: c.last_rotation_at,
        },
    )
}

/// What the announcement of a member causes before keys are looked at.
pub open spec fn member_stored(
    room_id: Seq<char>,
    m: AnnounceView,
    newly: bool,
    now: i64,
) -> Seq<EffectView> {
    (if newly {
        seq![EffectView::Emit(EventView::MemberJoined { room_id, fingerprint: m.sender })]
    } else {
        Seq::empty()
    }) + seq![
        EffectView::Store(
            WriteView::Member(
                MemberView {
                    room_id,
                    peer_id: ""@,
                    fingerprint: m.sender,
                    last_seen: Some(now),
                    verified: false,
                    ed25519_pubkey: m.ed25519,
                    role: "member"@,
                    mlkem_pubkey: m.mlkem,
                },
            ),
        ),
    ] + (match m.display_name {
        Some(name) => seq![
            EffectView::Store(
                WriteView::MemberDisplayName { room_id, fingerprint: m.sender, name },
            ),
        ],
        None => Seq::empty(),
    })
}

impl AppView {
    /// The announcement is taken: signed by whom it is about, who is neither us nor banned, and who
    /// is verified where that is asked for, in a room that we are in and that is not a chat between
    /// two others.
    pub open spec fn announce_admitted(
        self,
        f: FactsView,
        e: EnvelopeView,
        sender: Seq<char>,
    ) -> bool {
        &&& self.vouched(f, e, sender)
        &&& f.verified_only ==> f.subject_verified
        &&& self.rooms.dom().contains(e.room_id)
        &&& ({
            let room = self.rooms[e.room_id];
            room.info.kind == RoomKind::Direct ==> room.members.contains(sender)
                || room.members.len() < 2
        })
    }

    /// The announcement is answered with a refusal: the room wants verified members only, and it
    /// is on us to say so.
    pub open spec fn announce_refused(
        self,
        f: FactsView,
        e: EnvelopeView,
        sender: Seq<char>,
    ) -> bool {
        &&& self.vouched(f, e, sender)
        &&& f.verified_only && !f.subject_verified
        &&& is_first_owner(f.owners, self.our_fp())
    }

    /// What becomes of the state when a member announces themselves. The outbound session that
    /// comes with a better key is drawn at random: `after` is the state with one such session.
    pub open spec fn on_member_announce(
        self,
        f: FactsView,
        e: EnvelopeView,
        m: AnnounceView,
        after: Self,
        eff: Seq<EffectView>,
    ) -> bool {
        self.capabilities_heard(e, m).announce_taken(f, e, m, after, eff)
    }

    /// What a member says that they can do is noted, if they signed it.
    pub open spec fn capabilities_heard(self, e: EnvelopeView, m: AnnounceView) -> Self {
        if m.sender != self.our_fp() && e.signer == Some(m.sender) {
            self.with_capabilities(m.sender, m.capabilities)
        } else {
            self
        }
    }

    /// What becomes of the state when a member announces themselves, once it is noted what they can do.
    pub open spec fn announce_taken(
        self,
        f: FactsView,
        e: EnvelopeView,
        m: AnnounceView,
        after: Self,
        eff: Seq<EffectView>,
    ) -> bool {
        if self.announce_refused(f, e, m.sender) {
            after == self && eff == seq![
                EffectView::PublishSigned {
                    room_id: e.room_id,
                    message: MessageView::JoinRefused {
                        room_id: e.room_id,
                        target_fingerprint: m.sender,
                        reason: "room requires SAS verification — ask an existing member to verify you"@,
                    },
                },
            ]
        } else if !self.announce_admitted(f, e, m.sender) {
            after == self && eff == Seq::<EffectView>::empty()
        } else {
            let room = self.rooms[e.room_id];
            let joined = RoomView { members: room.members.insert(m.sender), ..room };
            let stored = member_stored(e.room_id, m, !room.members.contains(m.sender), e.now);
            if room.info.kind != RoomKind::Direct {
                after == self.with_room(
                    e.room_id,
                    session_taken(joined, m.sender, m.wrapped_session_key, e.now),
                ) && eff == stored
            } else {
                let step = dm_key::dm_step(
                    joined,
                    self.identity,
                    e.room_id,
                    m.sender,
                    partner_keys(f, m),
                );
                exists|keyed: RoomView| #[trigger]
                    dm_key::dm_applied(joined, step.1, e.now, keyed) && ({
                        let there = self.with_room(
                            e.room_id,
                            session_taken(keyed, m.sender, m.wrapped_session_key, e.now),
                        );
                        match step.0 {
                            DmKeyOutcome::ReBroadcast => after == there && eff == stored + (
                            if joined.key is Some && keyed.crypto is Some {
                                seq![rotation_state(keyed.crypto->0)]
                            } else {
                                Seq::empty()
                            }) + seq![
                                EffectView::AnnounceMember { room_id: e.room_id, delay_ms: 0 },
                            ],
                            DmKeyOutcome::RequestCiphertext => after == there.keys_wanted(
                                e.room_id,
                                e.now,
                            ).0 && eff == stored + there.keys_wanted(e.room_id, e.now).1,
                            DmKeyOutcome::Noop => after == there && eff == stored,
                        }
                    })
            }
        }
    }

    /// Somebody asks for our session key: we announce ourselves, unless we did so a moment ago.
    pub open spec fn on_session_key_request(self, e: EnvelopeView, requester: Seq<char>) -> (
        Self,
        Seq<EffectView>,
    ) {
        let last = if self.answers.dom().contains(e.room_id) {
            self.answers[e.room_id]
        } else {
            0
        };
        if requester == self.our_fp() || e.now - last < ANNOUNCE_ON_REQUEST_COOLDOWN_SECS {
            (self, seq![])
        } else {
            (
                AppView { answers: self.answers.insert(e.room_id, e.now), ..self },
                seq![EffectView::AnnounceMember { room_id: e.room_id, delay_ms: 0 }],
            )
        }
    }

    /// The message is about the room in which it came, as far as it says.
    pub open spec fn meant_here(e: EnvelopeView, claimed: Option<Seq<char>>) -> bool {
        claimed is None || claimed == Some(e.room_id)
    }

    pub open spec fn on_rotate_room_key(
        self,
        e: EnvelopeView,
        rotator: Seq<char>,
        new_salt: Seq<u8>,
        claimed: Option<Seq<char>>,
    ) -> (Self, Seq<EffectView>) {
        if Self::meant_here(e, claimed) && rotator != self.our_fp() && e.signer == Some(rotator) {
            (
                self,
                seq![
                    EffectView::Emit(
                        EventView::RotationRequested {
                            room_id: e.room_id,
                            rotator_fingerprint: rotator,
                            new_salt,
                        },
                    ),
                ],
            )
        } else {
            (self, seq![])
        }
    }

    /// The state without this member of a room.
    pub open spec fn without_member(self, room_id: Seq<char>, fingerprint: Seq<char>) -> Self {
        if self.rooms.dom().contains(room_id) {
            let room = self.rooms[room_id];
            self.with_room(
                room_id,
                RoomView { members: room.members.remove(fingerprint), ..room },
            )
        } else {
            self
        }
    }

    pub open spec fn on_member_leave(
        self,
        e: EnvelopeView,
        sender: Seq<char>,
        claimed: Option<Seq<char>>,
    ) -> (Self, Seq<EffectView>) {
        if Self::meant_here(e, claimed) && sender != self.our_fp() && e.signer == Some(sender)
            && self.rooms.dom().contains(e.room_id) && self.rooms[e.room_id].members.contains(
            sender,
        ) {
            (
                self.without_member(e.room_id, sender),
                seq![
                    EffectView::Emit(
                        EventView::MemberLeft { room_id: e.room_id, fingerprint: sender },
                    ),
                ],
            )
        } else {
            (self, seq![])
        }
    }

    /// The message is about the room in which it came, and an owner signed it.
    pub open spec fn ordered(f: FactsView, e: EnvelopeView, claimed: Seq<char>) -> bool {
        claimed == e.room_id && e.signer is Some && f.is_owner(e.signer->0)
    }

    pub open spec fn on_owner_grant(
        self,
        f: FactsView,
        e: EnvelopeView,
        claimed: Seq<char>,
        target: Seq<char>,
    ) -> (Self, Seq<EffectView>) {
        if Self::ordered(f, e, claimed) {
            (
                self,
                seq![
                    EffectView::Store(
                        WriteView::MemberRole {
                            room_id: e.room_id,
                            fingerprint: target,
                            role: "owner"@,
                        },
                    ),
                ],
            )
        } else {
            (self, seq![])
        }
    }

    /// An owner bans somebody. If it is us, we leave the room.
    pub open spec fn on_ban_member(
        self,
        f: FactsView,
        e: EnvelopeView,
        claimed: Seq<char>,
        target: Seq<char>,
    ) -> (Self, Seq<EffectView>) {
        if !Self::ordered(f, e, claimed) {
            (self, seq![])
        } else if target == self.our_fp() {
            (
                self.without_room(e.room_id),
                seq![EffectView::Emit(EventView::RoomLeft { room_id: e.room_id })],
            )
        } else {
            (
                self.without_member(e.room_id, target),
                seq![
                    EffectView::Store(
                        WriteView::Ban {
                            room_id: e.room_id,
                            fingerprint: target,
                            banned_by: e.signer->0,
                            banned_at: e.now,
                        },
                    ),
                    EffectView::Store(
                        WriteView::RevokeOwner { room_id: e.room_id, fingerprint: target },
                    ),
                    EffectView::Emit(
                        EventView::MemberLeft { room_id: e.room_id, fingerprint: target },
                    ),
                ],
            )
        }
    }

    pub open spec fn on_join_refused(
        self,
        f: FactsView,
        e: EnvelopeView,
        claimed: Seq<char>,
        target: Seq<char>,
        reason: Seq<char>,
    ) -> (Self, Seq<EffectView>) {
        if claimed == e.room_id && target == self.our_fp() && e.signer is Some && (f.owners.len()
            == 0 || f.owners.contains(e.signer->0)) {
            (
                self,
                seq![
                    EffectView::Emit(EventView::Error { description: "join refused: "@ + reason }),
                ],
            )
        } else {
            (self, seq![])
        }
    }

    pub open spec fn on_profile_update(
        self,
        e: EnvelopeView,
        sender: Seq<char>,
        username: Option<Seq<char>>,
        updated_at: i64,
    ) -> (Self, Seq<EffectView>) {
        if e.signer == Some(sender) {
            (
                self,
                seq![
                    EffectView::StoreThen(
                        WriteView::PeerProfile { fingerprint: sender, username, updated_at },
                        EventView::PeerProfileUpdated { fingerprint: sender, username },
                    ),
                ],
            )
        } else {
            (self, seq![])
        }
    }

    /// Somebody asks to be our contact. A contact who asks gets the chat at once.
    pub open spec fn on_contact_request(
        self,
        f: FactsView,
        e: EnvelopeView,
        requester: Seq<char>,
        display_name: Option<Seq<char>>,
        note: Option<Seq<char>>,
    ) -> (Self, Seq<EffectView>) {
        if e.room_id != f.inbox_room_id || e.signer != Some(requester) || requester == self.our_fp()
            || f.subject_blocked {
            (self, seq![])
        } else if f.subject_is_contact {
            (
                self,
                seq![
                    EffectView::Store(WriteView::DeletePendingContact { fingerprint: requester }),
                    EffectView::StartDirect { partner_fingerprint: requester },
                ],
            )
        } else {
            (
                self,
                seq![
                    EffectView::MustStore(
                        WriteView::PendingContact(
                            PendingContactView {
                                fingerprint: requester,
                                display_name,
                                note,
                                received_at: e.now,
                            },
                        ),
                    ),
                    EffectView::Store(
                        WriteView::Journal {
                            kind: "contact_request"@,
                            detail: "from="@ + requester,
                            at: e.now,
                        },
                    ),
                    EffectView::Emit(
                        EventView::ContactRequestReceived {
                            fingerprint: requester,
                            display_name,
                            note,
                        },
                    ),
                ],
            )
        }
    }

    /// For how long messages stay, as a room setting says: zero is for ever.
    pub open spec fn ttl_of(secs: u64) -> Option<u32> {
        if secs == 0 {
            None
        } else if secs > u32::MAX {
            Some(u32::MAX)
        } else {
            Some(secs as u32)
        }
    }

    /// The creator of the room or an owner, not banned, says for how long messages stay.
    pub open spec fn on_room_setting(
        self,
        f: FactsView,
        e: EnvelopeView,
        sender: Seq<char>,
        ttl_secs: u64,
        claimed: Option<Seq<char>>,
    ) -> (Self, Seq<EffectView>) {
        let is_creator = match f.room {
            Some(room) => room.creator_fingerprint == sender,
            None => false,
        };
        if Self::meant_here(e, claimed) && self.vouched(f, e, sender) && (is_creator || f.is_owner(
            sender,
        )) {
            (
                self,
                seq![
                    EffectView::StoreThen(
                        WriteView::RoomTtl { room_id: e.room_id, ttl_secs: Self::ttl_of(ttl_secs) },
                        EventView::RoomTtlChanged {
                            room_id: e.room_id,
                            ttl_secs: Self::ttl_of(ttl_secs),
                        },
                    ),
                ],
            )
        } else {
            (self, seq![])
        }
    }
}

/// The keys that an announcement and the disk hold of a partner.
pub open spec fn partner_keys(f: FactsView, m: AnnounceView) -> PartnerKeysView {
    PartnerKeysView {
        ed25519: m.ed25519,
        mlkem: m.mlkem,
        ciphertext: m.ciphertext,
        pinned_mlkem: f.subject_mlkem_pubkey,
        verified_pq_capable: f.subject_pq_verified,
    }
}

// ---------------------------------------------------------------------------------------------
// The functions
// ---------------------------------------------------------------------------------------------

pub(crate) fn borrowed(o: &Option<String>) -> (r: Option<&str>)
    ensures
        text::opt_str(r) == text::opt(*o),
{
    match o {
        Some(s) => Some(s.as_str()),
        None => None,
    }
}

/// The first of the owners in the order of their fingerprints is this one.
fn first_owner(owners: &Vec<String>, fingerprint: &str) -> (r: bool)
    ensures
        r == is_first_owner(text::texts(owners@), fingerprint@),
{
    if !text::texts_contain(owners, fingerprint) {
        return false;
    }
    let mut i: usize = 0;
    while i < owners.len()
        invariant
            i <= owners@.len(),
            forall|j: int|
                0 <= j < i ==> !text::text_lt(#[trigger] text::texts(owners@)[j], fingerprint@),
        decreases owners@.len() - i,
    {
        if text::less(owners[i].as_str(), fingerprint) {
            assert(text::text_lt(text::texts(owners@)[i as int], fingerprint@));
            return false;
        }
        i = i + 1;
    }
    true
}

pub(crate) fn rotation_effect(c: &RoomCrypto) -> (r: Effect)
    ensures
        r@ == rotation_state(c@),
{
    Effect::Store(
        Write::RotationState {
            room_id: text::owned(c.room_id()),
            fingerprint: text::owned(c.our_fingerprint()),
            messages_since_rotation: c.messages_since_rotation(),
            last_rotation_at: c.last_rotation_at(),
        },
    )
}

fn push_member_stored(out: &mut Vec<Effect>, room_id: &str, m: &Announce, newly: bool, now: i64)
    ensures
        effects::effects(final(out)@) == effects::effects(old(out)@) + member_stored(
            room_id@,
            m@,
            newly,
            now,
        ),
{
    let ghost before = effects::effects(out@);
    if newly {
        out.push(
            Effect::Emit(
                AppEvent::MemberJoined {
                    room_id: text::owned(room_id),
                    fingerprint: m.sender.clone(),
                },
            ),
        );
    }
    out.push(
        Effect::Store(
            Write::Member(
                StoredRoomMember {
                    room_id: text::owned(room_id),
                    peer_id: text::owned(""),
                    fingerprint: m.sender.clone(),
                    last_seen: Some(now),
                    verified: false,
                    ed25519_pubkey: text::opt_copy(&m.ed25519),
                    role: text::owned("member"),
                    mlkem_pubkey: text::opt_copy(&m.mlkem),
                },
            ),
        ),
    );
    match &m.display_name {
        Some(name) => {
            out.push(
                Effect::Store(
                    Write::MemberDisplayName {
                        room_id: text::owned(room_id),
                        fingerprint: m.sender.clone(),
                        name: name.clone(),
                    },
                ),
            );
        },
        None => {},
    }
    assert(effects::effects(out@) =~= before + member_stored(room_id@, m@, newly, now));
}

impl ActiveRoom {
    /// Unwraps the session key of a member and takes it in.
    fn take_session_key(&mut self, sender: &str, wrapped: &Option<String>, now: i64)
        requires
            old(self)@.wf(),
        ensures
            final(self)@.wf(),
            final(self)@ == session_taken(old(self)@, sender@, text::opt(*wrapped), now),
    {
        let ghost before = self@;
        let wrapped: &String = match wrapped {
            None => {
                return ;
            },
            Some(w) => w,
        };
        if !self.info.encrypted {
            return ;
        }
        let plain: Vec<u8> = match &self.passphrase_key {
            None => {
                return ;
            },
            Some(key) => match passphrase::unwrap(wrapped.as_str(), key) {
                Err(_) => {
                    return ;
                },
                Ok(plain) => plain,
            },
        };
        let key_b64: String = match text::text_of_utf8(plain.as_slice()) {
            None => {
                return ;
            },
            Some(s) => s,
        };
        let mut crypto: Option<RoomCrypto> = None;
        std::mem::swap(&mut crypto, &mut self.crypto);
        match crypto {
            None => {
                assert(self@ =~= before);
            },
            Some(mut c) => {
                let taken = c.add_inbound_session_at(sender, key_b64.as_str(), now);
                self.crypto = Some(c);
                assert(self@ =~= session_taken(before, sender@, Some(wrapped@), now));
            },
        }
    }
}

impl AppHandle {
    pub(crate) fn take_member_announce(&mut self, f: &RoomFacts, e: &Envelope, m: Announce) -> (r:
        Vec<Effect>)
        requires
            old(self)@.wf(),
        ensures
            final(self)@.wf(),
            old(self)@.on_member_announce(f@, e@, m@, final(self)@, effects::effects(r@)),
    {
        if !text::same(m.sender.as_str(), self.identity.fingerprint()) && e.signed_by(
            m.sender.as_str(),
        ) {
            self.record_peer_capabilities(m.sender.as_str(), m.capabilities);
        }
        self.take_announce(f, e, m)
    }

    fn take_announce(&mut self, f: &RoomFacts, e: &Envelope, m: Announce) -> (r: Vec<Effect>)
        requires
            old(self)@.wf(),
        ensures
            final(self)@.wf(),
            old(self)@.announce_taken(f@, e@, m@, final(self)@, effects::effects(r@)),
    {
        let ghost before = self@;
        let mut out: Vec<Effect> = Vec::new();
        assert(effects::effects(out@) =~= Seq::<EffectView>::empty());
        if text::same(m.sender.as_str(), self.identity.fingerprint()) || !e.signed_by(
            m.sender.as_str(),
        ) || f.is_banned(m.sender.as_str()) {
            return out;
        }
        if f.verified_only && !f.subject_verified {
            if first_owner(&f.owners, self.identity.fingerprint()) {
                out.push(
                    Effect::PublishSigned {
                        room_id: e.room_id.clone(),
                        message: RoomMessage::JoinRefused {
                            room_id: e.room_id.clone(),
                            target_fingerprint: m.sender.clone(),
                            reason: text::owned(
                                "room requires SAS verification — ask an existing member to verify you",
                            ),
                        },
                    },
                );
                assert(effects::effects(out@) =~= seq![out@[0]@]);
            }
            return out;
        }
        let mut room: ActiveRoom = match self.take_room(e.room_id.as_str()) {
            None => {
                return out;
            },
            Some(room) => room,
        };
        let ghost room0 = room@;
        let direct: bool = room.info.kind == RoomKind::Direct;
        let member: bool = room.members.contains(m.sender.as_str());
        if direct && !member && room.members.len() >= 2 {
            self.put_room(e.room_id.as_str(), room);
            proof {
                super::lemma_put_back(before, e.room_id@, room@);
            }
            return out;
        }
        room.members.insert(m.sender.clone());
        let ghost joined = room@;
        assert(joined =~= RoomView { members: room0.members.insert(m.sender@), ..room0 });
        push_member_stored(&mut out, e.room_id.as_str(), &m, !member, e.now);
        let ghost stored = effects::effects(out@);
        assert(stored =~= member_stored(
            e.room_id@,
            m@,
            !room0.members.contains(m.sender@),
            e.now,
        ));
        if !direct {
            room.take_session_key(m.sender.as_str(), &m.wrapped_session_key, e.now);
            proof {
                super::lemma_put_back(before, e.room_id@, room@);
            }
            self.put_room(e.room_id.as_str(), room);
            return out;
        }
        let keys = PartnerKeys {
            ed25519: borrowed(&m.ed25519),
            mlkem: borrowed(&m.mlkem),
            ciphertext: borrowed(&m.ciphertext),
            pinned_mlkem: borrowed(&f.subject_mlkem_pubkey),
            verified_pq_capable: f.subject_pq_verified,
        };
        let upgrade: bool = room.passphrase_key.is_some();
        let outcome: DmKeyOutcome = room.ensure_dm_key(
            &self.identity,
            e.room_id.as_str(),
            m.sender.as_str(),
            &keys,
            e.now,
        );
        let ghost keyed = room@;
        proof {
            assert(keys@ == partner_keys(f@, m@));
            let step = dm_key::dm_step(joined, before.identity, e.room_id@, m.sender@, keys@);
            assert(dm_key::dm_applied(joined, step.1, e@.now, keyed));
            assert(keyed.info == joined.info && keyed.members == joined.members) by {
                lemma_applied_keeps(joined, step.1, e.now, keyed);
            }
        }
        if outcome == DmKeyOutcome::ReBroadcast {
            if upgrade {
                match &room.crypto {
                    Some(c) => {
                        out.push(rotation_effect(c));
                    },
                    None => {},
                }
            }
            out.push(Effect::AnnounceMember { room_id: e.room_id.clone(), delay_ms: 0 });
        }
        room.take_session_key(m.sender.as_str(), &m.wrapped_session_key, e.now);
        let ghost after_room = room@;
        proof {
            super::lemma_put_back(before, e.room_id@, room@);
        }
        self.put_room(e.room_id.as_str(), room);
        let ghost there = self@;
        if outcome == DmKeyOutcome::RequestCiphertext {
            let mut more: Vec<Effect> = self.want_keys(e.room_id.as_str(), e.now);
            let ghost said = effects::effects(more@);
            out.append(&mut more);
            assert(effects::effects(out@) =~= stored + said);
        } else if outcome == DmKeyOutcome::ReBroadcast {
            assert(effects::effects(out@) =~= stored + (if joined.key is Some && keyed.crypto is Some {
                seq![rotation_state(keyed.crypto->0)]
            } else {
                Seq::empty()
            }) + seq![EffectView::AnnounceMember { room_id: e.room_id@, delay_ms: 0 }]);
        }
        proof {
            let step = dm_key::dm_step(joined, before.identity, e.room_id@, m.sender@, keys@);
            assert(dm_key::dm_applied(joined, step.1, e@.now, keyed));
            assert(there == before.with_room(
                e.room_id@,
                session_taken(keyed, m.sender@, text::opt(m.wrapped_session_key), e.now),
            ));
        }
        out
    }

    pub(crate) fn take_session_key_request(&mut self, e: &Envelope, requester: String) -> (r: Vec<
        Effect,
    >)
        requires
            old(self)@.wf(),
        ensures
            final(self)@.wf(),
            (final(self)@, effects::effects(r@)) == old(self)@.on_session_key_request(
                e@,
                requester@,
            ),
    {
        let ghost before = self@;
        let mut out: Vec<Effect> = Vec::new();
        assert(effects::effects(out@) =~= seq![]);
        let last: i64 = match self.announce_on_request_cooldown.get(e.room_id.as_str()) {
            Some(t) => *t,
            None => 0,
        };
        if text::same(requester.as_str(), self.identity.fingerprint()) || (e.now as i128
            - last as i128) < ANNOUNCE_ON_REQUEST_COOLDOWN_SECS as i128 {
            return out;
        }
        self.announce_on_request_cooldown.insert(e.room_id.clone(), e.now);
        out.push(Effect::AnnounceMember { room_id: e.room_id.clone(), delay_ms: 0 });
        proof {
            assert(effects::effects(out@) =~= seq![out@[0]@]);
            assert(self@ =~= AppView { answers: before.answers.insert(e.room_id@, e.now), ..before });
        }
        out
    }

    fn is_meant_here(e: &Envelope, claimed: &Option<String>) -> (r: bool)
        ensures
            r == AppView::meant_here(e@, text::opt(*claimed)),
    {
        match claimed {
            None => true,
            Some(c) => text::same(c.as_str(), e.room_id.as_str()),
        }
    }

    pub(crate) fn take_rotate_room_key(
        &self,
        e: &Envelope,
        rotator: String,
        new_salt: Vec<u8>,
        claimed: Option<String>,
    ) -> (r: Vec<Effect>)
        ensures
            (self@, effects::effects(r@)) == self@.on_rotate_room_key(
                e@,
                rotator@,
                new_salt@,
                text::opt(claimed),
            ),
    {
        let mut out: Vec<Effect> = Vec::new();
        assert(effects::effects(out@) =~= seq![]);
        if Self::is_meant_here(e, &claimed) && !text::same(
            rotator.as_str(),
            self.identity.fingerprint(),
        ) && e.signed_by(rotator.as_str()) {
            out.push(
                Effect::Emit(
                    AppEvent::RotationRequested {
                        room_id: e.room_id.clone(),
                        rotator_fingerprint: rotator,
                        new_salt,
                    },
                ),
            );
            assert(effects::effects(out@) =~= seq![out@[0]@]);
        }
        out
    }

    /// Takes a member out of a room, if we are in it, and says whether they were there.
    pub(crate) fn drop_member(&mut self, room_id: &str, fingerprint: &str) -> (r: bool)
        requires
            old(self)@.wf(),
        ensures
            final(self)@.wf(),
            final(self)@ == old(self)@.without_member(room_id@, fingerprint@),
            r == (old(self)@.rooms.dom().contains(room_id@)
                && old(self)@.rooms[room_id@].members.contains(fingerprint@)),
    {
        let ghost before = self@;
        match self.take_room(room_id) {
            None => false,
            Some(mut room) => {
                let ghost room0 = room@;
                let gone: bool = room.members.remove(fingerprint);
                proof {
                    assert(room@ =~= RoomView {
                        members: room0.members.remove(fingerprint@),
                        ..room0
                    });
                    super::lemma_put_back(before, room_id@, room@);
                }
                self.put_room(room_id, room);
                gone
            },
        }
    }

    pub(crate) fn take_member_leave(
        &mut self,
        e: &Envelope,
        sender: String,
        claimed: Option<String>,
    ) -> (r: Vec<Effect>)
        requires
            old(self)@.wf(),
        ensures
            final(self)@.wf(),
            (final(self)@, effects::effects(r@)) == old(self)@.on_member_leave(
                e@,
                sender@,
                text::opt(claimed),
            ),
    {
        let ghost before = self@;
        let mut out: Vec<Effect> = Vec::new();
        assert(effects::effects(out@) =~= seq![]);
        if !Self::is_meant_here(e, &claimed) || text::same(
            sender.as_str(),
            self.identity.fingerprint(),
        ) || !e.signed_by(sender.as_str()) {
            return out;
        }
        if self.drop_member(e.room_id.as_str(), sender.as_str()) {
            out.push(
                Effect::Emit(
                    AppEvent::MemberLeft { room_id: e.room_id.clone(), fingerprint: sender },
                ),
            );
            assert(effects::effects(out@) =~= seq![out@[0]@]);
        } else {
            proof {
                if before.rooms.dom().contains(e.room_id@) {
                    let room = before.rooms[e.room_id@];
                    assert(room.members.remove(sender@) =~= room.members);
                    assert(before.rooms.insert(e.room_id@, room) =~= before.rooms);
                    assert(before.without_member(e.room_id@, sender@) =~= before);
                }
            }
        }
        out
    }

    fn is_ordered(f: &RoomFacts, e: &Envelope, claimed: &str) -> (r: bool)
        ensures
            r == AppView::ordered(f@, e@, claimed@),
    {
        match &e.signer {
            None => false,
            Some(s) => text::same(claimed, e.room_id.as_str()) && f.is_owner(s.as_str()),
        }
    }

    pub(crate) fn take_owner_grant(
        &self,
        f: &RoomFacts,
        e: &Envelope,
        claimed: String,
        target: String,
    ) -> (r: Vec<Effect>)
        ensures
            (self@, effects::effects(r@)) == self@.on_owner_grant(f@, e@, claimed@, target@),
    {
        let mut out: Vec<Effect> = Vec::new();
        assert(effects::effects(out@) =~= seq![]);
        if Self::is_ordered(f, e, claimed.as_str()) {
            out.push(
                Effect::Store(
                    Write::MemberRole {
                        room_id: e.room_id.clone(),
                        fingerprint: target,
                        role: text::owned("owner"),
                    },
                ),
            );
            assert(effects::effects(out@) =~= seq![out@[0]@]);
        }
        out
    }

    pub(crate) fn take_ban_member(
        &mut self,
        f: &RoomFacts,
        e: &Envelope,
        claimed: String,
        target: String,
    ) -> (r: Vec<Effect>)
        requires
            old(self)@.wf(),
        ensures
            final(self)@.wf(),
            (final(self)@, effects::effects(r@)) == old(self)@.on_ban_member(
                f@,
                e@,
                claimed@,
                target@,
            ),
    {
        let ghost before = self@;
        let mut out: Vec<Effect> = Vec::new();
        assert(effects::effects(out@) =~= seq![]);
        if !Self::is_ordered(f, e, claimed.as_str()) {
            return out;
        }
        if text::same(target.as_str(), self.identity.fingerprint()) {
            self.drop_room(e.room_id.as_str());
            out.push(Effect::Emit(AppEvent::RoomLeft { room_id: e.room_id.clone() }));
            assert(effects::effects(out@) =~= seq![out@[0]@]);
            return out;
        }
        let signer: String = match &e.signer {
            Some(s) => s.clone(),
            None => {
                return out;
            },
        };
        out.push(
            Effect::Store(
                Write::Ban {
                    room_id: e.room_id.clone(),
                    fingerprint: target.clone(),
                    banned_by: signer,
                    banned_at: e.now,
                },
            ),
        );
        out.push(
            Effect::Store(
                Write::RevokeOwner { room_id: e.room_id.clone(), fingerprint: target.clone() },
            ),
        );
        self.drop_member(e.room_id.as_str(), target.as_str());
        out.push(
            Effect::Emit(AppEvent::MemberLeft { room_id: e.room_id.clone(), fingerprint: target }),
        );
        assert(effects::effects(out@) =~= seq![out@[0]@, out@[1]@, out@[2]@]);
        out
    }

    pub(crate) fn take_join_refused(
        &self,
        f: &RoomFacts,
        e: &Envelope,
        claimed: String,
        target: String,
        reason: String,
    ) -> (r: Vec<Effect>)
        ensures
            (self@, effects::effects(r@)) == self@.on_join_refused(
                f@,
                e@,
                claimed@,
                target@,
                reason@,
            ),
    {
        let mut out: Vec<Effect> = Vec::new();
        assert(effects::effects(out@) =~= seq![]);
        let signer: &String = match &e.signer {
            None => {
                return out;
            },
            Some(s) => s,
        };
        if text::same(claimed.as_str(), e.room_id.as_str()) && text::same(
            target.as_str(),
            self.identity.fingerprint(),
        ) && (f.owners.len() == 0 || text::texts_contain(&f.owners, signer.as_str())) {
            out.push(
                Effect::Emit(
                    AppEvent::Error { description: text::join2("join refused: ", reason.as_str()) },
                ),
            );
            assert(effects::effects(out@) =~= seq![out@[0]@]);
        }
        out
    }

    pub(crate) fn take_profile_update(
        &self,
        e: &Envelope,
        sender: String,
        username: Option<String>,
        updated_at: i64,
    ) -> (r: Vec<Effect>)
        ensures
            (self@, effects::effects(r@)) == self@.on_profile_update(
                e@,
                sender@,
                text::opt(username),
                updated_at,
            ),
    {
        let mut out: Vec<Effect> = Vec::new();
        assert(effects::effects(out@) =~= seq![]);
        if e.signed_by(sender.as_str()) {
            out.push(
                Effect::StoreThen(
                    Write::PeerProfile {
                        fingerprint: sender.clone(),
                        username: text::opt_copy(&username),
                        updated_at,
                    },
                    AppEvent::PeerProfileUpdated { fingerprint: sender, username },
                ),
            );
            assert(effects::effects(out@) =~= seq![out@[0]@]);
        }
        out
    }

    pub(crate) fn take_contact_request(
        &self,
        f: &RoomFacts,
        e: &Envelope,
        requester: String,
        display_name: Option<String>,
        note: Option<String>,
    ) -> (r: Vec<Effect>)
        ensures
            (self@, effects::effects(r@)) == self@.on_contact_request(
                f@,
                e@,
                requester@,
                text::opt(display_name),
                text::opt(note),
            ),
    {
        let mut out: Vec<Effect> = Vec::new();
        assert(effects::effects(out@) =~= seq![]);
        if !text::same(e.room_id.as_str(), f.inbox_room_id.as_str()) || !e.signed_by(
            requester.as_str(),
        ) || text::same(requester.as_str(), self.identity.fingerprint()) || f.subject_blocked {
            return out;
        }
        if f.subject_is_contact {
            out.push(
                Effect::Store(Write::DeletePendingContact { fingerprint: requester.clone() }),
            );
            out.push(Effect::StartDirect { partner_fingerprint: requester });
            assert(effects::effects(out@) =~= seq![out@[0]@, out@[1]@]);
            return out;
        }
        out.push(
            Effect::MustStore(
                Write::PendingContact(
                    PendingContactRequest {
                        fingerprint: requester.clone(),
                        display_name: text::opt_copy(&display_name),
                        note: text::opt_copy(&note),
                        received_at: e.now,
                    },
                ),
            ),
        );
        out.push(
            Effect::Store(
                Write::Journal {
                    kind: text::owned("contact_request"),
                    detail: text::join2("from=", requester.as_str()),
                    at: e.now,
                },
            ),
        );
        out.push(
            Effect::Emit(
                AppEvent::ContactRequestReceived { fingerprint: requester, display_name, note },
            ),
        );
        assert(effects::effects(out@) =~= seq![out@[0]@, out@[1]@, out@[2]@]);
        out
    }

    pub(crate) fn take_room_setting(
        &self,
        f: &RoomFacts,
        e: &Envelope,
        sender: String,
        ttl_secs: u64,
        claimed: Option<String>,
    ) -> (r: Vec<Effect>)
        ensures
            (self@, effects::effects(r@)) == self@.on_room_setting(
                f@,
                e@,
                sender@,
                ttl_secs,
                text::opt(claimed),
            ),
    {
        let mut out: Vec<Effect> = Vec::new();
        assert(effects::effects(out@) =~= seq![]);
        let is_creator: bool = match &f.room {
            Some(room) => text::same(room.creator_fingerprint.as_str(), sender.as_str()),
            None => false,
        };
        if !Self::is_meant_here(e, &claimed) || text::same(
            sender.as_str(),
            self.identity.fingerprint(),
        ) || !e.signed_by(sender.as_str()) || f.is_banned(sender.as_str()) || !(is_creator
            || f.is_owner(sender.as_str())) {
            return out;
        }
        let ttl: Option<u32> = if ttl_secs == 0 {
            None
        } else if ttl_secs > u32::MAX as u64 {
            Some(u32::MAX)
        } else {
            Some(ttl_secs as u32)
        };
        out.push(
            Effect::StoreThen(
                Write::RoomTtl { room_id: e.room_id.clone(), ttl_secs: ttl },
                AppEvent::RoomTtlChanged { room_id: e.room_id.clone(), ttl_secs: ttl },
            ),
        );
        assert(effects::effects(out@) =~= seq![out@[0]@]);
        out
    }
}

/// A new key leaves the members and the rest of a room as they are.
proof fn lemma_applied_keeps(
    before: RoomView,
    d: Option<dm_key::DmKeyView>,
    now: i64,
    after: RoomView,
)
    requires
        dm_key::dm_applied(before, d, now, after),
    ensures
        after.info == before.info,
        after.members == before.members,
{
    match d {
        None => {},
        Some(d) => {
            if before.key is Some {
                let pickle = choose|pickle: Seq<char>|
                    after == before.keyed(
                        d,
                        #[trigger] dm_key::crypto_rotated(before.crypto, pickle, now),
                    );
                assert(after == before.keyed(
                    d,
                    dm_key::crypto_rotated(before.crypto, pickle, now),
                ));
            }
        },
    }
}

/// An announcement adds at most whom it is about to the members of the room, and that only where it is
/// admitted.
pub proof fn lemma_announce_members(
    app: AppView,
    f: FactsView,
    e: EnvelopeView,
    m: AnnounceView,
    after: AppView,
    eff: Seq<EffectView>,
)
    requires
        app.announce_taken(f, e, m, after, eff),
        app.rooms.dom().contains(e.room_id),
    ensures
        after.rooms.dom().contains(e.room_id),
        after.rooms[e.room_id].members == (if !app.announce_refused(f, e, m.sender)
            && app.announce_admitted(f, e, m.sender) {
            app.rooms[e.room_id].members.insert(m.sender)
        } else {
            app.rooms[e.room_id].members
        }),
{
    if !app.announce_refused(f, e, m.sender) && app.announce_admitted(f, e, m.sender) {
        let room = app.rooms[e.room_id];
        let joined = RoomView { members: room.members.insert(m.sender), ..room };
        if room.info.kind == RoomKind::Direct {
            let step = dm_key::dm_step(
                joined,
                app.identity,
                e.room_id,
                m.sender,
                partner_keys(f, m),
            );
            let keyed = choose|keyed: RoomView| #[trigger]
                dm_key::dm_applied(joined, step.1, e.now, keyed) && ({
                    let there = app.with_room(
                        e.room_id,
                        session_taken(keyed, m.sender, m.wrapped_session_key, e.now),
                    );
                    match step.0 {
                        DmKeyOutcome::RequestCiphertext => after == there.keys_wanted(
                            e.room_id,
                            e.now,
                        ).0,
                        _ => after == there,
                    }
                });
            lemma_applied_keeps(joined, step.1, e.now, keyed);
        }
    }
}

} // verus!
