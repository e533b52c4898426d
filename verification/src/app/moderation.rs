//! Owners and bans, the verification of partners, and our name.
use crate::app::chat;
use crate::app::dm_key;
use crate::app::effects::{self, Effect, EffectView, Write, WriteView};
use crate::app::events::{AppEvent, EventView};
use crate::app::facts::{Envelope, EnvelopeView, FactsView, RoomFacts};
use crate::app::ids;
use crate::app::membership;
use crate::app::messages::{MessageView, RoomMessage};
use crate::app::records::{MemberView, StoredRoomMember};
use crate::app::sas_actor::{self, OutcomeView, SasError, SasOutcome, SasView};
use crate::app::{AppHandle, AppView};
use crate::bytes;
use crate::crypto::pqc::MLKEM_EK_LEN;
use crate::crypto::{primitives, sas};
use crate::error::{ErrorView, HuddleError};
use crate::text;
use vstd::prelude::*;

verus! {

// ---------------------------------------------------------------------------------------------
// Owners and bans
// ---------------------------------------------------------------------------------------------

/// What the ban of a member causes before the room is rotated.
pub open spec fn ban_effects(
    our_fp: Seq<char>,
    room_id: Seq<char>,
    target: Seq<char>,
    now: i64,
) -> Seq<EffectView> {
    seq![
        EffectView::PublishBan {
            room_id,
            fingerprint: target,
            banned_by: our_fp,
            banned_at: now,
        },
        EffectView::Emit(EventView::MemberLeft { room_id, fingerprint: target }),
    ]
}

/// What blocking a peer causes.
pub open spec fn block_effects(fingerprint: Seq<char>, now: i64) -> Seq<EffectView> {
    seq![EffectView::MustStore(WriteView::Block { fingerprint, blocked_at: now })]
}

/// What it causes that the user says whether a member is verified.
pub open spec fn marked_effects(
    members: Seq<Seq<char>>,
    room_id: Seq<char>,
    fingerprint: Seq<char>,
    verified: bool,
    now: i64,
) -> Seq<EffectView> {
    (if members.contains(fingerprint) {
        Seq::empty()
    } else {
        seq![
            EffectView::MustStore(
                WriteView::Member(
                    MemberView {
                        room_id,
                        peer_id: ""@,
                        fingerprint,
                        last_seen: Some(now),
                        verified,
                        ed25519_pubkey: None,
                        role: "member"@,
                        mlkem_pubkey: None,
                    },
                ),
            ),
        ]
    }) + seq![EffectView::MustStore(WriteView::MemberVerified { room_id, fingerprint, verified })]
}

impl AppView {
    /// We make a member an owner, or why we cannot.
    pub open spec fn owner_granted(
        self,
        f: FactsView,
        room_id: Seq<char>,
        target: Seq<char>,
    ) -> Result<Seq<EffectView>, ErrorView> {
        if !f.is_owner(self.our_fp()) {
            Err(ErrorView::Other("only an owner can grant owner"@))
        } else {
            Ok(
                seq![
                    EffectView::PublishSigned {
                        room_id,
                        message: MessageView::OwnerGrant { room_id, target_fingerprint: target },
                    },
                    EffectView::MustStore(
                        WriteView::MemberRole { room_id, fingerprint: target, role: "owner"@ },
                    ),
                ],
            )
        }
    }

    /// We take a name, and tell every room that we are in.
    pub open spec fn renamed(self, name: Option<Seq<char>>, now_ms: i64, eff: Seq<EffectView>) -> bool {
        exists|order: Seq<Seq<char>>| #[trigger]
            room_order(self, order) && eff == seq![
                EffectView::MustStore(WriteView::DisplayName { name }),
            ] + profile_effects(self.our_fp(), name, now_ms, order)
    }
}

/// A passphrase and effects, or an error, by their views.
pub open spec fn kick_view(r: Result<(String, Vec<Effect>), HuddleError>) -> Result<
    (Seq<char>, Seq<EffectView>),
    ErrorView,
> {
    match r {
        Ok(k) => Ok((k.0@, effects::effects(k.1@))),
        Err(e) => Err(e@),
    }
}

/// A room moves to a passphrase and a salt that are drawn at random.
pub open spec fn moved_away(
    before: AppView,
    room_id: Seq<char>,
    passphrase: Seq<char>,
    salt: Seq<u8>,
    after: AppView,
    eff: Seq<EffectView>,
) -> bool {
    &&& exists|b: Seq<u8>| b.len() == ids::JOIN_PASSPHRASE_BYTES && passphrase
        == #[trigger] primitives::base64_url_text(b)
    &&& salt.len() == crate::crypto::passphrase::SALT_LEN
    &&& chat::room_rotated(before, room_id, passphrase, salt, after, Ok(eff))
}

/// We ban a member. Only an owner can, and not themselves. An encrypted room moves to a new passphrase,
/// drawn at random, which whoever is banned does not get.
pub open spec fn member_kicked(
    before: AppView,
    f: FactsView,
    room_id: Seq<char>,
    target: Seq<char>,
    now: i64,
    after: AppView,
    r: Result<(Seq<char>, Seq<EffectView>), ErrorView>,
) -> bool {
    let fault = if !f.is_owner(before.our_fp()) {
        Some("only an owner can kick"@)
    } else if target == before.our_fp() {
        Some("can't kick yourself"@)
    } else if !before.rooms.dom().contains(room_id) {
        Some("not in room "@ + room_id)
    } else {
        None
    };
    let banned = ban_effects(before.our_fp(), room_id, target, now);
    match fault {
        Some(words) => after == before && r == Err::<(Seq<char>, Seq<EffectView>), ErrorView>(
            ErrorView::Other(words),
        ),
        None => if !before.rooms[room_id].info.encrypted {
            after == before.without_member(room_id, target) && r == Ok::<
                (Seq<char>, Seq<EffectView>),
                ErrorView,
            >((""@, banned))
        } else {
            exists|passphrase: Seq<char>, salt: Seq<u8>, more: Seq<EffectView>| #[trigger]
                moved_away(
                    before.without_member(room_id, target),
                    room_id,
                    passphrase,
                    salt,
                    after,
                    more,
                ) && r == Ok::<(Seq<char>, Seq<EffectView>), ErrorView>((passphrase, banned + more))
        },
    }
}

impl AppHandle {
    /// We own the room.
    pub fn we_are_owner(&self, f: &RoomFacts) -> (r: bool)
        ensures
            r == f@.is_owner(self@.our_fp()),
    {
        f.is_owner(self.identity.fingerprint())
    }

    /// Nothing is heard of a peer any more.
    pub fn block_peer(fingerprint: &str, now: i64) -> (r: Vec<Effect>)
        ensures
            effects::effects(r@) == block_effects(fingerprint@, now),
    {
        let mut out: Vec<Effect> = Vec::new();
        out.push(
            Effect::MustStore(
                Write::Block { fingerprint: text::owned(fingerprint), blocked_at: now },
            ),
        );
        assert(effects::effects(out@) =~= seq![out@[0]@]);
        out
    }

    /// Makes a member an owner. Only an owner can.
    pub fn grant_owner(&self, f: &RoomFacts, room_id: &str, target_fingerprint: &str) -> (r: Result<
        Vec<Effect>,
        HuddleError,
    >)
        ensures
            chat::outcome(r) == self@.owner_granted(f@, room_id@, target_fingerprint@),
    {
        if !f.is_owner(self.identity.fingerprint()) {
            return Err(crate::error::other_error("only an owner can grant owner"));
        }
        let mut out: Vec<Effect> = Vec::new();
        out.push(
            Effect::PublishSigned {
                room_id: text::owned(room_id),
                message: RoomMessage::OwnerGrant {
                    room_id: text::owned(room_id),
                    target_fingerprint: text::owned(target_fingerprint),
                },
            },
        );
        out.push(
            Effect::MustStore(
                Write::MemberRole {
                    room_id: text::owned(room_id),
                    fingerprint: text::owned(target_fingerprint),
                    role: text::owned("owner"),
                },
            ),
        );
        assert(effects::effects(out@) =~= seq![out@[0]@, out@[1]@]);
        Ok(out)
    }

    /// Bans a member. The new passphrase of an encrypted room comes back, to be told to the members
    /// who stay; a room in the clear has none.
    pub fn kick_member(&mut self, f: &RoomFacts, room_id: &str, target_fingerprint: &str, now: i64) -> (r:
        Result<(String, Vec<Effect>), HuddleError>)
        requires
            old(self)@.wf(),
        ensures
            final(self)@.wf(),
            member_kicked(
                old(self)@,
                f@,
                room_id@,
                target_fingerprint@,
                now,
                final(self)@,
                kick_view(r),
            ),
    {
        let ghost before = self@;
        if !f.is_owner(self.identity.fingerprint()) {
            return Err(crate::error::other_error("only an owner can kick"));
        }
        if text::same(target_fingerprint, self.identity.fingerprint()) {
            return Err(crate::error::other_error("can't kick yourself"));
        }
        let encrypted: bool = match self.active_rooms.get(room_id) {
            None => {
                return Err(HuddleError::Other(text::join2("not in room ", room_id)));
            },
            Some(room) => room.info.encrypted,
        };
        assert(before.rooms.dom().contains(room_id@));
        let mut out: Vec<Effect> = Vec::new();
        out.push(
            Effect::PublishBan {
                room_id: text::owned(room_id),
                fingerprint: text::owned(target_fingerprint),
                banned_by: text::owned(self.identity.fingerprint()),
                banned_at: now,
            },
        );
        out.push(
            Effect::Emit(
                AppEvent::MemberLeft {
                    room_id: text::owned(room_id),
                    fingerprint: text::owned(target_fingerprint),
                },
            ),
        );
        let ghost banned = effects::effects(out@);
        assert(banned =~= ban_effects(before.our_fp(), room_id@, target_fingerprint@, now));
        let there: bool = self.drop_member(room_id, target_fingerprint);
        if !encrypted {
            return Ok((text::owned(""), out));
        }
        let new_passphrase: String = ids::generate_join_passphrase();
        let ghost mid = self@;
        let salt: [u8; 16] = crate::crypto::passphrase::random_salt();
        proof {
            text::lemma_utf8_len(new_passphrase@);
            assert(mid.rooms[room_id@].info == before.rooms[room_id@].info);
        }
        match self.rotate_room_with(room_id, new_passphrase.as_str(), salt) {
            Err(e) => Err(e),
            Ok(mut more) => {
                let ghost said = effects::effects(more@);
                out.append(&mut more);
                proof {
                    assert(effects::effects(out@) =~= banned + said);
                    assert(moved_away(mid, room_id@, new_passphrase@, salt@, self@, said));
                }
                Ok((new_passphrase, out))
            },
        }
    }

    /// The user says that a member is verified, or is not. `members` are those of the room that are on
    /// disk: one who is not among them is stored first.
    pub fn set_member_verified(
        members: &Vec<String>,
        room_id: &str,
        fingerprint: &str,
        verified: bool,
        now: i64,
    ) -> (r: Vec<Effect>)
        ensures
            effects::effects(r@) == marked_effects(
                text::texts(members@),
                room_id@,
                fingerprint@,
                verified,
                now,
            ),
    {
        let mut out: Vec<Effect> = Vec::new();
        let known: bool = text::texts_contain(members, fingerprint);
        if !known {
            out.push(
                Effect::MustStore(
                    Write::Member(
                        StoredRoomMember {
                            room_id: text::owned(room_id),
                            peer_id: text::owned(""),
                            fingerprint: text::owned(fingerprint),
                            last_seen: Some(now),
                            verified,
                            ed25519_pubkey: None,
                            role: text::owned("member"),
                            mlkem_pubkey: None,
                        },
                    ),
                ),
            );
        }
        let ghost first = effects::effects(out@);
        assert(known ==> first =~= Seq::empty());
        assert(!known ==> first =~= seq![out@[0]@]);
        out.push(
            Effect::MustStore(
                Write::MemberVerified {
                    room_id: text::owned(room_id),
                    fingerprint: text::owned(fingerprint),
                    verified,
                },
            ),
        );
        assert(effects::effects(out@) =~= first + seq![out@.last()@]);
        out
    }

    pub(crate) fn our_profile(&self, name: &Option<String>, now_ms: i64) -> (r: RoomMessage)
        ensures
            r@ == profile(self@.our_fp(), text::opt(*name), now_ms),
    {
        RoomMessage::ProfileUpdate {
            sender_fingerprint: text::owned(self.identity.fingerprint()),
            username: text::opt_copy(name),
            updated_at: now_ms,
        }
    }

    /// Tells every room that we are in our name.
    pub fn set_username(&self, name: Option<String>, now_ms: i64) -> (r: Vec<Effect>)
        ensures
            self@.renamed(text::opt(name), now_ms, effects::effects(r@)),
    {
        let mut out: Vec<Effect> = Vec::new();
        out.push(Effect::MustStore(Write::DisplayName { name: text::opt_copy(&name) }));
        let ghost first = effects::effects(out@);
        assert(first =~= seq![out@[0]@]);
        self.push_profile(&mut out, &name, now_ms);
        out
    }

    /// An order of the rooms that we are in.
    pub(crate) fn some_room_order(&self) -> (r: Ghost<Seq<Seq<char>>>)
        ensures
            room_order(self@, r@),
    {
        let n: usize = self.active_rooms.len();
        let ghost order = self.active_rooms.keys();
        proof {
            assert forall|k: Seq<char>| order.to_set().contains(k) == self@.rooms.dom().contains(
                k,
            ) by {
                assert(order.contains(k) == self.active_rooms@.dom().contains(k));
            }
            assert(order.to_set() =~= self@.rooms.dom());
        }
        Ghost(order)
    }

    /// Tells every room that we are in our name.
    pub(crate) fn push_profile(&self, out: &mut Vec<Effect>, name: &Option<String>, now_ms: i64)
        ensures
            exists|order: Seq<Seq<char>>| #[trigger]
                room_order(self@, order) && effects::effects(final(out)@) == effects::effects(
                    old(out)@,
                ) + profile_effects(self@.our_fp(), text::opt(*name), now_ms, order),
    {
        let n: usize = self.active_rooms.len();
        let ghost first = effects::effects(out@);
        let ghost order = self.active_rooms.keys();
        let ghost said = profile_effects(self@.our_fp(), text::opt(*name), now_ms, order);
        let mut i: usize = 0;
        assert(first + said.take(0) =~= first);
        while i < n
            invariant
                i <= n,
                n == order.len(),
                order == self.active_rooms.keys(),
                said == profile_effects(self@.our_fp(), text::opt(*name), now_ms, order),
                effects::effects(out@) == first + said.take(i as int),
            decreases n - i,
        {
            let ghost got = effects::effects(out@);
            out.push(
                Effect::PublishSigned {
                    room_id: text::owned(self.active_rooms.key_at(i)),
                    message: self.our_profile(name, now_ms),
                },
            );
            proof {
                assert(effects::effects(out@) =~= got.push(said[i as int]));
                assert(first + said.take(i + 1) =~= (first + said.take(i as int)).push(
                    said[i as int],
                ));
            }
            i = i + 1;
        }
        proof {
            assert(said.take(n as int) =~= said);
            assert(self@.rooms.dom() =~= self.active_rooms@.dom());
            assert(room_order(self@, order)) by {
                assert forall|k: Seq<char>| order.to_set().contains(k) == self@.rooms.dom().contains(
                    k,
                ) by {
                    assert(order.contains(k) == self.active_rooms@.dom().contains(k));
                }
                assert(order.to_set() =~= self@.rooms.dom());
            }
        }
    }
}

/// The rooms that we are in, each once, in some order.
pub open spec fn room_order(app: AppView, order: Seq<Seq<char>>) -> bool {
    order.no_duplicates() && order.to_set() == app.rooms.dom()
}

/// Our name, as others are told it.
pub open spec fn profile(our_fp: Seq<char>, name: Option<Seq<char>>, now_ms: i64) -> MessageView {
    MessageView::ProfileUpdate { sender_fingerprint: our_fp, username: name, updated_at: now_ms }
}

/// Our name, to each of these rooms.
pub open spec fn profile_effects(
    our_fp: Seq<char>,
    name: Option<Seq<char>>,
    now_ms: i64,
    order: Seq<Seq<char>>,
) -> Seq<EffectView> {
    order.map_values(
        |room_id: Seq<char>|
            EffectView::PublishSigned { room_id, message: profile(our_fp, name, now_ms) },
    )
}

// ---------------------------------------------------------------------------------------------
// Verification
// ---------------------------------------------------------------------------------------------

/// What an outcome of the verification causes. A partner who is verified is remembered as such.
pub open spec fn outcome_effects(o: OutcomeView, now: i64) -> Seq<EffectView> {
    match o {
        OutcomeView::Publish { room_id, msg } => seq![
            EffectView::PublishSigned { room_id, message: msg },
        ],
        OutcomeView::Emit(event) => seq![EffectView::Emit(event)],
        OutcomeView::Finalize { room_id, partner_fingerprint, pq_capable } => seq![
            EffectView::MustStore(
                WriteView::MemberVerified {
                    room_id,
                    fingerprint: partner_fingerprint,
                    verified: true,
                },
            ),
            EffectView::MustStore(
                WriteView::VerifiedPeer {
                    fingerprint: partner_fingerprint,
                    verified_at: now,
                    pq_capable,
                },
            ),
            EffectView::Store(
                WriteView::Journal {
                    kind: "sas_verified"@,
                    detail: "room="@ + room_id + " peer="@ + partner_fingerprint,
                    at: now,
                },
            ),
            EffectView::Emit(EventView::SasVerified { room_id, partner_fingerprint }),
        ],
    }
}

/// What outcomes cause, one after another.
pub open spec fn outcomes_effects(os: Seq<OutcomeView>, now: i64) -> Seq<EffectView>
    decreases os.len(),
{
    if os.len() == 0 {
        Seq::empty()
    } else {
        outcomes_effects(os.drop_last(), now) + outcome_effects(os.last(), now)
    }
}

fn push_outcome(out: &mut Vec<Effect>, o: SasOutcome, now: i64)
    ensures
        effects::effects(final(out)@) == effects::effects(old(out)@) + outcome_effects(o@, now),
{
    let ghost before = effects::effects(out@);
    let ghost v = o@;
    match o {
        SasOutcome::Publish { room_id, msg } => {
            out.push(Effect::PublishSigned { room_id, message: msg });
        },
        SasOutcome::Emit(event) => {
            out.push(Effect::Emit(event));
        },
        SasOutcome::Finalize { room_id, partner_fingerprint, pq_capable } => {
            out.push(
                Effect::MustStore(
                    Write::MemberVerified {
                        room_id: room_id.clone(),
                        fingerprint: partner_fingerprint.clone(),
                        verified: true,
                    },
                ),
            );
            out.push(
                Effect::MustStore(
                    Write::VerifiedPeer {
                        fingerprint: partner_fingerprint.clone(),
                        verified_at: now,
                        pq_capable,
                    },
                ),
            );
            out.push(
                Effect::Store(
                    Write::Journal {
                        kind: text::owned("sas_verified"),
                        detail: text::join4(
                            "room=",
                            room_id.as_str(),
                            " peer=",
                            partner_fingerprint.as_str(),
                        ),
                        at: now,
                    },
                ),
            );
            out.push(Effect::Emit(AppEvent::SasVerified { room_id, partner_fingerprint }));
        },
    }
    assert(effects::effects(out@) =~= before + outcome_effects(v, now));
}

/// What outcomes cause.
pub(crate) fn apply_sas_outcomes(outcomes: Vec<SasOutcome>, now: i64) -> (r: Vec<Effect>)
    ensures
        effects::effects(r@) == outcomes_effects(sas_actor::outcomes(outcomes@), now),
{
    let mut rest: Vec<SasOutcome> = outcomes;
    let mut out: Vec<Effect> = Vec::new();
    let ghost all = sas_actor::outcomes(outcomes@);
    let ghost mut i: int = 0;
    assert(effects::effects(out@) =~= outcomes_effects(all.take(0), now));
    assert(sas_actor::outcomes(rest@) =~= all.skip(0));
    while rest.len() > 0
        invariant
            0 <= i,
            i + rest@.len() == all.len(),
            sas_actor::outcomes(rest@) == all.skip(i),
            effects::effects(out@) == outcomes_effects(all.take(i), now),
        decreases rest@.len(),
    {
        let ghost before = rest@;
        let o: SasOutcome = rest.remove(0);
        proof {
            assert(o@ == all.skip(i)[0]);
            assert(all.take(i + 1).drop_last() =~= all.take(i));
            assert(all.take(i + 1).last() == o@);
            assert(sas_actor::outcomes(rest@) =~= all.skip(i + 1)) by {
                assert forall|j: int| 0 <= j < rest@.len() implies sas_actor::outcomes(rest@)[j]
                    == all.skip(i + 1)[j] by {
                    assert(rest@[j] == before[j + 1]);
                    assert(sas_actor::outcomes(before)[j + 1] == all.skip(i)[j + 1]);
                }
            }
        }
        push_outcome(&mut out, o, now);
        proof {
            i = i + 1;
        }
    }
    assert(all.take(all.len() as int) =~= all);
    out
}

impl AppView {
    pub open spec fn with_sas(self, sas: SasView) -> Self {
        AppView { sas, ..self }
    }

    /// We begin a verification under this transaction id, with this key pair.
    pub open spec fn sas_begun(
        self,
        room_id: Seq<char>,
        target: Seq<char>,
        now: i64,
        tx_id: Seq<char>,
        secret: Seq<u8>,
        public: Seq<u8>,
    ) -> (Self, Seq<EffectView>) {
        (
            self.with_sas(self.sas.started(room_id, target, now, tx_id, secret)),
            seq![
                EffectView::PublishSigned {
                    room_id,
                    message: MessageView::SasInit {
                        tx_id,
                        ephemeral_x25519_pubkey_b64: primitives::base64_text(public),
                        target_fingerprint: target,
                    },
                },
            ],
        )
    }

    /// The user says that the codes match.
    pub open spec fn sas_matched(self, tx_id: Seq<char>, now: i64) -> (
        Self,
        Result<Seq<EffectView>, ErrorView>,
    ) {
        match self.sas.matched(tx_id) {
            Ok(step) => (self.with_sas(step.0), Ok(outcomes_effects(step.1, now))),
            Err(SasError::UnknownTx) => (self, Err(ErrorView::Other("unknown SAS tx_id"@))),
            Err(SasError::CodeNotReady) => (
                self,
                Err(
                    ErrorView::Other(
                        "SAS code not computed yet — wait for the partner's response before confirming a match"@,
                    ),
                ),
            ),
        }
    }

    /// The ML-KEM key of the subject of a message, if it is one.
    pub open spec fn subject_ek(f: FactsView) -> Option<Seq<u8>> {
        dm_key::decoded_to(f.subject_mlkem_pubkey, MLKEM_EK_LEN as nat)
    }

    /// A peer begins a verification, and we answer with a key pair drawn at random.
    pub open spec fn on_sas_init(
        self,
        f: FactsView,
        e: EnvelopeView,
        tx_id: Seq<char>,
        key: Seq<char>,
        target: Seq<char>,
        after: Self,
        eff: Seq<EffectView>,
    ) -> bool {
        exists|secret: Seq<u8>, public: Seq<u8>| #[trigger]
            sas::is_key_pair(secret, public) && ({
                let step = self.sas.init_taken(
                    e.room_id,
                    tx_id,
                    key,
                    target,
                    e.signer,
                    e.now,
                    Self::subject_ek(f),
                    secret,
                    public,
                );
                after == self.with_sas(step.0) && eff == outcomes_effects(step.1, e.now)
            })
    }

    pub open spec fn on_sas_response(
        self,
        f: FactsView,
        e: EnvelopeView,
        tx_id: Seq<char>,
        key: Seq<char>,
    ) -> (Self, Seq<EffectView>) {
        let step = self.sas.response_taken(
            e.room_id,
            tx_id,
            key,
            e.signer,
            e.now,
            Self::subject_ek(f),
        );
        (self.with_sas(step.0), outcomes_effects(step.1, e.now))
    }

    pub open spec fn on_sas_confirm(self, e: EnvelopeView, tx_id: Seq<char>, matched: bool) -> (
        Self,
        Seq<EffectView>,
    ) {
        let step = self.sas.confirmed(tx_id, matched, e.signer);
        (self.with_sas(step.0), outcomes_effects(step.1, e.now))
    }
}

/// The ML-KEM key that a stored text stands for, if it is one.
pub fn partner_mlkem_ek_bytes(stored: &Option<String>) -> (r: Option<Vec<u8>>)
    ensures
        bytes::opt(r) == dm_key::decoded_to(text::opt(*stored), MLKEM_EK_LEN as nat),
{
    dm_key::decode_to(membership::borrowed(stored), MLKEM_EK_LEN)
}

impl AppHandle {
    /// Begins a verification with a member of a room: the transaction id, the text of 16 bytes, and what to do.
    pub fn sas_start(&mut self, room_id: &str, target_fingerprint: &str, now: i64) -> (r: (
        String,
        Vec<Effect>,
    ))
        requires
            old(self)@.wf(),
        ensures
            final(self)@.wf(),
            exists|tx: Seq<u8>, secret: Seq<u8>, public: Seq<u8>| #[trigger]
                sas::is_key_pair(secret, public) && r.0@ == #[trigger] primitives::base64_text(tx)
                    && tx.len() == sas::TX_ID_LEN && sas_actor::tx_bytes(r.0@) == Some(tx) && (
                    final(self)@,
                    effects::effects(r.1@),
                ) == old(self)@.sas_begun(
                    room_id@,
                    target_fingerprint@,
                    now,
                    r.0@,
                    secret,
                    public,
                ),
    {
        let ghost before = self@;
        let (tx_id, outcomes) = self.sas.start(room_id, target_fingerprint, now);
        let ghost said = sas_actor::outcomes(outcomes@);
        let out: Vec<Effect> = apply_sas_outcomes(outcomes, now);
        proof {
            let (tx, secret, public) = choose|tx: Seq<u8>, secret: Seq<u8>, public: Seq<u8>| #[trigger]
                sas::is_key_pair(secret, public) && sas_actor::tx_bytes(tx_id@) == Some(tx) && tx_id@
                    == #[trigger] primitives::base64_text(tx) && self.sas@ == before.sas.started(
                    room_id@,
                    target_fingerprint@,
                    now,
                    tx_id@,
                    secret,
                ) && said == seq![
                    OutcomeView::Publish {
                        room_id: room_id@,
                        msg: MessageView::SasInit {
                            tx_id: tx_id@,
                            ephemeral_x25519_pubkey_b64: primitives::base64_text(public),
                            target_fingerprint: target_fingerprint@,
                        },
                    },
                ];
            assert(said.drop_last() =~= Seq::<OutcomeView>::empty());
            assert(outcomes_effects(said.drop_last(), now) == Seq::<EffectView>::empty());
            assert(effects::effects(out@) =~= outcome_effects(said.last(), now));
            assert(self@ =~= before.with_sas(self.sas@));
            assert(sas::is_key_pair(secret, public) && tx_id@ == primitives::base64_text(tx));
        }
        (tx_id, out)
    }

    /// The user says that the codes match.
    pub fn sas_match(&mut self, tx_id: &str, now: i64) -> (r: Result<Vec<Effect>, HuddleError>)
        requires
            old(self)@.wf(),
        ensures
            final(self)@.wf(),
            (final(self)@, chat::outcome(r)) == old(self)@.sas_matched(tx_id@, now),
    {
        let ghost before = self@;
        match self.sas.user_match(tx_id, now) {
            Ok(outcomes) => {
                assert(self@ =~= before.with_sas(self.sas@));
                Ok(apply_sas_outcomes(outcomes, now))
            },
            Err(SasError::UnknownTx) => {
                assert(self@ =~= before);
                Err(crate::error::other_error("unknown SAS tx_id"))
            },
            Err(SasError::CodeNotReady) => {
                assert(self@ =~= before);
                Err(
                    crate::error::other_error(
                        "SAS code not computed yet — wait for the partner's response before confirming a match",
                    ),
                )
            },
        }
    }

    /// Drops a verification.
    pub fn sas_cancel(&mut self, tx_id: &str)
        requires
            old(self)@.wf(),
        ensures
            final(self)@.wf(),
            final(self)@ == old(self)@.with_sas(old(self)@.sas.without(tx_id@)),
    {
        let ghost before = self@;
        self.sas.cancel(tx_id);
        assert(self@ =~= before.with_sas(self.sas@));
    }

    pub(crate) fn take_sas_init(
        &mut self,
        f: &RoomFacts,
        e: &Envelope,
        tx_id: String,
        key: String,
        target: String,
    ) -> (r: Vec<Effect>)
        requires
            old(self)@.wf(),
        ensures
            final(self)@.wf(),
            old(self)@.on_sas_init(
                f@,
                e@,
                tx_id@,
                key@,
                target@,
                final(self)@,
                effects::effects(r@),
            ),
    {
        let ghost before = self@;
        let outcomes: Vec<SasOutcome> = self.sas.inbound_init(
            e.room_id.as_str(),
            tx_id,
            key.as_str(),
            target.as_str(),
            text::opt_copy(&e.signer),
            e.now,
            partner_mlkem_ek_bytes(&f.subject_mlkem_pubkey),
        );
        assert(self@ =~= before.with_sas(self.sas@));
        apply_sas_outcomes(outcomes, e.now)
    }

    pub(crate) fn take_sas_response(
        &mut self,
        f: &RoomFacts,
        e: &Envelope,
        tx_id: String,
        key: String,
    ) -> (r: Vec<Effect>)
        requires
            old(self)@.wf(),
        ensures
            final(self)@.wf(),
            (final(self)@, effects::effects(r@)) == old(self)@.on_sas_response(
                f@,
                e@,
                tx_id@,
                key@,
            ),
    {
        let ghost before = self@;
        let outcomes: Vec<SasOutcome> = self.sas.inbound_response(
            e.room_id.as_str(),
            tx_id,
            key.as_str(),
            text::opt_copy(&e.signer),
            e.now,
            partner_mlkem_ek_bytes(&f.subject_mlkem_pubkey),
        );
        assert(self@ =~= before.with_sas(self.sas@));
        apply_sas_outcomes(outcomes, e.now)
    }

    pub(crate) fn take_sas_confirm(&mut self, e: &Envelope, tx_id: String, matched: bool) -> (r: Vec<
        Effect,
    >)
        requires
            old(self)@.wf(),
        ensures
            final(self)@.wf(),
            (final(self)@, effects::effects(r@)) == old(self)@.on_sas_confirm(e@, tx_id@, matched),
    {
        let ghost before = self@;
        let outcomes: Vec<SasOutcome> = self.sas.inbound_confirm(
            tx_id.as_str(),
            matched,
            text::opt_copy(&e.signer),
        );
        assert(self@ =~= before.with_sas(self.sas@));
        apply_sas_outcomes(outcomes, e.now)
    }
}

} // verus!
