//! Joining a room by a short-lived code that an owner gives out.
//!
//! The joiner sends a fresh X25519 key and shows that they know a code. An owner who gave the code
//! out answers with a key of their own and their session key, wrapped under what both keys make.
use crate::app::effects::{self, Effect, EffectView};
use crate::app::events::{AppEvent, EventView};
use crate::app::facts::{Envelope, EnvelopeView, FactsView, RoomFacts};
use crate::app::messages::{MessageView, RoomMessage};
use crate::app::records::{StoredRoom, StoredRoomView};
use crate::app::rooms::{self, PlanView, RoomPlan};
use crate::app::{dm_key, ids, ActiveRoom, AppHandle, AppView, IssuedCode, RoomView};
use crate::bytes;
use crate::crypto::megolm::{self, RoomCrypto, RoomCryptoView};
use crate::crypto::passphrase::{self, KEY_LEN};
use crate::crypto::{primitives, sas};
use crate::error::{ErrorView, HuddleError};
use crate::strmap::StrSet;
use crate::text;
use vstd::prelude::*;

verus! {

/// For how many seconds a code can be used.
pub const JOIN_CODE_TTL_SECS: i64 = 600;

/// How many seconds we wait to be let in.
pub const CODE_JOIN_TIMEOUT_SECS: u64 = 30;

/// What a code begins with if it must not be sent in the clear.
pub open spec fn is_proof_code(code: Seq<char>) -> bool {
    text::starts_with(code, "v2-"@)
}

/// The codes that have not expired.
pub open spec fn live_codes(codes: Seq<(Seq<char>, i64)>, now: i64) -> Seq<(Seq<char>, i64)> {
    codes.filter(|c: (Seq<char>, i64)| c.1 > now)
}

pub open spec fn code_texts(codes: Seq<(Seq<char>, i64)>) -> Seq<Seq<char>> {
    codes.map_values(|c: (Seq<char>, i64)| c.0)
}

/// The first position of a code that has not expired.
pub open spec fn code_at(codes: Seq<(Seq<char>, i64)>, code: Seq<char>, now: i64) -> Option<int>
    decreases codes.len(),
{
    if codes.len() == 0 {
        None
    } else if codes[0].0 == code && codes[0].1 > now {
        Some(0)
    } else {
        match code_at(codes.skip(1), code, now) {
            Some(i) => Some(i + 1),
            None => None,
        }
    }
}

impl RoomView {
    pub open spec fn with_codes(self, codes: Seq<(Seq<char>, i64)>) -> Self {
        RoomView { codes, ..self }
    }
}

/// What follows once the proof that the first of these codes makes is known: its code is the joiner's, or
/// the next code is looked at.
pub open spec fn proof_compared(
    room_id: Seq<char>,
    joiner: Seq<char>,
    joiner_public: Seq<u8>,
    codes: Seq<Seq<char>>,
    proof: Seq<u8>,
    derived: Option<Seq<u8>>,
) -> Seq<EffectView> {
    if codes.len() == 0 {
        seq![]
    } else if derived == Some(proof) {
        seq![
            EffectView::AnswerJoin {
                room_id,
                joiner_fingerprint: joiner,
                joiner_public,
                code: codes[0],
            },
        ]
    } else if codes.len() == 1 {
        seq![]
    } else {
        seq![
            EffectView::CheckJoinProof {
                room_id,
                joiner_fingerprint: joiner,
                joiner_public,
                codes: codes.skip(1),
                proof,
            },
        ]
    }
}

impl AppView {
    /// The message asks us to check a proof: it is signed, for this room, which we own, and names a key.
    /// How many proofs are checked is limited, and this one counts.
    pub open spec fn counts_as_proof(self, f: FactsView, e: EnvelopeView, msg: MessageView) -> bool {
        match msg {
            MessageView::CodeJoinRequest { room_id, joiner_x25519_pubkey_b64, code_proof, .. } => {
                &&& room_id == e.room_id
                &&& e.signer is Some
                &&& f.is_owner(self.our_fp())
                &&& dm_key::decoded_to(Some(joiner_x25519_pubkey_b64), 32) is Some
                &&& code_proof is Some
            },
            _ => false,
        }
    }

    /// Somebody wants to join. An owner who holds the key of the room looks at the codes that have
    /// not expired: a proof has to be checked against them, a code in the clear has to be one.
    pub open spec fn on_code_join_request(
        self,
        f: FactsView,
        e: EnvelopeView,
        claimed: Seq<char>,
        joiner_key: Seq<char>,
        code: Seq<char>,
        proof: Option<Seq<char>>,
    ) -> (Self, Seq<EffectView>) {
        match (e.signer, dm_key::decoded_to(Some(joiner_key), 32)) {
            (Some(joiner), Some(public)) => if claimed != e.room_id || !f.is_owner(self.our_fp())
                || (proof is Some && (!f.proof_allowed || dm_key::decoded_to(proof, 32) is None))
                || !self.rooms.dom().contains(e.room_id) || self.rooms[e.room_id].key is None {
                (self, seq![])
            } else {
                let room = self.rooms[e.room_id];
                let live = live_codes(room.codes, e.now);
                (
                    self.with_room(e.room_id, room.with_codes(live)),
                    if proof is Some {
                        seq![
                            EffectView::CheckJoinProof {
                                room_id: e.room_id,
                                joiner_fingerprint: joiner,
                                joiner_public: public,
                                codes: code_texts(live),
                                proof: dm_key::decoded_to(proof, 32)->0,
                            },
                        ]
                    } else if code_texts(live).contains(code) {
                        seq![
                            EffectView::AnswerJoin {
                                room_id: e.room_id,
                                joiner_fingerprint: joiner,
                                joiner_public: public,
                                code,
                            },
                        ]
                    } else {
                        seq![]
                    },
                )
            },
            _ => (self, seq![]),
        }
    }

    /// An owner let us in. Only the creator of the room or an owner counts, and only while we wait.
    pub open spec fn on_code_join_response(
        self,
        f: FactsView,
        e: EnvelopeView,
        claimed: Seq<char>,
        target: Seq<char>,
        owner_key: Seq<char>,
        wrapped: Seq<char>,
    ) -> (Self, Seq<EffectView>) {
        let authorized = e.signer is Some && ((self.rooms.dom().contains(e.room_id)
            && self.rooms[e.room_id].info.creator_fingerprint == e.signer->0) || f.is_owner(
            e.signer->0,
        ));
        if claimed != e.room_id || target != self.our_fp() || !authorized
            || !self.code_secrets.dom().contains(e.room_id) {
            (self, seq![])
        } else {
            (
                self.without_secret(e.room_id),
                match sas::public_key_of(owner_key) {
                    Ok(public) => seq![
                        EffectView::DeriveJoinKey {
                            room_id: e.room_id,
                            owner_fingerprint: e.signer->0,
                            secret: self.code_secrets[e.room_id],
                            owner_public: public,
                            wrapped_session_key_b64: wrapped,
                        },
                    ],
                    Err(_) => seq![],
                },
            )
        }
    }

    /// A code is given out, if we own the room and are in it: for ten minutes, beside those that have not
    /// expired.
    pub open spec fn code_issued(
        self,
        f: FactsView,
        room_id: Seq<char>,
        now: i64,
        after: Self,
        r: Result<Seq<char>, ErrorView>,
    ) -> bool {
        match r {
            Ok(code) => {
                &&& f.is_owner(self.our_fp())
                &&& self.rooms.dom().contains(room_id)
                &&& is_proof_code(code) && ids::is_join_code(code.skip(3), 8)
                &&& after == self.with_room(
                    room_id,
                    self.rooms[room_id].with_codes(
                        live_codes(self.rooms[room_id].codes, now).push(
                            (code, (now + JOIN_CODE_TTL_SECS) as i64),
                        ),
                    ),
                )
            },
            Err(e) => {
                &&& after == self
                &&& e == ErrorView::Other(
                    if !f.is_owner(self.our_fp()) {
                        "only an owner can issue join codes"@
                    } else {
                        "not in room "@ + room_id
                    },
                )
                &&& f.is_owner(self.our_fp()) ==> !self.rooms.dom().contains(room_id)
            },
        }
    }

    /// The state while we wait to be let into a room: we are in it, cannot say anything yet, and keep the
    /// secret of the exchange.
    pub open spec fn waiting_to_join(self, plan: PlanView, secret: Seq<u8>, after: Self) -> bool {
        exists|c: RoomCryptoView| #[trigger]
            rooms::fresh_crypto(c, plan.info.id, self.our_fp(), self.persist_key) && after == (
            AppView {
                code_secrets: self.code_secrets.insert(plan.info.id, secret),
                ..self.entered(plan, Some(c), set![self.our_fp()], true)
            })
    }

    /// The time to be let in is over. The user is told if nobody has answered.
    pub open spec fn waited_in_vain(self, room_id: Seq<char>) -> (Self, Seq<EffectView>) {
        (
            self.without_secret(room_id),
            if self.code_secrets.dom().contains(room_id) {
                seq![
                    EffectView::Emit(
                        EventView::CodeJoinTimedOut {
                            room_id,
                            reason: "no response from owner — code may be wrong or expired"@,
                        },
                    ),
                ]
            } else {
                seq![]
            },
        )
    }

    pub open spec fn without_secret(self, room_id: Seq<char>) -> Self {
        AppView { code_secrets: self.code_secrets.remove(room_id), ..self }
    }

    /// The session key that an owner sent is taken in, and the owner is a member.
    pub open spec fn code_join_finished(
        self,
        room_id: Seq<char>,
        owner: Seq<char>,
        wrapped: Seq<char>,
        wrap_key: Seq<u8>,
        now: i64,
    ) -> (Self, Seq<EffectView>) {
        match (passphrase::unwrapped(wrapped, wrap_key), self.crypto_of(room_id)) {
            (Ok(plain), Some(crypto)) => if !vstd::utf8::valid_utf8(plain) {
                (self, seq![])
            } else {
                match megolm::megolm_imported(
                    vstd::utf8::decode_utf8(plain),
                    crypto.persist_key,
                ) {
                    Ok(session) => (
                        self.with_room(
                            room_id,
                            RoomView {
                                crypto: Some(
                                    crypto.with_inbound(owner, session.1, session.0, now),
                                ),
                                members: self.rooms[room_id].members.insert(owner),
                                ..self.rooms[room_id]
                            },
                        ),
                        seq![
                            EffectView::Emit(
                                EventView::MemberJoined { room_id, fingerprint: owner },
                            ),
                        ],
                    ),
                    Err(_) => (self, seq![]),
                }
            },
            _ => (self, seq![]),
        }
    }

    /// What a room looks like that we join by a code, or why we cannot.
    pub open spec fn code_join_planned(self, room_id: Seq<char>, now: i64) -> Result<
        PlanView,
        ErrorView,
    > {
        if !self.discovered.dom().contains(room_id) {
            Err(
                ErrorView::Other(
                    "room "@ + room_id + " not visible — wait for an announcement"@,
                ),
            )
        } else if !self.discovered[room_id].encrypted {
            Err(ErrorView::Other("code-join only applies to encrypted rooms"@))
        } else {
            let d = self.discovered[room_id];
            Ok(
                PlanView {
                    info: StoredRoomView {
                        id: room_id,
                        name: d.name,
                        creator_fingerprint: d.creator_fingerprint,
                        encrypted: true,
                        passphrase_salt: None,
                        created_at: now,
                        last_active: Some(now),
                        kind: d.kind,
                    },
                    key: None,
                },
            )
        }
    }
}

/// The codes of these that have not expired.
fn keep_live(codes: &mut Vec<IssuedCode>, now: i64)
    ensures
        super::code_views(final(codes)@) == live_codes(super::code_views(old(codes)@), now),
{
    let ghost all = super::code_views(codes@);
    let ghost live = |c: (Seq<char>, i64)| c.1 > now;
    let mut out: Vec<IssuedCode> = Vec::new();
    let mut i: usize = 0;
    proof {
        reveal(Seq::filter);
        assert(all.take(0).filter(live) =~= Seq::<(Seq<char>, i64)>::empty());
        assert(super::code_views(out@) =~= Seq::<(Seq<char>, i64)>::empty());
    }
    while i < codes.len()
        invariant
            i <= codes@.len(),
            *codes == *old(codes),
            all == super::code_views(codes@),
            live == (|c: (Seq<char>, i64)| c.1 > now),
            super::code_views(out@) == all.take(i as int).filter(live),
        decreases codes@.len() - i,
    {
        let ghost got = super::code_views(out@);
        proof {
            reveal(Seq::filter);
            assert(all.take(i + 1).drop_last() =~= all.take(i as int));
            assert(all.take(i + 1).last() == codes@[i as int]@);
        }
        if codes[i].expires_at > now {
            out.push(IssuedCode { code: codes[i].code.clone(), expires_at: codes[i].expires_at });
            assert(super::code_views(out@) =~= got.push(codes@[i as int]@));
        }
        i = i + 1;
    }
    assert(all.take(all.len() as int) =~= all);
    *codes = out;
}

fn list_codes(codes: &Vec<IssuedCode>) -> (r: Vec<String>)
    ensures
        text::texts(r@) == code_texts(super::code_views(codes@)),
{
    let ghost all = code_texts(super::code_views(codes@));
    let mut out: Vec<String> = Vec::new();
    let mut i: usize = 0;
    while i < codes.len()
        invariant
            i <= codes@.len(),
            all == code_texts(super::code_views(codes@)),
            text::texts(out@) == all.take(i as int),
        decreases codes@.len() - i,
    {
        let ghost got = text::texts(out@);
        out.push(codes[i].code.clone());
        assert(text::texts(out@) =~= got.push(all[i as int]));
        assert(all.take(i + 1) =~= all.take(i as int).push(all[i as int]));
        i = i + 1;
    }
    assert(all.take(all.len() as int) =~= all);
    out
}

fn find_code(codes: &Vec<IssuedCode>, code: &str, now: i64) -> (r: Option<usize>)
    ensures
        match r {
            Some(i) => code_at(super::code_views(codes@), code@, now) == Some(i as int) && i
                < codes@.len(),
            None => code_at(super::code_views(codes@), code@, now) is None,
        },
{
    let ghost all = super::code_views(codes@);
    let mut i: usize = 0;
    assert(all.skip(0) =~= all);
    while i < codes.len()
        invariant
            i <= codes@.len(),
            all == super::code_views(codes@),
            code_at(all, code@, now) == (match code_at(all.skip(i as int), code@, now) {
                Some(j) => Some(i + j),
                None => None,
            }),
        decreases codes@.len() - i,
    {
        assert(all.skip(i as int)[0] == codes@[i as int]@);
        assert(all.skip(i as int).skip(1) =~= all.skip(i + 1));
        if codes[i].expires_at > now && text::same(codes[i].code.as_str(), code) {
            return Some(i);
        }
        i = i + 1;
    }
    None
}

/// What an owner answers who has this code among those that were given out: the code is used up, and
/// the session key goes to the joiner, wrapped.
pub open spec fn join_answered(
    before: AppView,
    room_id: Seq<char>,
    joiner: Seq<char>,
    code: Seq<char>,
    our_public: Seq<u8>,
    wrap_key: Option<Seq<u8>>,
    now: i64,
    after: AppView,
    eff: Seq<EffectView>,
) -> bool {
    let at = if before.rooms.dom().contains(room_id) {
        code_at(before.rooms[room_id].codes, code, now)
    } else {
        None
    };
    match at {
        None => after == before && eff == Seq::<EffectView>::empty(),
        Some(i) => {
            let room = before.rooms[room_id];
            &&& after == before.with_room(room_id, room.with_codes(room.codes.remove(i)))
            &&& match (room.crypto, wrap_key) {
                (Some(c), Some(k)) => if vstd::utf8::encode_utf8(c.session_key()).len()
                    < primitives::SEAL_LIMIT {
                    exists|wrapped: Seq<char>| #[trigger]
                        session_wrapped(c, k, wrapped) && eff == seq![
                            EffectView::PublishSigned {
                                room_id,
                                message: MessageView::CodeJoinResponse {
                                    room_id,
                                    target_fingerprint: joiner,
                                    owner_x25519_pubkey_b64: primitives::base64_text(our_public),
                                    owner_session_id: c.session_id(),
                                    wrapped_session_key_b64: wrapped,
                                    nonce_b64: ""@,
                                },
                            },
                        ]
                } else {
                    eff == Seq::<EffectView>::empty()
                },
                _ => eff == Seq::<EffectView>::empty(),
            }
        },
    }
}

/// The text unwraps to our session key, which any member can take in.
pub open spec fn session_wrapped(c: RoomCryptoView, key: Seq<u8>, wrapped: Seq<char>) -> bool {
    c.is_shareable() && passphrase::unwrapped(wrapped, key) == Ok::<Seq<u8>, ErrorView>(
        vstd::utf8::encode_utf8(c.session_key()),
    )
}

/// What asking to be let in causes: we wait, listen, and send our key with the code, or with the proof
/// of a code that must not be sent in the clear.
pub open spec fn join_requested(
    room_id: Seq<char>,
    code: Seq<char>,
    code_proof: Seq<u8>,
    our_public: Seq<u8>,
) -> Seq<EffectView> {
    seq![
        EffectView::CodeJoinDeadline { room_id, after_secs: CODE_JOIN_TIMEOUT_SECS },
        EffectView::Subscribe { room_id },
        EffectView::PublishSigned {
            room_id,
            message: MessageView::CodeJoinRequest {
                room_id,
                joiner_x25519_pubkey_b64: primitives::base64_text(our_public),
                code: if is_proof_code(code) {
                    ""@
                } else {
                    code
                },
                code_proof: if is_proof_code(code) {
                    Some(primitives::base64_text(code_proof))
                } else {
                    None
                },
            },
        },
        EffectView::Emit(EventView::RoomJoined { room_id }),
    ]
}

impl AppHandle {
    /// Gives out a code for a room that we own: ten minutes, one use.
    pub fn generate_join_code(&mut self, f: &RoomFacts, room_id: &str, now: i64) -> (r: Result<
        String,
        HuddleError,
    >)
        requires
            old(self)@.wf(),
            now + JOIN_CODE_TTL_SECS <= i64::MAX,
        ensures
            final(self)@.wf(),
            old(self)@.code_issued(
                f@,
                room_id@,
                now,
                final(self)@,
                crate::error::result_view(r),
            ),
    {
        let ghost before = self@;
        if !f.is_owner(self.identity.fingerprint()) {
            return Err(crate::error::other_error("only an owner can issue join codes"));
        }
        let digits: String = ids::generate_alphanumeric_code(8);
        let code: String = text::join2("v2-", digits.as_str());
        proof {
            reveal_strlit("v2-");
            assert(code@.take(3) =~= "v2-"@);
            assert(code@.skip(3) =~= digits@);
        }
        match self.take_room(room_id) {
            None => Err(HuddleError::Other(text::join2("not in room ", room_id))),
            Some(mut room) => {
                let ghost room0 = room@;
                keep_live(&mut room.issued_codes, now);
                let ghost live = super::code_views(room.issued_codes@);
                room.issued_codes.push(
                    IssuedCode { code: code.clone(), expires_at: now + JOIN_CODE_TTL_SECS },
                );
                proof {
                    assert(super::code_views(room.issued_codes@) =~= live.push(
                        (code@, (now + JOIN_CODE_TTL_SECS) as i64),
                    ));
                    assert(room@ =~= room0.with_codes(room@.codes));
                    super::lemma_put_back(before, room_id@, room@);
                }
                self.put_room(room_id, room);
                Ok(code)
            },
        }
    }

    /// Whether the message asks us to check a proof, which counts towards the limit of such checks. A
    /// message that is dropped before that does not count.
    pub fn counts_as_proof(&self, f: &RoomFacts, e: &Envelope, msg: &RoomMessage) -> (r: bool)
        ensures
            r == self@.counts_as_proof(f@, e@, msg@),
    {
        match msg {
            RoomMessage::CodeJoinRequest { room_id, joiner_x25519_pubkey_b64, code_proof, .. } => {
                text::same(room_id.as_str(), e.room_id.as_str()) && e.signer.is_some() && f.is_owner(
                    self.identity.fingerprint(),
                ) && dm_key::decode_to(Some(joiner_x25519_pubkey_b64.as_str()), 32).is_some()
                    && code_proof.is_some()
            },
            _ => false,
        }
    }

    /// Takes in the proof that the first of these codes makes, or that it makes none, and says what
    /// follows.
    pub fn join_proof_derived(
        room_id: String,
        joiner_fingerprint: String,
        joiner_public: [u8; 32],
        codes: Vec<String>,
        proof_bytes: [u8; 32],
        derived: Option<[u8; 32]>,
    ) -> (r: Vec<Effect>)
        ensures
            effects::effects(r@) == proof_compared(
                room_id@,
                joiner_fingerprint@,
                joiner_public@,
                text::texts(codes@),
                proof_bytes@,
                super::key_view(derived),
            ),
    {
        let ghost all = text::texts(codes@);
        let mut rest: Vec<String> = codes;
        let mut out: Vec<Effect> = Vec::new();
        assert(effects::effects(out@) =~= seq![]);
        if rest.len() == 0 {
            return out;
        }
        let first: String = rest.remove(0);
        assert(first@ == all[0]);
        assert(text::texts(rest@) =~= all.skip(1));
        let fits: bool = match &derived {
            Some(d) => ids::ct_eq_32(d, &proof_bytes),
            None => false,
        };
        if fits {
            out.push(
                Effect::AnswerJoin { room_id, joiner_fingerprint, joiner_public, code: first },
            );
            assert(effects::effects(out@) =~= seq![out@[0]@]);
        } else if rest.len() > 0 {
            out.push(
                Effect::CheckJoinProof {
                    room_id,
                    joiner_fingerprint,
                    joiner_public,
                    codes: rest,
                    proof: proof_bytes,
                },
            );
            assert(effects::effects(out@) =~= seq![out@[0]@]);
        }
        out
    }

    pub(crate) fn take_code_join_request(
        &mut self,
        f: &RoomFacts,
        e: &Envelope,
        claimed: String,
        joiner_key: String,
        code: String,
        proof_b64: Option<String>,
    ) -> (r: Vec<Effect>)
        requires
            old(self)@.wf(),
        ensures
            final(self)@.wf(),
            (final(self)@, effects::effects(r@)) == old(self)@.on_code_join_request(
                f@,
                e@,
                claimed@,
                joiner_key@,
                code@,
                text::opt(proof_b64),
            ),
    {
        let ghost before = self@;
        let mut out: Vec<Effect> = Vec::new();
        assert(effects::effects(out@) =~= seq![]);
        let joiner: String = match &e.signer {
            None => {
                return out;
            },
            Some(s) => s.clone(),
        };
        if !text::same(claimed.as_str(), e.room_id.as_str()) || !f.is_owner(
            self.identity.fingerprint(),
        ) {
            return out;
        }
        let public: [u8; 32] = match dm_key::decode_to(Some(joiner_key.as_str()), 32) {
            None => {
                return out;
            },
            Some(b) => bytes::array_32(b.as_slice()),
        };
        let mut shown: Option<[u8; 32]> = None;
        match &proof_b64 {
            None => {},
            Some(p) => {
                if !f.proof_allowed {
                    return out;
                }
                match dm_key::decode_to(Some(p.as_str()), 32) {
                    None => {
                        return out;
                    },
                    Some(b) => {
                        shown = Some(bytes::array_32(b.as_slice()));
                    },
                }
            },
        }
        let mut room: ActiveRoom = match self.take_room(e.room_id.as_str()) {
            None => {
                return out;
            },
            Some(room) => room,
        };
        let ghost room0 = room@;
        if room.passphrase_key.is_none() {
            self.put_room(e.room_id.as_str(), room);
            proof {
                super::lemma_put_back(before, e.room_id@, room@);
            }
            return out;
        }
        keep_live(&mut room.issued_codes, e.now);
        let codes: Vec<String> = list_codes(&room.issued_codes);
        proof {
            assert(room@ =~= room0.with_codes(live_codes(room0.codes, e.now)));
            super::lemma_put_back(before, e.room_id@, room@);
        }
        self.put_room(e.room_id.as_str(), room);
        match shown {
            Some(proof_bytes) => {
                out.push(
                    Effect::CheckJoinProof {
                        room_id: e.room_id.clone(),
                        joiner_fingerprint: joiner,
                        joiner_public: public,
                        codes,
                        proof: proof_bytes,
                    },
                );
                assert(effects::effects(out@) =~= seq![out@[0]@]);
            },
            None => {
                if text::texts_contain(&codes, code.as_str()) {
                    out.push(
                        Effect::AnswerJoin {
                            room_id: e.room_id.clone(),
                            joiner_fingerprint: joiner,
                            joiner_public: public,
                            code,
                        },
                    );
                    assert(effects::effects(out@) =~= seq![out@[0]@]);
                }
            },
        }
        out
    }

    /// Answers a joiner who knows this code: with our public key of the exchange, and with the key
    /// that both sides make of it, if there is one. The code is used up.
    pub fn code_join_answer(
        &mut self,
        room_id: &str,
        joiner_fingerprint: String,
        code: &str,
        our_public: [u8; 32],
        wrap_key: Option<[u8; KEY_LEN]>,
        now: i64,
    ) -> (r: Vec<Effect>)
        requires
            old(self)@.wf(),
        ensures
            final(self)@.wf(),
            join_answered(
                old(self)@,
                room_id@,
                joiner_fingerprint@,
                code@,
                our_public@,
                super::key_view(wrap_key),
                now,
                final(self)@,
                effects::effects(r@),
            ),
    {
        let ghost before = self@;
        let mut out: Vec<Effect> = Vec::new();
        assert(effects::effects(out@) =~= Seq::<EffectView>::empty());
        let mut room: ActiveRoom = match self.take_room(room_id) {
            None => {
                return out;
            },
            Some(room) => room,
        };
        let ghost room0 = room@;
        let at: usize = match find_code(&room.issued_codes, code, now) {
            None => {
                self.put_room(room_id, room);
                proof {
                    super::lemma_put_back(before, room_id@, room@);
                }
                return out;
            },
            Some(i) => i,
        };
        let used: IssuedCode = room.issued_codes.remove(at);
        proof {
            assert(super::code_views(room.issued_codes@) =~= room0.codes.remove(at as int));
            assert(room@ =~= room0.with_codes(room0.codes.remove(at as int)));
            super::lemma_put_back(before, room_id@, room@);
        }
        match (&room.crypto, &wrap_key) {
            (Some(c), Some(key)) => {
                let session_id: String = c.our_session_id();
                let session_key: String = c.our_session_key_b64();
                match passphrase::wrap(session_key.as_str().as_bytes(), key) {
                    Err(_) => {},
                    Ok(wrapped) => {
                        assert(room0.crypto == Some(c@));
                        assert(session_wrapped(room0.crypto->0, key@, wrapped@));
                        out.push(
                            Effect::PublishSigned {
                                room_id: text::owned(room_id),
                                message: RoomMessage::CodeJoinResponse {
                                    room_id: text::owned(room_id),
                                    target_fingerprint: joiner_fingerprint,
                                    owner_x25519_pubkey_b64: primitives::base64_encode(
                                        our_public.as_slice(),
                                    ),
                                    owner_session_id: session_id,
                                    wrapped_session_key_b64: wrapped,
                                    nonce_b64: text::owned(""),
                                },
                            },
                        );
                        assert(effects::effects(out@) =~= seq![out@[0]@]);
                    },
                }
            },
            _ => {},
        }
        let ghost room1 = room@;
        self.put_room(room_id, room);
        proof {
            assert(self@ == before.with_room(room_id@, room1));
            assert(code_at(before.rooms[room_id@].codes, code@, now) == Some(at as int));
            assert(before.rooms[room_id@] == room0);
            assert(self@ == before.with_room(room_id@, room0.with_codes(room0.codes.remove(at as int))));
            if room0.crypto is Some && wrap_key is Some {
                let c = room0.crypto->0;
                if vstd::utf8::encode_utf8(c.session_key()).len() < primitives::SEAL_LIMIT {
                    assert(effects::effects(out@).len() == 1);
                    assert(effects::effects(out@)[0] is PublishSigned);
                    let w = effects::effects(out@)[0]->PublishSigned_message->wrapped_session_key_b64;
                    assert(session_wrapped(c, super::key_view(wrap_key)->0, w));
                } else {
                    assert(effects::effects(out@) =~= Seq::<EffectView>::empty());
                }
            } else {
                assert(effects::effects(out@) =~= Seq::<EffectView>::empty());
            }
        }
        out
    }

    pub(crate) fn take_code_join_response(
        &mut self,
        f: &RoomFacts,
        e: &Envelope,
        claimed: String,
        target: String,
        owner_key: String,
        wrapped: String,
    ) -> (r: Vec<Effect>)
        requires
            old(self)@.wf(),
        ensures
            final(self)@.wf(),
            (final(self)@, effects::effects(r@)) == old(self)@.on_code_join_response(
                f@,
                e@,
                claimed@,
                target@,
                owner_key@,
                wrapped@,
            ),
    {
        let ghost before = self@;
        let mut out: Vec<Effect> = Vec::new();
        assert(effects::effects(out@) =~= seq![]);
        let owner: String = match &e.signer {
            None => {
                return out;
            },
            Some(s) => s.clone(),
        };
        if !text::same(claimed.as_str(), e.room_id.as_str()) || !text::same(
            target.as_str(),
            self.identity.fingerprint(),
        ) {
            return out;
        }
        let creator: bool = match self.active_rooms.get(e.room_id.as_str()) {
            Some(room) => text::same(room.info.creator_fingerprint.as_str(), owner.as_str()),
            None => false,
        };
        if !creator && !f.is_owner(owner.as_str()) {
            return out;
        }
        let secret: [u8; 32] = match self.take_secret(e.room_id.as_str()) {
            None => {
                return out;
            },
            Some(s) => s,
        };
        match sas::parse_pubkey(owner_key.as_str()) {
            Err(_) => {},
            Ok(public) => {
                out.push(
                    Effect::DeriveJoinKey {
                        room_id: e.room_id.clone(),
                        owner_fingerprint: owner,
                        secret,
                        owner_public: public,
                        wrapped_session_key_b64: wrapped,
                    },
                );
                assert(effects::effects(out@) =~= seq![out@[0]@]);
            },
        }
        out
    }

    fn take_secret(&mut self, room_id: &str) -> (r: Option<[u8; 32]>)
        ensures
            old(self)@.wf() ==> final(self)@.wf(),
            match r {
                Some(s) => old(self)@.code_secrets.dom().contains(room_id@) && s@ == old(
                    self,
                )@.code_secrets[room_id@] && final(self)@ == old(self)@.without_secret(room_id@),
                None => !old(self)@.code_secrets.dom().contains(room_id@) && final(self)@ == old(
                    self,
                )@,
            },
    {
        let ghost before = self@;
        let r: Option<[u8; 32]> = self.pending_code_secrets.remove(room_id);
        proof {
            assert(self@.code_secrets =~= before.code_secrets.remove(room_id@));
            assert(self@ =~= before.without_secret(room_id@));
            if r is None {
                assert(before.code_secrets.remove(room_id@) =~= before.code_secrets);
                assert(self@ =~= before);
            }
        }
        r
    }

    /// Takes in the session key that an owner sent, with the key that both sides made.
    pub fn code_join_finish(
        &mut self,
        room_id: &str,
        owner_fingerprint: String,
        wrapped_session_key_b64: &str,
        wrap_key: &[u8; KEY_LEN],
        now: i64,
    ) -> (r: Vec<Effect>)
        requires
            old(self)@.wf(),
        ensures
            final(self)@.wf(),
            (final(self)@, effects::effects(r@)) == old(self)@.code_join_finished(
                room_id@,
                owner_fingerprint@,
                wrapped_session_key_b64@,
                wrap_key@,
                now,
            ),
    {
        let ghost before = self@;
        let mut out: Vec<Effect> = Vec::new();
        assert(effects::effects(out@) =~= seq![]);
        let plain: Vec<u8> = match passphrase::unwrap(wrapped_session_key_b64, wrap_key) {
            Err(_) => {
                return out;
            },
            Ok(p) => p,
        };
        let session_key: String = match text::text_of_utf8(plain.as_slice()) {
            None => {
                return out;
            },
            Some(s) => s,
        };
        let mut room: ActiveRoom = match self.take_room(room_id) {
            None => {
                return out;
            },
            Some(room) => room,
        };
        let ghost room0 = room@;
        let mut crypto: Option<RoomCrypto> = None;
        std::mem::swap(&mut crypto, &mut room.crypto);
        match crypto {
            None => {
                assert(room@ =~= room0);
            },
            Some(mut c) => {
                let taken = c.add_inbound_session_at(
                    owner_fingerprint.as_str(),
                    session_key.as_str(),
                    now,
                );
                room.crypto = Some(c);
                match taken {
                    Err(_) => {
                        assert(room@ =~= room0);
                    },
                    Ok(_) => {
                        room.members.insert(owner_fingerprint.clone());
                        proof {
                            assert(room@ =~= RoomView {
                                crypto: room@.crypto,
                                members: room0.members.insert(owner_fingerprint@),
                                ..room0
                            });
                        }
                        out.push(
                            Effect::Emit(
                                AppEvent::MemberJoined {
                                    room_id: text::owned(room_id),
                                    fingerprint: owner_fingerprint,
                                },
                            ),
                        );
                        assert(effects::effects(out@) =~= seq![out@[0]@]);
                    },
                }
            },
        }
        proof {
            super::lemma_put_back(before, room_id@, room@);
        }
        self.put_room(room_id, room);
        out
    }

    /// A key pair for joining by a code: secret and public key.
    pub fn new_join_keys() -> (r: ([u8; 32], [u8; 32]))
        ensures
            sas::is_key_pair(r.0@, r.1@),
    {
        let session = sas::new_session();
        (session.1, session.2)
    }

    /// A code of this form must not be sent in the clear: a proof is sent in its place.
    pub fn code_needs_proof(code: &str) -> (r: bool)
        ensures
            r == is_proof_code(code@),
    {
        text::text_has_prefix(code, "v2-")
    }

    /// Plans to join a room by a code. The room has to be stored before it is entered.
    pub fn plan_code_join(&self, room_id: &str, now: i64) -> (r: Result<RoomPlan, HuddleError>)
        ensures
            rooms::plan_view(r) == self@.code_join_planned(room_id@, now),
    {
        match self.discovered_rooms.get(room_id) {
            None => Err(
                HuddleError::Other(
                    text::join3("room ", room_id, " not visible — wait for an announcement"),
                ),
            ),
            Some(d) => {
                if !d.encrypted {
                    return Err(
                        crate::error::other_error("code-join only applies to encrypted rooms"),
                    );
                }
                Ok(
                    RoomPlan {
                        info: StoredRoom {
                            id: text::owned(room_id),
                            name: d.name.clone(),
                            creator_fingerprint: d.creator_fingerprint.clone(),
                            encrypted: true,
                            passphrase_salt: None,
                            created_at: now,
                            last_active: Some(now),
                            kind: d.kind,
                        },
                        key: None,
                    },
                )
            },
        }
    }

    /// Enters a room by a code, to read only, and asks to be let in. A code that must not be sent in
    /// the clear is not sent: the proof goes in its place.
    pub fn join_room_with_code(
        &mut self,
        plan: RoomPlan,
        code: &str,
        code_proof: &[u8; 32],
        our_secret: [u8; 32],
        our_public: [u8; 32],
    ) -> (r: Vec<Effect>)
        requires
            old(self)@.wf(),
            plan.info.encrypted,
        ensures
            final(self)@.wf(),
            old(self)@.waiting_to_join(plan@, our_secret@, final(self)@),
            effects::effects(r@) == join_requested(
                plan@.info.id,
                code@,
                code_proof@,
                our_public@,
            ),
    {
        let ghost before = self@;
        let ghost v = plan@;
        let id: String = plan.info.id.clone();
        let crypto: RoomCrypto = RoomCrypto::new_for_room(
            id.clone(),
            text::owned(self.identity.fingerprint()),
            self.session_persist_key,
        ).unwrap();
        let ghost c = crypto@;
        let mut members: StrSet = StrSet::new();
        members.insert(text::owned(self.identity.fingerprint()));
        let n: usize = members.len();
        assert(members@ =~= set![before.our_fp()]);
        let room: ActiveRoom = ActiveRoom::enter(plan.info, Some(crypto), plan.key, members, true);
        self.put_room(id.as_str(), room);
        let ghost mid = self@;
        self.pending_code_secrets.insert(id.clone(), our_secret);
        proof {
            assert(rooms::fresh_crypto(c, v.info.id, before.our_fp(), before.persist_key));
            assert(room@.wf());
            assert(mid == before.entered(v, Some(c), set![before.our_fp()], true));
            assert(self@.code_secrets =~= before.code_secrets.insert(v.info.id, our_secret@));
            assert(self@ =~= AppView {
                code_secrets: before.code_secrets.insert(v.info.id, our_secret@),
                ..mid
            });
        }
        Self::join_request(id, code, code_proof, &our_public)
    }

    fn join_request(id: String, code: &str, code_proof: &[u8; 32], our_public: &[u8; 32]) -> (r: Vec<
        Effect,
    >)
        ensures
            effects::effects(r@) == join_requested(id@, code@, code_proof@, our_public@),
    {
        let proven: bool = Self::code_needs_proof(code);
        let code_field: String = if proven {
            text::owned("")
        } else {
            text::owned(code)
        };
        let proof_field: Option<String> = if proven {
            Some(primitives::base64_encode(code_proof.as_slice()))
        } else {
            None
        };
        let mut out: Vec<Effect> = Vec::new();
        out.push(
            Effect::CodeJoinDeadline { room_id: id.clone(), after_secs: CODE_JOIN_TIMEOUT_SECS },
        );
        out.push(Effect::Subscribe { room_id: id.clone() });
        out.push(
            Effect::PublishSigned {
                room_id: id.clone(),
                message: RoomMessage::CodeJoinRequest {
                    room_id: id.clone(),
                    joiner_x25519_pubkey_b64: primitives::base64_encode(our_public.as_slice()),
                    code: code_field,
                    code_proof: proof_field,
                },
            },
        );
        out.push(Effect::Emit(AppEvent::RoomJoined { room_id: id }));
        assert(effects::effects(out@) =~= seq![out@[0]@, out@[1]@, out@[2]@, out@[3]@]);
        out
    }

    /// Nobody let us in for too long: we stop waiting.
    pub fn code_join_timed_out(&mut self, room_id: &str) -> (r: Vec<Effect>)
        requires
            old(self)@.wf(),
        ensures
            final(self)@.wf(),
            (final(self)@, effects::effects(r@)) == old(self)@.waited_in_vain(room_id@),
    {
        let ghost before = self@;
        let mut out: Vec<Effect> = Vec::new();
        match self.take_secret(room_id) {
            None => {
                proof {
                    assert(before.code_secrets.remove(room_id@) =~= before.code_secrets);
                    assert(before.without_secret(room_id@) =~= before);
                    assert(effects::effects(out@) =~= seq![]);
                }
            },
            Some(_) => {
                out.push(
                    Effect::Emit(
                        AppEvent::CodeJoinTimedOut {
                            room_id: text::owned(room_id),
                            reason: text::owned(
                                "no response from owner — code may be wrong or expired",
                            ),
                        },
                    ),
                );
                assert(effects::effects(out@) =~= seq![out@[0]@]);
            },
        }
        out
    }
}

// ---------------------------------------------------------------------------------------------
// Laws
// ---------------------------------------------------------------------------------------------

/// A code that has expired, or that was never given out, lets nobody in.
pub proof fn law_only_live_codes_let_in(codes: Seq<(Seq<char>, i64)>, code: Seq<char>, now: i64)
    ensures
        match code_at(codes, code, now) {
            Some(i) => 0 <= i < codes.len() && codes[i].0 == code && codes[i].1 > now,
            None => forall|i: int|
                0 <= i < codes.len() && (#[trigger] codes[i]).0 == code ==> codes[i].1 <= now,
        },
    decreases codes.len(),
{
    if codes.len() > 0 {
        law_only_live_codes_let_in(codes.skip(1), code, now);
        assert forall|i: int| 1 <= i < codes.len() implies #[trigger] codes[i] == codes.skip(1)[i
            - 1] by {}
    }
}

/// The joiner ends up with the session of the owner who answered: both sides hold the same key of the
/// exchange, and what the owner wrapped, the joiner takes in.
pub proof fn law_code_join_hands_over_the_session(
    owner: RoomCryptoView,
    joiner: AppView,
    room_id: Seq<char>,
    owner_fp: Seq<char>,
    wrapped: Seq<char>,
    wrap_key: Seq<u8>,
    now: i64,
)
    requires
        session_wrapped(owner, wrap_key, wrapped),
        joiner.wf(),
        joiner.crypto_of(room_id) is Some,
    ensures
        ({
            let after = joiner.code_join_finished(room_id, owner_fp, wrapped, wrap_key, now).0;
            &&& after.crypto_of(room_id) is Some
            &&& after.crypto_of(room_id)->0.holds(owner_fp, owner)
            &&& after.rooms[room_id].members.contains(owner_fp)
        }),
{
    broadcast use vstd::utf8::encode_utf8_valid_utf8, vstd::utf8::encode_utf8_decode_utf8;

    let plain = vstd::utf8::encode_utf8(owner.session_key());
    assert(vstd::utf8::decode_utf8(plain) == owner.session_key());
    let c = joiner.crypto_of(room_id)->0;
    assert(joiner.rooms[room_id].wf());
    megolm::law_session_keys_are_handed_over(c, owner_fp, owner, now);
}

/// All the checks of a proof, one code after another, where this says which proof a code makes.
pub open spec fn proof_checks(
    room_id: Seq<char>,
    joiner: Seq<char>,
    joiner_public: Seq<u8>,
    codes: Seq<Seq<char>>,
    proof: Seq<u8>,
    makes: spec_fn(Seq<char>) -> Option<Seq<u8>>,
) -> Seq<EffectView>
    decreases codes.len(),
{
    if codes.len() == 0 {
        seq![]
    } else {
        let out = proof_compared(room_id, joiner, joiner_public, codes, proof, makes(codes[0]));
        if out.len() == 1 && out[0] is CheckJoinProof {
            proof_checks(room_id, joiner, joiner_public, codes.skip(1), proof, makes)
        } else {
            out
        }
    }
}

/// A joiner who proves to know a code is answered with the first code that makes the proof; where no code
/// makes it, nobody is answered.
pub proof fn law_proofs_are_answered_with_their_code(
    room_id: Seq<char>,
    joiner: Seq<char>,
    joiner_public: Seq<u8>,
    codes: Seq<Seq<char>>,
    proof_bytes: Seq<u8>,
    makes: spec_fn(Seq<char>) -> Option<Seq<u8>>,
)
    ensures
        forall|i: int|
            0 <= i < codes.len() && makes(#[trigger] codes[i]) == Some(proof_bytes) && (forall|j: int|
                0 <= j < i ==> makes(#[trigger] codes[j]) != Some(proof_bytes)) ==> proof_checks(
                room_id,
                joiner,
                joiner_public,
                codes,
                proof_bytes,
                makes,
            ) == seq![
                EffectView::AnswerJoin {
                    room_id,
                    joiner_fingerprint: joiner,
                    joiner_public,
                    code: codes[i],
                },
            ],
        (forall|j: int| 0 <= j < codes.len() ==> makes(#[trigger] codes[j]) != Some(proof_bytes))
            ==> proof_checks(room_id, joiner, joiner_public, codes, proof_bytes, makes)
            == Seq::<EffectView>::empty(),
    decreases codes.len(),
{
    if codes.len() > 0 {
        let rest = codes.skip(1);
        law_proofs_are_answered_with_their_code(
            room_id,
            joiner,
            joiner_public,
            rest,
            proof_bytes,
            makes,
        );
        let done = proof_checks(room_id, joiner, joiner_public, codes, proof_bytes, makes);
        let first = proof_compared(
            room_id,
            joiner,
            joiner_public,
            codes,
            proof_bytes,
            makes(codes[0]),
        );
        if makes(codes[0]) != Some(proof_bytes) {
            assert(done == proof_checks(room_id, joiner, joiner_public, rest, proof_bytes, makes))
                by {
                if codes.len() > 1 {
                    assert(first[0] is CheckJoinProof);
                } else {
                    assert(rest.len() == 0);
                }
            }
        } else {
            assert(first[0] is AnswerJoin);
        }
        assert forall|i: int|
            0 <= i < codes.len() && makes(#[trigger] codes[i]) == Some(proof_bytes) && (forall|j: int|
                0 <= j < i ==> makes(#[trigger] codes[j]) != Some(proof_bytes)) implies done == seq![
            EffectView::AnswerJoin {
                room_id,
                joiner_fingerprint: joiner,
                joiner_public,
                code: codes[i],
            },
        ] by {
            if i > 0 {
                assert(makes(codes[0]) != Some(proof_bytes));
                assert(rest[i - 1] == codes[i]);
                assert forall|j: int| 0 <= j < i - 1 implies makes(#[trigger] rest[j]) != Some(
                    proof_bytes,
                ) by {
                    assert(rest[j] == codes[j + 1]);
                }
            }
        }
        if forall|j: int| 0 <= j < codes.len() ==> makes(#[trigger] codes[j]) != Some(proof_bytes) {
            assert forall|j: int| 0 <= j < rest.len() implies makes(#[trigger] rest[j]) != Some(
                proof_bytes,
            ) by {
                assert(rest[j] == codes[j + 1]);
            }
            assert(makes(codes[0]) != Some(proof_bytes));
        }
    }
}

/// The limit of checks decides on nothing but a message that counts towards it.
pub proof fn law_only_proofs_that_count_are_limited(
    app: AppView,
    f: FactsView,
    e: EnvelopeView,
    claimed: Seq<char>,
    joiner_key: Seq<char>,
    code: Seq<char>,
    proof_b64: Option<Seq<char>>,
    allowed: bool,
)
    requires
        !app.counts_as_proof(
            f,
            e,
            MessageView::CodeJoinRequest {
                room_id: claimed,
                joiner_x25519_pubkey_b64: joiner_key,
                code,
                code_proof: proof_b64,
            },
        ),
    ensures
        app.on_code_join_request(
            FactsView { proof_allowed: allowed, ..f },
            e,
            claimed,
            joiner_key,
            code,
            proof_b64,
        ) == app.on_code_join_request(f, e, claimed, joiner_key, code, proof_b64),
{
    assert(FactsView { proof_allowed: allowed, ..f }.is_owner(app.our_fp()) == f.is_owner(
        app.our_fp(),
    ));
}

} // verus!
