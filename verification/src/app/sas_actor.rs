//! The verification of a partner by a short code that both sides compare.
//!
//! The actor holds the verifications under way and says what is to be published, shown or stored.
//! It does nothing of that itself.
use crate::app::events::{AppEvent, EventView};
use crate::app::messages::{MessageView, RoomMessage};
use crate::bytes;
use crate::crypto::pqc::MLKEM_EK_LEN;
use crate::crypto::sas::{SasCode, SasCodeView};
use crate::crypto::{primitives, sas};
use crate::strmap::{self, StrMap};
use crate::{sums, text};
use vstd::prelude::*;

verus! {

/// How long a verification may stand still, in seconds.
pub const SAS_FLOW_TTL_SECS: i64 = 900;

/// How many verifications there may be before others can no longer begin one with us.
pub const SAS_FLOWS_CAP: usize = 256;

/// How many of them may be with one partner before that partner can no longer begin one.
pub const SAS_FLOWS_PER_PEER: usize = 8;

/// A verification under way.
struct SasFlow {
    room_id: String,
    partner_fingerprint: String,
    our_secret: [u8; 32],
    sas_code: Option<SasCode>,
    our_confirmed: bool,
    their_confirmed: bool,
    created_at: i64,
    partner_pq_capable: bool,
}

/// A verification under way, as contracts speak of it.
#[verifier::ext_equal]
pub struct SasFlowView {
    pub room_id: Seq<char>,
    pub partner_fingerprint: Seq<char>,
    pub our_secret: Seq<u8>,
    /// The code, once the keys of both sides are known.
    pub sas_code: Option<SasCodeView>,
    pub our_confirmed: bool,
    pub their_confirmed: bool,
    /// When it last made progress.
    pub created_at: i64,
    /// The partner's ML-KEM key is bound into the code.
    pub partner_pq_capable: bool,
}

spec fn code_view(c: Option<SasCode>) -> Option<SasCodeView> {
    match c {
        Some(c) => Some(c@),
        None => None,
    }
}

impl View for SasFlow {
    type V = SasFlowView;

    closed spec fn view(&self) -> SasFlowView {
        SasFlowView {
            room_id: self.room_id@,
            partner_fingerprint: self.partner_fingerprint@,
            our_secret: self.our_secret@,
            sas_code: code_view(self.sas_code),
            our_confirmed: self.our_confirmed,
            their_confirmed: self.their_confirmed,
            created_at: self.created_at,
            partner_pq_capable: self.partner_pq_capable,
        }
    }
}

/// What is to be done after a step of a verification.
#[derive(Debug)]
pub enum SasOutcome {
    /// Sign the message and publish it to the room.
    Publish { room_id: String, msg: RoomMessage },
    /// Tell the user interface.
    Emit(AppEvent),
    /// Both sides matched: remember the partner as verified.
    Finalize { room_id: String, partner_fingerprint: String, pq_capable: bool },
}

/// A `SasOutcome`, as contracts speak of it.
pub enum OutcomeView {
    Publish { room_id: Seq<char>, msg: MessageView },
    Emit(EventView),
    Finalize { room_id: Seq<char>, partner_fingerprint: Seq<char>, pq_capable: bool },
}

impl View for SasOutcome {
    type V = OutcomeView;

    open spec fn view(&self) -> OutcomeView {
        match self {
            SasOutcome::Publish { room_id, msg } => OutcomeView::Publish {
                room_id: room_id@,
                msg: msg@,
            },
            SasOutcome::Emit(x) => OutcomeView::Emit(x@),
            SasOutcome::Finalize { room_id, partner_fingerprint, pq_capable } => OutcomeView::Finalize {
                room_id: room_id@,
                partner_fingerprint: partner_fingerprint@,
                pq_capable: *pq_capable,
            },
        }
    }
}

/// Outcomes by their views.
pub open spec fn outcomes(s: Seq<SasOutcome>) -> Seq<OutcomeView> {
    s.map_values(|x: SasOutcome| x@)
}

/// Why a match was refused.
#[derive(Debug, Clone, Copy, PartialEq, Eq, Structural)]
pub enum SasError {
    UnknownTx,
    CodeNotReady,
}

/// The verifications under way.
pub struct SasActor {
    flows: StrMap<SasFlow>,
    our_fingerprint: String,
    our_mlkem_ek: [u8; MLKEM_EK_LEN],
}

/// The verifications under way, as contracts speak of them.
#[verifier::ext_equal]
pub struct SasView {
    /// By their transaction ids.
    pub flows: Map<Seq<char>, SasFlowView>,
    pub our_fingerprint: Seq<char>,
    pub our_ek: Seq<u8>,
}

impl View for SasActor {
    type V = SasView;

    closed spec fn view(&self) -> SasView {
        SasView {
            flows: strmap::views(self.flows@),
            our_fingerprint: self.our_fingerprint@,
            our_ek: self.our_mlkem_ek@,
        }
    }
}

/// The bytes of a transaction id.
pub open spec fn tx_bytes(tx_id: Seq<char>) -> Option<Seq<u8>> {
    match primitives::base64_bytes(tx_id) {
        Ok(b) => if b.len() == sas::TX_ID_LEN {
            Some(b)
        } else {
            None
        },
        Err(_) => None,
    }
}

/// How many of the verifications are with this partner.
pub open spec fn flows_with(flows: Map<Seq<char>, SasFlowView>, partner: Seq<char>) -> nat {
    sums::map_sum(
        flows,
        |f: SasFlowView|
            if f.partner_fingerprint == partner {
                1nat
            } else {
                0nat
            },
    )
}

/// The event that shows a code.
pub open spec fn code_ready(
    room_id: Seq<char>,
    partner: Seq<char>,
    tx_id: Seq<char>,
    code: SasCodeView,
) -> OutcomeView {
    OutcomeView::Emit(
        EventView::SasCodeReady {
            room_id,
            partner_fingerprint: partner,
            tx_id,
            emoji_labels: text::joined(code.labels(), " / "@),
            decimal: code.decimal,
        },
    )
}

impl SasView {
    /// A verification that we confirmed has a code, and each code is one that can be shown.
    pub open spec fn wf(self) -> bool {
        &&& self.flows.dom().finite()
        &&& forall|tx: Seq<char>| #[trigger]
            self.flows.dom().contains(tx) ==> (self.flows[tx].our_confirmed
                ==> self.flows[tx].sas_code is Some)
    }

    pub open spec fn with_flow(self, tx_id: Seq<char>, flow: SasFlowView) -> Self {
        SasView { flows: self.flows.insert(tx_id, flow), ..self }
    }

    pub open spec fn without(self, tx_id: Seq<char>) -> Self {
        SasView { flows: self.flows.remove(tx_id), ..self }
    }

    /// What stood still for too long is gone.
    pub open spec fn reaped(self, now: i64) -> Self {
        SasView {
            flows: Map::new(
                |tx: Seq<char>|
                    self.flows.dom().contains(tx) && now - self.flows[tx].created_at
                        <= SAS_FLOW_TTL_SECS,
                |tx: Seq<char>| self.flows[tx],
            ),
            ..self
        }
    }

    /// We begin a verification with the target.
    pub open spec fn started(
        self,
        room_id: Seq<char>,
        target: Seq<char>,
        now: i64,
        tx_id: Seq<char>,
        secret: Seq<u8>,
    ) -> Self {
        self.with_flow(
            tx_id,
            SasFlowView {
                room_id,
                partner_fingerprint: target,
                our_secret: secret,
                sas_code: None,
                our_confirmed: false,
                their_confirmed: false,
                created_at: now,
                partner_pq_capable: false,
            },
        )
    }

    /// The user says that the codes match. With the partner's word at hand that ends it.
    pub open spec fn matched(self, tx_id: Seq<char>) -> Result<(Self, Seq<OutcomeView>), SasError> {
        if !self.flows.dom().contains(tx_id) {
            Err(SasError::UnknownTx)
        } else if self.flows[tx_id].sas_code is None {
            Err(SasError::CodeNotReady)
        } else {
            let flow = self.flows[tx_id];
            let said = OutcomeView::Publish {
                room_id: flow.room_id,
                msg: MessageView::SasConfirm { tx_id, matched: true },
            };
            if flow.their_confirmed {
                Ok((self.without(tx_id), seq![said, flow.finalized()]))
            } else {
                Ok(
                    (
                        self.with_flow(tx_id, SasFlowView { our_confirmed: true, ..flow }),
                        seq![said],
                    ),
                )
            }
        }
    }

    /// The partner says whether the codes match. With our own word at hand that ends it.
    pub open spec fn confirmed(
        self,
        tx_id: Seq<char>,
        matched: bool,
        signer: Option<Seq<char>>,
    ) -> (Self, Seq<OutcomeView>) {
        if self.flows.dom().contains(tx_id) && signer == Some(
            self.flows[tx_id].partner_fingerprint,
        ) {
            let flow = self.flows[tx_id];
            if !matched {
                (self.without(tx_id), seq![])
            } else if flow.our_confirmed {
                (self.without(tx_id), seq![flow.finalized()])
            } else {
                (self.with_flow(tx_id, SasFlowView { their_confirmed: true, ..flow }), seq![])
            }
        } else {
            (self, seq![])
        }
    }

    /// Another peer may begin a verification under this transaction id.
    pub open spec fn has_room_for(self, tx_id: Seq<char>, signer: Seq<char>) -> bool {
        self.flows.dom().contains(tx_id) || (self.flows.dom().len() < SAS_FLOWS_CAP && flows_with(
            self.flows,
            signer,
        ) < SAS_FLOWS_PER_PEER)
    }

    /// A peer begins a verification with us, and we answer with the key pair `secret`, `public`.
    pub open spec fn init_taken(
        self,
        room_id: Seq<char>,
        tx_id: Seq<char>,
        their_key: Seq<char>,
        target: Seq<char>,
        signer: Option<Seq<char>>,
        now: i64,
        partner_ek: Option<Seq<u8>>,
        secret: Seq<u8>,
        public: Seq<u8>,
    ) -> (Self, Seq<OutcomeView>) {
        match (signer, sas::public_key_of(their_key), tx_bytes(tx_id)) {
            (Some(partner), Ok(theirs), Some(tx)) => {
                match sas::code_of(secret, theirs, tx, Some(self.our_ek), partner_ek) {
                    Ok(code) => if target == self.our_fingerprint && self.has_room_for(
                        tx_id,
                        partner,
                    ) {
                        (
                            self.with_flow(
                                tx_id,
                                SasFlowView {
                                    room_id,
                                    partner_fingerprint: partner,
                                    our_secret: secret,
                                    sas_code: Some(code),
                                    our_confirmed: false,
                                    their_confirmed: false,
                                    created_at: now,
                                    partner_pq_capable: partner_ek is Some,
                                },
                            ),
                            seq![
                                OutcomeView::Publish {
                                    room_id,
                                    msg: MessageView::SasResponse {
                                        tx_id,
                                        ephemeral_x25519_pubkey_b64: primitives::base64_text(
                                            public,
                                        ),
                                    },
                                },
                                code_ready(room_id, partner, tx_id, code),
                            ],
                        )
                    } else {
                        (self, seq![])
                    },
                    Err(_) => (self, seq![]),
                }
            },
            _ => (self, seq![]),
        }
    }

    /// The partner answers a verification that we began.
    pub open spec fn response_taken(
        self,
        room_id: Seq<char>,
        tx_id: Seq<char>,
        their_key: Seq<char>,
        signer: Option<Seq<char>>,
        now: i64,
        partner_ek: Option<Seq<u8>>,
    ) -> (Self, Seq<OutcomeView>) {
        match (signer, sas::public_key_of(their_key), tx_bytes(tx_id)) {
            (Some(partner), Ok(theirs), Some(tx)) => if self.flows.dom().contains(tx_id)
                && self.flows[tx_id].partner_fingerprint == partner {
                let flow = self.flows[tx_id];
                match sas::code_of(flow.our_secret, theirs, tx, Some(self.our_ek), partner_ek) {
                    Ok(code) => (
                        self.with_flow(
                            tx_id,
                            SasFlowView {
                                sas_code: Some(code),
                                partner_pq_capable: partner_ek is Some,
                                created_at: now,
                                ..flow
                            },
                        ),
                        seq![code_ready(room_id, partner, tx_id, code)],
                    ),
                    Err(_) => (self, seq![]),
                }
            } else {
                (self, seq![])
            },
            _ => (self, seq![]),
        }
    }
}

impl SasFlowView {
    /// Both sides matched.
    pub open spec fn finalized(self) -> OutcomeView {
        OutcomeView::Finalize {
            room_id: self.room_id,
            partner_fingerprint: self.partner_fingerprint,
            pq_capable: self.partner_pq_capable,
        }
    }
}

/// Decodes a transaction id.
fn decode_tx_id(tx_id: &str) -> (r: Option<[u8; sas::TX_ID_LEN]>)
    ensures
        match r {
            Some(b) => tx_bytes(tx_id@) == Some(b@),
            None => tx_bytes(tx_id@) is None,
        },
{
    match primitives::base64_decode(tx_id) {
        Ok(b) => {
            if b.len() == sas::TX_ID_LEN {
                Some(bytes::array_16(b.as_slice()))
            } else {
                None
            }
        },
        Err(_) => None,
    }
}

/// The code can be shown, whoever derived it.
proof fn lemma_code_wf(
    secret: Seq<u8>,
    their_public: Seq<u8>,
    tx_id: Seq<u8>,
    our_ek: Option<Seq<u8>>,
    their_ek: Option<Seq<u8>>,
)
    ensures
        sas::code_of(secret, their_public, tx_id, our_ek, their_ek) matches Ok(code) ==> code.wf(),
{
    let shared = primitives::x25519_shared(secret, their_public);
    sas::law_code_is_well_formed(shared, tx_id, sas::transcript(our_ek, their_ek));
}

fn code_ready_event(room_id: &str, partner: &str, tx_id: &str, code: &SasCode) -> (r: SasOutcome)
    requires
        code@.wf(),
    ensures
        r@ == code_ready(room_id@, partner@, tx_id@, code@),
{
    SasOutcome::Emit(
        AppEvent::SasCodeReady {
            room_id: text::owned(room_id),
            partner_fingerprint: text::owned(partner),
            tx_id: text::owned(tx_id),
            emoji_labels: code.emoji_labels(),
            decimal: code.decimal.clone(),
        },
    )
}

impl SasActor {
    pub fn new(our_fingerprint: String, our_mlkem_ek: [u8; MLKEM_EK_LEN]) -> (r: Self)
        ensures
            r@ == (SasView {
                flows: Map::empty(),
                our_fingerprint: our_fingerprint@,
                our_ek: our_mlkem_ek@,
            }),
            r@.wf(),
    {
        let r = SasActor { flows: StrMap::new(), our_fingerprint, our_mlkem_ek };
        assert(r@.flows =~= Map::<Seq<char>, SasFlowView>::empty());
        r
    }

    /// Drops the verifications that stood still for too long.
    pub fn reap(&mut self, now: i64)
        ensures
            final(self)@ == old(self)@.reaped(now),
            old(self)@.wf() ==> final(self)@.wf(),
    {
        let n: usize = self.flows.len();
        let ghost before = self.flows@;
        let ghost keys = self.flows.keys();
        let mut stale: Vec<String> = Vec::new();
        let mut i: usize = 0;
        while i < n
            invariant
                i <= n,
                n == keys.len(),
                self.flows@ == before,
                self.flows.keys() == keys,
                *self == *old(self),
                before.dom().finite(),
                forall|k: Seq<char>| keys.contains(k) == #[trigger] before.dom().contains(k),
                forall|k: Seq<char>|
                    text::texts(stale@).contains(k) <==> (keys.take(i as int).contains(k) && now
                        - before[k]@.created_at > SAS_FLOW_TTL_SECS),
            decreases n - i,
        {
            let ghost k0 = keys[i as int];
            let ghost seen = keys.take(i as int);
            let ghost stale0 = text::texts(stale@);
            let flow: &SasFlow = self.flows.value_at(i);
            let old_enough: bool = now as i128 - flow.created_at as i128
                > SAS_FLOW_TTL_SECS as i128;
            assert(keys.contains(k0));
            assert(old_enough == (now - before[k0]@.created_at > SAS_FLOW_TTL_SECS));
            if old_enough {
                stale.push(text::owned(self.flows.key_at(i)));
            }
            proof {
                assert(keys.take(i + 1) =~= seen.push(k0));
                strmap::lemma_push_contains(seen, k0);
                if old_enough {
                    assert(text::texts(stale@) =~= stale0.push(k0));
                    strmap::lemma_push_contains(stale0, k0);
                }
            }
            i = i + 1;
        }
        assert(keys.take(n as int) =~= keys);
        let ghost gone = text::texts(stale@);
        let mut j: usize = 0;
        while j < stale.len()
            invariant
                j <= stale@.len(),
                gone == text::texts(stale@),
                self.our_fingerprint == old(self).our_fingerprint,
                self.our_mlkem_ek == old(self).our_mlkem_ek,
                self.flows@ == before.remove_keys(gone.take(j as int).to_set()),
                forall|k: Seq<char>|
                    gone.contains(k) <==> (before.dom().contains(k) && now - before[k]@.created_at
                        > SAS_FLOW_TTL_SECS),
            decreases stale@.len() - j,
        {
            self.flows.remove(stale[j].as_str());
            proof {
                let a = gone.take(j as int);
                let b = gone.take(j + 1);
                assert(b =~= a.push(gone[j as int]));
                strmap::lemma_push_contains(a, gone[j as int]);
                assert(b.to_set() =~= a.to_set().insert(gone[j as int]));
                assert(self.flows@ =~= before.remove_keys(b.to_set()));
            }
            j = j + 1;
        }
        proof {
            assert(gone.take(gone.len() as int) =~= gone);
            assert(self@.flows =~= old(self)@.reaped(now).flows);
            if old(self)@.wf() {
                assert(self@.flows.dom().subset_of(old(self)@.flows.dom()));
                vstd::set_lib::lemma_len_subset(self@.flows.dom(), old(self)@.flows.dom());
            }
        }
    }

    /// Begins a verification with this session: the transaction id and the message to send.
    pub fn start_with(
        &mut self,
        room_id: &str,
        target_fingerprint: &str,
        now: i64,
        session: ([u8; sas::TX_ID_LEN], [u8; 32], [u8; 32]),
    ) -> (r: (String, Vec<SasOutcome>))
        ensures
            r.0@ == primitives::base64_text(session.0@),
            tx_bytes(r.0@) == Some(session.0@),
            final(self)@ == old(self)@.started(
                room_id@,
                target_fingerprint@,
                now,
                r.0@,
                session.1@,
            ),
            old(self)@.wf() ==> final(self)@.wf(),
            outcomes(r.1@) == seq![
                OutcomeView::Publish {
                    room_id: room_id@,
                    msg: MessageView::SasInit {
                        tx_id: r.0@,
                        ephemeral_x25519_pubkey_b64: primitives::base64_text(session.2@),
                        target_fingerprint: target_fingerprint@,
                    },
                },
            ],
            session.2@.len() == 32 ==> sas::public_key_of(primitives::base64_text(session.2@)) == Ok::<
                Seq<u8>,
                crate::error::ErrorView,
            >(session.2@),
    {
        let tx_id: String = primitives::base64_encode(session.0.as_slice());
        let key: String = primitives::base64_encode(session.2.as_slice());
        self.put(
            tx_id.clone(),
            SasFlow {
                room_id: text::owned(room_id),
                partner_fingerprint: text::owned(target_fingerprint),
                our_secret: session.1,
                sas_code: None,
                our_confirmed: false,
                their_confirmed: false,
                created_at: now,
                partner_pq_capable: false,
            },
        );
        let mut out: Vec<SasOutcome> = Vec::new();
        out.push(
            SasOutcome::Publish {
                room_id: text::owned(room_id),
                msg: RoomMessage::SasInit {
                    tx_id: tx_id.clone(),
                    ephemeral_x25519_pubkey_b64: key,
                    target_fingerprint: text::owned(target_fingerprint),
                },
            },
        );
        assert(outcomes(out@) =~= seq![out@[0]@]);
        (tx_id, out)
    }

    /// Begins a verification, with a session drawn for it.
    pub fn start(&mut self, room_id: &str, target_fingerprint: &str, now: i64) -> (r: (
        String,
        Vec<SasOutcome>,
    ))
        ensures
            exists|tx: Seq<u8>, secret: Seq<u8>, public: Seq<u8>| #[trigger]
                sas::is_key_pair(secret, public) && tx_bytes(r.0@) == Some(tx) && r.0@
                    == #[trigger] primitives::base64_text(tx) && final(self)@ == old(self)@.started(
                    room_id@,
                    target_fingerprint@,
                    now,
                    r.0@,
                    secret,
                ) && outcomes(r.1@) == seq![
                    OutcomeView::Publish {
                        room_id: room_id@,
                        msg: MessageView::SasInit {
                            tx_id: r.0@,
                            ephemeral_x25519_pubkey_b64: primitives::base64_text(public),
                            target_fingerprint: target_fingerprint@,
                        },
                    },
                ],
            old(self)@.wf() ==> final(self)@.wf(),
    {
        let session = sas::new_session();
        let r = self.start_with(room_id, target_fingerprint, now, session);
        assert(sas::is_key_pair(session.1@, session.2@) && r.0@ == primitives::base64_text(
            session.0@,
        ));
        r
    }

    fn put(&mut self, tx_id: String, flow: SasFlow)
        ensures
            final(self)@ == old(self)@.with_flow(tx_id@, flow@),
    {
        let ghost before = self@;
        let ghost k = tx_id@;
        let ghost f = flow@;
        self.flows.insert(tx_id, flow);
        assert(self@.flows =~= before.flows.insert(k, f));
    }

    fn take(&mut self, tx_id: &str) -> (r: Option<SasFlow>)
        ensures
            match r {
                Some(f) => old(self)@.flows.dom().contains(tx_id@) && f@ == old(
                    self,
                )@.flows[tx_id@] && final(self)@ == old(self)@.without(tx_id@),
                None => !old(self)@.flows.dom().contains(tx_id@) && final(self)@ == old(self)@,
            },
    {
        let ghost before = self@;
        let r: Option<SasFlow> = self.flows.remove(tx_id);
        assert(self@.flows =~= before.flows.remove(tx_id@));
        if r.is_none() {
            assert(self@.flows =~= before.flows);
        }
        r
    }

    /// The user says that the codes match: that is published, and if the partner said so already,
    /// the verification is done.
    pub fn user_match(&mut self, tx_id: &str, _now: i64) -> (r: Result<Vec<SasOutcome>, SasError>)
        ensures
            match r {
                Ok(out) => old(self)@.matched(tx_id@) == Ok::<_, SasError>(
                    (final(self)@, outcomes(out@)),
                ),
                Err(e) => old(self)@.matched(tx_id@) == Err::<(SasView, Seq<OutcomeView>), _>(e)
                    && final(self)@ == old(self)@,
            },
            old(self)@.wf() ==> final(self)@.wf(),
    {
        let ghost before = self@;
        let mut flow: SasFlow = match self.take(tx_id) {
            None => {
                return Err(SasError::UnknownTx);
            },
            Some(f) => f,
        };
        if flow.sas_code.is_none() {
            self.put(text::owned(tx_id), flow);
            assert(self@.flows =~= before.flows);
            return Err(SasError::CodeNotReady);
        }
        let mut out: Vec<SasOutcome> = Vec::new();
        out.push(
            SasOutcome::Publish {
                room_id: flow.room_id.clone(),
                msg: RoomMessage::SasConfirm { tx_id: text::owned(tx_id), matched: true },
            },
        );
        if flow.their_confirmed {
            out.push(
                SasOutcome::Finalize {
                    room_id: flow.room_id.clone(),
                    partner_fingerprint: flow.partner_fingerprint.clone(),
                    pq_capable: flow.partner_pq_capable,
                },
            );
            assert(outcomes(out@) =~= seq![out@[0]@, out@[1]@]);
        } else {
            flow.our_confirmed = true;
            self.put(text::owned(tx_id), flow);
            assert(outcomes(out@) =~= seq![out@[0]@]);
            assert(self@.flows =~= before.flows.insert(tx_id@, flow@));
        }
        Ok(out)
    }

    /// Drops a verification.
    pub fn cancel(&mut self, tx_id: &str)
        ensures
            final(self)@ == old(self)@.without(tx_id@),
            old(self)@.wf() ==> final(self)@.wf(),
    {
        let ghost before = self@;
        let gone: Option<SasFlow> = self.take(tx_id);
        if gone.is_none() {
            assert(before.flows.remove(tx_id@) =~= before.flows);
        }
    }

    /// How many verifications are with this partner.
    fn count_with(&self, partner: &str) -> (r: usize)
        ensures
            r == flows_with(self@.flows, partner@),
    {
        let n: usize = self.flows.len();
        let ghost keys = self.flows.keys();
        let ghost one = |f: SasFlowView|
            if f.partner_fingerprint == partner@ {
                1nat
            } else {
                0nat
            };
        let mut count: usize = 0;
        let mut i: usize = 0;
        assert(sums::keys_sum(keys.take(0), self@.flows, one) == 0);
        while i < n
            invariant
                i <= n,
                count <= i,
                n == keys.len(),
                keys == self.flows.keys(),
                forall|k: Seq<char>| keys.contains(k) == #[trigger] self.flows@.dom().contains(k),
                one == (|f: SasFlowView|
                    if f.partner_fingerprint == partner@ {
                        1nat
                    } else {
                        0nat
                    }),
                count == sums::keys_sum(keys.take(i as int), self@.flows, one),
            decreases n - i,
        {
            let ghost k0 = keys[i as int];
            proof {
                assert(keys.contains(k0));
                assert(keys.take(i + 1).drop_last() =~= keys.take(i as int));
            }
            if text::same(self.flows.value_at(i).partner_fingerprint.as_str(), partner) {
                count = count + 1;
            }
            i = i + 1;
        }
        proof {
            assert(keys.take(n as int) =~= keys);
            assert(self@.flows.dom() =~= self.flows@.dom());
            sums::lemma_keys_sum(keys, self@.flows, one);
        }
        count
    }

    /// A peer begins a verification: it is taken up with this key pair of ours.
    pub fn inbound_init_with(
        &mut self,
        room_id: &str,
        tx_id: String,
        ephemeral_x25519_pubkey_b64: &str,
        target_fingerprint: &str,
        signer: Option<String>,
        now: i64,
        partner_mlkem_ek: Option<Vec<u8>>,
        our_secret: [u8; 32],
        our_public: [u8; 32],
    ) -> (r: Vec<SasOutcome>)
        ensures
            (final(self)@, outcomes(r@)) == old(self)@.init_taken(
                room_id@,
                tx_id@,
                ephemeral_x25519_pubkey_b64@,
                target_fingerprint@,
                text::opt(signer),
                now,
                bytes::opt(partner_mlkem_ek),
                our_secret@,
                our_public@,
            ),
            old(self)@.wf() ==> final(self)@.wf(),
    {
        let mut out: Vec<SasOutcome> = Vec::new();
        assert(outcomes(out@) =~= seq![]);
        if !text::same(target_fingerprint, self.our_fingerprint.as_str()) {
            return out;
        }
        let signer: String = match signer {
            Some(s) => s,
            None => {
                return out;
            },
        };
        let theirs: [u8; 32] = match sas::parse_pubkey(ephemeral_x25519_pubkey_b64) {
            Ok(k) => k,
            Err(_) => {
                return out;
            },
        };
        let tx: [u8; 16] = match decode_tx_id(tx_id.as_str()) {
            Some(t) => t,
            None => {
                return out;
            },
        };
        if !self.flows.contains_key(tx_id.as_str()) {
            let n: usize = self.flows.len();
            assert(self@.flows.dom() =~= self.flows@.dom());
            if n >= SAS_FLOWS_CAP || self.count_with(signer.as_str()) >= SAS_FLOWS_PER_PEER {
                return out;
            }
        }
        let pq_capable: bool = partner_mlkem_ek.is_some();
        let ek: Option<&[u8]> = match &partner_mlkem_ek {
            Some(v) => Some(v.as_slice()),
            None => None,
        };
        let code: SasCode = match sas::derive_sas_code(
            &our_secret,
            &theirs,
            &tx,
            Some(self.our_mlkem_ek.as_slice()),
            ek,
        ) {
            Ok(c) => c,
            Err(_) => {
                return out;
            },
        };
        proof {
            lemma_code_wf(
                our_secret@,
                theirs@,
                tx@,
                Some(self.our_mlkem_ek@),
                sas::bytes_of(ek),
            );
        }
        let key: String = primitives::base64_encode(our_public.as_slice());
        out.push(
            SasOutcome::Publish {
                room_id: text::owned(room_id),
                msg: RoomMessage::SasResponse {
                    tx_id: tx_id.clone(),
                    ephemeral_x25519_pubkey_b64: key,
                },
            },
        );
        out.push(code_ready_event(room_id, signer.as_str(), tx_id.as_str(), &code));
        assert(outcomes(out@) =~= seq![out@[0]@, out@[1]@]);
        self.put(
            tx_id,
            SasFlow {
                room_id: text::owned(room_id),
                partner_fingerprint: signer,
                our_secret,
                sas_code: Some(code),
                our_confirmed: false,
                their_confirmed: false,
                created_at: now,
                partner_pq_capable: pq_capable,
            },
        );
        out
    }

    /// A peer begins a verification: it is taken up with a key pair drawn for it.
    pub fn inbound_init(
        &mut self,
        room_id: &str,
        tx_id: String,
        ephemeral_x25519_pubkey_b64: &str,
        target_fingerprint: &str,
        signer: Option<String>,
        now: i64,
        partner_mlkem_ek: Option<Vec<u8>>,
    ) -> (r: Vec<SasOutcome>)
        ensures
            exists|secret: Seq<u8>, public: Seq<u8>| #[trigger]
                sas::is_key_pair(secret, public) && (final(self)@, outcomes(r@)) == old(
                    self,
                )@.init_taken(
                    room_id@,
                    tx_id@,
                    ephemeral_x25519_pubkey_b64@,
                    target_fingerprint@,
                    text::opt(signer),
                    now,
                    bytes::opt(partner_mlkem_ek),
                    secret,
                    public,
                ),
            old(self)@.wf() ==> final(self)@.wf(),
    {
        let session = sas::new_session();
        let r = self.inbound_init_with(
            room_id,
            tx_id,
            ephemeral_x25519_pubkey_b64,
            target_fingerprint,
            signer,
            now,
            partner_mlkem_ek,
            session.1,
            session.2,
        );
        assert(sas::is_key_pair(session.1@, session.2@));
        r
    }

    /// The partner answers a verification that we began.
    pub fn inbound_response(
        &mut self,
        room_id: &str,
        tx_id: String,
        ephemeral_x25519_pubkey_b64: &str,
        signer: Option<String>,
        now: i64,
        partner_mlkem_ek: Option<Vec<u8>>,
    ) -> (r: Vec<SasOutcome>)
        ensures
            (final(self)@, outcomes(r@)) == old(self)@.response_taken(
                room_id@,
                tx_id@,
                ephemeral_x25519_pubkey_b64@,
                text::opt(signer),
                now,
                bytes::opt(partner_mlkem_ek),
            ),
            old(self)@.wf() ==> final(self)@.wf(),
    {
        let mut out: Vec<SasOutcome> = Vec::new();
        assert(outcomes(out@) =~= seq![]);
        let signer: String = match signer {
            Some(s) => s,
            None => {
                return out;
            },
        };
        let theirs: [u8; 32] = match sas::parse_pubkey(ephemeral_x25519_pubkey_b64) {
            Ok(k) => k,
            Err(_) => {
                return out;
            },
        };
        let tx: [u8; 16] = match decode_tx_id(tx_id.as_str()) {
            Some(t) => t,
            None => {
                return out;
            },
        };
        let ghost before = self@;
        let mut flow: SasFlow = match self.take(tx_id.as_str()) {
            Some(f) => f,
            None => {
                return out;
            },
        };
        let ek: Option<&[u8]> = match &partner_mlkem_ek {
            Some(v) => Some(v.as_slice()),
            None => None,
        };
        let derived = sas::derive_sas_code(
            &flow.our_secret,
            &theirs,
            &tx,
            Some(self.our_mlkem_ek.as_slice()),
            ek,
        );
        proof {
            lemma_code_wf(
                flow.our_secret@,
                theirs@,
                tx@,
                Some(self.our_mlkem_ek@),
                sas::bytes_of(ek),
            );
        }
        if !text::same(flow.partner_fingerprint.as_str(), signer.as_str()) {
            self.put(tx_id, flow);
            assert(self@.flows =~= before.flows);
            return out;
        }
        match derived {
            Err(_) => {
                self.put(tx_id, flow);
                assert(self@.flows =~= before.flows);
            },
            Ok(code) => {
                out.push(code_ready_event(room_id, signer.as_str(), tx_id.as_str(), &code));
                assert(outcomes(out@) =~= seq![out@[0]@]);
                flow.sas_code = Some(code);
                flow.partner_pq_capable = partner_mlkem_ek.is_some();
                flow.created_at = now;
                let ghost k = tx_id@;
                self.put(tx_id, flow);
                assert(self@.flows =~= before.flows.insert(k, flow@));
            },
        }
        out
    }

    /// The partner says whether the codes match. Only the word of the partner counts, and only a
    /// match that we confirmed too is a verification.
    pub fn inbound_confirm(&mut self, tx_id: &str, matched: bool, signer: Option<String>) -> (r: Vec<
        SasOutcome,
    >)
        ensures
            (final(self)@, outcomes(r@)) == old(self)@.confirmed(
                tx_id@,
                matched,
                text::opt(signer),
            ),
            old(self)@.wf() ==> final(self)@.wf(),
    {
        let mut out: Vec<SasOutcome> = Vec::new();
        assert(outcomes(out@) =~= seq![]);
        let ghost before = self@;
        let signer: String = match signer {
            Some(s) => s,
            None => {
                return out;
            },
        };
        let mut flow: SasFlow = match self.take(tx_id) {
            Some(f) => f,
            None => {
                return out;
            },
        };
        if !text::same(flow.partner_fingerprint.as_str(), signer.as_str()) {
            self.put(text::owned(tx_id), flow);
            assert(self@.flows =~= before.flows);
            return out;
        }
        if !matched {
            return out;
        }
        if flow.our_confirmed {
            out.push(
                SasOutcome::Finalize {
                    room_id: flow.room_id.clone(),
                    partner_fingerprint: flow.partner_fingerprint.clone(),
                    pq_capable: flow.partner_pq_capable,
                },
            );
            assert(outcomes(out@) =~= seq![out@[0]@]);
        } else {
            flow.their_confirmed = true;
            self.put(text::owned(tx_id), flow);
            assert(self@.flows =~= before.flows.insert(tx_id@, flow@));
        }
        out
    }
}

// ---------------------------------------------------------------------------------------------
// Laws
// ---------------------------------------------------------------------------------------------

/// What is not signed changes nothing and causes nothing.
pub proof fn law_unsigned_steps_do_nothing(
    s: SasView,
    room_id: Seq<char>,
    tx_id: Seq<char>,
    key: Seq<char>,
    target: Seq<char>,
    now: i64,
    partner_ek: Option<Seq<u8>>,
    secret: Seq<u8>,
    public: Seq<u8>,
    matched: bool,
)
    ensures
        s.init_taken(room_id, tx_id, key, target, None, now, partner_ek, secret, public) == (
            s,
            Seq::<OutcomeView>::empty(),
        ),
        s.response_taken(room_id, tx_id, key, None, now, partner_ek) == (
            s,
            Seq::<OutcomeView>::empty(),
        ),
        s.confirmed(tx_id, matched, None) == (s, Seq::<OutcomeView>::empty()),
{
}

/// However many verifications others begin with us, there are never more than the cap because of
/// it, and no partner gets more than their share by new transaction ids.
pub proof fn law_inbound_flows_are_capped(
    s: SasView,
    room_id: Seq<char>,
    tx_id: Seq<char>,
    key: Seq<char>,
    target: Seq<char>,
    signer: Seq<char>,
    now: i64,
    partner_ek: Option<Seq<u8>>,
    secret: Seq<u8>,
    public: Seq<u8>,
)
    requires
        s.wf(),
    ensures
        ({
            let next = s.init_taken(
                room_id,
                tx_id,
                key,
                target,
                Some(signer),
                now,
                partner_ek,
                secret,
                public,
            ).0;
            &&& next.flows.dom().len() > s.flows.dom().len() ==> next.flows.dom().len()
                <= SAS_FLOWS_CAP
            &&& !s.flows.dom().contains(tx_id) && next != s ==> flows_with(next.flows, signer)
                <= SAS_FLOWS_PER_PEER
        }),
{
    let next = s.init_taken(
        room_id,
        tx_id,
        key,
        target,
        Some(signer),
        now,
        partner_ek,
        secret,
        public,
    ).0;
    if next != s {
        let one = |f: SasFlowView|
            if f.partner_fingerprint == signer {
                1nat
            } else {
                0nat
            };
        sums::lemma_sum_insert(s.flows, one, tx_id, next.flows[tx_id]);
        assert(next.flows =~= s.flows.insert(tx_id, next.flows[tx_id]));
        if !s.flows.dom().contains(tx_id) {
            assert(s.flows.remove(tx_id) =~= s.flows);
        } else {
            assert(next.flows.dom() =~= s.flows.dom());
        }
    }
}

/// A partner is only taken as verified once the code was derived and both sides said that it
/// matches, and the verification is gone then, so that it happens once.
pub proof fn law_verified_only_after_both_match(
    s: SasView,
    tx_id: Seq<char>,
    matched: bool,
    signer: Option<Seq<char>>,
    done: OutcomeView,
)
    requires
        s.wf(),
        done is Finalize,
    ensures
        s.matched(tx_id) matches Ok(step) ==> (step.1.contains(done) ==> {
            &&& s.flows.dom().contains(tx_id)
            &&& s.flows[tx_id].their_confirmed
            &&& s.flows[tx_id].sas_code is Some
            &&& done == s.flows[tx_id].finalized()
            &&& !step.0.flows.dom().contains(tx_id)
        }),
        s.confirmed(tx_id, matched, signer).1.contains(done) ==> {
            &&& s.flows.dom().contains(tx_id)
            &&& matched
            &&& signer == Some(s.flows[tx_id].partner_fingerprint)
            &&& s.flows[tx_id].our_confirmed
            &&& s.flows[tx_id].sas_code is Some
            &&& done == s.flows[tx_id].finalized()
            &&& !s.confirmed(tx_id, matched, signer).0.flows.dom().contains(tx_id)
        },
{
}

/// Both sides of a verification end up with a code, and with the same one: where each knows the other's ML-KEM key
/// or neither does, and the messages between them arrive as they were sent.
pub proof fn law_both_sides_show_the_same_code(
    a: SasView,
    b: SasView,
    room_id: Seq<char>,
    now: i64,
    tx_id: Seq<char>,
    a_secret: Seq<u8>,
    a_public: Seq<u8>,
    a_key: Seq<char>,
    b_secret: Seq<u8>,
    b_public: Seq<u8>,
    b_key: Seq<char>,
    know_keys: bool,
)
    requires
        sas::is_key_pair(a_secret, a_public),
        sas::is_key_pair(b_secret, b_public),
        tx_bytes(tx_id) is Some,
        sas::public_key_of(a_key) == Ok::<Seq<u8>, crate::error::ErrorView>(a_public),
        sas::public_key_of(b_key) == Ok::<Seq<u8>, crate::error::ErrorView>(b_public),
        b.has_room_for(tx_id, a.our_fingerprint),
    ensures
        ({
            let a_sees = if know_keys {
                Some(b.our_ek)
            } else {
                None
            };
            let b_sees = if know_keys {
                Some(a.our_ek)
            } else {
                None
            };
            let a1 = a.started(room_id, b.our_fingerprint, now, tx_id, a_secret);
            let b1 = b.init_taken(
                room_id,
                tx_id,
                a_key,
                b.our_fingerprint,
                Some(a.our_fingerprint),
                now,
                b_sees,
                b_secret,
                b_public,
            ).0;
            let a2 = a1.response_taken(
                room_id,
                tx_id,
                b_key,
                Some(b.our_fingerprint),
                now,
                a_sees,
            ).0;
            let code = sas::code_of(
                a_secret,
                b_public,
                tx_bytes(tx_id)->0,
                Some(a.our_ek),
                a_sees,
            );
            code is Ok && b1.flows.dom().contains(tx_id) && a2.flows.dom().contains(tx_id)
                && a2.flows[tx_id].sas_code == Some(code->Ok_0) && b1.flows[tx_id].sas_code == Some(
                code->Ok_0,
            )
        }),
{
    let tx = tx_bytes(tx_id)->0;
    assert(primitives::x25519_shared(a_secret, b_public) != primitives::zeros32());
    assert(primitives::x25519_shared(a_secret, primitives::x25519_public(b_secret))
        == primitives::x25519_shared(b_secret, a_public));
    if know_keys {
        sas::law_transcript_is_symmetric(a.our_ek, b.our_ek);
    }
    let a_sees = if know_keys {
        Some(b.our_ek)
    } else {
        None
    };
    let b_sees = if know_keys {
        Some(a.our_ek)
    } else {
        None
    };
    assert(sas::code_of(a_secret, b_public, tx, Some(a.our_ek), a_sees) == sas::code_of(
        b_secret,
        a_public,
        tx,
        Some(b.our_ek),
        b_sees,
    ));
}

} // verus!
