//! The key of a chat between two: which one is derived, and when.
use crate::app::{ActiveRoom, RoomView};
use crate::bytes;
use crate::crypto::megolm::RoomCryptoView;
use crate::crypto::passphrase::KEY_LEN;
use crate::crypto::pqc::MLKEM_EK_LEN;
use crate::crypto::{dm, pqc, primitives};
use crate::identity::{Identity, IdentityView};
use crate::text;
use vstd::prelude::*;

verus! {

/// What the caller has to do after a key was sought.
#[derive(Debug, Clone, Copy, PartialEq, Eq, Structural)]
pub enum DmKeyOutcome {
    /// There is a new key: announce ourselves, so that the partner gets our session key under it.
    ReBroadcast,
    /// Ask the partner for what they encapsulated.
    RequestCiphertext,
    Noop,
}

/// Which key is to be derived.
#[derive(Debug, Clone, Copy, PartialEq, Eq, Structural)]
pub enum DmKeyAction {
    Classical,
    /// We encapsulate.
    HybridInitiator,
    /// We decapsulate.
    HybridResponder,
    /// We have to decapsulate, but there is nothing to decapsulate yet.
    RequestCiphertext,
    Noop,
}

/// The rule: a hybrid key is final; a partner who speaks ML-KEM gets a hybrid key and no other; a
/// partner who does not gets a classical key once.
pub open spec fn planned(
    already_keyed: bool,
    already_hybrid: bool,
    partner_pq_capable: bool,
    we_are_initiator: bool,
    have_ciphertext: bool,
) -> DmKeyAction {
    if already_keyed && already_hybrid {
        DmKeyAction::Noop
    } else if partner_pq_capable && we_are_initiator {
        DmKeyAction::HybridInitiator
    } else if partner_pq_capable && have_ciphertext {
        DmKeyAction::HybridResponder
    } else if partner_pq_capable {
        DmKeyAction::RequestCiphertext
    } else if already_keyed {
        DmKeyAction::Noop
    } else {
        DmKeyAction::Classical
    }
}

/// Which key is to be derived.
pub fn plan_dm_key(
    already_keyed: bool,
    already_hybrid: bool,
    partner_pq_capable: bool,
    we_are_initiator: bool,
    have_ciphertext: bool,
) -> (r: DmKeyAction)
    ensures
        r == planned(
            already_keyed,
            already_hybrid,
            partner_pq_capable,
            we_are_initiator,
            have_ciphertext,
        ),
{
    if already_keyed && already_hybrid {
        return DmKeyAction::Noop;
    }
    if partner_pq_capable {
        if we_are_initiator {
            DmKeyAction::HybridInitiator
        } else if have_ciphertext {
            DmKeyAction::HybridResponder
        } else {
            DmKeyAction::RequestCiphertext
        }
    } else if already_keyed {
        DmKeyAction::Noop
    } else {
        DmKeyAction::Classical
    }
}

/// A key for a chat between two.
pub struct DmKeyView {
    pub key: Seq<u8>,
    /// What the partner has to decapsulate, in base64.
    pub ciphertext: Option<Seq<char>>,
    pub hybrid: bool,
}

/// The bytes of a base64 text, where there are any.
pub open spec fn decoded(s: Option<Seq<char>>) -> Option<Seq<u8>> {
    match s {
        None => None,
        Some(s) => match primitives::base64_bytes(s) {
            Ok(b) => Some(b),
            Err(_) => None,
        },
    }
}

/// The bytes of a base64 text, if there are `n` of them.
pub open spec fn decoded_to(s: Option<Seq<char>>, n: nat) -> Option<Seq<u8>> {
    match decoded(s) {
        Some(b) => if b.len() == n {
            Some(b)
        } else {
            None
        },
        None => None,
    }
}

pub(crate) fn decode(s: Option<&str>) -> (r: Option<Vec<u8>>)
    ensures
        bytes::opt(r) == decoded(text::opt_str(s)),
{
    match s {
        None => None,
        Some(s) => match primitives::base64_decode(s) {
            Ok(b) => Some(b),
            Err(_) => None,
        },
    }
}

pub(crate) fn decode_to(s: Option<&str>, n: usize) -> (r: Option<Vec<u8>>)
    ensures
        bytes::opt(r) == decoded_to(text::opt_str(s), n as nat),
{
    match decode(s) {
        Some(b) => if b.len() == n {
            Some(b)
        } else {
            None
        },
        None => None,
    }
}

/// What a partner announced, and what is on disk of them.
pub struct PartnerKeys<'a> {
    /// The Ed25519 key of the announcement, in base64.
    pub ed25519: Option<&'a str>,
    /// The ML-KEM key of the announcement, in base64.
    pub mlkem: Option<&'a str>,
    /// What the partner encapsulated to us, in base64.
    pub ciphertext: Option<&'a str>,
    /// The ML-KEM key that the partner announced before, in base64.
    pub pinned_mlkem: Option<&'a str>,
    /// The partner was verified as one who speaks ML-KEM.
    pub verified_pq_capable: bool,
}

/// What a partner announced and what is on disk of them, as contracts speak of it.
pub struct PartnerKeysView {
    pub ed25519: Option<Seq<char>>,
    pub mlkem: Option<Seq<char>>,
    pub ciphertext: Option<Seq<char>>,
    pub pinned_mlkem: Option<Seq<char>>,
    pub verified_pq_capable: bool,
}

impl<'a> View for PartnerKeys<'a> {
    type V = PartnerKeysView;

    open spec fn view(&self) -> PartnerKeysView {
        PartnerKeysView {
            ed25519: text::opt_str(self.ed25519),
            mlkem: text::opt_str(self.mlkem),
            ciphertext: text::opt_str(self.ciphertext),
            pinned_mlkem: text::opt_str(self.pinned_mlkem),
            verified_pq_capable: self.verified_pq_capable,
        }
    }
}

impl PartnerKeysView {
    /// The ML-KEM key to use: the announced one, else the one announced before.
    pub open spec fn ek(self) -> Option<Seq<char>> {
        if self.mlkem is Some {
            self.mlkem
        } else {
            self.pinned_mlkem
        }
    }

    /// The partner speaks ML-KEM, as far as we ever heard.
    pub open spec fn pq_capable(self) -> bool {
        self.ek() is Some || self.verified_pq_capable
    }
}

/// The key that an action derives, if it can.
pub open spec fn derived(
    action: DmKeyAction,
    id: IdentityView,
    room_id: Seq<char>,
    ed: Seq<u8>,
    keys: PartnerKeysView,
) -> Option<DmKeyView> {
    match action {
        DmKeyAction::Classical => match dm::dm_key(id.seed, ed, room_id) {
            Ok(key) => Some(DmKeyView { key, ciphertext: None, hybrid: false }),
            Err(_) => None,
        },
        DmKeyAction::HybridInitiator => match decoded_to(keys.ek(), MLKEM_EK_LEN as nat) {
            None => None,
            Some(ek) => match dm::hybrid_initiator(id.seed, ed, ek, room_id) {
                Ok(sent) => Some(
                    DmKeyView {
                        key: sent.0,
                        ciphertext: Some(primitives::base64_text(sent.1)),
                        hybrid: true,
                    },
                ),
                Err(_) => None,
            },
        },
        DmKeyAction::HybridResponder => match (
            decoded_to(keys.ek(), MLKEM_EK_LEN as nat),
            decoded(keys.ciphertext),
        ) {
            (Some(_), Some(ct)) => match dm::hybrid_responder(
                pqc::mlkem_seed(id.seed),
                id.seed,
                ed,
                ct,
                room_id,
            ) {
                Ok(key) => Some(DmKeyView { key, ciphertext: None, hybrid: true }),
                Err(_) => None,
            },
            _ => None,
        },
        _ => None,
    }
}

/// What is to be done about the key of a room with this partner, and the key that is derived.
pub open spec fn dm_step(
    room: RoomView,
    id: IdentityView,
    room_id: Seq<char>,
    partner: Seq<char>,
    keys: PartnerKeysView,
) -> (DmKeyOutcome, Option<DmKeyView>) {
    match decoded_to(keys.ed25519, 32) {
        None => (DmKeyOutcome::Noop, None),
        Some(ed) => {
            let action = planned(
                room.key is Some,
                room.is_hybrid,
                keys.pq_capable(),
                text::text_lt(id.fingerprint, partner),
                keys.ciphertext is Some,
            );
            match derived(action, id, room_id, ed, keys) {
                Some(d) => (DmKeyOutcome::ReBroadcast, Some(d)),
                None => if action == DmKeyAction::RequestCiphertext {
                    (DmKeyOutcome::RequestCiphertext, None)
                } else {
                    (DmKeyOutcome::Noop, None)
                },
            }
        },
    }
}

impl RoomView {
    /// The room under this key, with these sessions.
    pub open spec fn keyed(self, d: DmKeyView, crypto: Option<RoomCryptoView>) -> Self {
        RoomView {
            key: Some(d.key),
            is_hybrid: d.hybrid,
            kem_ciphertext: if d.ciphertext is Some {
                d.ciphertext
            } else {
                self.kem_ciphertext
            },
            crypto,
            ..self
        }
    }
}

/// The same sessions with another outbound session in place of ours.
pub open spec fn crypto_rotated(
    c: Option<RoomCryptoView>,
    pickle: Seq<char>,
    now: i64,
) -> Option<RoomCryptoView> {
    match c {
        Some(c) => Some(c.rotated(pickle, now)),
        None => None,
    }
}

/// What becomes of a room after `dm_step`. A key that replaces a classical one comes with a new
/// outbound session: the old one travelled under the classical key.
pub open spec fn dm_applied(
    before: RoomView,
    d: Option<DmKeyView>,
    now: i64,
    after: RoomView,
) -> bool {
    match d {
        None => after == before,
        Some(d) => if before.key is None {
            after == before.keyed(d, before.crypto)
        } else {
            (after.crypto matches Some(c) ==> c.is_unused() && c.wf()) && exists|pickle: Seq<char>|
                after == before.keyed(d, #[trigger] crypto_rotated(before.crypto, pickle, now))
        },
    }
}

/// A derived key.
struct DmKey {
    key: [u8; KEY_LEN],
    ciphertext: Option<String>,
    hybrid: bool,
}

spec fn dm_key_view(d: Option<DmKey>) -> Option<DmKeyView> {
    match d {
        Some(d) => Some(
            DmKeyView { key: d.key@, ciphertext: text::opt(d.ciphertext), hybrid: d.hybrid },
        ),
        None => None,
    }
}

/// Derives the key that an action asks for.
fn derive(
    action: DmKeyAction,
    identity: &Identity,
    room_id: &str,
    ed: &[u8; 32],
    keys: &PartnerKeys,
) -> (r: Option<DmKey>)
    ensures
        dm_key_view(r) == derived(action, identity@, room_id@, ed@, keys@),
{
    let ek_text: Option<&str> = if keys.mlkem.is_some() {
        keys.mlkem
    } else {
        keys.pinned_mlkem
    };
    let mut seed: [u8; 32] = identity.secret_bytes();
    let r: Option<DmKey> = match action {
        DmKeyAction::Classical => match dm::derive_dm_key(&seed, ed, room_id) {
            Ok(key) => Some(DmKey { key, ciphertext: None, hybrid: false }),
            Err(_) => None,
        },
        DmKeyAction::HybridInitiator => match decode_to(ek_text, MLKEM_EK_LEN) {
            None => None,
            Some(ek) => match dm::derive_dm_key_hybrid_initiator(
                &seed,
                ed,
                ek.as_slice(),
                room_id,
            ) {
                Ok((key, ct)) => Some(
                    DmKey {
                        key,
                        ciphertext: Some(primitives::base64_encode(ct.as_slice())),
                        hybrid: true,
                    },
                ),
                Err(_) => None,
            },
        },
        DmKeyAction::HybridResponder => match (
            decode_to(ek_text, MLKEM_EK_LEN),
            decode(keys.ciphertext),
        ) {
            (Some(_), Some(ct)) => match dm::derive_dm_key_hybrid_responder(
                &identity.pq_keypair(),
                &seed,
                ed,
                ct.as_slice(),
                room_id,
            ) {
                Ok(key) => Some(DmKey { key, ciphertext: None, hybrid: true }),
                Err(_) => None,
            },
            _ => None,
        },
        _ => None,
    };
    primitives::wipe_32(&mut seed);
    r
}

impl ActiveRoom {
    /// Seeks the key of a chat between two, after the partner announced themselves.
    pub(crate) fn ensure_dm_key(
        &mut self,
        identity: &Identity,
        room_id: &str,
        partner_fp: &str,
        keys: &PartnerKeys,
        now: i64,
    ) -> (r: DmKeyOutcome)
        requires
            old(self)@.wf(),
        ensures
            final(self)@.wf(),
            r == dm_step(old(self)@, identity@, room_id@, partner_fp@, keys@).0,
            dm_applied(
                old(self)@,
                dm_step(old(self)@, identity@, room_id@, partner_fp@, keys@).1,
                now,
                final(self)@,
            ),
    {
        let ghost before = self@;
        let ed: [u8; 32] = match decode_to(keys.ed25519, 32) {
            None => {
                return DmKeyOutcome::Noop;
            },
            Some(b) => bytes::array_32(b.as_slice()),
        };
        let pq_capable: bool = keys.mlkem.is_some() || keys.pinned_mlkem.is_some()
            || keys.verified_pq_capable;
        let action: DmKeyAction = plan_dm_key(
            self.passphrase_key.is_some(),
            self.dm_is_hybrid,
            pq_capable,
            text::less(identity.fingerprint(), partner_fp),
            keys.ciphertext.is_some(),
        );
        match derive(action, identity, room_id, &ed, keys) {
            None => {
                if action == DmKeyAction::RequestCiphertext {
                    DmKeyOutcome::RequestCiphertext
                } else {
                    DmKeyOutcome::Noop
                }
            },
            Some(d) => {
                let upgrade: bool = self.passphrase_key.is_some();
                let ghost v = dm_key_view(Some(d))->0;
                self.passphrase_key = Some(d.key);
                self.dm_is_hybrid = d.hybrid;
                if d.ciphertext.is_some() {
                    self.dm_kem_ciphertext = d.ciphertext;
                }
                if upgrade {
                    self.rotate_session(now);
                } else {
                    assert(self@ =~= before.keyed(v, before.crypto));
                }
                proof {
                    if upgrade {
                        let pickle = choose|pickle: Seq<char>|
                            self@.crypto == #[trigger] crypto_rotated(before.crypto, pickle, now);
                        assert(self@ =~= before.keyed(
                            v,
                            crypto_rotated(before.crypto, pickle, now),
                        ));
                    }
                }
                DmKeyOutcome::ReBroadcast
            },
        }
    }

    /// Begins a new outbound session, if the room has sessions.
    pub(crate) fn rotate_session(&mut self, now: i64)
        requires
            old(self)@.wf(),
        ensures
            final(self)@.wf(),
            final(self)@ == (RoomView { crypto: final(self)@.crypto, ..old(self)@ }),
            exists|pickle: Seq<char>|
                final(self)@.crypto == #[trigger] crypto_rotated(old(self)@.crypto, pickle, now),
            final(self)@.crypto matches Some(c) ==> c.is_unused(),
    {
        let ghost before = self@;
        let mut none: Option<crate::crypto::megolm::RoomCrypto> = None;
        std::mem::swap(&mut none, &mut self.crypto);
        match none {
            None => {
                assert(self@ =~= before);
                assert(before.crypto == crypto_rotated(before.crypto, Seq::empty(), now));
            },
            Some(mut c) => {
                let ghost c0 = c@;
                c.rotate_outbound_at(now);
                let ghost c1 = c@;
                self.crypto = Some(c);
                proof {
                    let pickle = choose|pickle: Seq<char>|
                        c1 == #[trigger] c0.rotated(pickle, now);
                    assert(self@.crypto == crypto_rotated(before.crypto, pickle, now));
                    assert(self@ =~= RoomView { crypto: self@.crypto, ..before });
                }
            },
        }
    }
}

// ---------------------------------------------------------------------------------------------
// Laws
// ---------------------------------------------------------------------------------------------

/// Once the key is a hybrid one, nothing that the partner announces changes it.
pub proof fn law_hybrid_key_is_final(
    room: RoomView,
    id: IdentityView,
    room_id: Seq<char>,
    partner: Seq<char>,
    keys: PartnerKeysView,
    now: i64,
    after: RoomView,
)
    requires
        room.key is Some,
        room.is_hybrid,
        dm_applied(room, dm_step(room, id, room_id, partner, keys).1, now, after),
    ensures
        after == room,
        dm_step(room, id, room_id, partner, keys).0 == DmKeyOutcome::Noop,
{
}

/// A partner who ever showed an ML-KEM key, or was verified as one who has one, never gets a
/// classical key: there is a hybrid key or no new key at all.
pub proof fn law_pq_partner_never_gets_a_classical_key(
    room: RoomView,
    id: IdentityView,
    room_id: Seq<char>,
    partner: Seq<char>,
    keys: PartnerKeysView,
)
    requires
        keys.mlkem is Some || keys.pinned_mlkem is Some || keys.verified_pq_capable,
    ensures
        dm_step(room, id, room_id, partner, keys).1 matches Some(d) ==> d.hybrid,
{
}

/// The key of a room is never taken away, and a hybrid key never gives way to a classical one.
pub proof fn law_keys_are_never_downgraded(
    room: RoomView,
    id: IdentityView,
    room_id: Seq<char>,
    partner: Seq<char>,
    keys: PartnerKeysView,
    now: i64,
    after: RoomView,
)
    requires
        room.is_hybrid ==> room.key is Some,
        dm_applied(room, dm_step(room, id, room_id, partner, keys).1, now, after),
    ensures
        room.key is Some ==> after.key is Some,
        room.is_hybrid ==> after.is_hybrid && after.key == room.key,
        room.key is Some && after.key != room.key ==> after.is_hybrid,
{
    match dm_step(room, id, room_id, partner, keys).1 {
        None => {},
        Some(d) => {
            if room.key is Some {
                let pickle = choose|pickle: Seq<char>|
                    after == room.keyed(d, #[trigger] crypto_rotated(room.crypto, pickle, now));
                assert(after == room.keyed(d, crypto_rotated(room.crypto, pickle, now)));
            }
        },
    }
}

/// Of two peers with different fingerprints exactly one encapsulates.
pub proof fn law_one_side_encapsulates(a: Seq<char>, b: Seq<char>)
    requires
        a != b,
    ensures
        text::text_lt(a, b) != text::text_lt(b, a),
{
    text::lemma_text_order(a, b);
}

} // verus!
