//! The key of a chat between two.
//!
//! Both peers derive the same 32-byte key, each from their own seed and the other's public key.
//! Where the partner also publishes an ML-KEM key, the key is a hybrid of X25519 and ML-KEM.
use crate::bytes;
use crate::crypto::passphrase::KEY_LEN;
use crate::crypto::pqc::PqKeypair;
use crate::crypto::{pqc, primitives};
use crate::error::{ErrorView, HuddleError};
use crate::identity::IdentityView;
use crate::text;
use vstd::prelude::*;
use vstd::slice::slice_subrange;

verus! {

/// The X25519 secret that two peers share, or why they share none.
pub open spec fn shared_secret(seed: Seq<u8>, partner: Seq<u8>) -> Result<Seq<u8>, ErrorView> {
    match primitives::ed25519_to_x25519(partner) {
        Err(words) => Err(ErrorView::Session("bad ed25519 pubkey: "@ + words)),
        Ok(partner_x) => {
            let shared = primitives::x25519_shared(
                crate::identity::x25519_secret(seed),
                partner_x,
            );
            if shared == primitives::zeros32() {
                Err(
                    ErrorView::Session(
                        "DM key agreement rejected: partner X25519 pubkey is non-contributory (small-order point)"@,
                    ),
                )
            } else {
                Ok(shared)
            }
        },
    }
}

/// The classical key of a chat between two, or why there is none.
pub open spec fn dm_key(seed: Seq<u8>, partner: Seq<u8>, room_id: Seq<char>) -> Result<
    Seq<u8>,
    ErrorView,
> {
    match shared_secret(seed, partner) {
        Err(e) => Err(e),
        Ok(shared) => Ok(
            primitives::hkdf_sha256(
                Some(vstd::utf8::encode_utf8("huddle-dm-key-v1\0"@)),
                shared,
                vstd::utf8::encode_utf8(room_id),
                KEY_LEN as nat,
            ),
        ),
    }
}

fn agree(seed: &[u8; 32], partner: &[u8; 32]) -> (r: Result<[u8; 32], HuddleError>)
    ensures
        crate::error::result_view(r) == shared_secret(seed@, partner@),
{
    let mut digest: [u8; 64] = primitives::sha512_digest(seed.as_slice());
    let mut secret: [u8; 32] = bytes::array_32(slice_subrange(digest.as_slice(), 0, 32));
    assert(secret@ =~= crate::identity::x25519_secret(seed@));
    primitives::wipe_64(&mut digest);
    match primitives::ed25519_montgomery(partner) {
        Err(words) => {
            primitives::wipe_32(&mut secret);
            Err(HuddleError::Session(text::join2("bad ed25519 pubkey: ", words.as_str())))
        },
        Ok(partner_x) => {
            let (shared, contributory) = primitives::x25519_diffie_hellman(&secret, &partner_x);
            primitives::wipe_32(&mut secret);
            if !contributory {
                return Err(
                    crate::error::session_error(
                        "DM key agreement rejected: partner X25519 pubkey is non-contributory (small-order point)",
                    ),
                );
            }
            Ok(shared)
        },
    }
}

/// The classical key of a chat between two: from our Ed25519 seed, the partner's Ed25519 public
/// key and the room id. A partner key that fixes the shared secret by itself is refused.
pub fn derive_dm_key(
    our_ed25519_seed: &[u8; 32],
    partner_ed25519_pubkey: &[u8; 32],
    canonical_room_id: &str,
) -> (r: Result<[u8; KEY_LEN], HuddleError>)
    ensures
        crate::error::result_view(r) == dm_key(
            our_ed25519_seed@,
            partner_ed25519_pubkey@,
            canonical_room_id@,
        ),
{
    match agree(our_ed25519_seed, partner_ed25519_pubkey) {
        Err(e) => Err(e),
        Ok(mut shared) => {
            let salt: &str = "huddle-dm-key-v1\0";
            let key: Vec<u8> = primitives::hkdf_expand(
                Some(salt.as_bytes()),
                shared.as_slice(),
                canonical_room_id.as_bytes(),
                KEY_LEN,
            );
            primitives::wipe_32(&mut shared);
            Ok(bytes::array_32(key.as_slice()))
        },
    }
}

/// The message that the initiator of a hybrid key encapsulates: bound to the initiator's seed, the
/// partner's ML-KEM key and the room, so that it is secret and always the same. The formula and its label
/// `huddle-dm-kem-message-v1` are this library's own choice: only the initiator ever computes it.
pub open spec fn kem_message(seed: Seq<u8>, ek: Seq<u8>, room_id: Seq<char>) -> Seq<u8> {
    primitives::hkdf_sha256(
        Some(vstd::utf8::encode_utf8("huddle-dm-kem-message-v1"@)),
        seed,
        ek + vstd::utf8::encode_utf8(room_id),
        32,
    )
}

/// The hybrid key and the ciphertext of the initiator, or why there are none.
pub open spec fn hybrid_initiator(
    seed: Seq<u8>,
    partner: Seq<u8>,
    partner_ek: Seq<u8>,
    room_id: Seq<char>,
) -> Result<(Seq<u8>, Seq<u8>), ErrorView> {
    match shared_secret(seed, partner) {
        Err(e) => Err(e),
        Ok(shared) => match pqc::encapsulated(partner_ek, kem_message(seed, partner_ek, room_id)) {
            Err(e) => Err(e),
            Ok(sent) => Ok(
                (
                    pqc::hybrid_key(shared, sent.1, sent.0, vstd::utf8::encode_utf8(room_id)),
                    sent.0,
                ),
            ),
        },
    }
}

/// The hybrid key of the responder, or why there is none.
pub open spec fn hybrid_responder(
    mlkem_seed: Seq<u8>,
    seed: Seq<u8>,
    partner: Seq<u8>,
    ciphertext: Seq<u8>,
    room_id: Seq<char>,
) -> Result<Seq<u8>, ErrorView> {
    match shared_secret(seed, partner) {
        Err(e) => Err(e),
        Ok(shared) => match pqc::decapsulated(mlkem_seed, ciphertext) {
            Err(e) => Err(e),
            Ok(received) => Ok(
                pqc::hybrid_key(shared, received, ciphertext, vstd::utf8::encode_utf8(room_id)),
            ),
        },
    }
}

/// The hybrid key of the peer that begins, with the ciphertext that the other peer needs.
pub fn derive_dm_key_hybrid_initiator(
    our_ed25519_seed: &[u8; 32],
    partner_ed25519_pubkey: &[u8; 32],
    partner_ek: &[u8],
    canonical_room_id: &str,
) -> (r: Result<([u8; KEY_LEN], Vec<u8>), HuddleError>)
    ensures
        crate::error::result_view(r) == hybrid_initiator(
            our_ed25519_seed@,
            partner_ed25519_pubkey@,
            partner_ek@,
            canonical_room_id@,
        ),
{
    match agree(our_ed25519_seed, partner_ed25519_pubkey) {
        Err(e) => Err(e),
        Ok(mut shared) => {
            let info: Vec<u8> = bytes::concat(partner_ek, canonical_room_id.as_bytes());
            let label: &str = "huddle-dm-kem-message-v1";
            let message: Vec<u8> = primitives::hkdf_expand(
                Some(label.as_bytes()),
                our_ed25519_seed.as_slice(),
                info.as_slice(),
                32,
            );
            let mut m: [u8; 32] = bytes::array_32(message.as_slice());
            let sent = pqc::encapsulate_deterministic(partner_ek, &m);
            primitives::wipe_32(&mut m);
            match sent {
                Err(e) => Err(e),
                Ok((ciphertext, mut secret)) => {
                    let key: [u8; 32] = pqc::combine_hybrid(
                        &shared,
                        &secret,
                        ciphertext.as_slice(),
                        canonical_room_id.as_bytes(),
                    );
                    primitives::wipe_32(&mut shared);
                    primitives::wipe_32(&mut secret);
                    Ok((key, ciphertext))
                },
            }
        },
    }
}

/// The hybrid key of the peer that answers, from the ciphertext that the other peer sent.
pub fn derive_dm_key_hybrid_responder(
    our_pq: &PqKeypair,
    our_ed25519_seed: &[u8; 32],
    partner_ed25519_pubkey: &[u8; 32],
    ciphertext: &[u8],
    canonical_room_id: &str,
) -> (r: Result<[u8; KEY_LEN], HuddleError>)
    ensures
        crate::error::result_view(r) == hybrid_responder(
            our_pq@,
            our_ed25519_seed@,
            partner_ed25519_pubkey@,
            ciphertext@,
            canonical_room_id@,
        ),
{
    match agree(our_ed25519_seed, partner_ed25519_pubkey) {
        Err(e) => Err(e),
        Ok(mut shared) => match our_pq.decapsulate(ciphertext) {
            Err(e) => Err(e),
            Ok(mut secret) => {
                let key: [u8; 32] = pqc::combine_hybrid(
                    &shared,
                    &secret,
                    ciphertext,
                    canonical_room_id.as_bytes(),
                );
                primitives::wipe_32(&mut shared);
                primitives::wipe_32(&mut secret);
                Ok(key)
            },
        },
    }
}

/// A partner who is known to speak ML-KEM, and whose key is not at hand, must not get a classical
/// key.
pub fn must_refuse_classical_fallback(partner_pq_capable: bool, have_mlkem_ek: bool) -> (r: bool)
    ensures
        r == (partner_pq_capable && !have_mlkem_ek),
{
    partner_pq_capable && !have_mlkem_ek
}

/// Both peers share the same X25519 secret, each from their own seed and the other's public key. No peer is
/// refused: the secret of two identities is never zero.
pub proof fn law_shared_secret_is_commutative(a: IdentityView, b: IdentityView)
    requires
        a.wf(),
        b.wf(),
    ensures
        shared_secret(a.seed, b.public) == shared_secret(b.seed, a.public),
        shared_secret(a.seed, b.public) is Ok,
{
    let xa = crate::identity::x25519_secret(a.seed);
    let xb = crate::identity::x25519_secret(b.seed);
    assert(primitives::x25519_shared(xb, primitives::x25519_public(xa))
        == primitives::x25519_shared(xa, primitives::x25519_public(xb)));
}

/// Both peers derive a classical key, and the same one, for the room that they share.
pub proof fn law_dm_key_is_commutative(a: IdentityView, b: IdentityView, room_id: Seq<char>)
    requires
        a.wf(),
        b.wf(),
    ensures
        dm_key(a.seed, b.public, room_id) == dm_key(b.seed, a.public, room_id),
        dm_key(a.seed, b.public, room_id) is Ok,
{
    law_shared_secret_is_commutative(a, b);
}

/// Where the responder decapsulates the secret that the initiator encapsulated, both derive the
/// same hybrid key.
pub proof fn law_hybrid_keys_agree(a: IdentityView, b: IdentityView, room_id: Seq<char>)
    requires
        a.wf(),
        b.wf(),
    ensures
        ({
            let b_kem = pqc::mlkem_seed(b.seed);
            let ek = primitives::mlkem_public(b_kem);
            hybrid_initiator(a.seed, b.public, ek, room_id) matches Ok(sent) ==> (
            pqc::decapsulated(b_kem, sent.1) == Ok::<Seq<u8>, ErrorView>(
                pqc::encapsulated(ek, kem_message(a.seed, ek, room_id))->Ok_0.1,
            ) ==> hybrid_responder(b_kem, b.seed, a.public, sent.1, room_id) == Ok::<
                Seq<u8>,
                ErrorView,
            >(sent.0))
        }),
{
    law_shared_secret_is_commutative(a, b);
}

} // verus!
