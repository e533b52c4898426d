//! The post-quantum half of key agreement: ML-KEM-768, and its combination with X25519.
//!
//! The key pair is derived from the identity seed, so it needs no storage. Encapsulation takes its
//! randomness from the caller, so the same initiator reproduces the same ciphertext.
use crate::bytes;
use crate::crypto::primitives;
use crate::error::{ErrorView, HuddleError};
use crate::text;
use vstd::prelude::*;

verus! {

/// Serialized length of an ML-KEM-768 encapsulation (public) key.
pub const MLKEM_EK_LEN: usize = 1184;

/// Serialized length of an ML-KEM-768 ciphertext.
pub const MLKEM_CT_LEN: usize = 1088;

/// Length of a shared secret: of ML-KEM, of X25519 and of the two combined.
pub const SS_LEN: usize = 32;

/// The 64-byte ML-KEM seed of an identity seed.
pub open spec fn mlkem_seed(identity_seed: Seq<u8>) -> Seq<u8> {
    primitives::hkdf_sha256(
        Some(vstd::utf8::encode_utf8("huddle-mlkem-768-seed-v1"@)),
        identity_seed,
        Seq::empty(),
        64,
    )
}

/// The ML-KEM-768 key pair of an identity, as the seed that it grows from.
pub struct PqKeypair {
    seed: [u8; 64],
}

impl View for PqKeypair {
    type V = Seq<u8>;

    closed spec fn view(&self) -> Seq<u8> {
        self.seed@
    }
}

impl PqKeypair {
    /// The key pair of an identity, from its 32-byte seed: always the same for the same identity.
    pub fn from_identity_seed(ed25519_seed: &[u8; 32]) -> (r: Self)
        ensures
            r@ == mlkem_seed(ed25519_seed@),
            r@.len() == 64,
    {
        let label: &str = "huddle-mlkem-768-seed-v1";
        let seed: Vec<u8> = primitives::hkdf_expand(
            Some(label.as_bytes()),
            ed25519_seed.as_slice(),
            &[],
            64,
        );
        proof {
            let none: [u8; 0] = [];
            assert(none@ =~= Seq::<u8>::empty());
        }
        PqKeypair { seed: bytes::array_64(seed.as_slice()) }
    }

    /// The public key, to publish to peers. Any message can be encapsulated to it.
    pub fn encapsulation_key_bytes(&self) -> (r: [u8; MLKEM_EK_LEN])
        ensures
            r@ == primitives::mlkem_public(self@),
            forall|m: Seq<u8>|
                m.len() == SS_LEN ==> (#[trigger] primitives::mlkem_encapsulated(r@, m)) is Some,
    {
        primitives::mlkem_public_key(&self.seed)
    }

    /// The secret that a peer encapsulated to our public key. Any ciphertext of the right length
    /// gives some secret; a forged one gives a secret that the forger does not know.
    pub fn decapsulate(&self, ciphertext: &[u8]) -> (r: Result<[u8; SS_LEN], HuddleError>)
        ensures
            crate::error::result_view(r) == decapsulated(self@, ciphertext@),
    {
        if ciphertext.len() != MLKEM_CT_LEN {
            let n: String = text::decimal_of(ciphertext.len() as u64);
            return Err(
                HuddleError::Session(
                    text::join3("ML-KEM ciphertext is ", n.as_str(), " bytes, expected 1088"),
                ),
            );
        }
        Ok(primitives::mlkem_decapsulate(&self.seed, ciphertext))
    }
}

/// The secret in a ciphertext, or why there is none.
pub open spec fn decapsulated(seed: Seq<u8>, ct: Seq<u8>) -> Result<Seq<u8>, ErrorView> {
    if ct.len() != MLKEM_CT_LEN {
        Err(
            ErrorView::Session(
                "ML-KEM ciphertext is "@ + text::decimal(ct.len()) + " bytes, expected 1088"@,
            ),
        )
    } else {
        Ok(primitives::mlkem_decapsulated(seed, ct))
    }
}

/// The ciphertext and the secret of a message encapsulated to a key, or why there are none.
pub open spec fn encapsulated(ek: Seq<u8>, m: Seq<u8>) -> Result<(Seq<u8>, Seq<u8>), ErrorView> {
    if ek.len() != MLKEM_EK_LEN {
        Err(
            ErrorView::Session(
                "ML-KEM encapsulation key is "@ + text::decimal(ek.len())
                    + " bytes, expected 1184"@,
            ),
        )
    } else {
        match primitives::mlkem_encapsulated(ek, m) {
            Some(pair) => Ok(pair),
            None => Err(ErrorView::Session("invalid ML-KEM encapsulation key"@)),
        }
    }
}

/// Encapsulates a 32-byte message to a peer's key: the ciphertext to send, and the shared secret.
/// The message must be secret and unpredictable.
pub fn encapsulate_deterministic(partner_ek_bytes: &[u8], m: &[u8; SS_LEN]) -> (r: Result<
    (Vec<u8>, [u8; SS_LEN]),
    HuddleError,
>)
    ensures
        crate::error::result_view(r) == encapsulated(partner_ek_bytes@, m@),
        r matches Ok(p) ==> p.0@.len() == MLKEM_CT_LEN,
{
    if partner_ek_bytes.len() != MLKEM_EK_LEN {
        let n: String = text::decimal_of(partner_ek_bytes.len() as u64);
        return Err(
            HuddleError::Session(
                text::join3("ML-KEM encapsulation key is ", n.as_str(), " bytes, expected 1184"),
            ),
        );
    }
    match primitives::mlkem_encapsulate(partner_ek_bytes, m) {
        Some(pair) => Ok(pair),
        None => Err(crate::error::session_error("invalid ML-KEM encapsulation key")),
    }
}

/// The hybrid key: HKDF-SHA256 over both secrets, bound to the ciphertext and to a context.
pub open spec fn hybrid_key(
    ss_x25519: Seq<u8>,
    ss_mlkem: Seq<u8>,
    kem_ciphertext: Seq<u8>,
    context: Seq<u8>,
) -> Seq<u8> {
    primitives::hkdf_sha256(
        Some(vstd::utf8::encode_utf8("huddle-hybrid-kem-v1"@)),
        ss_x25519 + ss_mlkem,
        kem_ciphertext + context,
        SS_LEN as nat,
    )
}

/// Combines an X25519 secret and an ML-KEM secret into one key that needs both to be known.
pub fn combine_hybrid(
    ss_x25519: &[u8; SS_LEN],
    ss_mlkem: &[u8; SS_LEN],
    kem_ciphertext: &[u8],
    context: &[u8],
) -> (r: [u8; SS_LEN])
    ensures
        r@ == hybrid_key(ss_x25519@, ss_mlkem@, kem_ciphertext@, context@),
{
    let mut ikm: Vec<u8> = bytes::concat(ss_x25519.as_slice(), ss_mlkem.as_slice());
    let info: Vec<u8> = bytes::concat(kem_ciphertext, context);
    let salt: &str = "huddle-hybrid-kem-v1";
    let out: Vec<u8> = primitives::hkdf_expand(
        Some(salt.as_bytes()),
        ikm.as_slice(),
        info.as_slice(),
        SS_LEN,
    );
    primitives::wipe_vec(&mut ikm);
    bytes::array_32(out.as_slice())
}

} // verus!
