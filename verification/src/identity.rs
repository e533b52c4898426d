//! A chat identity: one 32-byte Ed25519 seed and what follows from it.
use crate::bytes;
use crate::crypto::pqc::{PqKeypair, MLKEM_EK_LEN};
use crate::crypto::primitives;
use crate::error::HuddleError;
use crate::text;
use vstd::prelude::*;
use vstd::slice::slice_subrange;

verus! {

// ---------------------------------------------------------------------------------------------
// Fingerprints
// ---------------------------------------------------------------------------------------------

/// `s` in groups of four characters with a dash between them.
pub open spec fn dashed(s: Seq<char>) -> Seq<char> {
    Seq::new(
        if s.len() == 0 {
            0
        } else {
            (s.len() + (s.len() - 1) / 4) as nat
        },
        |i: int|
            if i % 5 == 4 {
                '-'
            } else {
                s[i - i / 5]
            },
    )
}

pub fn dash_groups(s: &[char]) -> (r: String)
    ensures
        r@ == dashed(s@),
{
    let mut out: String = String::new();
    let mut i: usize = 0;
    while i < s.len()
        invariant
            i <= s.len(),
            out@ == dashed(s@.take(i as int)),
        decreases s.len() - i,
    {
        if i > 0 && i % 4 == 0 {
            out.push('-');
        }
        out.push(s[i]);
        assert(out@ =~= dashed(s@.take(i + 1)));
        i = i + 1;
    }
    assert(s@.take(s@.len() as int) =~= s@);
    out
}

/// Six groups of four lower-case hexadecimal digits, with a dash between groups.
pub open spec fn is_fingerprint(s: Seq<char>) -> bool {
    &&& s.len() == 29
    &&& forall|i: int|
        0 <= i < 29 ==> if i % 5 == 4 {
            #[trigger] s[i] == '-'
        } else {
            text::is_lower_hex(s[i])
        }
}

/// The fingerprint of an Ed25519 public key: the first twelve bytes of its SHA-256 digest. The shape (six
/// groups of four digits) is what callers rely on; that the digits come of SHA-256, and of these bytes of
/// it, is this library's own choice.
pub open spec fn fingerprint_of(public: Seq<u8>) -> Seq<char> {
    dashed(primitives::hex_text(primitives::sha256(public).take(12)))
}

proof fn lemma_dashed_hex(b: Seq<u8>)
    requires
        b.len() == 12,
    ensures
        is_fingerprint(dashed(primitives::hex_text(b))),
{
    let h = primitives::hex_text(b);
    assert forall|i: int| 0 <= i < 24 implies text::is_lower_hex(#[trigger] h[i]) by {
        assert(b[i / 2] / 16 < 16);
        assert(b[i / 2] % 16 < 16);
    }
    assert forall|i: int| 0 <= i < 29 implies if i % 5 == 4 {
        #[trigger] dashed(h)[i] == '-'
    } else {
        text::is_lower_hex(dashed(h)[i])
    } by {
        if i % 5 != 4 {
            assert(0 <= i - i / 5 < 24);
            assert(text::is_lower_hex(h[i - i / 5]));
        }
    }
}

/// The fingerprint of an Ed25519 public key, by which its owner is known. The formula is this library's own
/// choice (`fingerprint_of`).
pub fn compute_fingerprint(public: &[u8; 32]) -> (r: String)
    ensures
        r@ == fingerprint_of(public@),
        is_fingerprint(r@),
{
    let digest: [u8; 32] = primitives::sha256_digest(public.as_slice());
    let head: &[u8] = slice_subrange(digest.as_slice(), 0, 12);
    assert(head@ == digest@.take(12));
    let hex: String = primitives::hex_encode(head);
    proof {
        lemma_dashed_hex(head@);
    }
    let chars: Vec<char> = text::chars_of(hex.as_str());
    dash_groups(chars.as_slice())
}

/// The safety code of a public key: `SAFE-` and three groups of four upper-case hexadecimal digits,
/// the first six bytes of a labelled SHA-256 digest. The formula and its label are this library's own choice.
pub open spec fn safety_code_of(public: Seq<u8>) -> Seq<char> {
    "SAFE-"@ + dashed(
        text::upper_all(
            primitives::hex_text(
                primitives::sha256(
                    vstd::utf8::encode_utf8("huddle-safety-code-v1"@) + public,
                ).take(6),
            ),
        ),
    )
}

/// A short code to compare by eye. It depends on the public key alone. The formula and the label
/// `huddle-safety-code-v1` are this library's own choice (`safety_code_of`).
pub fn safety_code(public: &[u8; 32]) -> (r: String)
    ensures
        r@ == safety_code_of(public@),
{
    let label: &str = "huddle-safety-code-v1";
    let input: Vec<u8> = bytes::concat(label.as_bytes(), public.as_slice());
    let digest: [u8; 32] = primitives::sha256_digest(input.as_slice());
    let head: &[u8] = slice_subrange(digest.as_slice(), 0, 6);
    assert(head@ == digest@.take(6));
    let hex: String = primitives::hex_encode(head);
    let chars: Vec<char> = text::chars_of(hex.as_str());
    let upper: Vec<char> = text::upper_chars(chars.as_slice());
    let groups: String = dash_groups(upper.as_slice());
    text::join2("SAFE-", groups.as_str())
}

// ---------------------------------------------------------------------------------------------
// The identity
// ---------------------------------------------------------------------------------------------

/// The text of the libp2p peer id of a 64-byte Ed25519 key pair (seed, then public key), or what is
/// said of bytes that are none.
pub uninterp spec fn peer_id_text(keypair: Seq<u8>) -> Result<Seq<char>, Seq<char>>;

/// `libp2p::identity::ed25519::Keypair::try_from_bytes`, then the text of its `PeerId`; an error as
/// its message. A seed followed by its own public key is a key pair.
#[verifier::external_body]
fn peer_id_of(keypair: &[u8; 64]) -> (r: Result<String, String>)
    ensures
        match r {
            Ok(s) => peer_id_text(keypair@) is Ok && peer_id_text(keypair@)->Ok_0 == s@,
            Err(words) => peer_id_text(keypair@) is Err && peer_id_text(keypair@)->Err_0 == words@,
        },
        keypair@.skip(32) == primitives::ed25519_public(keypair@.take(32)) ==> r is Ok,
{
    let mut bytes = *keypair;
    let pair = libp2p::identity::ed25519::Keypair::try_from_bytes(&mut bytes)
        .map_err(|e| e.to_string())?;
    let pair = libp2p::identity::Keypair::from(pair);
    Ok(libp2p::PeerId::from(pair.public()).to_string())
}

/// What an identity is, as contracts speak of it.
pub struct IdentityView {
    pub seed: Seq<u8>,
    pub public: Seq<u8>,
    pub fingerprint: Seq<char>,
    pub peer_id: Seq<char>,
}

/// The X25519 secret of an Ed25519 seed: the first half of its SHA-512 digest.
pub open spec fn x25519_secret(seed: Seq<u8>) -> Seq<u8> {
    primitives::sha512(seed).take(32)
}

impl IdentityView {
    /// Everything is what follows from the seed.
    pub open spec fn wf(self) -> bool {
        &&& self.seed.len() == 32
        &&& self.public == primitives::ed25519_public(self.seed)
        &&& self.public.len() == 32
        &&& self.fingerprint == fingerprint_of(self.public)
        &&& is_fingerprint(self.fingerprint)
        &&& peer_id_text(self.seed + self.public) == Ok::<Seq<char>, Seq<char>>(self.peer_id)
        &&& primitives::ed25519_to_x25519(self.public) == primitives::read(
            primitives::x25519_public(x25519_secret(self.seed)),
        )
        &&& forall|other: Seq<u8>|
            other.len() == 32 ==> #[trigger] primitives::x25519_shared(
                x25519_secret(other),
                primitives::x25519_public(x25519_secret(self.seed)),
            ) == primitives::x25519_shared(
                x25519_secret(self.seed),
                primitives::x25519_public(x25519_secret(other)),
            )
        &&& forall|other: Seq<u8>|
            other.len() == 32 ==> #[trigger] primitives::x25519_shared(
                x25519_secret(other),
                primitives::x25519_public(x25519_secret(self.seed)),
            ) != primitives::zeros32()
    }
}

/// An identity of the chat: an Ed25519 seed with its public key, fingerprint and peer id.
pub struct Identity {
    seed: [u8; 32],
    public: [u8; 32],
    fingerprint: String,
    peer_id: String,
}

impl View for Identity {
    type V = IdentityView;

    closed spec fn view(&self) -> IdentityView {
        IdentityView {
            seed: self.seed@,
            public: self.public@,
            fingerprint: self.fingerprint@,
            peer_id: self.peer_id@,
        }
    }
}

impl Identity {
    /// A new identity, from a seed drawn for it.
    pub fn generate() -> (r: Result<Self, HuddleError>)
        ensures
            r is Ok,
            r->Ok_0@.wf(),
    {
        Self::from_secret_bytes(primitives::random_32())
    }

    /// The identity of a seed. There is one for every seed, and always the same one.
    pub fn from_secret_bytes(seed: [u8; 32]) -> (r: Result<Self, HuddleError>)
        ensures
            r is Ok,
            r->Ok_0@.wf(),
            r->Ok_0@.seed == seed@,
    {
        let public: [u8; 32] = primitives::ed25519_public_key(&seed);
        let fingerprint: String = compute_fingerprint(&public);
        let joined: Vec<u8> = bytes::concat(seed.as_slice(), public.as_slice());
        let mut keypair: [u8; 64] = bytes::array_64(joined.as_slice());
        proof {
            assert(keypair@ =~= seed@ + public@);
            assert(keypair@.take(32) =~= seed@);
            assert(keypair@.skip(32) =~= public@);
        }
        let peer_id = peer_id_of(&keypair);
        primitives::wipe_64(&mut keypair);
        match peer_id {
            Ok(peer_id) => {
                let id = Identity { seed, public, fingerprint, peer_id };
                proof {
                    assert forall|other: Seq<u8>|
                        other.len() == 32 implies #[trigger] primitives::x25519_shared(
                        x25519_secret(other),
                        primitives::x25519_public(x25519_secret(seed@)),
                    ) == primitives::x25519_shared(
                        x25519_secret(seed@),
                        primitives::x25519_public(x25519_secret(other)),
                    ) by {
                        assert(primitives::x25519_shared(
                            primitives::sha512(other).take(32),
                            primitives::ed25519_to_x25519(public@)->Ok_0,
                        ) == primitives::x25519_shared(
                            x25519_secret(seed@),
                            primitives::x25519_public(x25519_secret(other)),
                        ));
                    }
                    assert forall|other: Seq<u8>|
                        other.len() == 32 implies #[trigger] primitives::x25519_shared(
                        x25519_secret(other),
                        primitives::x25519_public(x25519_secret(seed@)),
                    ) != primitives::zeros32() by {
                        assert(primitives::x25519_shared(
                            primitives::sha512(other).take(32),
                            primitives::ed25519_to_x25519(public@)->Ok_0,
                        ) != primitives::zeros32());
                    }
                    assert(id@.wf());
                }
                Ok(id)
            },
            Err(words) => Err(HuddleError::Identity(words)),
        }
    }

    /// The identity of a seed that a phrase restored.
    pub fn from_seed(seed: [u8; 32]) -> (r: Result<Self, HuddleError>)
        ensures
            r is Ok,
            r->Ok_0@.wf(),
            r->Ok_0@.seed == seed@,
    {
        Self::from_secret_bytes(seed)
    }

    pub fn seed(&self) -> (r: [u8; 32])
        ensures
            r@ == self@.seed,
    {
        self.seed
    }

    pub fn secret_bytes(&self) -> (r: [u8; 32])
        ensures
            r@ == self@.seed,
    {
        self.seed
    }

    pub fn public_bytes(&self) -> (r: [u8; 32])
        ensures
            r@ == self@.public,
    {
        self.public
    }

    pub fn fingerprint(&self) -> (r: &str)
        ensures
            r@ == self@.fingerprint,
    {
        self.fingerprint.as_str()
    }

    /// The text of the libp2p peer id of the same key.
    pub fn peer_id(&self) -> (r: &str)
        ensures
            r@ == self@.peer_id,
    {
        self.peer_id.as_str()
    }

    /// The ML-KEM key pair that is derived from the same seed.
    pub fn pq_keypair(&self) -> (r: PqKeypair)
        ensures
            r@ == crate::crypto::pqc::mlkem_seed(self@.seed),
    {
        PqKeypair::from_identity_seed(&self.seed)
    }

    /// The ML-KEM public key that is derived from the same seed.
    pub fn mlkem_public_bytes(&self) -> (r: [u8; MLKEM_EK_LEN])
        ensures
            r@ == primitives::mlkem_public(crate::crypto::pqc::mlkem_seed(self@.seed)),
    {
        self.pq_keypair().encapsulation_key_bytes()
    }
}

/// Two identities of one seed are the same: the phrase of a seed restores all of it.
pub proof fn law_seed_determines_identity(a: IdentityView, b: IdentityView)
    requires
        a.wf(),
        b.wf(),
        a.seed == b.seed,
    ensures
        a == b,
{
}

} // verus!
