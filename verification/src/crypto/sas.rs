//! Short authentication strings.
//!
//! Two peers exchange fresh X25519 keys, derive a short code from the shared secret and compare it
//! by another channel. Someone in the middle ends up with two different codes. Where the partner's
//! ML-KEM key is known, both ML-KEM keys go into the code too, so that a peer who was shown the
//! other as a classical one derives a different code.
use crate::bytes;
use crate::crypto::primitives;
use crate::error::{ErrorView, HuddleError};
use crate::text;
use vstd::prelude::*;
use vstd::slice::slice_subrange;

verus! {

/// Length of the transaction id, which salts the code.
pub const TX_ID_LEN: usize = 16;

/// The emoji that stand for the indices of a code, with their English labels.
pub const SAS_EMOJI: [(&'static str, &'static str); 49] = [
    ("🐶", "dog"),
    ("🐱", "cat"),
    ("🦁", "lion"),
    ("🐎", "horse"),
    ("🦄", "unicorn"),
    ("🐷", "pig"),
    ("🐘", "elephant"),
    ("🐰", "rabbit"),
    ("🐼", "panda"),
    ("🐓", "rooster"),
    ("🐧", "penguin"),
    ("🐢", "turtle"),
    ("🐟", "fish"),
    ("🐙", "octopus"),
    ("🦋", "butterfly"),
    ("🌷", "flower"),
    ("🌳", "tree"),
    ("🌵", "cactus"),
    ("🍄", "mushroom"),
    ("🌏", "globe"),
    ("🌙", "moon"),
    ("☁️", "cloud"),
    ("🔥", "fire"),
    ("🍌", "banana"),
    ("🍎", "apple"),
    ("🍓", "strawberry"),
    ("🌽", "corn"),
    ("🍕", "pizza"),
    ("🎂", "cake"),
    ("❤️", "heart"),
    ("🙂", "smiley"),
    ("🤖", "robot"),
    ("🎩", "hat"),
    ("👓", "glasses"),
    ("🔧", "spanner"),
    ("🎅", "santa"),
    ("👍", "thumbs up"),
    ("☂️", "umbrella"),
    ("⌛", "hourglass"),
    ("⏰", "clock"),
    ("🎁", "gift"),
    ("💡", "light bulb"),
    ("📕", "book"),
    ("✏️", "pencil"),
    ("📎", "paperclip"),
    ("✂️", "scissors"),
    ("🔒", "lock"),
    ("🔑", "key"),
    ("🔨", "hammer"),
];

/// The code that both sides compare.
#[derive(Debug, Clone, PartialEq, Eq)]
pub struct SasCode {
    /// Seven indices into `SAS_EMOJI`.
    pub emoji_indices: [u8; 7],
    /// Three groups of four digits with a dash between them, each from 1000 to 9191.
    pub decimal: String,
}

/// A code, as contracts speak of it.
pub struct SasCodeView {
    pub emoji_indices: Seq<u8>,
    pub decimal: Seq<char>,
}

impl View for SasCode {
    type V = SasCodeView;

    open spec fn view(&self) -> SasCodeView {
        SasCodeView { emoji_indices: self.emoji_indices@, decimal: self.decimal@ }
    }
}

impl SasCodeView {
    /// Seven indices, each of an emoji.
    pub open spec fn wf(self) -> bool {
        &&& self.emoji_indices.len() == 7
        &&& forall|i: int| 0 <= i < 7 ==> #[trigger] self.emoji_indices[i] < 49
    }

    pub open spec fn symbols(self) -> Seq<Seq<char>> {
        Seq::new(7, |i: int| SAS_EMOJI@[self.emoji_indices[i] as int].0@)
    }

    pub open spec fn labels(self) -> Seq<Seq<char>> {
        Seq::new(7, |i: int| SAS_EMOJI@[self.emoji_indices[i] as int].1@)
    }
}

impl SasCode {
    /// A copy of the code.
    pub fn copy(&self) -> (r: Self)
        ensures
            r@ == self@,
    {
        SasCode { emoji_indices: self.emoji_indices, decimal: self.decimal.clone() }
    }

    /// The seven emoji, with a space between them.
    pub fn emoji_string(&self) -> (r: String)
        requires
            self@.wf(),
        ensures
            r@ == text::joined(self@.symbols(), " "@),
    {
        let mut out: String = String::new();
        let mut i: usize = 0;
        while i < 7
            invariant
                self@.wf(),
                i <= 7,
                out@ == text::joined(self@.symbols().take(i as int), " "@),
            decreases 7 - i,
        {
            let k: usize = self.emoji_indices[i] as usize;
            assert(self@.emoji_indices[i as int] < 49);
            if i > 0 {
                text::push_str(&mut out, " ");
            }
            text::push_str(&mut out, SAS_EMOJI[k].0);
            assert(self@.symbols().take(i + 1).drop_last() =~= self@.symbols().take(i as int));
            i = i + 1;
        }
        assert(self@.symbols().take(7) =~= self@.symbols());
        out
    }

    /// The labels of the seven emoji, with a slash between them.
    pub fn emoji_labels(&self) -> (r: String)
        requires
            self@.wf(),
        ensures
            r@ == text::joined(self@.labels(), " / "@),
    {
        let mut out: String = String::new();
        let mut i: usize = 0;
        while i < 7
            invariant
                self@.wf(),
                i <= 7,
                out@ == text::joined(self@.labels().take(i as int), " / "@),
            decreases 7 - i,
        {
            let k: usize = self.emoji_indices[i] as usize;
            assert(self@.emoji_indices[i as int] < 49);
            if i > 0 {
                text::push_str(&mut out, " / ");
            }
            text::push_str(&mut out, SAS_EMOJI[k].1);
            assert(self@.labels().take(i + 1).drop_last() =~= self@.labels().take(i as int));
            i = i + 1;
        }
        assert(self@.labels().take(7) =~= self@.labels());
        out
    }
}

// ---------------------------------------------------------------------------------------------
// Sessions
// ---------------------------------------------------------------------------------------------

/// `public` is the X25519 key of `secret`: with any other key pair both sides share one secret, which is not
/// zero.
pub open spec fn is_key_pair(secret: Seq<u8>, public: Seq<u8>) -> bool {
    &&& secret.len() == 32
    &&& public == primitives::x25519_public(secret)
    &&& forall|other: Seq<u8>|
        other.len() == 32 ==> #[trigger] primitives::x25519_shared(
            secret,
            primitives::x25519_public(other),
        ) == primitives::x25519_shared(other, public)
    &&& forall|other: Seq<u8>|
        other.len() == 32 ==> #[trigger] primitives::x25519_shared(other, public)
            != primitives::zeros32()
}

/// The session of a transaction id and a secret: both, and the public key of the secret.
pub fn session_from(tx_id: [u8; TX_ID_LEN], secret: [u8; 32]) -> (r: (
    [u8; TX_ID_LEN],
    [u8; 32],
    [u8; 32],
))
    ensures
        r.0@ == tx_id@,
        r.1@ == secret@,
        is_key_pair(r.1@, r.2@),
{
    let public: [u8; 32] = primitives::x25519_public_key(&secret);
    (tx_id, secret, public)
}

/// A session of our own: a fresh transaction id and a fresh X25519 key pair.
pub fn new_session() -> (r: ([u8; TX_ID_LEN], [u8; 32], [u8; 32]))
    ensures
        is_key_pair(r.1@, r.2@),
{
    let random: [u8; 32] = primitives::random_32();
    let tx_id: [u8; 16] = bytes::array_16(slice_subrange(random.as_slice(), 0, 16));
    session_from(tx_id, primitives::random_32())
}

// ---------------------------------------------------------------------------------------------
// The transcript
// ---------------------------------------------------------------------------------------------

/// Two ML-KEM keys, one after the other, the smaller first.
pub open spec fn sorted_pair(a: Seq<u8>, b: Seq<u8>) -> Seq<u8> {
    if bytes::bytes_lt(b, a) {
        b + a
    } else {
        a + b
    }
}

/// What the code is bound to. Without the partner's ML-KEM key it is the classical label; with it,
/// another label and the digest of all the keys at hand, whoever holds which.
pub open spec fn transcript(our_ek: Option<Seq<u8>>, their_ek: Option<Seq<u8>>) -> Seq<u8> {
    match their_ek {
        None => vstd::utf8::encode_utf8("huddle-sas-v1"@),
        Some(theirs) => vstd::utf8::encode_utf8("huddle-sas-pqbind-v1"@) + primitives::sha256(
            match our_ek {
                None => theirs,
                Some(ours) => sorted_pair(ours, theirs),
            },
        ),
    }
}

pub open spec fn bytes_of(ek: Option<&[u8]>) -> Option<Seq<u8>> {
    match ek {
        None => None,
        Some(b) => Some(b@),
    }
}

/// The HKDF info string of a code.
pub fn sas_info(our_mlkem_ek: Option<&[u8]>, their_mlkem_ek: Option<&[u8]>) -> (r: Vec<u8>)
    ensures
        r@ == transcript(bytes_of(our_mlkem_ek), bytes_of(their_mlkem_ek)),
{
    match their_mlkem_ek {
        None => {
            let label: &str = "huddle-sas-v1";
            bytes::to_vec(label.as_bytes())
        },
        Some(theirs) => {
            let material: Vec<u8> = match our_mlkem_ek {
                None => bytes::to_vec(theirs),
                Some(ours) => if bytes::less_bytes(theirs, ours) {
                    bytes::concat(theirs, ours)
                } else {
                    bytes::concat(ours, theirs)
                },
            };
            let digest: [u8; 32] = primitives::sha256_digest(material.as_slice());
            let label: &str = "huddle-sas-pqbind-v1";
            bytes::concat(label.as_bytes(), digest.as_slice())
        },
    }
}

/// Both peers, who hold the two keys in opposite roles, bind the code to the same.
pub proof fn law_transcript_is_symmetric(a: Seq<u8>, b: Seq<u8>)
    ensures
        transcript(Some(a), Some(b)) == transcript(Some(b), Some(a)),
{
    bytes::lemma_bytes_order(a, b);
}

/// With a classical partner the transcript is the classical one, whatever key we hold ourselves.
pub proof fn law_classical_partner_is_classical(ours: Option<Seq<u8>>)
    ensures
        transcript(ours, None) == vstd::utf8::encode_utf8("huddle-sas-v1"@),
{
}

// ---------------------------------------------------------------------------------------------
// The code
// ---------------------------------------------------------------------------------------------

/// The seven groups of six bits at the head of six bytes.
pub open spec fn six_bit_groups(b: Seq<u8>) -> Seq<u8> {
    seq![
        (b[0] / 4) as u8,
        ((b[0] % 4) * 16 + b[1] / 16) as u8,
        ((b[1] % 16) * 4 + b[2] / 64) as u8,
        (b[2] % 64) as u8,
        (b[3] / 4) as u8,
        ((b[3] % 4) * 16 + b[4] / 16) as u8,
        ((b[4] % 16) * 4 + b[5] / 64) as u8,
    ]
}

/// The three groups of thirteen bits at the head of five bytes.
pub open spec fn thirteen_bit_groups(d: Seq<u8>) -> (nat, nat, nat) {
    (
        (d[0] * 32 + d[1] / 8) as nat,
        ((d[1] % 8) * 1024 + d[2] * 4 + d[3] / 64) as nat,
        ((d[3] % 64) * 128 + d[4] / 2) as nat,
    )
}

/// Three numbers, each moved up by 1000, with dashes between them.
pub open spec fn decimal_groups(c: (nat, nat, nat)) -> Seq<char> {
    text::decimal(c.0 + 1000) + "-"@ + text::decimal(c.1 + 1000) + "-"@ + text::decimal(
        c.2 + 1000,
    )
}

/// The low six bits of each byte that are an index of an emoji.
pub open spec fn accepted(candidates: Seq<u8>) -> Seq<u8> {
    candidates.map_values(|b: u8| (b % 64) as u8).filter(|v: u8| v < 49)
}

/// The info string of the `counter`-th refill.
pub open spec fn refill_info(counter: nat) -> Seq<u8> {
    vstd::utf8::encode_utf8("huddle-sas-v1-rs"@) + seq![
        (counter / 0x100_0000 % 256) as u8,
        (counter / 0x1_0000 % 256) as u8,
        (counter / 0x100 % 256) as u8,
        (counter % 256) as u8,
        0u8,
        0u8,
        0u8,
        0u8,
    ]
}

/// Thirty-two more candidates.
pub open spec fn refill_block(shared: Seq<u8>, tx_id: Seq<u8>, counter: nat) -> Seq<u8> {
    primitives::hkdf_sha256(Some(tx_id), shared, refill_info(counter), 32)
}

/// Each candidate folded into the table.
pub open spec fn folded(candidates: Seq<u8>) -> Seq<u8> {
    candidates.map_values(|b: u8| (b % 49) as u8)
}

/// The first seven accepted candidates: those at hand, then those of one refill after another. Should two
/// to the power of 32 refills not hold enough, the first candidates of all, folded into the table, make up
/// for what is missing.
pub open spec fn first_seven(
    shared: Seq<u8>,
    tx_id: Seq<u8>,
    initial: Seq<u8>,
    have: Seq<u8>,
    counter: nat,
) -> Seq<u8>
    decreases 0x1_0000_0000 - counter,
{
    if have.len() >= 7 {
        have.take(7)
    } else if counter >= 0x1_0000_0000 {
        (have + folded(initial)).take(7)
    } else {
        first_seven(
            shared,
            tx_id,
            initial,
            have + accepted(refill_block(shared, tx_id, counter)),
            counter + 1,
        )
    }
}

/// The code of a shared secret.
pub open spec fn code_of_secret(shared: Seq<u8>, tx_id: Seq<u8>, info: Seq<u8>) -> SasCodeView {
    let okm = primitives::hkdf_sha256(Some(tx_id), shared, info, 11);
    let initial = six_bit_groups(okm.take(6));
    SasCodeView {
        emoji_indices: first_seven(shared, tx_id, initial, accepted(initial), 0),
        decimal: decimal_groups(thirteen_bit_groups(okm.skip(6))),
    }
}

/// The code that a peer derives, or why there is none.
pub open spec fn code_of(
    secret: Seq<u8>,
    their_public: Seq<u8>,
    tx_id: Seq<u8>,
    our_ek: Option<Seq<u8>>,
    their_ek: Option<Seq<u8>>,
) -> Result<SasCodeView, ErrorView> {
    let shared = primitives::x25519_shared(secret, their_public);
    if shared == primitives::zeros32() {
        Err(
            ErrorView::Session(
                "SAS rejected: peer X25519 ephemeral is non-contributory (small-order point)"@,
            ),
        )
    } else {
        Ok(code_of_secret(shared, tx_id, transcript(our_ek, their_ek)))
    }
}

proof fn lemma_accepted_push(s: Seq<u8>, b: u8)
    ensures
        accepted(s.push(b)) == (if b % 64 < 49 {
            accepted(s).push((b % 64) as u8)
        } else {
            accepted(s)
        }),
{
    let low = |x: u8| (x % 64) as u8;
    let keep = |v: u8| v < 49;
    assert(s.push(b).map_values(low) =~= s.map_values(low).push(low(b)));
    assert(s.map_values(low).push(low(b)).drop_last() =~= s.map_values(low));
    reveal(Seq::filter);
}

fn accept_into(have: &mut Vec<u8>, candidates: &[u8])
    ensures
        final(have)@ == old(have)@ + accepted(candidates@),
{
    let mut i: usize = 0;
    proof {
        reveal(Seq::filter);
        assert(accepted(candidates@.take(0)) =~= Seq::<u8>::empty());
    }
    while i < candidates.len()
        invariant
            i <= candidates.len(),
            have@ == old(have)@ + accepted(candidates@.take(i as int)),
        decreases candidates.len() - i,
    {
        let v: u8 = candidates[i] % 64;
        proof {
            lemma_accepted_push(candidates@.take(i as int), candidates@[i as int]);
            assert(candidates@.take(i + 1) =~= candidates@.take(i as int).push(
                candidates@[i as int],
            ));
        }
        if v < 49 {
            have.push(v);
        }
        i = i + 1;
    }
    assert(candidates@.take(candidates@.len() as int) =~= candidates@);
}

/// The seven indices of a code, refilled from further output where the first candidates are too
/// few, so that each emoji is as likely as any other. It neither fails nor runs on for ever: after the
/// last refill the first candidates are folded into the table.
fn derive_emoji_indices_rejection(
    shared: &[u8; 32],
    tx_id: &[u8; TX_ID_LEN],
    initial: &[u8],
) -> (r: [u8; 7])
    requires
        initial@.len() == 7,
    ensures
        r@ == first_seven(shared@, tx_id@, initial@, accepted(initial@), 0),
{
    let mut have: Vec<u8> = Vec::new();
    accept_into(&mut have, initial);
    assert(have@ =~= accepted(initial@));
    let mut counter: u64 = 0;
    while have.len() < 7 && counter < 0x1_0000_0000
        invariant
            counter <= 0x1_0000_0000,
            first_seven(shared@, tx_id@, initial@, accepted(initial@), 0) == first_seven(
                shared@,
                tx_id@,
                initial@,
                have@,
                counter as nat,
            ),
        decreases 0x1_0000_0000 - counter,
    {
        let label: &str = "huddle-sas-v1-rs";
        let mut info: Vec<u8> = bytes::to_vec(label.as_bytes());
        info.push((counter / 0x100_0000 % 256) as u8);
        info.push((counter / 0x1_0000 % 256) as u8);
        info.push((counter / 0x100 % 256) as u8);
        info.push((counter % 256) as u8);
        info.push(0);
        info.push(0);
        info.push(0);
        info.push(0);
        assert(info@ =~= refill_info(counter as nat));
        let block: Vec<u8> = primitives::hkdf_expand(
            Some(tx_id.as_slice()),
            shared.as_slice(),
            info.as_slice(),
            32,
        );
        accept_into(&mut have, block.as_slice());
        counter = counter + 1;
    }
    let ghost found = have@;
    if have.len() < 7 {
        let mut k: usize = 0;
        assert(have@ =~= found + folded(initial@).take(0));
        while k < 7
            invariant
                k <= 7,
                initial@.len() == 7,
                have@ == found + folded(initial@).take(k as int),
            decreases 7 - k,
        {
            have.push(initial[k] % 49);
            assert(have@ =~= found + folded(initial@).take(k + 1));
            k = k + 1;
        }
        assert(folded(initial@).take(7) =~= folded(initial@));
    }
    let mut out: [u8; 7] = [0u8; 7];
    let mut i: usize = 0;
    while i < 7
        invariant
            have@.len() >= 7,
            i <= 7,
            forall|j: int| 0 <= j < i ==> out@[j] == have@[j],
        decreases 7 - i,
    {
        out[i] = have[i];
        i = i + 1;
    }
    assert(out@ =~= have@.take(7));
    out
}

/// The code of a shared secret. A verified function of its own, so that it holds for any secret.
pub fn sas_code_from_secret(shared: &[u8; 32], tx_id: &[u8; TX_ID_LEN], info: &[u8]) -> (r:
    SasCode)
    ensures
        r@ == code_of_secret(shared@, tx_id@, info@),
        r@.wf(),
{
    let okm: Vec<u8> = primitives::hkdf_expand(
        Some(tx_id.as_slice()),
        shared.as_slice(),
        info,
        11,
    );
    let mut raw: Vec<u8> = Vec::new();
    raw.push(okm[0] / 4);
    raw.push((okm[0] % 4) * 16 + okm[1] / 16);
    raw.push((okm[1] % 16) * 4 + okm[2] / 64);
    raw.push(okm[2] % 64);
    raw.push(okm[3] / 4);
    raw.push((okm[3] % 4) * 16 + okm[4] / 16);
    raw.push((okm[4] % 16) * 4 + okm[5] / 64);
    assert(raw@ =~= six_bit_groups(okm@.take(6)));
    let emoji_indices: [u8; 7] = derive_emoji_indices_rejection(shared, tx_id, raw.as_slice());
    let d0: u64 = okm[6] as u64;
    let d1: u64 = okm[7] as u64;
    let d2: u64 = okm[8] as u64;
    let d3: u64 = okm[9] as u64;
    let d4: u64 = okm[10] as u64;
    let c0: u64 = d0 * 32 + d1 / 8;
    let c1: u64 = (d1 % 8) * 1024 + d2 * 4 + d3 / 64;
    let c2: u64 = (d3 % 64) * 128 + d4 / 2;
    let mut decimal: String = text::decimal_of(c0 + 1000);
    text::push_str(&mut decimal, "-");
    let s1: String = text::decimal_of(c1 + 1000);
    text::push_str(&mut decimal, s1.as_str());
    text::push_str(&mut decimal, "-");
    let s2: String = text::decimal_of(c2 + 1000);
    text::push_str(&mut decimal, s2.as_str());
    proof {
        let tail = okm@.skip(6);
        assert(tail[0] == okm@[6] && tail[1] == okm@[7] && tail[2] == okm@[8] && tail[3]
            == okm@[9] && tail[4] == okm@[10]);
        law_code_is_well_formed(shared@, tx_id@, info@);
    }
    SasCode { emoji_indices, decimal }
}

/// The code of our secret and their public key, for this transaction. The ML-KEM keys are ours and
/// the partner's, where they are known. A public key that fixes the shared secret by itself is
/// refused.
pub fn derive_sas_code(
    our_secret: &[u8; 32],
    their_public: &[u8; 32],
    tx_id: &[u8; TX_ID_LEN],
    our_mlkem_ek: Option<&[u8]>,
    their_mlkem_ek: Option<&[u8]>,
) -> (r: Result<SasCode, HuddleError>)
    ensures
        crate::error::result_view(r) == code_of(
            our_secret@,
            their_public@,
            tx_id@,
            bytes_of(our_mlkem_ek),
            bytes_of(their_mlkem_ek),
        ),
        r is Ok <==> primitives::x25519_shared(our_secret@, their_public@) != primitives::zeros32(),
{
    let (mut shared, contributory) = primitives::x25519_diffie_hellman(our_secret, their_public);
    if !contributory {
        return Err(
            crate::error::session_error(
                "SAS rejected: peer X25519 ephemeral is non-contributory (small-order point)",
            ),
        );
    }
    let info: Vec<u8> = sas_info(our_mlkem_ek, their_mlkem_ek);
    let code: SasCode = sas_code_from_secret(&shared, tx_id, info.as_slice());
    primitives::wipe_32(&mut shared);
    Ok(code)
}

/// The public key in a base64 text, or why there is none.
pub open spec fn public_key_of(b64: Seq<char>) -> Result<Seq<u8>, ErrorView> {
    match primitives::base64_bytes(b64) {
        Err(words) => Err(ErrorView::Session("bad x25519 pubkey b64: "@ + words)),
        Ok(b) => if b.len() != 32 {
            Err(
                ErrorView::Session(
                    "x25519 pubkey is "@ + text::decimal(b.len()) + " bytes, expected 32"@,
                ),
            )
        } else {
            Ok(b)
        },
    }
}

/// Reads a 32-byte X25519 public key from base64.
pub fn parse_pubkey(b64: &str) -> (r: Result<[u8; 32], HuddleError>)
    ensures
        crate::error::result_view(r) == public_key_of(b64@),
{
    match primitives::base64_decode(b64) {
        Err(words) => Err(
            HuddleError::Session(text::join2("bad x25519 pubkey b64: ", words.as_str())),
        ),
        Ok(b) => {
            if b.len() != 32 {
                let n: String = text::decimal_of(b.len() as u64);
                return Err(
                    HuddleError::Session(
                        text::join3("x25519 pubkey is ", n.as_str(), " bytes, expected 32"),
                    ),
                );
            }
            Ok(bytes::array_32(b.as_slice()))
        },
    }
}

// ---------------------------------------------------------------------------------------------
// Laws
// ---------------------------------------------------------------------------------------------

/// Both sides derive a code, and the same one: from their own secret and the other's public key, for the
/// same transaction, where either both ML-KEM keys are known or neither.
pub proof fn law_both_sides_derive_the_same_code(
    a_secret: Seq<u8>,
    a_public: Seq<u8>,
    b_secret: Seq<u8>,
    b_public: Seq<u8>,
    tx_id: Seq<u8>,
    a_ek: Option<Seq<u8>>,
    b_ek: Option<Seq<u8>>,
)
    requires
        is_key_pair(a_secret, a_public),
        is_key_pair(b_secret, b_public),
        a_ek is Some == b_ek is Some,
    ensures
        code_of(a_secret, b_public, tx_id, a_ek, b_ek) == code_of(
            b_secret,
            a_public,
            tx_id,
            b_ek,
            a_ek,
        ),
        code_of(a_secret, b_public, tx_id, a_ek, b_ek) matches Ok(code) && code.wf(),
{
    law_a_code_always_comes_out(a_secret, b_public, tx_id, a_ek, b_ek);
    assert(primitives::x25519_shared(a_secret, b_public) != primitives::zeros32());
    assert(primitives::x25519_shared(a_secret, primitives::x25519_public(b_secret))
        == primitives::x25519_shared(b_secret, a_public));
    if a_ek is Some {
        law_transcript_is_symmetric(a_ek->0, b_ek->0);
    }
}

proof fn lemma_accepted_small(s: Seq<u8>)
    ensures
        forall|i: int| 0 <= i < accepted(s).len() ==> #[trigger] accepted(s)[i] < 49,
{
    broadcast use vstd::seq_lib::group_filter_ensures;

    let low = s.map_values(|b: u8| (b % 64) as u8);
    let kept = low.filter(|v: u8| v < 49);
}

proof fn lemma_first_seven_small(
    shared: Seq<u8>,
    tx_id: Seq<u8>,
    initial: Seq<u8>,
    have: Seq<u8>,
    counter: nat,
)
    requires
        initial.len() == 7,
        forall|i: int| 0 <= i < have.len() ==> #[trigger] have[i] < 49,
    ensures
        first_seven(shared, tx_id, initial, have, counter).len() == 7,
        forall|i: int|
            0 <= i < 7 ==> #[trigger] first_seven(shared, tx_id, initial, have, counter)[i] < 49,
    decreases 0x1_0000_0000 - counter,
{
    if have.len() < 7 && counter < 0x1_0000_0000 {
        let block = refill_block(shared, tx_id, counter);
        lemma_accepted_small(block);
        lemma_first_seven_small(shared, tx_id, initial, have + accepted(block), counter + 1);
    }
}

/// A code holds seven indices of emoji, and three numbers from 1000 to 9191.
pub proof fn law_code_is_well_formed(shared: Seq<u8>, tx_id: Seq<u8>, info: Seq<u8>)
    ensures
        code_of_secret(shared, tx_id, info).wf(),
        exists|a: nat, b: nat, c: nat|
            code_of_secret(shared, tx_id, info).decimal == #[trigger] decimal_groups((a, b, c)) && a
                + 1000 <= 9191 && b + 1000 <= 9191 && c + 1000 <= 9191,
{
    let okm = primitives::hkdf_sha256(Some(tx_id), shared, info, 11);
    let first = six_bit_groups(okm.take(6));
    lemma_accepted_small(first);
    lemma_first_seven_small(shared, tx_id, first, accepted(first), 0);
    let g = thirteen_bit_groups(okm.skip(6));
    assert(g == (g.0, g.1, g.2));
    assert(g.0 <= 8191 && g.1 <= 8191 && g.2 <= 8191);
    assert(code_of_secret(shared, tx_id, info).decimal == decimal_groups((g.0, g.1, g.2)));
}

/// A code always comes out, with all its indices and numbers, unless the other side's key fixes the shared
/// secret by itself.
pub proof fn law_a_code_always_comes_out(
    secret: Seq<u8>,
    their_public: Seq<u8>,
    tx_id: Seq<u8>,
    our_ek: Option<Seq<u8>>,
    their_ek: Option<Seq<u8>>,
)
    ensures
        match code_of(secret, their_public, tx_id, our_ek, their_ek) {
            Ok(code) => code.wf() && primitives::x25519_shared(secret, their_public)
                != primitives::zeros32(),
            Err(_) => primitives::x25519_shared(secret, their_public) == primitives::zeros32(),
        },
{
    let shared = primitives::x25519_shared(secret, their_public);
    law_code_is_well_formed(shared, tx_id, transcript(our_ek, their_ek));
}

/// With a classical partner the code does not depend on the ML-KEM key that we hold ourselves.
pub proof fn law_classical_codes_ignore_our_key(
    secret: Seq<u8>,
    their_public: Seq<u8>,
    tx_id: Seq<u8>,
    our_ek: Option<Seq<u8>>,
)
    ensures
        code_of(secret, their_public, tx_id, our_ek, None) == code_of(
            secret,
            their_public,
            tx_id,
            None,
            None,
        ),
{
}

} // verus!
