//! Encryption of attachments.
//!
//! A file is encrypted under a key of its own; that key is sent through the room's Megolm session.
//! The ciphertext is bound to a commitment to the plaintext: a keyed code that only members can
//! compute, or for members with older software the plain digest.
use crate::bytes;
use crate::crypto::megolm::{RoomCrypto, RoomCryptoView};
use crate::crypto::primitives;
use crate::error::{ErrorView, HuddleError};
use crate::text;
use vstd::prelude::*;
use vstd::slice::slice_subrange;

verus! {

/// What a receiver needs to decrypt a file, besides the sender's Megolm session.
#[derive(Debug)]
pub struct EncryptedFileMeta {
    pub megolm_session_id: String,
    pub wrapped_key_b64: String,
    pub nonce_b64: String,
    /// The plain digest of the file, in hexadecimal; empty where the code below is set.
    pub content_hash: String,
    /// The keyed code of the file, in base64.
    pub content_mac_b64: Option<String>,
}

pub struct FileMetaView {
    pub megolm_session_id: Seq<char>,
    pub wrapped_key_b64: Seq<char>,
    pub nonce_b64: Seq<char>,
    pub content_hash: Seq<char>,
    pub content_mac_b64: Option<Seq<char>>,
}

impl View for EncryptedFileMeta {
    type V = FileMetaView;

    open spec fn view(&self) -> FileMetaView {
        FileMetaView {
            megolm_session_id: self.megolm_session_id@,
            wrapped_key_b64: self.wrapped_key_b64@,
            nonce_b64: self.nonce_b64@,
            content_hash: self.content_hash@,
            content_mac_b64: match self.content_mac_b64 {
                Some(s) => Some(s@),
                None => None,
            },
        }
    }
}

impl EncryptedFileMeta {
    /// A copy.
    pub fn copy(&self) -> (r: Self)
        ensures
            r@ == self@,
    {
        EncryptedFileMeta {
            megolm_session_id: self.megolm_session_id.clone(),
            wrapped_key_b64: self.wrapped_key_b64.clone(),
            nonce_b64: self.nonce_b64.clone(),
            content_hash: self.content_hash.clone(),
            content_mac_b64: match &self.content_mac_b64 {
                Some(s) => Some(s.clone()),
                None => None,
            },
        }
    }
}

/// The SHA-256 digest in lower-case hexadecimal.
pub open spec fn digest_hex(data: Seq<u8>) -> Seq<char> {
    primitives::hex_text(primitives::sha256(data))
}

/// The SHA-256 digest of bytes in lower-case hexadecimal: 64 digits.
pub fn sha256_hex(data: &[u8]) -> (r: String)
    ensures
        r@ == digest_hex(data@),
        r@.len() == 64,
{
    let digest: [u8; 32] = primitives::sha256_digest(data);
    primitives::hex_encode(digest.as_slice())
}

/// The keyed code of a file: HMAC-SHA256 under a key derived from the file's key.
pub open spec fn content_mac(file_key: Seq<u8>, plaintext: Seq<u8>) -> Seq<u8> {
    primitives::hkdf_extracted(
        primitives::hkdf_sha256(
            None,
            file_key,
            vstd::utf8::encode_utf8("huddle-file-mac-v2"@),
            32,
        ),
        plaintext,
    )
}

fn file_content_mac(file_key: &[u8; 32], plaintext: &[u8]) -> (r: [u8; 32])
    ensures
        r@ == content_mac(file_key@, plaintext@),
{
    let label: &str = "huddle-file-mac-v2";
    let mut mac_key: Vec<u8> = primitives::hkdf_expand(
        None,
        file_key.as_slice(),
        label.as_bytes(),
        32,
    );
    let mac: [u8; 32] = primitives::hkdf_extract(mac_key.as_slice(), plaintext);
    primitives::wipe_vec(&mut mac_key);
    mac
}

/// The associated data of a file's ciphertext.
pub open spec fn commitment(file_key: Seq<u8>, plaintext: Seq<u8>, private_meta: bool) -> Seq<u8> {
    if private_meta {
        content_mac(file_key, plaintext)
    } else {
        vstd::utf8::encode_utf8(digest_hex(plaintext))
    }
}

/// What is offered of a file encrypted under this key and nonce.
pub open spec fn meta_of(
    session_id: Seq<char>,
    wrapped_key: Seq<u8>,
    file_key: Seq<u8>,
    nonce: Seq<u8>,
    plaintext: Seq<u8>,
    private_meta: bool,
) -> FileMetaView {
    FileMetaView {
        megolm_session_id: session_id,
        wrapped_key_b64: primitives::base64_text(wrapped_key),
        nonce_b64: primitives::base64_text(nonce),
        content_hash: if private_meta {
            Seq::empty()
        } else {
            digest_hex(plaintext)
        },
        content_mac_b64: if private_meta {
            Some(primitives::base64_text(content_mac(file_key, plaintext)))
        } else {
            None
        },
    }
}

/// The keyed code that an offer announces, if it announces one that can be read.
pub open spec fn announced_mac(meta: FileMetaView) -> Result<Option<Seq<u8>>, ErrorView> {
    match meta.content_mac_b64 {
        None => Ok(None),
        Some(b64) => match primitives::base64_bytes(b64) {
            Ok(mac) => if mac.len() == 32 {
                Ok(Some(mac))
            } else {
                Err(ErrorView::Other("bad content_mac_b64"@))
            },
            Err(_) => Err(ErrorView::Other("bad content_mac_b64"@)),
        },
    }
}

/// The plaintext of a file whose key is known, or why there is none.
pub open spec fn plaintext_of(ciphertext: Seq<u8>, meta: FileMetaView, file_key: Seq<u8>) -> Result<
    Seq<u8>,
    ErrorView,
> {
    if file_key.len() != 32 {
        Err(
            ErrorView::Other(
                "unwrapped file key is "@ + text::decimal(file_key.len())
                    + " bytes, expected 32"@,
            ),
        )
    } else {
        match primitives::base64_bytes(meta.nonce_b64) {
            Err(words) => Err(ErrorView::Other("bad nonce_b64: "@ + words)),
            Ok(nonce) => if nonce.len() != 12 {
                Err(
                    ErrorView::Other(
                        "nonce is "@ + text::decimal(nonce.len()) + " bytes, expected 12"@,
                    ),
                )
            } else {
                match announced_mac(meta) {
                    Err(e) => Err(e),
                    Ok(mac) => {
                        let aad = match mac {
                            Some(m) => m,
                            None => vstd::utf8::encode_utf8(meta.content_hash),
                        };
                        match primitives::opened(file_key, nonce, aad, ciphertext) {
                            None => Err(ErrorView::Other("chacha20 decrypt: aead::Error"@)),
                            Some(plaintext) => match mac {
                                Some(m) => if content_mac(file_key, plaintext) != m {
                                    Err(
                                        ErrorView::Other(
                                            "decrypted file content does not match its announced MAC"@,
                                        ),
                                    )
                                } else {
                                    Ok(plaintext)
                                },
                                None => if digest_hex(plaintext) != meta.content_hash {
                                    Err(
                                        ErrorView::Other(
                                            "decrypted file content does not match its announced hash"@,
                                        ),
                                    )
                                } else {
                                    Ok(plaintext)
                                },
                            },
                        }
                    },
                }
            },
        }
    }
}

/// What a member makes of a file, or why nothing.
pub open spec fn decrypted_file(
    room: RoomCryptoView,
    ciphertext: Seq<u8>,
    meta: FileMetaView,
    sender: Seq<char>,
) -> Result<Seq<u8>, ErrorView> {
    match primitives::base64_bytes(meta.wrapped_key_b64) {
        Err(words) => Err(ErrorView::Other("bad wrapped_key_b64: "@ + words)),
        Ok(wrapped) => match room.decrypted(sender, meta.megolm_session_id, wrapped) {
            Err(e) => Err(e),
            Ok(d) => plaintext_of(ciphertext, meta, d.0),
        },
    }
}

/// A file was encrypted under this key and nonce, and the key sent through the room's session. Every
/// member who took in a key of the session decrypts the file again, and from no other ciphertext.
pub open spec fn sealed_with(
    before: RoomCryptoView,
    plaintext: Seq<u8>,
    private_meta: bool,
    file_key: Seq<u8>,
    nonce: Seq<u8>,
    after: RoomCryptoView,
    ciphertext: Seq<u8>,
    meta: FileMetaView,
) -> bool {
    &&& file_key.len() == 32
    &&& nonce.len() == 12
    &&& ciphertext == primitives::sealed(
        file_key,
        nonce,
        commitment(file_key, plaintext, private_meta),
        plaintext,
    )
    &&& ciphertext.len() == plaintext.len() + 16
    &&& exists|now: i64| after == #[trigger] before.after_encrypt(file_key, now)
    &&& crate::crypto::megolm::sent_on(before, after)
    &&& meta == meta_of(
        before.session_id(),
        (crate::crypto::megolm::megolm_encrypted(
            before.outbound,
            before.persist_key,
            file_key,
        )->0).1,
        file_key,
        nonce,
        plaintext,
        private_meta,
    )
    &&& forall|receiver: RoomCryptoView, sender: Seq<char>|
        receiver.holds(sender, before) ==> #[trigger] decrypted_file(
            receiver,
            ciphertext,
            meta,
            sender,
        ) == Ok::<Seq<u8>, ErrorView>(plaintext)
    &&& forall|receiver: RoomCryptoView, sender: Seq<char>, other: Seq<u8>|
        receiver.holds(sender, before) && other != ciphertext ==> #[trigger] decrypted_file(
            receiver,
            other,
            meta,
            sender,
        ) != Ok::<Seq<u8>, ErrorView>(plaintext)
}

/// Encrypts a file under this key and nonce, and sends the key through the room's session. Every
/// member who took in a key of the session decrypts the file again.
pub fn encrypt_file_with(
    plaintext: &[u8],
    room_crypto: &mut RoomCrypto,
    private_meta: bool,
    file_key: &[u8; 32],
    nonce: &[u8; 12],
) -> (r: Result<(Vec<u8>, EncryptedFileMeta), HuddleError>)
    requires
        old(room_crypto)@.wf(),
    ensures
        final(room_crypto)@.wf(),
        match r {
            Ok(sent) => {
                &&& plaintext@.len() < primitives::SEAL_LIMIT
                &&& old(room_crypto)@.can_encrypt()
                &&& sealed_with(
                    old(room_crypto)@,
                    plaintext@,
                    private_meta,
                    file_key@,
                    nonce@,
                    final(room_crypto)@,
                    sent.0@,
                    sent.1@,
                )
            },
            Err(e) => {
                &&& final(room_crypto)@ == old(room_crypto)@
                &&& if plaintext@.len() >= primitives::SEAL_LIMIT {
                    e@ == ErrorView::Other("chacha20 encrypt: aead::Error"@)
                } else {
                    !old(room_crypto)@.can_encrypt() && e@ == ErrorView::Session(
                        "megolm session is exhausted"@,
                    )
                }
            },
        },
{
    let mut content_hash: String = String::new();
    let mut content_mac_b64: Option<String> = None;
    let aad: Vec<u8>;
    if private_meta {
        let mac: [u8; 32] = file_content_mac(file_key, plaintext);
        content_mac_b64 = Some(primitives::base64_encode(mac.as_slice()));
        aad = bytes::to_vec(mac.as_slice());
    } else {
        content_hash = sha256_hex(plaintext);
        aad = bytes::to_vec(content_hash.as_str().as_bytes());
    }
    let ciphertext: Vec<u8> = match primitives::seal(file_key, nonce, aad.as_slice(), plaintext) {
        Some(c) => c,
        None => {
            return Err(crate::error::other_error("chacha20 encrypt: aead::Error"));
        },
    };
    match room_crypto.encrypt(file_key.as_slice()) {
        Err(e) => Err(e),
        Ok((session_id, wrapped)) => {
            let meta = EncryptedFileMeta {
                megolm_session_id: session_id,
                wrapped_key_b64: primitives::base64_encode(wrapped.as_slice()),
                nonce_b64: primitives::base64_encode(nonce.as_slice()),
                content_hash,
                content_mac_b64,
            };
            proof {
                let old_view = old(room_crypto)@;
                assert forall|receiver: RoomCryptoView, sender: Seq<char>|
                    receiver.holds(sender, old_view) implies #[trigger] decrypted_file(receiver, ciphertext@, meta@, sender)
                    == Ok::<Seq<u8>, ErrorView>(plaintext@) by {
                    crate::crypto::megolm::law_members_read_what_is_sent(
                        receiver,
                        sender,
                        old_view,
                        wrapped@,
                        file_key@,
                    );
                }
                assert forall|receiver: RoomCryptoView, sender: Seq<char>, other: Seq<u8>|
                    receiver.holds(sender, old_view) && other
                        != ciphertext@ implies #[trigger] decrypted_file(receiver, other, meta@, sender)
                    != Ok::<Seq<u8>, ErrorView>(plaintext@) by {
                    crate::crypto::megolm::law_members_read_what_is_sent(
                        receiver,
                        sender,
                        old_view,
                        wrapped@,
                        file_key@,
                    );
                    assert(primitives::opened(file_key@, nonce@, aad@, other) != Some(plaintext@));
                }
            }
            Ok((ciphertext, meta))
        },
    }
}

/// A file was encrypted, under a key and a nonce that are drawn at random.
pub open spec fn file_sealed(
    before: RoomCryptoView,
    plaintext: Seq<u8>,
    private_meta: bool,
    after: RoomCryptoView,
    ciphertext: Seq<u8>,
    meta: FileMetaView,
) -> bool {
    exists|file_key: Seq<u8>, nonce: Seq<u8>| #[trigger]
        sealed_with(before, plaintext, private_meta, file_key, nonce, after, ciphertext, meta)
}

/// Encrypts a file under a key and a nonce drawn for it, and sends the key through the room's
/// session. Whatever they are, every member who took in the session key decrypts the file again.
pub fn encrypt_file(plaintext: &[u8], room_crypto: &mut RoomCrypto, private_meta: bool) -> (r:
    Result<(Vec<u8>, EncryptedFileMeta), HuddleError>)
    requires
        old(room_crypto)@.wf(),
    ensures
        final(room_crypto)@.wf(),
        match r {
            Ok(sent) => {
                &&& plaintext@.len() < primitives::SEAL_LIMIT
                &&& old(room_crypto)@.can_encrypt()
                &&& file_sealed(
                    old(room_crypto)@,
                    plaintext@,
                    private_meta,
                    final(room_crypto)@,
                    sent.0@,
                    sent.1@,
                )
            },
            Err(e) => {
                &&& final(room_crypto)@ == old(room_crypto)@
                &&& if plaintext@.len() >= primitives::SEAL_LIMIT {
                    e@ == ErrorView::Other("chacha20 encrypt: aead::Error"@)
                } else {
                    !old(room_crypto)@.can_encrypt() && e@ == ErrorView::Session(
                        "megolm session is exhausted"@,
                    )
                }
            },
        },
{
    let mut file_key: [u8; 32] = primitives::random_32();
    let random: [u8; 32] = primitives::random_32();
    let nonce: [u8; 12] = bytes::array_12(slice_subrange(random.as_slice(), 0, 12));
    let sent = encrypt_file_with(plaintext, room_crypto, private_meta, &file_key, &nonce);
    proof {
        if sent is Ok {
            assert(sealed_with(
                old(room_crypto)@,
                plaintext@,
                private_meta,
                file_key@,
                nonce@,
                room_crypto@,
                (sent->Ok_0).0@,
                (sent->Ok_0).1@,
            ));
        }
    }
    primitives::wipe_32(&mut file_key);
    sent
}

/// Decrypts a file whose key is known.
pub fn open_file(ciphertext: &[u8], meta: &EncryptedFileMeta, file_key_bytes: &[u8]) -> (r: Result<
    Vec<u8>,
    HuddleError,
>)
    ensures
        crate::error::result_view(r) == plaintext_of(ciphertext@, meta@, file_key_bytes@),
{
    if file_key_bytes.len() != 32 {
        let n: String = text::decimal_of(file_key_bytes.len() as u64);
        return Err(
            HuddleError::Other(
                text::join3("unwrapped file key is ", n.as_str(), " bytes, expected 32"),
            ),
        );
    }
    let file_key: [u8; 32] = bytes::array_32(file_key_bytes);
    let nonce_bytes: Vec<u8> = match primitives::base64_decode(meta.nonce_b64.as_str()) {
        Ok(b) => b,
        Err(words) => {
            return Err(HuddleError::Other(text::join2("bad nonce_b64: ", words.as_str())));
        },
    };
    if nonce_bytes.len() != 12 {
        let n: String = text::decimal_of(nonce_bytes.len() as u64);
        return Err(
            HuddleError::Other(text::join3("nonce is ", n.as_str(), " bytes, expected 12")),
        );
    }
    let nonce: [u8; 12] = bytes::array_12(nonce_bytes.as_slice());
    let mac: Option<Vec<u8>> = match &meta.content_mac_b64 {
        None => None,
        Some(b64) => match primitives::base64_decode(b64.as_str()) {
            Ok(b) => {
                if b.len() != 32 {
                    return Err(crate::error::other_error("bad content_mac_b64"));
                }
                Some(b)
            },
            Err(_) => {
                return Err(crate::error::other_error("bad content_mac_b64"));
            },
        },
    };
    let aad: Vec<u8> = match &mac {
        Some(m) => bytes::to_vec(m.as_slice()),
        None => bytes::to_vec(meta.content_hash.as_str().as_bytes()),
    };
    match primitives::open(&file_key, &nonce, aad.as_slice(), ciphertext) {
        None => Err(crate::error::other_error("chacha20 decrypt: aead::Error")),
        Some(plaintext) => match mac {
            Some(m) => {
                let computed: [u8; 32] = file_content_mac(&file_key, plaintext.as_slice());
                if !bytes::same_bytes(computed.as_slice(), m.as_slice()) {
                    return Err(
                        crate::error::other_error(
                            "decrypted file content does not match its announced MAC",
                        ),
                    );
                }
                Ok(plaintext)
            },
            None => {
                let computed: String = sha256_hex(plaintext.as_slice());
                if !text::same(computed.as_str(), meta.content_hash.as_str()) {
                    return Err(
                        crate::error::other_error(
                            "decrypted file content does not match its announced hash",
                        ),
                    );
                }
                Ok(plaintext)
            },
        },
    }
}

/// What unwrapping the key of a file makes of a room: where it succeeds, the session that the key came
/// under is to be stored again.
pub open spec fn key_read(
    before: RoomCryptoView,
    meta: FileMetaView,
    sender: Seq<char>,
    after: RoomCryptoView,
) -> bool {
    match primitives::base64_bytes(meta.wrapped_key_b64) {
        Err(_) => after == before,
        Ok(wrapped) => match before.decrypted(sender, meta.megolm_session_id, wrapped) {
            Err(_) => after == before,
            Ok(d) => exists|now: i64|
                after == #[trigger] before.with_inbound(sender, meta.megolm_session_id, d.2, now),
        },
    }
}

/// Decrypts a file that `encrypt_file` made, with the sender's session. Where the key could be
/// unwrapped the session is to be stored again, whatever became of the file.
pub fn decrypt_file(
    ciphertext: &[u8],
    meta: &EncryptedFileMeta,
    room_crypto: &mut RoomCrypto,
    sender_fingerprint: &str,
) -> (r: Result<Vec<u8>, HuddleError>)
    requires
        old(room_crypto)@.wf(),
    ensures
        final(room_crypto)@.wf(),
        crate::error::result_view(r) == decrypted_file(
            old(room_crypto)@,
            ciphertext@,
            meta@,
            sender_fingerprint@,
        ),
        key_read(old(room_crypto)@, meta@, sender_fingerprint@, final(room_crypto)@),
{
    let wrapped: Vec<u8> = match primitives::base64_decode(meta.wrapped_key_b64.as_str()) {
        Ok(b) => b,
        Err(words) => {
            return Err(HuddleError::Other(text::join2("bad wrapped_key_b64: ", words.as_str())));
        },
    };
    match room_crypto.decrypt(
        sender_fingerprint,
        meta.megolm_session_id.as_str(),
        wrapped.as_slice(),
    ) {
        Err(e) => Err(e),
        Ok((mut file_key, _index)) => {
            let opened = open_file(ciphertext, meta, file_key.as_slice());
            primitives::wipe_vec(&mut file_key);
            opened
        },
    }
}

// ---------------------------------------------------------------------------------------------
// Laws
// ---------------------------------------------------------------------------------------------

/// The key of a file that a member can unwrap.
pub open spec fn file_key_of(room: RoomCryptoView, meta: FileMetaView, sender: Seq<char>) -> Seq<u8> {
    room.decrypted(
        sender,
        meta.megolm_session_id,
        primitives::base64_bytes(meta.wrapped_key_b64)->Ok_0,
    )->Ok_0.0
}

/// Two contents with the same commitment: under this key the same keyed code, or the same SHA-256 digest.
pub open spec fn same_commitment(
    file_key: Seq<u8>,
    a: Seq<u8>,
    b: Seq<u8>,
    private_meta: bool,
) -> bool {
    if private_meta {
        content_mac(file_key, a) == content_mac(file_key, b)
    } else {
        digest_hex(a) == digest_hex(b)
    }
}

/// A file whose ciphertext was changed on its way, be it in one bit, is refused, unless it happens to be
/// the ciphertext of another content with the same commitment: it never comes out as the file that was sent.
pub proof fn law_changed_files_are_refused_or_collide(
    before: RoomCryptoView,
    plaintext: Seq<u8>,
    private_meta: bool,
    after: RoomCryptoView,
    ciphertext: Seq<u8>,
    meta: FileMetaView,
    receiver: RoomCryptoView,
    sender: Seq<char>,
    changed: Seq<u8>,
)
    requires
        file_sealed(before, plaintext, private_meta, after, ciphertext, meta),
        receiver.holds(sender, before),
        changed != ciphertext,
    ensures
        decrypted_file(receiver, changed, meta, sender) matches Ok(found) ==> found != plaintext
            && same_commitment(
            file_key_of(receiver, meta, sender),
            found,
            plaintext,
            private_meta,
        ),
        (forall|found: Seq<u8>| #[trigger]
            same_commitment(
                file_key_of(receiver, meta, sender),
                found,
                plaintext,
                private_meta,
            ) ==> found == plaintext) ==> decrypted_file(receiver, changed, meta, sender) is Err,
{
    let (file_key, nonce) = choose|file_key: Seq<u8>, nonce: Seq<u8>| #[trigger]
        sealed_with(before, plaintext, private_meta, file_key, nonce, after, ciphertext, meta);
    assert(decrypted_file(receiver, ciphertext, meta, sender) == Ok::<Seq<u8>, ErrorView>(
        plaintext,
    ));
    if decrypted_file(receiver, changed, meta, sender) is Ok {
        let found = decrypted_file(receiver, changed, meta, sender)->Ok_0;
        let key = file_key_of(receiver, meta, sender);
        assert(same_commitment(key, found, plaintext, private_meta));
    }
}

/// A file of a sender whose session the receiver does not hold is refused, whatever its ciphertext.
pub proof fn law_files_of_unknown_senders_are_refused(
    receiver: RoomCryptoView,
    ciphertext: Seq<u8>,
    meta: FileMetaView,
    sender: Seq<char>,
)
    requires
        !receiver.inbound.dom().contains((sender, meta.megolm_session_id)),
    ensures
        decrypted_file(receiver, ciphertext, meta, sender) is Err,
{
}

} // verus!
