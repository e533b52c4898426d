//! What is on disk.
use crate::app::events::RoomKind;
use crate::bytes;
use crate::text;
use vstd::prelude::*;

verus! {

/// A room on disk.
#[derive(Debug, Clone)]
pub struct StoredRoom {
    pub id: String,
    pub name: String,
    pub creator_fingerprint: String,
    pub encrypted: bool,
    pub passphrase_salt: Option<Vec<u8>>,
    pub created_at: i64,
    pub last_active: Option<i64>,
    pub kind: RoomKind,
}

/// A `StoredRoom`, as contracts speak of it.
#[verifier::ext_equal]
pub struct StoredRoomView {
    pub id: Seq<char>,
    pub name: Seq<char>,
    pub creator_fingerprint: Seq<char>,
    pub encrypted: bool,
    pub passphrase_salt: Option<Seq<u8>>,
    pub created_at: i64,
    pub last_active: Option<i64>,
    pub kind: RoomKind,
}

impl View for StoredRoom {
    type V = StoredRoomView;

    open spec fn view(&self) -> StoredRoomView {
        StoredRoomView {
            id: self.id@,
            name: self.name@,
            creator_fingerprint: self.creator_fingerprint@,
            encrypted: self.encrypted,
            passphrase_salt: bytes::opt(self.passphrase_salt),
            created_at: self.created_at,
            last_active: self.last_active,
            kind: self.kind,
        }
    }
}

impl StoredRoom {
    /// Another one, with the same fields.
    pub fn copy(&self) -> (r: Self)
        ensures
            r@ == self@,
    {
        StoredRoom {
            id: self.id.clone(),
            name: self.name.clone(),
            creator_fingerprint: self.creator_fingerprint.clone(),
            encrypted: self.encrypted,
            passphrase_salt: bytes::opt_copy(&self.passphrase_salt),
            created_at: self.created_at,
            last_active: self.last_active,
            kind: self.kind,
        }
    }
}

/// A member of a room, on disk.
#[derive(Debug, Clone)]
pub struct StoredRoomMember {
    pub room_id: String,
    pub peer_id: String,
    pub fingerprint: String,
    pub last_seen: Option<i64>,
    pub verified: bool,
    /// The key that the member signs with, as base64.
    pub ed25519_pubkey: Option<String>,
    /// "owner" or "member".
    pub role: String,
    /// The ML-KEM key that the member once announced, as base64.
    pub mlkem_pubkey: Option<String>,
}

/// A `StoredRoomMember`, as contracts speak of it.
#[verifier::ext_equal]
pub struct MemberView {
    pub room_id: Seq<char>,
    pub peer_id: Seq<char>,
    pub fingerprint: Seq<char>,
    pub last_seen: Option<i64>,
    pub verified: bool,
    pub ed25519_pubkey: Option<Seq<char>>,
    pub role: Seq<char>,
    pub mlkem_pubkey: Option<Seq<char>>,
}

impl View for StoredRoomMember {
    type V = MemberView;

    open spec fn view(&self) -> MemberView {
        MemberView {
            room_id: self.room_id@,
            peer_id: self.peer_id@,
            fingerprint: self.fingerprint@,
            last_seen: self.last_seen,
            verified: self.verified,
            ed25519_pubkey: text::opt(self.ed25519_pubkey),
            role: self.role@,
            mlkem_pubkey: text::opt(self.mlkem_pubkey),
        }
    }
}

/// An address that was dialed, on disk.
#[derive(Debug, Clone)]
pub struct KnownPeer {
    pub address: String,
    pub label: Option<String>,
    pub last_connected_at: Option<i64>,
    pub last_attempt_at: Option<i64>,
    pub created_at: i64,
    pub fingerprint: Option<String>,
    pub trusted: bool,
}

/// A `KnownPeer`, as contracts speak of it.
#[verifier::ext_equal]
pub struct KnownPeerView {
    pub address: Seq<char>,
    pub label: Option<Seq<char>>,
    pub last_connected_at: Option<i64>,
    pub last_attempt_at: Option<i64>,
    pub created_at: i64,
    pub fingerprint: Option<Seq<char>>,
    pub trusted: bool,
}

impl View for KnownPeer {
    type V = KnownPeerView;

    open spec fn view(&self) -> KnownPeerView {
        KnownPeerView {
            address: self.address@,
            label: text::opt(self.label),
            last_connected_at: self.last_connected_at,
            last_attempt_at: self.last_attempt_at,
            created_at: self.created_at,
            fingerprint: text::opt(self.fingerprint),
            trusted: self.trusted,
        }
    }
}

/// How far the transfer of a file is.
#[derive(Debug, Clone, Copy, PartialEq, Eq, Structural)]
pub enum AttachmentStatus {
    Offered,
    Downloading,
    Ready,
    Saved,
    Failed,
    Cancelled,
}

/// A file in a room, on disk.
#[derive(Debug, Clone)]
pub struct StoredAttachment {
    pub id: i64,
    pub room_id: String,
    pub message_id: Option<i64>,
    pub sender_fingerprint: String,
    pub file_id: String,
    pub name: String,
    pub mime: Option<String>,
    pub size_bytes: i64,
    pub status: AttachmentStatus,
    pub cache_path: Option<String>,
    pub saved_path: Option<String>,
    pub error: Option<String>,
    pub encrypted: bool,
    pub wrapped_key: Option<String>,
    pub nonce: Option<String>,
    pub megolm_session_id: Option<String>,
    pub content_hash: Option<String>,
    pub content_mac: Option<String>,
    pub created_at: i64,
}

/// A `StoredAttachment`, as contracts speak of it.
#[verifier::ext_equal]
pub struct AttachmentView {
    pub id: i64,
    pub room_id: Seq<char>,
    pub message_id: Option<i64>,
    pub sender_fingerprint: Seq<char>,
    pub file_id: Seq<char>,
    pub name: Seq<char>,
    pub mime: Option<Seq<char>>,
    pub size_bytes: i64,
    pub status: AttachmentStatus,
    pub cache_path: Option<Seq<char>>,
    pub saved_path: Option<Seq<char>>,
    pub error: Option<Seq<char>>,
    pub encrypted: bool,
    pub wrapped_key: Option<Seq<char>>,
    pub nonce: Option<Seq<char>>,
    pub megolm_session_id: Option<Seq<char>>,
    pub content_hash: Option<Seq<char>>,
    pub content_mac: Option<Seq<char>>,
    pub created_at: i64,
}

impl View for StoredAttachment {
    type V = AttachmentView;

    open spec fn view(&self) -> AttachmentView {
        AttachmentView {
            id: self.id,
            room_id: self.room_id@,
            message_id: self.message_id,
            sender_fingerprint: self.sender_fingerprint@,
            file_id: self.file_id@,
            name: self.name@,
            mime: text::opt(self.mime),
            size_bytes: self.size_bytes,
            status: self.status,
            cache_path: text::opt(self.cache_path),
            saved_path: text::opt(self.saved_path),
            error: text::opt(self.error),
            encrypted: self.encrypted,
            wrapped_key: text::opt(self.wrapped_key),
            nonce: text::opt(self.nonce),
            megolm_session_id: text::opt(self.megolm_session_id),
            content_hash: text::opt(self.content_hash),
            content_mac: text::opt(self.content_mac),
            created_at: self.created_at,
        }
    }
}

/// A contact request that waits for an answer.
#[derive(Debug, Clone)]
pub struct PendingContactRequest {
    pub fingerprint: String,
    pub display_name: Option<String>,
    pub note: Option<String>,
    pub received_at: i64,
}

/// A `PendingContactRequest`, as contracts speak of it.
#[verifier::ext_equal]
pub struct PendingContactView {
    pub fingerprint: Seq<char>,
    pub display_name: Option<Seq<char>>,
    pub note: Option<Seq<char>>,
    pub received_at: i64,
}

impl View for PendingContactRequest {
    type V = PendingContactView;

    open spec fn view(&self) -> PendingContactView {
        PendingContactView {
            fingerprint: self.fingerprint@,
            display_name: text::opt(self.display_name),
            note: text::opt(self.note),
            received_at: self.received_at,
        }
    }
}

/// An inbound dial that was put off.
#[derive(Debug, Clone)]
pub struct PendingFriendRequest {
    pub fingerprint: String,
    pub address: String,
    pub peer_id: String,
    pub received_at: i64,
}

/// A `PendingFriendRequest`, as contracts speak of it.
#[verifier::ext_equal]
pub struct PendingFriendView {
    pub fingerprint: Seq<char>,
    pub address: Seq<char>,
    pub peer_id: Seq<char>,
    pub received_at: i64,
}

impl View for PendingFriendRequest {
    type V = PendingFriendView;

    open spec fn view(&self) -> PendingFriendView {
        PendingFriendView {
            fingerprint: self.fingerprint@,
            address: self.address@,
            peer_id: self.peer_id@,
            received_at: self.received_at,
        }
    }
}

/// An entry of the address book.
#[derive(Debug, Clone)]
pub struct Contact {
    pub fingerprint: String,
    pub alias: Option<String>,
    pub ed25519_pubkey: Option<String>,
    pub dm_room_id: Option<String>,
    pub source: String,
    pub note: Option<String>,
    pub added_at: i64,
    pub last_seen: Option<i64>,
}

/// A `Contact`, as contracts speak of it.
#[verifier::ext_equal]
pub struct ContactRow {
    pub fingerprint: Seq<char>,
    pub alias: Option<Seq<char>>,
    pub ed25519_pubkey: Option<Seq<char>>,
    pub dm_room_id: Option<Seq<char>>,
    pub source: Seq<char>,
    pub note: Option<Seq<char>>,
    pub added_at: i64,
    pub last_seen: Option<i64>,
}

impl View for Contact {
    type V = ContactRow;

    open spec fn view(&self) -> ContactRow {
        ContactRow {
            fingerprint: self.fingerprint@,
            alias: text::opt(self.alias),
            ed25519_pubkey: text::opt(self.ed25519_pubkey),
            dm_room_id: text::opt(self.dm_room_id),
            source: self.source@,
            note: text::opt(self.note),
            added_at: self.added_at,
            last_seen: self.last_seen,
        }
    }
}

/// Known peers by their views.
pub open spec fn known_peers(s: Seq<KnownPeer>) -> Seq<KnownPeerView> {
    s.map_values(|x: KnownPeer| x@)
}

} // verus!
