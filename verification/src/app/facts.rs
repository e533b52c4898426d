//! What is known about a message that arrives.
use crate::app::records::{AttachmentStatus, StoredRoom, StoredRoomView};
use crate::bytes;
use crate::text;
use vstd::prelude::*;

verus! {

/// A room on disk, where there is one.
pub open spec fn room_opt(r: Option<StoredRoom>) -> Option<StoredRoomView> {
    match r {
        Some(r) => Some(r@),
        None => None,
    }
}

/// How far a file is that is on disk.
#[derive(Debug, Clone, Copy)]
pub struct AttachmentFacts {
    pub status: AttachmentStatus,
    pub size_bytes: i64,
}

/// What is on disk that bears on a message. The subject of a message is whoever `RoomMessage::subject`
/// says.
#[derive(Debug, Clone)]
pub struct RoomFacts {
    /// The room.
    pub room: Option<StoredRoom>,
    /// The owners of the room.
    pub owners: Vec<String>,
    /// Who is banned from the room.
    pub banned: Vec<String>,
    /// Only verified peers may join the room.
    pub verified_only: bool,
    pub subject_verified: bool,
    pub subject_blocked: bool,
    pub subject_is_contact: bool,
    /// The ML-KEM key that the subject announced before, in base64.
    pub subject_mlkem_pubkey: Option<String>,
    /// The subject was verified as one who speaks ML-KEM.
    pub subject_pq_verified: bool,
    /// Who sent the message that this one is about, if it is in the room.
    pub target_sender: Option<String>,
    /// The indices of the messages that were taken from the session of this one.
    pub seen_indices: Vec<u32>,
    /// The file that this message is about.
    pub attachment: Option<AttachmentFacts>,
    /// What the cache holds under the id of that file.
    pub cached_file: Option<Vec<u8>>,
    /// The room in which others ask to be our contacts.
    pub inbox_room_id: String,
    /// A proof of a join code may be looked at now.
    pub proof_allowed: bool,
}

/// A `RoomFacts`, as contracts speak of it.
#[verifier::ext_equal]
pub struct FactsView {
    pub room: Option<StoredRoomView>,
    pub owners: Seq<Seq<char>>,
    pub banned: Seq<Seq<char>>,
    pub verified_only: bool,
    pub subject_verified: bool,
    pub subject_blocked: bool,
    pub subject_is_contact: bool,
    pub subject_mlkem_pubkey: Option<Seq<char>>,
    pub subject_pq_verified: bool,
    pub target_sender: Option<Seq<char>>,
    pub seen_indices: Seq<u32>,
    pub attachment: Option<AttachmentFacts>,
    pub cached_file: Option<Seq<u8>>,
    pub inbox_room_id: Seq<char>,
    pub proof_allowed: bool,
}

impl View for RoomFacts {
    type V = FactsView;

    open spec fn view(&self) -> FactsView {
        FactsView {
            room: room_opt(self.room),
            owners: text::texts(self.owners@),
            banned: text::texts(self.banned@),
            verified_only: self.verified_only,
            subject_verified: self.subject_verified,
            subject_blocked: self.subject_blocked,
            subject_is_contact: self.subject_is_contact,
            subject_mlkem_pubkey: text::opt(self.subject_mlkem_pubkey),
            subject_pq_verified: self.subject_pq_verified,
            target_sender: text::opt(self.target_sender),
            seen_indices: self.seen_indices@,
            attachment: self.attachment,
            cached_file: bytes::opt(self.cached_file),
            inbox_room_id: self.inbox_room_id@,
            proof_allowed: self.proof_allowed,
        }
    }
}

impl FactsView {
    /// An owner who is not banned.
    pub open spec fn is_owner(self, fingerprint: Seq<char>) -> bool {
        self.owners.contains(fingerprint) && !self.banned.contains(fingerprint)
    }
}

impl RoomFacts {
    /// An owner who is not banned.
    pub fn is_owner(&self, fingerprint: &str) -> (r: bool)
        ensures
            r == self@.is_owner(fingerprint@),
    {
        text::texts_contain(&self.owners, fingerprint) && !self.is_banned(fingerprint)
    }

    pub fn is_banned(&self, fingerprint: &str) -> (r: bool)
        ensures
            r == self@.banned.contains(fingerprint@),
    {
        text::texts_contain(&self.banned, fingerprint)
    }
}

/// What is known of a message besides what it says.
pub struct Envelope {
    /// The room in which it came.
    pub room_id: String,
    /// Who signed it, if the signature was checked.
    pub signer: Option<String>,
    /// The time that the signature covers, in milliseconds.
    pub signed_at_ms: Option<i64>,
    pub now: i64,
    pub now_ms: i64,
}

/// What is known of a message besides what it says, as contracts speak of it.
pub struct EnvelopeView {
    pub room_id: Seq<char>,
    pub signer: Option<Seq<char>>,
    pub signed_at_ms: Option<i64>,
    pub now: i64,
    pub now_ms: i64,
}

impl View for Envelope {
    type V = EnvelopeView;

    open spec fn view(&self) -> EnvelopeView {
        EnvelopeView {
            room_id: self.room_id@,
            signer: text::opt(self.signer),
            signed_at_ms: self.signed_at_ms,
            now: self.now,
            now_ms: self.now_ms,
        }
    }
}

impl Envelope {
    /// Signed by this peer.
    pub fn signed_by(&self, fingerprint: &str) -> (r: bool)
        ensures
            r == (self@.signer == Some(fingerprint@)),
    {
        match &self.signer {
            Some(s) => text::same(s.as_str(), fingerprint),
            None => false,
        }
    }
}

} // verus!
