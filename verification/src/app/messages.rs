//! What peers send each other.
use crate::app::events::RoomKind;
use crate::bytes;
use crate::files::encryption::{EncryptedFileMeta, FileMetaView};
use crate::text;
use vstd::prelude::*;

verus! {

/// The description of an encrypted file, where there is one.
pub open spec fn meta_opt(m: Option<EncryptedFileMeta>) -> Option<FileMetaView> {
    match m {
        Some(m) => Some(m@),
        None => None,
    }
}

/// What the members of a room send each other.
#[derive(Debug)]
pub enum RoomMessage {
    /// A member says who they are, and hands out their wrapped session key.
    MemberAnnounce { sender_fingerprint: String, wrapped_session_key: Option<String>, display_name: Option<String>, sender_ed25519_pubkey: Option<String>, sender_mlkem_pubkey: Option<String>, mlkem_ciphertext: Option<String>, capabilities: u64 },
    /// A member asks the others to announce themselves.
    SessionKeyRequest { requester_fingerprint: String },
    Encrypted { sender_fingerprint: String, session_id: String, ciphertext_b64: String, client_msg_id: Option<String>, reply_to: Option<String> },
    Plain { sender_fingerprint: String, body: String, client_msg_id: Option<String>, reply_to: Option<String> },
    Typing { sender_fingerprint: String },
    RotateRoomKey { rotator_fingerprint: String, new_salt: Vec<u8>, room_id: Option<String> },
    MemberLeave { sender_fingerprint: String, room_id: Option<String> },
    FileOffer { sender_fingerprint: String, file_id: String, name: String, size_bytes: u64, mime: Option<String>, chunk_count: u32, encrypted_meta: Option<EncryptedFileMeta> },
    FileChunk { sender_fingerprint: String, file_id: String, chunk_index: u32, total_chunks: u32, data_b64: String },
    OwnerGrant { room_id: String, target_fingerprint: String },
    BanMember { room_id: String, target_fingerprint: String },
    SasInit { tx_id: String, ephemeral_x25519_pubkey_b64: String, target_fingerprint: String },
    SasResponse { tx_id: String, ephemeral_x25519_pubkey_b64: String },
    SasConfirm { tx_id: String, matched: bool },
    CodeJoinRequest { room_id: String, joiner_x25519_pubkey_b64: String, code: String, code_proof: Option<String> },
    CodeJoinResponse { room_id: String, target_fingerprint: String, owner_x25519_pubkey_b64: String, owner_session_id: String, wrapped_session_key_b64: String, nonce_b64: String },
    JoinRefused { room_id: String, target_fingerprint: String, reason: String },
    ProfileUpdate { sender_fingerprint: String, username: Option<String>, updated_at: i64 },
    ContactRequest { requester_fingerprint: String, display_name: Option<String>, note: Option<String>, sender_ed25519_pubkey: Option<String> },
    Reaction { sender_fingerprint: String, target_msg_id: String, emoji: String, removed: bool },
    Edit { sender_fingerprint: String, target_msg_id: String, new_ciphertext_b64: String, session_id: String, new_body: Option<String> },
    Delete { sender_fingerprint: String, target_msg_id: String },
    RoomSetting { sender_fingerprint: String, disappearing_ttl_secs: u64, room_id: Option<String> },
    /// A message of the group protocol that is not in use yet.
    Mls,
}

/// A `RoomMessage`, as contracts speak of it.
pub enum MessageView {
    MemberAnnounce { sender_fingerprint: Seq<char>, wrapped_session_key: Option<Seq<char>>, display_name: Option<Seq<char>>, sender_ed25519_pubkey: Option<Seq<char>>, sender_mlkem_pubkey: Option<Seq<char>>, mlkem_ciphertext: Option<Seq<char>>, capabilities: u64 },
    SessionKeyRequest { requester_fingerprint: Seq<char> },
    Encrypted { sender_fingerprint: Seq<char>, session_id: Seq<char>, ciphertext_b64: Seq<char>, client_msg_id: Option<Seq<char>>, reply_to: Option<Seq<char>> },
    Plain { sender_fingerprint: Seq<char>, body: Seq<char>, client_msg_id: Option<Seq<char>>, reply_to: Option<Seq<char>> },
    Typing { sender_fingerprint: Seq<char> },
    RotateRoomKey { rotator_fingerprint: Seq<char>, new_salt: Seq<u8>, room_id: Option<Seq<char>> },
    MemberLeave { sender_fingerprint: Seq<char>, room_id: Option<Seq<char>> },
    FileOffer { sender_fingerprint: Seq<char>, file_id: Seq<char>, name: Seq<char>, size_bytes: u64, mime: Option<Seq<char>>, chunk_count: u32, encrypted_meta: Option<FileMetaView> },
    FileChunk { sender_fingerprint: Seq<char>, file_id: Seq<char>, chunk_index: u32, total_chunks: u32, data_b64: Seq<char> },
    OwnerGrant { room_id: Seq<char>, target_fingerprint: Seq<char> },
    BanMember { room_id: Seq<char>, target_fingerprint: Seq<char> },
    SasInit { tx_id: Seq<char>, ephemeral_x25519_pubkey_b64: Seq<char>, target_fingerprint: Seq<char> },
    SasResponse { tx_id: Seq<char>, ephemeral_x25519_pubkey_b64: Seq<char> },
    SasConfirm { tx_id: Seq<char>, matched: bool },
    CodeJoinRequest { room_id: Seq<char>, joiner_x25519_pubkey_b64: Seq<char>, code: Seq<char>, code_proof: Option<Seq<char>> },
    CodeJoinResponse { room_id: Seq<char>, target_fingerprint: Seq<char>, owner_x25519_pubkey_b64: Seq<char>, owner_session_id: Seq<char>, wrapped_session_key_b64: Seq<char>, nonce_b64: Seq<char> },
    JoinRefused { room_id: Seq<char>, target_fingerprint: Seq<char>, reason: Seq<char> },
    ProfileUpdate { sender_fingerprint: Seq<char>, username: Option<Seq<char>>, updated_at: i64 },
    ContactRequest { requester_fingerprint: Seq<char>, display_name: Option<Seq<char>>, note: Option<Seq<char>>, sender_ed25519_pubkey: Option<Seq<char>> },
    Reaction { sender_fingerprint: Seq<char>, target_msg_id: Seq<char>, emoji: Seq<char>, removed: bool },
    Edit { sender_fingerprint: Seq<char>, target_msg_id: Seq<char>, new_ciphertext_b64: Seq<char>, session_id: Seq<char>, new_body: Option<Seq<char>> },
    Delete { sender_fingerprint: Seq<char>, target_msg_id: Seq<char> },
    RoomSetting { sender_fingerprint: Seq<char>, disappearing_ttl_secs: u64, room_id: Option<Seq<char>> },
    Mls,
}

impl View for RoomMessage {
    type V = MessageView;

    open spec fn view(&self) -> MessageView {
        match self {
            RoomMessage::MemberAnnounce { sender_fingerprint, wrapped_session_key, display_name, sender_ed25519_pubkey, sender_mlkem_pubkey, mlkem_ciphertext, capabilities } => MessageView::MemberAnnounce {
                sender_fingerprint: sender_fingerprint@,
                wrapped_session_key: text::opt(*wrapped_session_key),
                display_name: text::opt(*display_name),
                sender_ed25519_pubkey: text::opt(*sender_ed25519_pubkey),
                sender_mlkem_pubkey: text::opt(*sender_mlkem_pubkey),
                mlkem_ciphertext: text::opt(*mlkem_ciphertext),
                capabilities: *capabilities,
            },
            RoomMessage::SessionKeyRequest { requester_fingerprint } => MessageView::SessionKeyRequest {
                requester_fingerprint: requester_fingerprint@,
            },
            RoomMessage::Encrypted { sender_fingerprint, session_id, ciphertext_b64, client_msg_id, reply_to } => MessageView::Encrypted {
                sender_fingerprint: sender_fingerprint@,
                session_id: session_id@,
                ciphertext_b64: ciphertext_b64@,
                client_msg_id: text::opt(*client_msg_id),
                reply_to: text::opt(*reply_to),
            },
            RoomMessage::Plain { sender_fingerprint, body, client_msg_id, reply_to } => MessageView::Plain {
                sender_fingerprint: sender_fingerprint@,
                body: body@,
                client_msg_id: text::opt(*client_msg_id),
                reply_to: text::opt(*reply_to),
            },
            RoomMessage::Typing { sender_fingerprint } => MessageView::Typing {
                sender_fingerprint: sender_fingerprint@,
            },
            RoomMessage::RotateRoomKey { rotator_fingerprint, new_salt, room_id } => MessageView::RotateRoomKey {
                rotator_fingerprint: rotator_fingerprint@,
                new_salt: new_salt@,
                room_id: text::opt(*room_id),
            },
            RoomMessage::MemberLeave { sender_fingerprint, room_id } => MessageView::MemberLeave {
                sender_fingerprint: sender_fingerprint@,
                room_id: text::opt(*room_id),
            },
            RoomMessage::FileOffer { sender_fingerprint, file_id, name, size_bytes, mime, chunk_count, encrypted_meta } => MessageView::FileOffer {
                sender_fingerprint: sender_fingerprint@,
                file_id: file_id@,
                name: name@,
                size_bytes: *size_bytes,
                mime: text::opt(*mime),
                chunk_count: *chunk_count,
                encrypted_meta: meta_opt(*encrypted_meta),
            },
            RoomMessage::FileChunk { sender_fingerprint, file_id, chunk_index, total_chunks, data_b64 } => MessageView::FileChunk {
                sender_fingerprint: sender_fingerprint@,
                file_id: file_id@,
                chunk_index: *chunk_index,
                total_chunks: *total_chunks,
                data_b64: data_b64@,
            },
            RoomMessage::OwnerGrant { room_id, target_fingerprint } => MessageView::OwnerGrant {
                room_id: room_id@,
                target_fingerprint: target_fingerprint@,
            },
            RoomMessage::BanMember { room_id, target_fingerprint } => MessageView::BanMember {
                room_id: room_id@,
                target_fingerprint: target_fingerprint@,
            },
            RoomMessage::SasInit { tx_id, ephemeral_x25519_pubkey_b64, target_fingerprint } => MessageView::SasInit {
                tx_id: tx_id@,
                ephemeral_x25519_pubkey_b64: ephemeral_x25519_pubkey_b64@,
                target_fingerprint: target_fingerprint@,
            },
            RoomMessage::SasResponse { tx_id, ephemeral_x25519_pubkey_b64 } => MessageView::SasResponse {
                tx_id: tx_id@,
                ephemeral_x25519_pubkey_b64: ephemeral_x25519_pubkey_b64@,
            },
            RoomMessage::SasConfirm { tx_id, matched } => MessageView::SasConfirm {
                tx_id: tx_id@,
                matched: *matched,
            },
            RoomMessage::CodeJoinRequest { room_id, joiner_x25519_pubkey_b64, code, code_proof } => MessageView::CodeJoinRequest {
                room_id: room_id@,
                joiner_x25519_pubkey_b64: joiner_x25519_pubkey_b64@,
                code: code@,
                code_proof: text::opt(*code_proof),
            },
            RoomMessage::CodeJoinResponse { room_id, target_fingerprint, owner_x25519_pubkey_b64, owner_session_id, wrapped_session_key_b64, nonce_b64 } => MessageView::CodeJoinResponse {
                room_id: room_id@,
                target_fingerprint: target_fingerprint@,
                owner_x25519_pubkey_b64: owner_x25519_pubkey_b64@,
                owner_session_id: owner_session_id@,
                wrapped_session_key_b64: wrapped_session_key_b64@,
                nonce_b64: nonce_b64@,
            },
            RoomMessage::JoinRefused { room_id, target_fingerprint, reason } => MessageView::JoinRefused {
                room_id: room_id@,
                target_fingerprint: target_fingerprint@,
                reason: reason@,
            },
            RoomMessage::ProfileUpdate { sender_fingerprint, username, updated_at } => MessageView::ProfileUpdate {
                sender_fingerprint: sender_fingerprint@,
                username: text::opt(*username),
                updated_at: *updated_at,
            },
            RoomMessage::ContactRequest { requester_fingerprint, display_name, note, sender_ed25519_pubkey } => MessageView::ContactRequest {
                requester_fingerprint: requester_fingerprint@,
                display_name: text::opt(*display_name),
                note: text::opt(*note),
                sender_ed25519_pubkey: text::opt(*sender_ed25519_pubkey),
            },
            RoomMessage::Reaction { sender_fingerprint, target_msg_id, emoji, removed } => MessageView::Reaction {
                sender_fingerprint: sender_fingerprint@,
                target_msg_id: target_msg_id@,
                emoji: emoji@,
                removed: *removed,
            },
            RoomMessage::Edit { sender_fingerprint, target_msg_id, new_ciphertext_b64, session_id, new_body } => MessageView::Edit {
                sender_fingerprint: sender_fingerprint@,
                target_msg_id: target_msg_id@,
                new_ciphertext_b64: new_ciphertext_b64@,
                session_id: session_id@,
                new_body: text::opt(*new_body),
            },
            RoomMessage::Delete { sender_fingerprint, target_msg_id } => MessageView::Delete {
                sender_fingerprint: sender_fingerprint@,
                target_msg_id: target_msg_id@,
            },
            RoomMessage::RoomSetting { sender_fingerprint, disappearing_ttl_secs, room_id } => MessageView::RoomSetting {
                sender_fingerprint: sender_fingerprint@,
                disappearing_ttl_secs: *disappearing_ttl_secs,
                room_id: text::opt(*room_id),
            },
            RoomMessage::Mls => MessageView::Mls,
        }
    }
}

/// What is said of a room to all who listen. It is not signed.
#[derive(Debug, Clone)]
pub struct RoomAnnouncement {
    pub room_id: String,
    pub name: String,
    pub encrypted: bool,
    pub passphrase_salt: Option<Vec<u8>>,
    pub member_count: u32,
    pub creator_fingerprint: String,
    pub announced_at: i64,
    pub owner_fingerprints: Vec<String>,
    pub verified_only: bool,
    pub host_addrs: Vec<String>,
    pub kind: RoomKind,
    pub capabilities: u64,
}

/// A `RoomAnnouncement`, as contracts speak of it.
#[verifier::ext_equal]
pub struct AnnouncementView {
    pub room_id: Seq<char>,
    pub name: Seq<char>,
    pub encrypted: bool,
    pub passphrase_salt: Option<Seq<u8>>,
    pub member_count: u32,
    pub creator_fingerprint: Seq<char>,
    pub announced_at: i64,
    pub owner_fingerprints: Seq<Seq<char>>,
    pub verified_only: bool,
    pub host_addrs: Seq<Seq<char>>,
    pub kind: RoomKind,
    pub capabilities: u64,
}

impl View for RoomAnnouncement {
    type V = AnnouncementView;

    open spec fn view(&self) -> AnnouncementView {
        AnnouncementView {
            room_id: self.room_id@,
            name: self.name@,
            encrypted: self.encrypted,
            passphrase_salt: bytes::opt(self.passphrase_salt),
            member_count: self.member_count,
            creator_fingerprint: self.creator_fingerprint@,
            announced_at: self.announced_at,
            owner_fingerprints: text::texts(self.owner_fingerprints@),
            verified_only: self.verified_only,
            host_addrs: text::texts(self.host_addrs@),
            kind: self.kind,
            capabilities: self.capabilities,
        }
    }
}

} // verus!
