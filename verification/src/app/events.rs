//! What the user interface hears of.
use crate::text;
use vstd::prelude::*;

verus! {

/// What a room is for.
#[derive(Debug, Clone, Copy, PartialEq, Eq, Structural)]
pub enum RoomKind {
    /// Any number of members, who share a passphrase.
    Group,
    /// Two members, whose keys follow from their identities.
    Direct,
}

/// A room as the lobby lists it.
#[derive(Debug, Clone)]
pub struct DiscoveredRoom {
    pub room_id: String,
    pub name: String,
    pub encrypted: bool,
    pub member_count: u32,
    pub creator_fingerprint: String,
    /// When the room was last heard of.
    pub last_seen: i64,
    /// The room is on disk and waits for its passphrase.
    pub restorable: bool,
    /// Addresses under which the announcer can be dialed.
    pub host_addrs: Vec<String>,
    pub kind: RoomKind,
    /// What the announcer says that it can do.
    pub capabilities: u64,
}

/// A `DiscoveredRoom`, as contracts speak of it.
#[verifier::ext_equal]
pub struct DiscoveredView {
    pub room_id: Seq<char>,
    pub name: Seq<char>,
    pub encrypted: bool,
    pub member_count: u32,
    pub creator_fingerprint: Seq<char>,
    pub last_seen: i64,
    pub restorable: bool,
    pub host_addrs: Seq<Seq<char>>,
    pub kind: RoomKind,
    pub capabilities: u64,
}

impl View for DiscoveredRoom {
    type V = DiscoveredView;

    open spec fn view(&self) -> DiscoveredView {
        DiscoveredView {
            room_id: self.room_id@,
            name: self.name@,
            encrypted: self.encrypted,
            member_count: self.member_count,
            creator_fingerprint: self.creator_fingerprint@,
            last_seen: self.last_seen,
            restorable: self.restorable,
            host_addrs: text::texts(self.host_addrs@),
            kind: self.kind,
            capabilities: self.capabilities,
        }
    }
}

impl DiscoveredRoom {
    /// Another one, with the same fields.
    pub fn copy(&self) -> (r: Self)
        ensures
            r@ == self@,
    {
        DiscoveredRoom {
            room_id: self.room_id.clone(),
            name: self.name.clone(),
            encrypted: self.encrypted,
            member_count: self.member_count,
            creator_fingerprint: self.creator_fingerprint.clone(),
            last_seen: self.last_seen,
            restorable: self.restorable,
            host_addrs: text::texts_copy(&self.host_addrs),
            kind: self.kind,
            capabilities: self.capabilities,
        }
    }
}

/// What the user interface is told.
#[derive(Debug, Clone)]
pub enum AppEvent {
    /// A room was announced that we are not in.
    RoomDiscovered(DiscoveredRoom),
    /// A discovered room has not been heard of for too long.
    RoomLost { room_id: String },
    /// We are in the room.
    RoomJoined { room_id: String },
    /// We are no longer in the room.
    RoomLeft { room_id: String },
    MemberJoined { room_id: String, fingerprint: String },
    MemberLeft { room_id: String, fingerprint: String },
    MessageReceived { room_id: String, sender_fingerprint: String, body: String, sent_at: i64 },
    MessageSent { room_id: String, body: String, message_id: i64 },
    ListeningOn { address: String },
    PeerDiscovered { peer_id: String },
    PeerExpired { peer_id: String },
    Dialing { address: String },
    DialSucceeded { address: String, peer_id: String },
    DialFailed { address: String, error: String },
    Error { description: String },
    FileOffered { room_id: String, file_id: String, name: String, size_bytes: u64, sender_fingerprint: String },
    FileProgress { file_id: String, bytes_received: u64, total_bytes: u64 },
    FileReady { file_id: String },
    FileSaved { file_id: String, path: String },
    FileFailed { file_id: String, reason: String },
    /// A member moved the room to a new passphrase.
    RotationRequested { room_id: String, rotator_fingerprint: String, new_salt: Vec<u8> },
    TypingChanged { room_id: String },
    /// A message names us.
    MentionReceived { room_id: String, body: String },
    /// An unknown peer connected: accept or reject it.
    InboundDial { peer_id: String, fingerprint: String, address: String },
    /// The code to compare with the partner.
    SasCodeReady { room_id: String, partner_fingerprint: String, tx_id: String, emoji_labels: String, decimal: String },
    SasVerified { room_id: String, partner_fingerprint: String },
    CodeJoinTimedOut { room_id: String, reason: String },
    InviteFingerprintMismatch { address: String, claimed: String, actual: String },
    NatStatusChanged { label: String, reachable: bool },
    DcutrSucceeded { peer_label: String },
    PeerProfileUpdated { fingerprint: String, username: Option<String> },
    /// The account was deleted.
    WentDark,
    AutoOpenDm { room_id: String, fingerprint: String },
    ContactRequestReceived { fingerprint: String, display_name: Option<String>, note: Option<String> },
    ConnectCodeCreated { code: String, expires_at: i64 },
    ConnectCodeRedeemed { fingerprint: String },
    ConnectCodeFailed { reason: String },
    /// A known member signs with another key.
    SafetyNumberChanged { room_id: String, fingerprint: String, old_pubkey_b64: String, new_pubkey_b64: String, display_name: Option<String> },
    PassphraseChanged,
    ReactionAdded { room_id: String, message_id: String, sender_fingerprint: String, emoji: String, removed: bool },
    MessageEdited { room_id: String, message_id: String, editor_fingerprint: String, new_body: String },
    MessageDeleted { room_id: String, message_id: String, deleter_fingerprint: String },
    RoomTtlChanged { room_id: String, ttl_secs: Option<u32> },
    MessagesExpired { count: usize },
}

/// An `AppEvent`, as contracts speak of it.
pub enum EventView {
    RoomDiscovered(DiscoveredView),
    RoomLost { room_id: Seq<char> },
    RoomJoined { room_id: Seq<char> },
    RoomLeft { room_id: Seq<char> },
    MemberJoined { room_id: Seq<char>, fingerprint: Seq<char> },
    MemberLeft { room_id: Seq<char>, fingerprint: Seq<char> },
    MessageReceived { room_id: Seq<char>, sender_fingerprint: Seq<char>, body: Seq<char>, sent_at: i64 },
    MessageSent { room_id: Seq<char>, body: Seq<char>, message_id: i64 },
    ListeningOn { address: Seq<char> },
    PeerDiscovered { peer_id: Seq<char> },
    PeerExpired { peer_id: Seq<char> },
    Dialing { address: Seq<char> },
    DialSucceeded { address: Seq<char>, peer_id: Seq<char> },
    DialFailed { address: Seq<char>, error: Seq<char> },
    Error { description: Seq<char> },
    FileOffered { room_id: Seq<char>, file_id: Seq<char>, name: Seq<char>, size_bytes: u64, sender_fingerprint: Seq<char> },
    FileProgress { file_id: Seq<char>, bytes_received: u64, total_bytes: u64 },
    FileReady { file_id: Seq<char> },
    FileSaved { file_id: Seq<char>, path: Seq<char> },
    FileFailed { file_id: Seq<char>, reason: Seq<char> },
    RotationRequested { room_id: Seq<char>, rotator_fingerprint: Seq<char>, new_salt: Seq<u8> },
    TypingChanged { room_id: Seq<char> },
    MentionReceived { room_id: Seq<char>, body: Seq<char> },
    InboundDial { peer_id: Seq<char>, fingerprint: Seq<char>, address: Seq<char> },
    SasCodeReady { room_id: Seq<char>, partner_fingerprint: Seq<char>, tx_id: Seq<char>, emoji_labels: Seq<char>, decimal: Seq<char> },
    SasVerified { room_id: Seq<char>, partner_fingerprint: Seq<char> },
    CodeJoinTimedOut { room_id: Seq<char>, reason: Seq<char> },
    InviteFingerprintMismatch { address: Seq<char>, claimed: Seq<char>, actual: Seq<char> },
    NatStatusChanged { label: Seq<char>, reachable: bool },
    DcutrSucceeded { peer_label: Seq<char> },
    PeerProfileUpdated { fingerprint: Seq<char>, username: Option<Seq<char>> },
    WentDark,
    AutoOpenDm { room_id: Seq<char>, fingerprint: Seq<char> },
    ContactRequestReceived { fingerprint: Seq<char>, display_name: Option<Seq<char>>, note: Option<Seq<char>> },
    ConnectCodeCreated { code: Seq<char>, expires_at: i64 },
    ConnectCodeRedeemed { fingerprint: Seq<char> },
    ConnectCodeFailed { reason: Seq<char> },
    SafetyNumberChanged { room_id: Seq<char>, fingerprint: Seq<char>, old_pubkey_b64: Seq<char>, new_pubkey_b64: Seq<char>, display_name: Option<Seq<char>> },
    PassphraseChanged,
    ReactionAdded { room_id: Seq<char>, message_id: Seq<char>, sender_fingerprint: Seq<char>, emoji: Seq<char>, removed: bool },
    MessageEdited { room_id: Seq<char>, message_id: Seq<char>, editor_fingerprint: Seq<char>, new_body: Seq<char> },
    MessageDeleted { room_id: Seq<char>, message_id: Seq<char>, deleter_fingerprint: Seq<char> },
    RoomTtlChanged { room_id: Seq<char>, ttl_secs: Option<u32> },
    MessagesExpired { count: usize },
}

impl View for AppEvent {
    type V = EventView;

    open spec fn view(&self) -> EventView {
        match self {
            AppEvent::RoomDiscovered(x) => EventView::RoomDiscovered(x@),
            AppEvent::RoomLost { room_id } => EventView::RoomLost {
                room_id: room_id@,
            },
            AppEvent::RoomJoined { room_id } => EventView::RoomJoined {
                room_id: room_id@,
            },
            AppEvent::RoomLeft { room_id } => EventView::RoomLeft {
                room_id: room_id@,
            },
            AppEvent::MemberJoined { room_id, fingerprint } => EventView::MemberJoined {
                room_id: room_id@,
                fingerprint: fingerprint@,
            },
            AppEvent::MemberLeft { room_id, fingerprint } => EventView::MemberLeft {
                room_id: room_id@,
                fingerprint: fingerprint@,
            },
            AppEvent::MessageReceived { room_id, sender_fingerprint, body, sent_at } => EventView::MessageReceived {
                room_id: room_id@,
                sender_fingerprint: sender_fingerprint@,
                body: body@,
                sent_at: *sent_at,
            },
            AppEvent::MessageSent { room_id, body, message_id } => EventView::MessageSent {
                room_id: room_id@,
                body: body@,
                message_id: *message_id,
            },
            AppEvent::ListeningOn { address } => EventView::ListeningOn {
                address: address@,
            },
            AppEvent::PeerDiscovered { peer_id } => EventView::PeerDiscovered {
                peer_id: peer_id@,
            },
            AppEvent::PeerExpired { peer_id } => EventView::PeerExpired {
                peer_id: peer_id@,
            },
            AppEvent::Dialing { address } => EventView::Dialing {
                address: address@,
            },
            AppEvent::DialSucceeded { address, peer_id } => EventView::DialSucceeded {
                address: address@,
                peer_id: peer_id@,
            },
            AppEvent::DialFailed { address, error } => EventView::DialFailed {
                address: address@,
                error: error@,
            },
            AppEvent::Error { description } => EventView::Error {
                description: description@,
            },
            AppEvent::FileOffered { room_id, file_id, name, size_bytes, sender_fingerprint } => EventView::FileOffered {
                room_id: room_id@,
                file_id: file_id@,
                name: name@,
                size_bytes: *size_bytes,
                sender_fingerprint: sender_fingerprint@,
            },
            AppEvent::FileProgress { file_id, bytes_received, total_bytes } => EventView::FileProgress {
                file_id: file_id@,
                bytes_received: *bytes_received,
                total_bytes: *total_bytes,
            },
            AppEvent::FileReady { file_id } => EventView::FileReady {
                file_id: file_id@,
            },
            AppEvent::FileSaved { file_id, path } => EventView::FileSaved {
                file_id: file_id@,
                path: path@,
            },
            AppEvent::FileFailed { file_id, reason } => EventView::FileFailed {
                file_id: file_id@,
                reason: reason@,
            },
            AppEvent::RotationRequested { room_id, rotator_fingerprint, new_salt } => EventView::RotationRequested {
                room_id: room_id@,
                rotator_fingerprint: rotator_fingerprint@,
                new_salt: new_salt@,
            },
            AppEvent::TypingChanged { room_id } => EventView::TypingChanged {
                room_id: room_id@,
            },
            AppEvent::MentionReceived { room_id, body } => EventView::MentionReceived {
                room_id: room_id@,
                body: body@,
            },
            AppEvent::InboundDial { peer_id, fingerprint, address } => EventView::InboundDial {
                peer_id: peer_id@,
                fingerprint: fingerprint@,
                address: address@,
            },
            AppEvent::SasCodeReady { room_id, partner_fingerprint, tx_id, emoji_labels, decimal } => EventView::SasCodeReady {
                room_id: room_id@,
                partner_fingerprint: partner_fingerprint@,
                tx_id: tx_id@,
                emoji_labels: emoji_labels@,
                decimal: decimal@,
            },
            AppEvent::SasVerified { room_id, partner_fingerprint } => EventView::SasVerified {
                room_id: room_id@,
                partner_fingerprint: partner_fingerprint@,
            },
            AppEvent::CodeJoinTimedOut { room_id, reason } => EventView::CodeJoinTimedOut {
                room_id: room_id@,
                reason: reason@,
            },
            AppEvent::InviteFingerprintMismatch { address, claimed, actual } => EventView::InviteFingerprintMismatch {
                address: address@,
                claimed: claimed@,
                actual: actual@,
            },
            AppEvent::NatStatusChanged { label, reachable } => EventView::NatStatusChanged {
                label: label@,
                reachable: *reachable,
            },
            AppEvent::DcutrSucceeded { peer_label } => EventView::DcutrSucceeded {
                peer_label: peer_label@,
            },
            AppEvent::PeerProfileUpdated { fingerprint, username } => EventView::PeerProfileUpdated {
                fingerprint: fingerprint@,
                username: text::opt(*username),
            },
            AppEvent::WentDark => EventView::WentDark,
            AppEvent::AutoOpenDm { room_id, fingerprint } => EventView::AutoOpenDm {
                room_id: room_id@,
                fingerprint: fingerprint@,
            },
            AppEvent::ContactRequestReceived { fingerprint, display_name, note } => EventView::ContactRequestReceived {
                fingerprint: fingerprint@,
                display_name: text::opt(*display_name),
                note: text::opt(*note),
            },
            AppEvent::ConnectCodeCreated { code, expires_at } => EventView::ConnectCodeCreated {
                code: code@,
                expires_at: *expires_at,
            },
            AppEvent::ConnectCodeRedeemed { fingerprint } => EventView::ConnectCodeRedeemed {
                fingerprint: fingerprint@,
            },
            AppEvent::ConnectCodeFailed { reason } => EventView::ConnectCodeFailed {
                reason: reason@,
            },
            AppEvent::SafetyNumberChanged { room_id, fingerprint, old_pubkey_b64, new_pubkey_b64, display_name } => EventView::SafetyNumberChanged {
                room_id: room_id@,
                fingerprint: fingerprint@,
                old_pubkey_b64: old_pubkey_b64@,
                new_pubkey_b64: new_pubkey_b64@,
                display_name: text::opt(*display_name),
            },
            AppEvent::PassphraseChanged => EventView::PassphraseChanged,
            AppEvent::ReactionAdded { room_id, message_id, sender_fingerprint, emoji, removed } => EventView::ReactionAdded {
                room_id: room_id@,
                message_id: message_id@,
                sender_fingerprint: sender_fingerprint@,
                emoji: emoji@,
                removed: *removed,
            },
            AppEvent::MessageEdited { room_id, message_id, editor_fingerprint, new_body } => EventView::MessageEdited {
                room_id: room_id@,
                message_id: message_id@,
                editor_fingerprint: editor_fingerprint@,
                new_body: new_body@,
            },
            AppEvent::MessageDeleted { room_id, message_id, deleter_fingerprint } => EventView::MessageDeleted {
                room_id: room_id@,
                message_id: message_id@,
                deleter_fingerprint: deleter_fingerprint@,
            },
            AppEvent::RoomTtlChanged { room_id, ttl_secs } => EventView::RoomTtlChanged {
                room_id: room_id@,
                ttl_secs: *ttl_secs,
            },
            AppEvent::MessagesExpired { count } => EventView::MessagesExpired {
                count: *count,
            },
        }
    }
}

} // verus!
