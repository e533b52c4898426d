//! What is to be done in the world: on disk, on the network and on the screen.
//!
//! The functions of the library decide and say what is to be done. Whoever calls them does it.
use crate::app::events::{AppEvent, EventView};
use crate::app::messages::{MessageView, RoomMessage};
use crate::app::records::{
    AttachmentStatus, AttachmentView, Contact, ContactRow, KnownPeer, KnownPeerView, MemberView,
    PendingContactRequest, PendingContactView, PendingFriendRequest, PendingFriendView,
    StoredAttachment, StoredRoom, StoredRoomMember, StoredRoomView,
};
use crate::crypto::megolm::{SessionWrite, SessionWriteView};
use crate::text;
use vstd::prelude::*;

verus! {

/// A change of what is on disk.
#[derive(Debug)]
pub enum Write {
    /// Store the room, in place of one with the same id.
    Room(StoredRoom),
    /// Store the member. The keys and the role that are already known stay.
    Member(StoredRoomMember),
    MemberDisplayName { room_id: String, fingerprint: String, name: String },
    MemberRole { room_id: String, fingerprint: String, role: String },
    MemberVerified { room_id: String, fingerprint: String, verified: bool },
    Ban { room_id: String, fingerprint: String, banned_by: String, banned_at: i64 },
    RevokeOwner { room_id: String, fingerprint: String },
    PeerProfile { fingerprint: String, username: Option<String>, updated_at: i64 },
    VerifiedPeer { fingerprint: String, verified_at: i64, pq_capable: bool },
    Block { fingerprint: String, blocked_at: i64 },
    Contact(Contact),
    PendingContact(PendingContactRequest),
    DeletePendingContact { fingerprint: String },
    PendingFriend(PendingFriendRequest),
    DeletePendingFriends { fingerprint: String },
    /// Store the peer. A fingerprint and a trust that are already known stay.
    KnownPeer(KnownPeer),
    Message { room_id: String, sender_fingerprint: String, direction: String, body: String, sent_at: i64, client_msg_id: Option<String>, reply_to: Option<String> },
    LastActive { room_id: String, at: i64 },
    ContentSeen { room_id: String, sender_fingerprint: String, session_id: String, message_index: u32, seen_at: i64 },
    AddReaction { room_id: String, target_msg_id: String, sender_fingerprint: String, emoji: String, at: i64 },
    RemoveReaction { room_id: String, target_msg_id: String, sender_fingerprint: String, emoji: String },
    /// Replace the body, unless the message is deleted or was edited later than this.
    EditMessage { room_id: String, target_msg_id: String, new_body: String, edited_at_ms: i64 },
    DeleteMessage { room_id: String, target_msg_id: String, deleted_at_ms: i64 },
    RoomTtl { room_id: String, ttl_secs: Option<u32> },
    Attachment(StoredAttachment),
    AttachmentStatus { room_id: String, file_id: String, status: AttachmentStatus },
    /// Delete the row of the file, if there is one.
    DeleteAttachment { room_id: String, file_id: String },
    /// Set the paths that are given.
    AttachmentPaths { room_id: String, file_id: String, cache_path: Option<String>, saved_path: Option<String> },
    Session(SessionWrite),
    RotationState { room_id: String, fingerprint: String, messages_since_rotation: u32, last_rotation_at: i64 },
    Setting { key: String, value: String },
    /// Our own.
    DisplayName { name: Option<String> },
    Journal { kind: String, detail: String, at: i64 },
}

/// A `Write`, as contracts speak of it.
pub enum WriteView {
    Room(StoredRoomView),
    Member(MemberView),
    MemberDisplayName { room_id: Seq<char>, fingerprint: Seq<char>, name: Seq<char> },
    MemberRole { room_id: Seq<char>, fingerprint: Seq<char>, role: Seq<char> },
    MemberVerified { room_id: Seq<char>, fingerprint: Seq<char>, verified: bool },
    Ban { room_id: Seq<char>, fingerprint: Seq<char>, banned_by: Seq<char>, banned_at: i64 },
    RevokeOwner { room_id: Seq<char>, fingerprint: Seq<char> },
    PeerProfile { fingerprint: Seq<char>, username: Option<Seq<char>>, updated_at: i64 },
    VerifiedPeer { fingerprint: Seq<char>, verified_at: i64, pq_capable: bool },
    Block { fingerprint: Seq<char>, blocked_at: i64 },
    Contact(ContactRow),
    PendingContact(PendingContactView),
    DeletePendingContact { fingerprint: Seq<char> },
    PendingFriend(PendingFriendView),
    DeletePendingFriends { fingerprint: Seq<char> },
    KnownPeer(KnownPeerView),
    Message { room_id: Seq<char>, sender_fingerprint: Seq<char>, direction: Seq<char>, body: Seq<char>, sent_at: i64, client_msg_id: Option<Seq<char>>, reply_to: Option<Seq<char>> },
    LastActive { room_id: Seq<char>, at: i64 },
    ContentSeen { room_id: Seq<char>, sender_fingerprint: Seq<char>, session_id: Seq<char>, message_index: u32, seen_at: i64 },
    AddReaction { room_id: Seq<char>, target_msg_id: Seq<char>, sender_fingerprint: Seq<char>, emoji: Seq<char>, at: i64 },
    RemoveReaction { room_id: Seq<char>, target_msg_id: Seq<char>, sender_fingerprint: Seq<char>, emoji: Seq<char> },
    EditMessage { room_id: Seq<char>, target_msg_id: Seq<char>, new_body: Seq<char>, edited_at_ms: i64 },
    DeleteMessage { room_id: Seq<char>, target_msg_id: Seq<char>, deleted_at_ms: i64 },
    RoomTtl { room_id: Seq<char>, ttl_secs: Option<u32> },
    Attachment(AttachmentView),
    AttachmentStatus { room_id: Seq<char>, file_id: Seq<char>, status: AttachmentStatus },
    DeleteAttachment { room_id: Seq<char>, file_id: Seq<char> },
    AttachmentPaths { room_id: Seq<char>, file_id: Seq<char>, cache_path: Option<Seq<char>>, saved_path: Option<Seq<char>> },
    Session(SessionWriteView),
    RotationState { room_id: Seq<char>, fingerprint: Seq<char>, messages_since_rotation: u32, last_rotation_at: i64 },
    Setting { key: Seq<char>, value: Seq<char> },
    DisplayName { name: Option<Seq<char>> },
    Journal { kind: Seq<char>, detail: Seq<char>, at: i64 },
}

impl View for Write {
    type V = WriteView;

    open spec fn view(&self) -> WriteView {
        match self {
            Write::Room(x) => WriteView::Room(x@),
            Write::Member(x) => WriteView::Member(x@),
            Write::MemberDisplayName { room_id, fingerprint, name } => WriteView::MemberDisplayName {
                room_id: room_id@,
                fingerprint: fingerprint@,
                name: name@,
            },
            Write::MemberRole { room_id, fingerprint, role } => WriteView::MemberRole {
                room_id: room_id@,
                fingerprint: fingerprint@,
                role: role@,
            },
            Write::MemberVerified { room_id, fingerprint, verified } => WriteView::MemberVerified {
                room_id: room_id@,
                fingerprint: fingerprint@,
                verified: *verified,
            },
            Write::Ban { room_id, fingerprint, banned_by, banned_at } => WriteView::Ban {
                room_id: room_id@,
                fingerprint: fingerprint@,
                banned_by: banned_by@,
                banned_at: *banned_at,
            },
            Write::RevokeOwner { room_id, fingerprint } => WriteView::RevokeOwner {
                room_id: room_id@,
                fingerprint: fingerprint@,
            },
            Write::PeerProfile { fingerprint, username, updated_at } => WriteView::PeerProfile {
                fingerprint: fingerprint@,
                username: text::opt(*username),
                updated_at: *updated_at,
            },
            Write::VerifiedPeer { fingerprint, verified_at, pq_capable } => WriteView::VerifiedPeer {
                fingerprint: fingerprint@,
                verified_at: *verified_at,
                pq_capable: *pq_capable,
            },
            Write::Block { fingerprint, blocked_at } => WriteView::Block {
                fingerprint: fingerprint@,
                blocked_at: *blocked_at,
            },
            Write::Contact(x) => WriteView::Contact(x@),
            Write::PendingContact(x) => WriteView::PendingContact(x@),
            Write::DeletePendingContact { fingerprint } => WriteView::DeletePendingContact {
                fingerprint: fingerprint@,
            },
            Write::PendingFriend(x) => WriteView::PendingFriend(x@),
            Write::DeletePendingFriends { fingerprint } => WriteView::DeletePendingFriends {
                fingerprint: fingerprint@,
            },
            Write::KnownPeer(x) => WriteView::KnownPeer(x@),
            Write::Message { room_id, sender_fingerprint, direction, body, sent_at, client_msg_id, reply_to } => WriteView::Message {
                room_id: room_id@,
                sender_fingerprint: sender_fingerprint@,
                direction: direction@,
                body: body@,
                sent_at: *sent_at,
                client_msg_id: text::opt(*client_msg_id),
                reply_to: text::opt(*reply_to),
            },
            Write::LastActive { room_id, at } => WriteView::LastActive {
                room_id: room_id@,
                at: *at,
            },
            Write::ContentSeen { room_id, sender_fingerprint, session_id, message_index, seen_at } => WriteView::ContentSeen {
                room_id: room_id@,
                sender_fingerprint: sender_fingerprint@,
                session_id: session_id@,
                message_index: *message_index,
                seen_at: *seen_at,
            },
            Write::AddReaction { room_id, target_msg_id, sender_fingerprint, emoji, at } => WriteView::AddReaction {
                room_id: room_id@,
                target_msg_id: target_msg_id@,
                sender_fingerprint: sender_fingerprint@,
                emoji: emoji@,
                at: *at,
            },
            Write::RemoveReaction { room_id, target_msg_id, sender_fingerprint, emoji } => WriteView::RemoveReaction {
                room_id: room_id@,
                target_msg_id: target_msg_id@,
                sender_fingerprint: sender_fingerprint@,
                emoji: emoji@,
            },
            Write::EditMessage { room_id, target_msg_id, new_body, edited_at_ms } => WriteView::EditMessage {
                room_id: room_id@,
                target_msg_id: target_msg_id@,
                new_body: new_body@,
                edited_at_ms: *edited_at_ms,
            },
            Write::DeleteMessage { room_id, target_msg_id, deleted_at_ms } => WriteView::DeleteMessage {
                room_id: room_id@,
                target_msg_id: target_msg_id@,
                deleted_at_ms: *deleted_at_ms,
            },
            Write::RoomTtl { room_id, ttl_secs } => WriteView::RoomTtl {
                room_id: room_id@,
                ttl_secs: *ttl_secs,
            },
            Write::Attachment(x) => WriteView::Attachment(x@),
            Write::AttachmentStatus { room_id, file_id, status } => WriteView::AttachmentStatus {
                room_id: room_id@,
                file_id: file_id@,
                status: *status,
            },
            Write::DeleteAttachment { room_id, file_id } => WriteView::DeleteAttachment {
                room_id: room_id@,
                file_id: file_id@,
            },
            Write::AttachmentPaths { room_id, file_id, cache_path, saved_path } => WriteView::AttachmentPaths {
                room_id: room_id@,
                file_id: file_id@,
                cache_path: text::opt(*cache_path),
                saved_path: text::opt(*saved_path),
            },
            Write::Session(x) => WriteView::Session(x@),
            Write::RotationState { room_id, fingerprint, messages_since_rotation, last_rotation_at } => WriteView::RotationState {
                room_id: room_id@,
                fingerprint: fingerprint@,
                messages_since_rotation: *messages_since_rotation,
                last_rotation_at: *last_rotation_at,
            },
            Write::Setting { key, value } => WriteView::Setting {
                key: key@,
                value: value@,
            },
            Write::DisplayName { name } => WriteView::DisplayName {
                name: text::opt(*name),
            },
            Write::Journal { kind, detail, at } => WriteView::Journal {
                kind: kind@,
                detail: detail@,
                at: *at,
            },
        }
    }
}

/// What is to be done in the world, in the order in which it stands.
#[derive(Debug)]
pub enum Effect {
    /// Tell the user interface.
    Emit(AppEvent),
    /// Change what is on disk. What comes next is done even if that fails.
    Store(Write),
    /// Change what is on disk, and tell the user interface if that succeeds.
    StoreThen(Write, AppEvent),
    /// Change what is on disk, and tell the user interface if something was changed.
    ChangeThen(Write, AppEvent),
    /// Change what is on disk. If that fails, nothing after it is done and the failure is the result.
    MustStore(Write),
    /// Send the message to the room.
    Publish { room_id: String, message: RoomMessage },
    /// Send the message to the room, and pause for 40 milliseconds before the next one.
    PublishPaced { room_id: String, message: RoomMessage },
    /// Sign the message and send it to the room.
    PublishSigned { room_id: String, message: RoomMessage },
    /// Sign the message and send it to the inbox of one peer.
    PublishDirect { target_fingerprint: String, message: RoomMessage },
    /// Announce the room to all who listen, with so many members (`AppHandle::room_announcement`).
    AnnounceRoom(StoredRoom, u32),
    /// After the delay, announce ourselves in the room (`AppHandle::member_announce`).
    AnnounceMember { room_id: String, delay_ms: u64 },
    /// After the delay, ask the members of the room for their session keys.
    RequestKeys { room_id: String, delay_ms: u64 },
    /// After the delay, stop waiting to be let in (`AppHandle::code_join_timed_out`).
    CodeJoinDeadline { room_id: String, after_secs: u64 },
    Subscribe { room_id: String },
    Unsubscribe { room_id: String },
    /// Deliver the messages of this room straight to the partner.
    RegisterDm { room_id: String, partner_fingerprint: String },
    /// Store the address and, if that succeeds, say that it is being dialed and dial it. If that fails, what comes next is done, and then the failure is the result.
    Dial(KnownPeer),
    /// Dial the addresses, all at the same time.
    DialAll { addresses: Vec<String> },
    Disconnect { peer_id: String },
    AcceptInbound { peer_id: String },
    RejectInbound { peer_id: String },
    /// Open the chat with this peer.
    StartDirect { partner_fingerprint: String },
    /// Open the chat with this peer. If that fails, nothing after it is done and the failure is the result.
    MustStartDirect { partner_fingerprint: String },
    /// Open the chat with this peer and, if that succeeds, tell the user interface and then send this message, if there is one, signed into the chat.
    StartDirectThen(String, AppEvent, Option<RoomMessage>),
    /// Write the file. If that fails, nothing after it is done.
    WriteFile { path: String, contents: Vec<u8> },
    /// Write the file unless there is one already. If that fails, nothing after it is done and the failure is the result.
    CacheFile { path: String, contents: Vec<u8> },
    /// Store the file and, if that succeeds, note its size (`AppHandle::file_offer_stored`) and tell the user interface.
    StoreOffer(StoredAttachment, AppEvent),
    /// Store the message that we sent and then the time of its room, and tell the user interface under which id it is stored. If storing fails, the failure is the result.
    SendStored { room_id: String, sender_fingerprint: String, body: String, sent_at: i64, client_msg_id: String, reply_to: Option<String> },
    /// Sign the ban, send it to the room, and store it with its signature.
    PublishBan { room_id: String, fingerprint: String, banned_by: String, banned_at: i64 },
    /// Derive the proof that the first of these codes makes, and say what it is (`AppHandle::join_proof_derived`).
    CheckJoinProof { room_id: String, joiner_fingerprint: String, joiner_public: [u8; 32], codes: Vec<String>, proof: [u8; 32] },
    /// Answer whoever knows this code (`AppHandle::code_join_answer`).
    AnswerJoin { room_id: String, joiner_fingerprint: String, joiner_public: [u8; 32], code: String },
    /// Derive the key of the exchange and take the session key in (`AppHandle::code_join_finish`).
    DeriveJoinKey { room_id: String, owner_fingerprint: String, secret: [u8; 32], owner_public: [u8; 32], wrapped_session_key_b64: String },
    /// Drop the connection to the relay and dial it anew.
    Reconnect,
}

/// An `Effect`, as contracts speak of it.
pub enum EffectView {
    Emit(EventView),
    Store(WriteView),
    StoreThen(WriteView, EventView),
    ChangeThen(WriteView, EventView),
    MustStore(WriteView),
    Publish { room_id: Seq<char>, message: MessageView },
    PublishPaced { room_id: Seq<char>, message: MessageView },
    PublishSigned { room_id: Seq<char>, message: MessageView },
    PublishDirect { target_fingerprint: Seq<char>, message: MessageView },
    AnnounceRoom(StoredRoomView, u32),
    AnnounceMember { room_id: Seq<char>, delay_ms: u64 },
    RequestKeys { room_id: Seq<char>, delay_ms: u64 },
    CodeJoinDeadline { room_id: Seq<char>, after_secs: u64 },
    Subscribe { room_id: Seq<char> },
    Unsubscribe { room_id: Seq<char> },
    RegisterDm { room_id: Seq<char>, partner_fingerprint: Seq<char> },
    Dial(KnownPeerView),
    DialAll { addresses: Seq<Seq<char>> },
    Disconnect { peer_id: Seq<char> },
    AcceptInbound { peer_id: Seq<char> },
    RejectInbound { peer_id: Seq<char> },
    StartDirect { partner_fingerprint: Seq<char> },
    MustStartDirect { partner_fingerprint: Seq<char> },
    StartDirectThen(Seq<char>, EventView, Option<MessageView>),
    WriteFile { path: Seq<char>, contents: Seq<u8> },
    CacheFile { path: Seq<char>, contents: Seq<u8> },
    StoreOffer(AttachmentView, EventView),
    SendStored { room_id: Seq<char>, sender_fingerprint: Seq<char>, body: Seq<char>, sent_at: i64, client_msg_id: Seq<char>, reply_to: Option<Seq<char>> },
    PublishBan { room_id: Seq<char>, fingerprint: Seq<char>, banned_by: Seq<char>, banned_at: i64 },
    CheckJoinProof { room_id: Seq<char>, joiner_fingerprint: Seq<char>, joiner_public: Seq<u8>, codes: Seq<Seq<char>>, proof: Seq<u8> },
    AnswerJoin { room_id: Seq<char>, joiner_fingerprint: Seq<char>, joiner_public: Seq<u8>, code: Seq<char> },
    DeriveJoinKey { room_id: Seq<char>, owner_fingerprint: Seq<char>, secret: Seq<u8>, owner_public: Seq<u8>, wrapped_session_key_b64: Seq<char> },
    Reconnect,
}

impl View for Effect {
    type V = EffectView;

    open spec fn view(&self) -> EffectView {
        match self {
            Effect::Emit(x) => EffectView::Emit(x@),
            Effect::Store(x) => EffectView::Store(x@),
            Effect::StoreThen(x, y) => EffectView::StoreThen(x@, y@),
            Effect::ChangeThen(x, y) => EffectView::ChangeThen(x@, y@),
            Effect::MustStore(x) => EffectView::MustStore(x@),
            Effect::Publish { room_id, message } => EffectView::Publish {
                room_id: room_id@,
                message: message@,
            },
            Effect::PublishPaced { room_id, message } => EffectView::PublishPaced {
                room_id: room_id@,
                message: message@,
            },
            Effect::PublishSigned { room_id, message } => EffectView::PublishSigned {
                room_id: room_id@,
                message: message@,
            },
            Effect::PublishDirect { target_fingerprint, message } => EffectView::PublishDirect {
                target_fingerprint: target_fingerprint@,
                message: message@,
            },
            Effect::AnnounceRoom(x, y) => EffectView::AnnounceRoom(x@, *y),
            Effect::AnnounceMember { room_id, delay_ms } => EffectView::AnnounceMember {
                room_id: room_id@,
                delay_ms: *delay_ms,
            },
            Effect::RequestKeys { room_id, delay_ms } => EffectView::RequestKeys {
                room_id: room_id@,
                delay_ms: *delay_ms,
            },
            Effect::CodeJoinDeadline { room_id, after_secs } => EffectView::CodeJoinDeadline {
                room_id: room_id@,
                after_secs: *after_secs,
            },
            Effect::Subscribe { room_id } => EffectView::Subscribe {
                room_id: room_id@,
            },
            Effect::Unsubscribe { room_id } => EffectView::Unsubscribe {
                room_id: room_id@,
            },
            Effect::RegisterDm { room_id, partner_fingerprint } => EffectView::RegisterDm {
                room_id: room_id@,
                partner_fingerprint: partner_fingerprint@,
            },
            Effect::Dial(x) => EffectView::Dial(x@),
            Effect::DialAll { addresses } => EffectView::DialAll {
                addresses: text::texts(addresses@),
            },
            Effect::Disconnect { peer_id } => EffectView::Disconnect {
                peer_id: peer_id@,
            },
            Effect::AcceptInbound { peer_id } => EffectView::AcceptInbound {
                peer_id: peer_id@,
            },
            Effect::RejectInbound { peer_id } => EffectView::RejectInbound {
                peer_id: peer_id@,
            },
            Effect::StartDirect { partner_fingerprint } => EffectView::StartDirect {
                partner_fingerprint: partner_fingerprint@,
            },
            Effect::MustStartDirect { partner_fingerprint } => EffectView::MustStartDirect {
                partner_fingerprint: partner_fingerprint@,
            },
            Effect::StartDirectThen(x, y, z) => EffectView::StartDirectThen(
                x@,
                y@,
                match z {
                    Some(m) => Some(m@),
                    None => None,
                },
            ),
            Effect::WriteFile { path, contents } => EffectView::WriteFile {
                path: path@,
                contents: contents@,
            },
            Effect::CacheFile { path, contents } => EffectView::CacheFile {
                path: path@,
                contents: contents@,
            },
            Effect::StoreOffer(x, y) => EffectView::StoreOffer(x@, y@),
            Effect::SendStored { room_id, sender_fingerprint, body, sent_at, client_msg_id, reply_to } => EffectView::SendStored {
                room_id: room_id@,
                sender_fingerprint: sender_fingerprint@,
                body: body@,
                sent_at: *sent_at,
                client_msg_id: client_msg_id@,
                reply_to: text::opt(*reply_to),
            },
            Effect::PublishBan { room_id, fingerprint, banned_by, banned_at } => EffectView::PublishBan {
                room_id: room_id@,
                fingerprint: fingerprint@,
                banned_by: banned_by@,
                banned_at: *banned_at,
            },
            Effect::CheckJoinProof { room_id, joiner_fingerprint, joiner_public, codes, proof } => EffectView::CheckJoinProof {
                room_id: room_id@,
                joiner_fingerprint: joiner_fingerprint@,
                joiner_public: joiner_public@,
                codes: text::texts(codes@),
                proof: proof@,
            },
            Effect::AnswerJoin { room_id, joiner_fingerprint, joiner_public, code } => EffectView::AnswerJoin {
                room_id: room_id@,
                joiner_fingerprint: joiner_fingerprint@,
                joiner_public: joiner_public@,
                code: code@,
            },
            Effect::DeriveJoinKey { room_id, owner_fingerprint, secret, owner_public, wrapped_session_key_b64 } => EffectView::DeriveJoinKey {
                room_id: room_id@,
                owner_fingerprint: owner_fingerprint@,
                secret: secret@,
                owner_public: owner_public@,
                wrapped_session_key_b64: wrapped_session_key_b64@,
            },
            Effect::Reconnect => EffectView::Reconnect,
        }
    }
}

/// Effects by their views.
pub open spec fn effects(s: Seq<Effect>) -> Seq<EffectView> {
    s.map_values(|x: Effect| x@)
}

} // verus!
