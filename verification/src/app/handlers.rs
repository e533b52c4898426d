//! What arrives in a room: every message that another member sends.
//!
//! A message is held against what is known of it: who signed it, in which room it came, and what is on
//! disk about the room and about whom the message is about.
use crate::app::effects::{self, Effect, EffectView};
use crate::app::facts::{Envelope, EnvelopeView, FactsView, RoomFacts};
use crate::app::membership::{Announce, AnnounceView};
use crate::app::messages::{MessageView, RoomMessage};
use crate::app::{content, AppHandle, AppView};
use crate::text;
use vstd::prelude::*;

verus! {

impl MessageView {
    /// Whom a message is about, as far as the disk has to be asked about them.
    pub open spec fn subject(self, signer: Option<Seq<char>>) -> Option<Seq<char>> {
        match self {
            MessageView::MemberAnnounce { sender_fingerprint, .. } => Some(sender_fingerprint),
            MessageView::ContactRequest { requester_fingerprint, .. } => Some(
                requester_fingerprint,
            ),
            MessageView::SasInit { .. } => signer,
            MessageView::SasResponse { .. } => signer,
            _ => None,
        }
    }

    /// The message that this one is about.
    pub open spec fn target(self) -> Option<Seq<char>> {
        match self {
            MessageView::Reaction { target_msg_id, .. } => Some(target_msg_id),
            MessageView::Edit { target_msg_id, .. } => Some(target_msg_id),
            MessageView::Delete { target_msg_id, .. } => Some(target_msg_id),
            _ => None,
        }
    }

    /// Who a message says has sent it.
    pub open spec fn claimed_sender(self) -> Option<Seq<char>> {
        match self {
            MessageView::MemberAnnounce { sender_fingerprint, .. } => Some(sender_fingerprint),
            MessageView::SessionKeyRequest { requester_fingerprint } => Some(
                requester_fingerprint,
            ),
            MessageView::Encrypted { sender_fingerprint, .. } => Some(sender_fingerprint),
            MessageView::Plain { sender_fingerprint, .. } => Some(sender_fingerprint),
            MessageView::Typing { sender_fingerprint } => Some(sender_fingerprint),
            MessageView::RotateRoomKey { rotator_fingerprint, .. } => Some(rotator_fingerprint),
            MessageView::MemberLeave { sender_fingerprint, .. } => Some(sender_fingerprint),
            MessageView::FileOffer { sender_fingerprint, .. } => Some(sender_fingerprint),
            MessageView::FileChunk { sender_fingerprint, .. } => Some(sender_fingerprint),
            MessageView::ProfileUpdate { sender_fingerprint, .. } => Some(sender_fingerprint),
            MessageView::ContactRequest { requester_fingerprint, .. } => Some(
                requester_fingerprint,
            ),
            MessageView::Reaction { sender_fingerprint, .. } => Some(sender_fingerprint),
            MessageView::Edit { sender_fingerprint, .. } => Some(sender_fingerprint),
            MessageView::Delete { sender_fingerprint, .. } => Some(sender_fingerprint),
            MessageView::RoomSetting { sender_fingerprint, .. } => Some(sender_fingerprint),
            _ => None,
        }
    }

    /// The room that a message says it is meant for.
    pub open spec fn claimed_room(self) -> Option<Seq<char>> {
        match self {
            MessageView::RotateRoomKey { room_id, .. } => room_id,
            MessageView::MemberLeave { room_id, .. } => room_id,
            MessageView::OwnerGrant { room_id, .. } => Some(room_id),
            MessageView::BanMember { room_id, .. } => Some(room_id),
            MessageView::CodeJoinRequest { room_id, .. } => Some(room_id),
            MessageView::CodeJoinResponse { room_id, .. } => Some(room_id),
            MessageView::JoinRefused { room_id, .. } => Some(room_id),
            MessageView::RoomSetting { room_id, .. } => room_id,
            _ => None,
        }
    }

    /// A message that counts only if it is signed.
    pub open spec fn must_be_signed(self) -> bool {
        match self {
            MessageView::SessionKeyRequest { .. } => false,
            MessageView::Encrypted { .. } => false,
            MessageView::Plain { .. } => false,
            MessageView::Typing { .. } => false,
            MessageView::FileChunk { .. } => false,
            MessageView::Mls => false,
            _ => true,
        }
    }

    /// A message whose sender has to be who signed it.
    pub open spec fn is_self_attested(self) -> bool {
        self.must_be_signed() && self.claimed_sender() is Some
    }

    /// What somebody who is banned can no longer say.
    pub open spec fn is_barred_by_ban(self) -> bool {
        match self {
            MessageView::MemberAnnounce { .. } => true,
            MessageView::Encrypted { .. } => true,
            MessageView::Plain { .. } => true,
            MessageView::Typing { .. } => true,
            MessageView::FileOffer { .. } => true,
            MessageView::FileChunk { .. } => true,
            MessageView::Reaction { .. } => true,
            MessageView::Edit { .. } => true,
            MessageView::Delete { .. } => true,
            MessageView::RoomSetting { .. } => true,
            _ => false,
        }
    }
}

impl RoomMessage {
    /// Whom a message is about, as far as the disk has to be asked about them.
    pub fn subject(&self, signer: &Option<String>) -> (r: Option<String>)
        ensures
            text::opt(r) == self@.subject(text::opt(*signer)),
    {
        match self {
            RoomMessage::MemberAnnounce { sender_fingerprint, .. } => Some(
                sender_fingerprint.clone(),
            ),
            RoomMessage::ContactRequest { requester_fingerprint, .. } => Some(
                requester_fingerprint.clone(),
            ),
            RoomMessage::SasInit { .. } => text::opt_copy(signer),
            RoomMessage::SasResponse { .. } => text::opt_copy(signer),
            _ => None,
        }
    }

    /// The id of the message that this one is about.
    pub fn target(&self) -> (r: Option<String>)
        ensures
            text::opt(r) == self@.target(),
    {
        match self {
            RoomMessage::Reaction { target_msg_id, .. } => Some(target_msg_id.clone()),
            RoomMessage::Edit { target_msg_id, .. } => Some(target_msg_id.clone()),
            RoomMessage::Delete { target_msg_id, .. } => Some(target_msg_id.clone()),
            _ => None,
        }
    }
}

/// What becomes of the state when a message arrives, and what it causes.
pub open spec fn handled(
    app: AppView,
    f: FactsView,
    e: EnvelopeView,
    msg: MessageView,
    after: AppView,
    eff: Seq<EffectView>,
) -> bool {
    match msg {
        MessageView::MemberAnnounce {
            sender_fingerprint,
            wrapped_session_key,
            display_name,
            sender_ed25519_pubkey,
            sender_mlkem_pubkey,
            mlkem_ciphertext,
            capabilities,
        } => app.on_member_announce(
            f,
            e,
            AnnounceView {
                sender: sender_fingerprint,
                wrapped_session_key,
                display_name,
                ed25519: sender_ed25519_pubkey,
                mlkem: sender_mlkem_pubkey,
                ciphertext: mlkem_ciphertext,
                capabilities,
            },
            after,
            eff,
        ),
        MessageView::SessionKeyRequest { requester_fingerprint } => (after, eff)
            == app.on_session_key_request(e, requester_fingerprint),
        MessageView::Encrypted {
            sender_fingerprint,
            session_id,
            ciphertext_b64,
            client_msg_id,
            reply_to,
        } => (after, eff) == app.on_encrypted(
            f,
            e,
            sender_fingerprint,
            session_id,
            ciphertext_b64,
            client_msg_id,
            reply_to,
        ),
        MessageView::Plain { sender_fingerprint, body, client_msg_id, reply_to } => (after, eff)
            == app.on_plain(f, e, sender_fingerprint, body, client_msg_id, reply_to),
        MessageView::Typing { sender_fingerprint } => (after, eff) == app.on_typing(
            f,
            e,
            sender_fingerprint,
        ),
        MessageView::RotateRoomKey { rotator_fingerprint, new_salt, room_id } => (after, eff)
            == app.on_rotate_room_key(e, rotator_fingerprint, new_salt, room_id),
        MessageView::MemberLeave { sender_fingerprint, room_id } => (after, eff)
            == app.on_member_leave(e, sender_fingerprint, room_id),
        MessageView::FileOffer {
            sender_fingerprint,
            file_id,
            name,
            size_bytes,
            mime,
            chunk_count,
            encrypted_meta,
        } => (after, eff) == app.on_file_offer(
            f,
            e,
            sender_fingerprint,
            file_id,
            name,
            size_bytes,
            mime,
            encrypted_meta,
        ),
        MessageView::FileChunk {
            sender_fingerprint,
            file_id,
            chunk_index,
            total_chunks,
            data_b64,
        } => app.on_file_chunk(
            f,
            e,
            sender_fingerprint,
            file_id,
            chunk_index,
            total_chunks,
            data_b64,
            after,
            eff,
        ),
        MessageView::OwnerGrant { room_id, target_fingerprint } => (after, eff)
            == app.on_owner_grant(f, e, room_id, target_fingerprint),
        MessageView::BanMember { room_id, target_fingerprint } => (after, eff)
            == app.on_ban_member(f, e, room_id, target_fingerprint),
        MessageView::SasInit { tx_id, ephemeral_x25519_pubkey_b64, target_fingerprint } =>
            app.on_sas_init(
            f,
            e,
            tx_id,
            ephemeral_x25519_pubkey_b64,
            target_fingerprint,
            after,
            eff,
        ),
        MessageView::SasResponse { tx_id, ephemeral_x25519_pubkey_b64 } => (after, eff)
            == app.on_sas_response(f, e, tx_id, ephemeral_x25519_pubkey_b64),
        MessageView::SasConfirm { tx_id, matched } => (after, eff) == app.on_sas_confirm(
            e,
            tx_id,
            matched,
        ),
        MessageView::CodeJoinRequest { room_id, joiner_x25519_pubkey_b64, code, code_proof } => (
            after,
            eff,
        ) == app.on_code_join_request(f, e, room_id, joiner_x25519_pubkey_b64, code, code_proof),
        MessageView::CodeJoinResponse {
            room_id,
            target_fingerprint,
            owner_x25519_pubkey_b64,
            owner_session_id,
            wrapped_session_key_b64,
            nonce_b64,
        } => (after, eff) == app.on_code_join_response(
            f,
            e,
            room_id,
            target_fingerprint,
            owner_x25519_pubkey_b64,
            wrapped_session_key_b64,
        ),
        MessageView::JoinRefused { room_id, target_fingerprint, reason } => (after, eff)
            == app.on_join_refused(f, e, room_id, target_fingerprint, reason),
        MessageView::ProfileUpdate { sender_fingerprint, username, updated_at } => (after, eff)
            == app.on_profile_update(e, sender_fingerprint, username, updated_at),
        MessageView::ContactRequest {
            requester_fingerprint,
            display_name,
            note,
            sender_ed25519_pubkey,
        } => (after, eff) == app.on_contact_request(
            f,
            e,
            requester_fingerprint,
            display_name,
            note,
        ),
        MessageView::Reaction { sender_fingerprint, target_msg_id, emoji, removed } => (after, eff)
            == app.on_reaction(f, e, sender_fingerprint, target_msg_id, emoji, removed),
        MessageView::Edit {
            sender_fingerprint,
            target_msg_id,
            new_ciphertext_b64,
            session_id,
            new_body,
        } => (after, eff) == app.on_edit(
            f,
            e,
            sender_fingerprint,
            target_msg_id,
            new_ciphertext_b64,
            session_id,
            new_body,
        ),
        MessageView::Delete { sender_fingerprint, target_msg_id } => (after, eff) == app.on_delete(
            f,
            e,
            sender_fingerprint,
            target_msg_id,
        ),
        MessageView::RoomSetting { sender_fingerprint, disappearing_ttl_secs, room_id } => (
            after,
            eff,
        ) == app.on_room_setting(f, e, sender_fingerprint, disappearing_ttl_secs, room_id),
        MessageView::Mls => after == app && eff == Seq::<EffectView>::empty(),
    }
}

impl AppView {
    /// We hold the session that a message of this sender was encrypted with.
    pub open spec fn holds_session(
        self,
        room_id: Seq<char>,
        sender: Seq<char>,
        session_id: Seq<char>,
    ) -> bool {
        match self.crypto_of(room_id) {
            Some(c) => c.inbound.dom().contains((sender, session_id)),
            None => false,
        }
    }
}

impl AppHandle {
    /// Takes a message that arrived in a room, and says what is to be done.
    #[verifier::rlimit(60)]
    pub fn handle_room_message(&mut self, f: &RoomFacts, e: &Envelope, msg: RoomMessage) -> (r: Vec<
        Effect,
    >)
        requires
            old(self)@.wf(),
            e.now + content::TYPING_TTL_SECS <= i64::MAX,
        ensures
            final(self)@.wf(),
            handled(old(self)@, f@, e@, msg@, final(self)@, effects::effects(r@)),
            msg@ is Encrypted || msg@ is Edit ==> old(self)@.reads_on(final(self)@),
    {
        match msg {
            RoomMessage::MemberAnnounce {
                sender_fingerprint,
                wrapped_session_key,
                display_name,
                sender_ed25519_pubkey,
                sender_mlkem_pubkey,
                mlkem_ciphertext,
                capabilities,
            } => self.take_member_announce(
                f,
                e,
                Announce {
                    sender: sender_fingerprint,
                    wrapped_session_key,
                    display_name,
                    ed25519: sender_ed25519_pubkey,
                    mlkem: sender_mlkem_pubkey,
                    ciphertext: mlkem_ciphertext,
                    capabilities,
                },
            ),
            RoomMessage::SessionKeyRequest { requester_fingerprint } =>
                self.take_session_key_request(e, requester_fingerprint),
            RoomMessage::Encrypted {
                sender_fingerprint,
                session_id,
                ciphertext_b64,
                client_msg_id,
                reply_to,
            } => self.take_encrypted(
                f,
                e,
                sender_fingerprint,
                session_id,
                ciphertext_b64,
                client_msg_id,
                reply_to,
            ),
            RoomMessage::Plain { sender_fingerprint, body, client_msg_id, reply_to } =>
                self.take_plain(f, e, sender_fingerprint, body, client_msg_id, reply_to),
            RoomMessage::Typing { sender_fingerprint } => self.take_typing(
                f,
                e,
                sender_fingerprint,
            ),
            RoomMessage::RotateRoomKey { rotator_fingerprint, new_salt, room_id } =>
                self.take_rotate_room_key(e, rotator_fingerprint, new_salt, room_id),
            RoomMessage::MemberLeave { sender_fingerprint, room_id } => self.take_member_leave(
                e,
                sender_fingerprint,
                room_id,
            ),
            RoomMessage::FileOffer {
                sender_fingerprint,
                file_id,
                name,
                size_bytes,
                mime,
                chunk_count: _,
                encrypted_meta,
            } => self.take_file_offer(
                f,
                e,
                sender_fingerprint,
                file_id,
                name,
                size_bytes,
                mime,
                encrypted_meta,
            ),
            RoomMessage::FileChunk {
                sender_fingerprint,
                file_id,
                chunk_index,
                total_chunks,
                data_b64,
            } => self.take_file_chunk(
                f,
                e,
                sender_fingerprint,
                file_id,
                chunk_index,
                total_chunks,
                data_b64,
            ),
            RoomMessage::OwnerGrant { room_id, target_fingerprint } => self.take_owner_grant(
                f,
                e,
                room_id,
                target_fingerprint,
            ),
            RoomMessage::BanMember { room_id, target_fingerprint } => self.take_ban_member(
                f,
                e,
                room_id,
                target_fingerprint,
            ),
            RoomMessage::SasInit { tx_id, ephemeral_x25519_pubkey_b64, target_fingerprint } =>
                self.take_sas_init(f, e, tx_id, ephemeral_x25519_pubkey_b64, target_fingerprint),
            RoomMessage::SasResponse { tx_id, ephemeral_x25519_pubkey_b64 } =>
                self.take_sas_response(f, e, tx_id, ephemeral_x25519_pubkey_b64),
            RoomMessage::SasConfirm { tx_id, matched } => self.take_sas_confirm(e, tx_id, matched),
            RoomMessage::CodeJoinRequest { room_id, joiner_x25519_pubkey_b64, code, code_proof } =>
                self.take_code_join_request(
                f,
                e,
                room_id,
                joiner_x25519_pubkey_b64,
                code,
                code_proof,
            ),
            RoomMessage::CodeJoinResponse {
                room_id,
                target_fingerprint,
                owner_x25519_pubkey_b64,
                owner_session_id: _,
                wrapped_session_key_b64,
                nonce_b64: _,
            } => self.take_code_join_response(
                f,
                e,
                room_id,
                target_fingerprint,
                owner_x25519_pubkey_b64,
                wrapped_session_key_b64,
            ),
            RoomMessage::JoinRefused { room_id, target_fingerprint, reason } =>
                self.take_join_refused(f, e, room_id, target_fingerprint, reason),
            RoomMessage::ProfileUpdate { sender_fingerprint, username, updated_at } =>
                self.take_profile_update(e, sender_fingerprint, username, updated_at),
            RoomMessage::ContactRequest {
                requester_fingerprint,
                display_name,
                note,
                sender_ed25519_pubkey: _,
            } => self.take_contact_request(f, e, requester_fingerprint, display_name, note),
            RoomMessage::Reaction { sender_fingerprint, target_msg_id, emoji, removed } =>
                self.take_reaction(f, e, sender_fingerprint, target_msg_id, emoji, removed),
            RoomMessage::Edit {
                sender_fingerprint,
                target_msg_id,
                new_ciphertext_b64,
                session_id,
                new_body,
            } => self.take_edit(
                f,
                e,
                sender_fingerprint,
                target_msg_id,
                new_ciphertext_b64,
                session_id,
                new_body,
            ),
            RoomMessage::Delete { sender_fingerprint, target_msg_id } => self.take_delete(
                f,
                e,
                sender_fingerprint,
                target_msg_id,
            ),
            RoomMessage::RoomSetting { sender_fingerprint, disappearing_ttl_secs, room_id } =>
                self.take_room_setting(f, e, sender_fingerprint, disappearing_ttl_secs, room_id),
            RoomMessage::Mls => {
                let out: Vec<Effect> = Vec::new();
                assert(effects::effects(out@) =~= Seq::<EffectView>::empty());
                out
            },
        }
    }

    /// We hold the session that a message of this sender was encrypted with.
    pub fn can_decrypt(&self, room_id: &str, sender: &str, session_id: &str) -> (r: bool)
        ensures
            r == self@.holds_session(room_id@, sender@, session_id@),
    {
        match self.active_rooms.get(room_id) {
            None => false,
            Some(room) => match &room.crypto {
                None => false,
                Some(c) => c.has_inbound_session(sender, session_id),
            },
        }
    }

    /// The relay may forget a message that it kept for us: not one that we cannot decrypt yet, nor a
    /// signed change of a message that has not come yet.
    pub fn may_acknowledge(&self, room_id: &str, msg: &RoomMessage, signed: bool, target_known: bool) -> (r:
        bool)
        ensures
            r == (match msg@ {
                MessageView::Encrypted { sender_fingerprint, session_id, .. } => signed
                    || self@.holds_session(room_id@, sender_fingerprint, session_id),
                _ => !signed || msg@.target() is None || target_known,
            }),
    {
        match msg {
            RoomMessage::Encrypted { sender_fingerprint, session_id, .. } => signed
                || self.can_decrypt(room_id, sender_fingerprint.as_str(), session_id.as_str()),
            _ => !signed || msg.target().is_none() || target_known,
        }
    }
}

// ---------------------------------------------------------------------------------------------
// Laws
// ---------------------------------------------------------------------------------------------

/// A message without a checked signature changes nothing and causes nothing, if it is one that counts
/// only when it is signed.
pub proof fn law_unsigned_messages_are_void(
    app: AppView,
    f: FactsView,
    e: EnvelopeView,
    msg: MessageView,
    after: AppView,
    eff: Seq<EffectView>,
)
    requires
        handled(app, f, e, msg, after, eff),
        msg.must_be_signed(),
        e.signer is None,
    ensures
        after == app,
        eff == Seq::<EffectView>::empty(),
{
    assert(app.with_sas(app.sas) =~= app);
}

/// A message that says who sent it, and counts only when it is signed, is void if somebody else signed
/// it.
pub proof fn law_forged_senders_are_void(
    app: AppView,
    f: FactsView,
    e: EnvelopeView,
    msg: MessageView,
    after: AppView,
    eff: Seq<EffectView>,
)
    requires
        handled(app, f, e, msg, after, eff),
        msg.is_self_attested(),
        e.signer != msg.claimed_sender(),
    ensures
        after == app,
        eff == Seq::<EffectView>::empty(),
{
}

/// What seems to come from ourselves is void. Only our own name may come back to us.
pub proof fn law_own_messages_are_void(
    app: AppView,
    f: FactsView,
    e: EnvelopeView,
    msg: MessageView,
    after: AppView,
    eff: Seq<EffectView>,
)
    requires
        handled(app, f, e, msg, after, eff),
        msg.claimed_sender() == Some(app.our_fp()),
        !(msg is ProfileUpdate),
    ensures
        after == app,
        eff == Seq::<EffectView>::empty(),
{
}

/// Whoever is banned from a room cannot join it, write in it, offer files in it, change messages in it or
/// set anything in it. All that is noted of them is what they say that they can do.
pub proof fn law_banned_members_are_not_heard(
    app: AppView,
    f: FactsView,
    e: EnvelopeView,
    msg: MessageView,
    after: AppView,
    eff: Seq<EffectView>,
)
    requires
        handled(app, f, e, msg, after, eff),
        msg.is_barred_by_ban(),
        f.banned.contains(msg.claimed_sender()->0),
    ensures
        after == (AppView { capabilities: after.capabilities, ..app }),
        !(msg is MemberAnnounce) ==> after == app,
        eff == Seq::<EffectView>::empty(),
{
}

/// A message that names its room is void in any other room.
pub proof fn law_messages_do_not_cross_rooms(
    app: AppView,
    f: FactsView,
    e: EnvelopeView,
    msg: MessageView,
    after: AppView,
    eff: Seq<EffectView>,
)
    requires
        handled(app, f, e, msg, after, eff),
        msg.claimed_room() is Some,
        msg.claimed_room() != Some(e.room_id),
    ensures
        after == app,
        eff == Seq::<EffectView>::empty(),
{
}

/// Only an owner who is not banned makes owners and bans members.
pub proof fn law_only_owners_moderate(
    app: AppView,
    f: FactsView,
    e: EnvelopeView,
    msg: MessageView,
    after: AppView,
    eff: Seq<EffectView>,
)
    requires
        handled(app, f, e, msg, after, eff),
        msg is OwnerGrant || msg is BanMember,
        !(e.signer matches Some(s) && f.is_owner(s)),
    ensures
        after == app,
        eff == Seq::<EffectView>::empty(),
{
}

/// Nothing in the clear is shown in an encrypted room.
pub proof fn law_encrypted_rooms_take_no_plaintext(
    app: AppView,
    f: FactsView,
    e: EnvelopeView,
    msg: MessageView,
    after: AppView,
    eff: Seq<EffectView>,
)
    requires
        handled(app, f, e, msg, after, eff),
        msg is Plain,
        f.room matches Some(room) && room.encrypted,
    ensures
        after == app,
        eff == Seq::<EffectView>::empty(),
{
}

/// A message that was taken before is not taken again, however often it comes.
pub proof fn law_replayed_messages_cause_nothing(
    app: AppView,
    f: FactsView,
    e: EnvelopeView,
    msg: MessageView,
    after: AppView,
    eff: Seq<EffectView>,
)
    requires
        handled(app, f, e, msg, after, eff),
        msg is Encrypted,
        app.crypto_of(e.room_id) is Some,
        crate::app::dm_key::decoded(Some(msg->ciphertext_b64)) is Some,
        app.crypto_of(e.room_id)->0.decrypted(
            msg->Encrypted_sender_fingerprint,
            msg->Encrypted_session_id,
            crate::app::dm_key::decoded(Some(msg->ciphertext_b64))->0,
        ) matches Ok(d) && f.seen_indices.contains(d.1),
    ensures
        eff == Seq::<EffectView>::empty(),
{
}

/// A chat between two never gets a third member by an announcement.
pub proof fn law_direct_rooms_have_two_members(
    app: AppView,
    f: FactsView,
    e: EnvelopeView,
    msg: MessageView,
    after: AppView,
    eff: Seq<EffectView>,
)
    requires
        app.wf(),
        handled(app, f, e, msg, after, eff),
        msg is MemberAnnounce,
        app.rooms.dom().contains(e.room_id),
        app.rooms[e.room_id].info.kind == crate::app::events::RoomKind::Direct,
        app.rooms[e.room_id].members.len() <= 2,
    ensures
        after.rooms.dom().contains(e.room_id),
        after.rooms[e.room_id].members.len() <= 2,
{
    let m = AnnounceView {
        sender: msg->MemberAnnounce_sender_fingerprint,
        wrapped_session_key: msg->wrapped_session_key,
        display_name: msg->MemberAnnounce_display_name,
        ed25519: msg->MemberAnnounce_sender_ed25519_pubkey,
        mlkem: msg->sender_mlkem_pubkey,
        ciphertext: msg->mlkem_ciphertext,
        capabilities: msg->capabilities,
    };
    crate::app::membership::lemma_announce_members(
        app.capabilities_heard(e, m),
        f,
        e,
        m,
        after,
        eff,
    );
}

/// Members who know the key of an encrypted room hand each other their sessions by announcing themselves:
/// whoever takes an announcement reads what its sender writes from then on. In a chat between two that is
/// so once its key is settled.
pub proof fn law_announcements_hand_over_the_session(
    sender: AppView,
    display_name: Option<Seq<char>>,
    receiver: AppView,
    f: FactsView,
    e: EnvelopeView,
    msg: MessageView,
    after: AppView,
    eff: Seq<EffectView>,
)
    requires
        receiver.wf(),
        sender.rooms.dom().contains(e.room_id),
        sender.rooms[e.room_id].info.encrypted,
        sender.rooms[e.room_id].key is Some,
        crate::app::rooms::announce_made(sender, e.room_id, display_name, Ok(msg)),
        receiver.announce_admitted(f, e, sender.our_fp()),
        receiver.rooms[e.room_id].info.encrypted,
        receiver.rooms[e.room_id].key == sender.rooms[e.room_id].key,
        receiver.rooms[e.room_id].info.kind == crate::app::events::RoomKind::Direct
            ==> receiver.rooms[e.room_id].is_hybrid,
        handled(receiver, f, e, msg, after, eff),
    ensures
        after.crypto_of(e.room_id) is Some,
        after.crypto_of(e.room_id)->0.holds(
            sender.our_fp(),
            sender.rooms[e.room_id].crypto->0,
        ),
{
    broadcast use vstd::utf8::encode_utf8_valid_utf8, vstd::utf8::encode_utf8_decode_utf8;

    let from = sender.rooms[e.room_id].crypto->0;
    let room = receiver.rooms[e.room_id];
    let plain = vstd::utf8::encode_utf8(from.session_key());
    assert(vstd::utf8::decode_utf8(plain) == from.session_key());
    assert(room.wf());
    crate::crypto::megolm::law_session_keys_are_handed_over(
        room.crypto->0,
        sender.our_fp(),
        from,
        e.now,
    );
    let m = AnnounceView {
        sender: msg->MemberAnnounce_sender_fingerprint,
        wrapped_session_key: msg->wrapped_session_key,
        display_name: msg->MemberAnnounce_display_name,
        ed25519: msg->MemberAnnounce_sender_ed25519_pubkey,
        mlkem: msg->sender_mlkem_pubkey,
        ciphertext: msg->mlkem_ciphertext,
        capabilities: msg->capabilities,
    };
    assert(receiver.on_member_announce(f, e, m, after, eff));
    assert(!receiver.announce_refused(f, e, m.sender));
}

/// What we can read of a member before a message comes, we can read after it.
pub proof fn law_messages_do_not_stop_reading(
    before: AppView,
    after: AppView,
    room_id: Seq<char>,
    sender: Seq<char>,
    from: crate::crypto::megolm::RoomCryptoView,
)
    requires
        after.wf(),
        before.reads_on(after),
        before.crypto_of(room_id) is Some,
        before.crypto_of(room_id)->0.holds(sender, from),
    ensures
        after.crypto_of(room_id) is Some,
        after.crypto_of(room_id)->0.holds(sender, from),
{
    let c = before.crypto_of(room_id)->0;
    assert(after.rooms[room_id].wf());
    crate::crypto::megolm::law_readers_keep_reading(
        c,
        sender,
        from,
        after.crypto_of(room_id)->0,
    );
}

} // verus!
