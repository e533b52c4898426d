//! What we write: messages, replies, edits, deletions and reactions, and the keys of our rooms.
use crate::app::content;
use crate::app::effects::{self, Effect, EffectView, Write, WriteView};
use crate::app::events::{AppEvent, EventView};
use crate::app::facts::{EnvelopeView, FactsView, RoomFacts};
use crate::app::ids;
use crate::app::membership::{self, rotation_state};
use crate::app::messages::{MessageView, RoomMessage};
use crate::app::records::StoredRoomView;
use crate::app::rooms;
use crate::app::{ActiveRoom, AppHandle, AppView, RoomView};
use crate::bytes;
use crate::crypto::megolm::{self, RoomCrypto, RoomCryptoView, RotationPolicy};
use crate::crypto::passphrase::{self, KEY_LEN, SALT_LEN};
use crate::crypto::primitives;
use crate::error::{ErrorView, HuddleError};
use crate::strmap::{self, StrMap};
use crate::text;
use vstd::prelude::*;

verus! {

// ---------------------------------------------------------------------------------------------
// What becomes of the state
// ---------------------------------------------------------------------------------------------

/// Effects or an error, by their views.
pub open spec fn outcome(r: Result<Vec<Effect>, HuddleError>) -> Result<Seq<EffectView>, ErrorView> {
    match r {
        Ok(out) => Ok(effects::effects(out@)),
        Err(e) => Err(e@),
    }
}

/// The outbound session is due after a message.
pub open spec fn rotation_due(policy: RotationPolicy, c: RoomCryptoView, now: i64) -> bool {
    policy.enabled() && policy.due(
        c.messages_since_rotation as int,
        megolm::age(c.last_rotation_at as int, now as int),
    )
}

/// The sessions of a room after a message was sent: with another outbound session, drawn at random,
/// if the old one is due.
pub open spec fn sent_with(
    c: RoomCryptoView,
    plaintext: Seq<u8>,
    policy: RotationPolicy,
    now: i64,
    after: RoomCryptoView,
) -> bool {
    let sent = c.after_encrypt(plaintext, now);
    if rotation_due(policy, sent, now) {
        after.is_unused() && exists|pickle: Seq<char>| after == #[trigger] sent.rotated(pickle, now)
    } else {
        after == sent
    }
}

/// A message that we send, as it is stored.
pub open spec fn send_stored(
    our_fp: Seq<char>,
    room_id: Seq<char>,
    body: Seq<char>,
    now: i64,
    client_msg_id: Seq<char>,
    reply_to: Option<Seq<char>>,
) -> EffectView {
    EffectView::SendStored {
        room_id,
        sender_fingerprint: our_fp,
        body,
        sent_at: now,
        client_msg_id,
        reply_to,
    }
}

/// What becomes of a message that we send. It fails outside our rooms, in a room that we may only
/// read, and under a session that is worn out. In an encrypted room only the ciphertext goes out; if
/// the session is due after it, we announce the next one.
pub open spec fn message_sent(
    before: AppView,
    room_id: Seq<char>,
    body: Seq<char>,
    reply_to: Option<Seq<char>>,
    client_msg_id: Seq<char>,
    policy: RotationPolicy,
    now: i64,
    after: AppView,
    r: Result<Seq<EffectView>, ErrorView>,
) -> bool {
    if !before.rooms.dom().contains(room_id) {
        after == before && r == Err::<Seq<EffectView>, ErrorView>(
            ErrorView::Other("not in room "@ + room_id),
        )
    } else if before.rooms[room_id].read_only {
        after == before && r == Err::<Seq<EffectView>, ErrorView>(
            ErrorView::Other(
                "this room is read-only — you joined via code without the passphrase. Ask an owner for the passphrase or wait for a key rotation that includes you."@,
            ),
        )
    } else if !before.rooms[room_id].info.encrypted {
        after == before && r == Ok::<Seq<EffectView>, ErrorView>(
            seq![
                EffectView::Publish {
                    room_id,
                    message: MessageView::Plain {
                        sender_fingerprint: before.our_fp(),
                        body,
                        client_msg_id: Some(client_msg_id),
                        reply_to,
                    },
                },
                send_stored(before.our_fp(), room_id, body, now, client_msg_id, reply_to),
            ],
        )
    } else {
        let c = before.rooms[room_id].crypto->0;
        let plaintext = vstd::utf8::encode_utf8(body);
        if !c.can_encrypt() {
            after == before && r == Err::<Seq<EffectView>, ErrorView>(
                ErrorView::Session("megolm session is exhausted"@),
            )
        } else {
            sent_readable(c, plaintext) && megolm::sent_on(c, c.after_encrypt(plaintext, now))
                && exists|next: RoomCryptoView| #[trigger]
                sent_with(c, plaintext, policy, now, next) && after == before.with_crypto(
                    room_id,
                    next,
                ) && r == Ok::<Seq<EffectView>, ErrorView>(
                    encrypted_effects(
                        before.our_fp(),
                        room_id,
                        body,
                        reply_to,
                        client_msg_id,
                        now,
                        c,
                        rotation_due(policy, c.after_encrypt(plaintext, now), now),
                        next,
                    ),
                )
        }
    }
}

/// The ciphertext of a message under the outbound session.
pub open spec fn ciphertext_of(c: RoomCryptoView, plaintext: Seq<u8>) -> Seq<u8> {
    (megolm::megolm_encrypted(c.outbound, c.persist_key, plaintext)->0).1
}

/// What is sent can be read: whoever took in a key of the session reads the plaintext.
pub open spec fn sent_readable(c: RoomCryptoView, plaintext: Seq<u8>) -> bool {
    &&& primitives::base64_bytes(primitives::base64_text(ciphertext_of(c, plaintext)))
        == primitives::read(ciphertext_of(c, plaintext))
    &&& megolm::readable(c.outbound, c.persist_key, ciphertext_of(c, plaintext), plaintext)
}

pub open spec fn encrypted_effects(
    our_fp: Seq<char>,
    room_id: Seq<char>,
    body: Seq<char>,
    reply_to: Option<Seq<char>>,
    client_msg_id: Seq<char>,
    now: i64,
    c: RoomCryptoView,
    due: bool,
    next: RoomCryptoView,
) -> Seq<EffectView> {
    let ciphertext = ciphertext_of(c, vstd::utf8::encode_utf8(body));
    seq![
        rotation_state(next),
        EffectView::Publish {
            room_id,
            message: MessageView::Encrypted {
                sender_fingerprint: our_fp,
                session_id: c.session_id(),
                ciphertext_b64: primitives::base64_text(ciphertext),
                client_msg_id: Some(client_msg_id),
                reply_to,
            },
        },
    ] + (if due {
        seq![EffectView::AnnounceMember { room_id, delay_ms: 0 }]
    } else {
        Seq::empty()
    }) + seq![send_stored(our_fp, room_id, body, now, client_msg_id, reply_to)]
}

impl AppView {
    /// What a reaction of ours causes.
    pub open spec fn reaction_sent(
        self,
        target_known: bool,
        room_id: Seq<char>,
        target: Seq<char>,
        emoji: Seq<char>,
        removed: bool,
        now: i64,
    ) -> Result<Seq<EffectView>, ErrorView> {
        if !target_known {
            Err(ErrorView::Other("reaction target message not found"@))
        } else {
            Ok(
                seq![
                    EffectView::PublishSigned {
                        room_id,
                        message: MessageView::Reaction {
                            sender_fingerprint: self.our_fp(),
                            target_msg_id: target,
                            emoji,
                            removed,
                        },
                    },
                    EffectView::MustStore(
                        if removed {
                            WriteView::RemoveReaction {
                                room_id,
                                target_msg_id: target,
                                sender_fingerprint: self.our_fp(),
                                emoji,
                            }
                        } else {
                            WriteView::AddReaction {
                                room_id,
                                target_msg_id: target,
                                sender_fingerprint: self.our_fp(),
                                emoji,
                                at: now,
                            }
                        },
                    ),
                    EffectView::Emit(
                        EventView::ReactionAdded {
                            room_id,
                            message_id: target,
                            sender_fingerprint: self.our_fp(),
                            emoji,
                            removed,
                        },
                    ),
                ],
            )
        }
    }

    /// Why we may not change a message: it is not there, or it is neither ours nor in a room of ours.
    pub open spec fn change_fault(
        self,
        f: FactsView,
        missing: Seq<char>,
        forbidden: Seq<char>,
    ) -> Option<ErrorView> {
        match f.target_sender {
            None => Some(ErrorView::Other(missing)),
            Some(author) => if author == self.our_fp() || f.is_owner(self.our_fp()) {
                None
            } else {
                Some(ErrorView::Other(forbidden))
            },
        }
    }

    pub open spec fn edit_effects(
        self,
        room_id: Seq<char>,
        target: Seq<char>,
        new_body: Seq<char>,
        message: MessageView,
        now_ms: i64,
    ) -> Seq<EffectView> {
        seq![
            EffectView::PublishSigned { room_id, message },
            EffectView::MustStore(
                WriteView::EditMessage {
                    room_id,
                    target_msg_id: target,
                    new_body,
                    edited_at_ms: now_ms,
                },
            ),
            EffectView::Emit(
                EventView::MessageEdited {
                    room_id,
                    message_id: target,
                    editor_fingerprint: self.our_fp(),
                    new_body,
                },
            ),
        ]
    }

    /// An edit of ours. In an encrypted room only the ciphertext of the new text goes out, and the state of
    /// the session is stored.
    pub open spec fn edit_sent(
        self,
        f: FactsView,
        room_id: Seq<char>,
        target: Seq<char>,
        new_body: Seq<char>,
        now: i64,
        now_ms: i64,
    ) -> (Self, Result<Seq<EffectView>, ErrorView>) {
        match self.change_fault(
            f,
            "edit target message not found"@,
            "not authorized to edit this message (not the sender or a room owner)"@,
        ) {
            Some(e) => (self, Err(e)),
            None => if self.rooms.dom().contains(room_id) && self.rooms[room_id].info.encrypted {
                let c = self.rooms[room_id].crypto->0;
                let plaintext = vstd::utf8::encode_utf8(new_body);
                if !c.can_encrypt() {
                    (self, Err(ErrorView::Session("megolm session is exhausted"@)))
                } else {
                    (
                        self.with_crypto(room_id, c.after_encrypt(plaintext, now)),
                        Ok(
                            seq![rotation_state(c.after_encrypt(plaintext, now))] + self.edit_effects(
                                room_id,
                                target,
                                new_body,
                                MessageView::Edit {
                                    sender_fingerprint: self.our_fp(),
                                    target_msg_id: target,
                                    new_ciphertext_b64: primitives::base64_text(
                                        (megolm::megolm_encrypted(
                                            c.outbound,
                                            c.persist_key,
                                            plaintext,
                                        )->0).1,
                                    ),
                                    session_id: c.session_id(),
                                    new_body: None,
                                },
                                now_ms,
                            ),
                        ),
                    )
                }
            } else {
                (
                    self,
                    Ok(
                        self.edit_effects(
                            room_id,
                            target,
                            new_body,
                            MessageView::Edit {
                                sender_fingerprint: self.our_fp(),
                                target_msg_id: target,
                                new_ciphertext_b64: ""@,
                                session_id: ""@,
                                new_body: Some(new_body),
                            },
                            now_ms,
                        ),
                    ),
                )
            },
        }
    }

    pub open spec fn delete_sent(
        self,
        f: FactsView,
        room_id: Seq<char>,
        target: Seq<char>,
        now_ms: i64,
    ) -> Result<Seq<EffectView>, ErrorView> {
        match self.change_fault(
            f,
            "delete target message not found"@,
            "not authorized to delete this message (not the sender or a room owner)"@,
        ) {
            Some(e) => Err(e),
            None => Ok(
                seq![
                    EffectView::PublishSigned {
                        room_id,
                        message: MessageView::Delete {
                            sender_fingerprint: self.our_fp(),
                            target_msg_id: target,
                        },
                    },
                    EffectView::MustStore(
                        WriteView::DeleteMessage {
                            room_id,
                            target_msg_id: target,
                            deleted_at_ms: now_ms,
                        },
                    ),
                    EffectView::Emit(
                        EventView::MessageDeleted {
                            room_id,
                            message_id: target,
                            deleter_fingerprint: self.our_fp(),
                        },
                    ),
                ],
            ),
        }
    }

    /// What it causes to set for how long messages stay in a room.
    pub open spec fn ttl_sent(self, room_id: Seq<char>, ttl_secs: Option<u32>) -> Seq<EffectView> {
        seq![
            EffectView::MustStore(WriteView::RoomTtl { room_id, ttl_secs }),
            EffectView::PublishSigned {
                room_id,
                message: MessageView::RoomSetting {
                    sender_fingerprint: self.our_fp(),
                    disappearing_ttl_secs: match ttl_secs {
                        Some(t) => t as u64,
                        None => 0,
                    },
                    room_id: Some(room_id),
                },
            },
            EffectView::Emit(EventView::RoomTtlChanged { room_id, ttl_secs }),
        ]
    }

    /// What it causes that we are typing.
    pub open spec fn typing_sent(self, room_id: Seq<char>) -> Seq<EffectView> {
        if self.rooms.dom().contains(room_id) {
            seq![
                EffectView::Publish {
                    room_id,
                    message: MessageView::Typing { sender_fingerprint: self.our_fp() },
                },
            ]
        } else {
            seq![]
        }
    }

    /// The room under another passphrase: its key, its salt and new sessions.
    pub open spec fn rekeyed(
        self,
        room_id: Seq<char>,
        key: Seq<u8>,
        salt: Seq<u8>,
        crypto: Option<RoomCryptoView>,
    ) -> Self {
        let room = self.rooms[room_id];
        AppView {
            answers: self.answers.remove(room_id),
            ..self.with_room(
                room_id,
                RoomView {
                    info: StoredRoomView { passphrase_salt: Some(salt), ..room.info },
                    key: Some(key),
                    crypto,
                    ..room
                },
            )
        }
    }
}

impl AppView {
    /// We follow another member to another passphrase: the room is under its key, and its members are asked
    /// for their sessions and told ours.
    pub open spec fn rotation_accepted(
        self,
        room_id: Seq<char>,
        new_salt: Seq<u8>,
        new_passphrase: Seq<char>,
    ) -> (Self, Result<Seq<EffectView>, ErrorView>) {
        match passphrase::key_of(new_passphrase, new_salt) {
            Err(e) => (self, Err(e)),
            Ok(key) => if !self.rooms.dom().contains(room_id) {
                (self, Err(ErrorView::Other("not in room "@ + room_id)))
            } else {
                let after = self.rekeyed(room_id, key, new_salt, self.rooms[room_id].crypto);
                (
                    after,
                    Ok(
                        seq![
                            EffectView::RequestKeys { room_id, delay_ms: 0 },
                            EffectView::AnnounceMember { room_id, delay_ms: 0 },
                            EffectView::MustStore(WriteView::Room(after.rooms[room_id].info)),
                        ],
                    ),
                )
            },
        }
    }
}

/// We move a room to another passphrase, with this salt. It fails for a passphrase that is too
/// short, outside our rooms and in a room that is not encrypted. Our next outbound session is drawn
/// at random.
pub open spec fn room_rotated(
    before: AppView,
    room_id: Seq<char>,
    new_passphrase: Seq<char>,
    salt: Seq<u8>,
    after: AppView,
    r: Result<Seq<EffectView>, ErrorView>,
) -> bool {
    let fault = if ids::passphrase_fault(new_passphrase) is Some {
        ids::passphrase_fault(new_passphrase)
    } else {
        match passphrase::key_of(new_passphrase, salt) {
            Err(e) => Some(e),
            Ok(_) => if !before.rooms.dom().contains(room_id) {
                Some(ErrorView::Other("not in room "@ + room_id))
            } else if !before.rooms[room_id].info.encrypted {
                Some(ErrorView::Other("rotation only applies to encrypted rooms"@))
            } else {
                None
            },
        }
    };
    match fault {
        Some(e) => after == before && r == Err::<Seq<EffectView>, ErrorView>(e),
        None => exists|c: RoomCryptoView| #[trigger]
            rooms::fresh_crypto(c, room_id, before.our_fp(), before.persist_key) && after
                == before.rekeyed(
                room_id,
                passphrase::key_of(new_passphrase, salt)->Ok_0,
                salt,
                Some(c),
            ) && r == Ok::<Seq<EffectView>, ErrorView>(
                seq![
                    rotation_state(c),
                    EffectView::PublishSigned {
                        room_id,
                        message: MessageView::RotateRoomKey {
                            rotator_fingerprint: before.our_fp(),
                            new_salt: salt,
                            room_id: Some(room_id),
                        },
                    },
                    EffectView::AnnounceMember { room_id, delay_ms: 0 },
                    EffectView::MustStore(WriteView::Room(after.rooms[room_id].info)),
                ],
            ),
    }
}

// ---------------------------------------------------------------------------------------------
// The functions
// ---------------------------------------------------------------------------------------------

impl ActiveRoom {
    /// Encrypts a message, and begins another outbound session if the old one is due after it.
    fn encrypt_for_sending(&mut self, plaintext: &[u8], policy: &RotationPolicy, now: i64) -> (r: Result<
        (String, Vec<u8>, bool),
        HuddleError,
    >)
        requires
            old(self)@.wf(),
            old(self)@.crypto is Some,
        ensures
            final(self)@.wf(),
            match r {
                Ok(sent) => {
                    let c = old(self)@.crypto->0;
                    &&& c.can_encrypt()
                    &&& sent.0@ == c.session_id()
                    &&& sent.1@ == ciphertext_of(c, plaintext@)
                    &&& megolm::readable(c.outbound, c.persist_key, sent.1@, plaintext@)
                    &&& megolm::sent_on(c, c.after_encrypt(plaintext@, now))
                    &&& sent.2 == rotation_due(*policy, c.after_encrypt(plaintext@, now), now)
                    &&& final(self)@.crypto is Some
                    &&& sent_with(c, plaintext@, *policy, now, final(self)@.crypto->0)
                    &&& final(self)@ == (RoomView { crypto: final(self)@.crypto, ..old(self)@ })
                },
                Err(e) => {
                    &&& !old(self)@.crypto->0.can_encrypt()
                    &&& final(self)@ == old(self)@
                    &&& e@ == ErrorView::Session("megolm session is exhausted"@)
                },
            },
    {
        let ghost before = self@;
        let mut crypto: Option<RoomCrypto> = None;
        std::mem::swap(&mut crypto, &mut self.crypto);
        let mut c: RoomCrypto = crypto.unwrap();
        let sent = c.encrypt_at(plaintext, now);
        match sent {
            Err(e) => {
                self.crypto = Some(c);
                assert(self@ =~= before);
                Err(e)
            },
            Ok((session_id, ciphertext)) => {
                let due: bool = policy.is_enabled() && c.should_rotate_at(policy, now);
                if due {
                    c.rotate_outbound_at(now);
                }
                let ghost next = c@;
                self.crypto = Some(c);
                proof {
                    assert(sent_with(before.crypto->0, plaintext@, *policy, now, next));
                    assert(self@ =~= RoomView { crypto: Some(next), ..before });
                }
                Ok((session_id, ciphertext, due))
            },
        }
    }
}

impl AppHandle {
    /// Sends a message under this id.
    pub fn send_with_id(
        &mut self,
        room_id: &str,
        body: &str,
        reply_to: Option<&str>,
        client_msg_id: String,
        policy: &RotationPolicy,
        now: i64,
    ) -> (r: Result<Vec<Effect>, HuddleError>)
        requires
            old(self)@.wf(),
        ensures
            final(self)@.wf(),
            message_sent(
                old(self)@,
                room_id@,
                body@,
                text::opt_str(reply_to),
                client_msg_id@,
                *policy,
                now,
                final(self)@,
                outcome(r),
            ),
    {
        let ghost before = self@;
        let mut out: Vec<Effect> = Vec::new();
        let mut room: ActiveRoom = match self.take_room(room_id) {
            None => {
                return Err(HuddleError::Other(text::join2("not in room ", room_id)));
            },
            Some(room) => room,
        };
        let ghost room0 = room@;
        proof {
            super::lemma_put_back(before, room_id@, room0);
        }
        if room.read_only {
            self.put_room(room_id, room);
            return Err(
                crate::error::other_error(
                    "this room is read-only — you joined via code without the passphrase. Ask an owner for the passphrase or wait for a key rotation that includes you.",
                ),
            );
        }
        let mut due: bool = false;
        if room.info.encrypted {
            let sent = room.encrypt_for_sending(body.as_bytes(), policy, now);
            match sent {
                Err(e) => {
                    self.put_room(room_id, room);
                    return Err(e);
                },
                Ok((session_id, ciphertext, rotated)) => {
                    due = rotated;
                    match &room.crypto {
                        Some(c) => {
                            out.push(membership::rotation_effect(c));
                        },
                        None => {},
                    }
                    out.push(
                        Effect::Publish {
                            room_id: text::owned(room_id),
                            message: RoomMessage::Encrypted {
                                sender_fingerprint: text::owned(self.identity.fingerprint()),
                                session_id,
                                ciphertext_b64: primitives::base64_encode(ciphertext.as_slice()),
                                client_msg_id: Some(client_msg_id.clone()),
                                reply_to: text::opt_owned(reply_to),
                            },
                        },
                    );
                },
            }
            if due {
                out.push(
                    Effect::AnnounceMember { room_id: text::owned(room_id), delay_ms: 0 },
                );
            }
        } else {
            out.push(
                Effect::Publish {
                    room_id: text::owned(room_id),
                    message: RoomMessage::Plain {
                        sender_fingerprint: text::owned(self.identity.fingerprint()),
                        body: text::owned(body),
                        client_msg_id: Some(client_msg_id.clone()),
                        reply_to: text::opt_owned(reply_to),
                    },
                },
            );
        }
        let ghost id0 = client_msg_id@;
        out.push(
            Effect::SendStored {
                room_id: text::owned(room_id),
                sender_fingerprint: text::owned(self.identity.fingerprint()),
                body: text::owned(body),
                sent_at: now,
                client_msg_id,
                reply_to: text::opt_owned(reply_to),
            },
        );
        let ghost room1 = room@;
        self.put_room(room_id, room);
        proof {
            super::lemma_put_back(before, room_id@, room1);
            if room0.info.encrypted {
                let c = room0.crypto->0;
                let next = room1.crypto->0;
                assert(sent_with(c, vstd::utf8::encode_utf8(body@), *policy, now, next));
                assert(self@ == before.with_crypto(room_id@, next));
                assert(effects::effects(out@) =~= encrypted_effects(
                    before.our_fp(),
                    room_id@,
                    body@,
                    text::opt_str(reply_to),
                    id0,
                    now,
                    c,
                    due,
                    next,
                ));
            } else {
                assert(effects::effects(out@) =~= seq![out@[0]@, out@[1]@]);
            }
        }
        Ok(out)
    }

    /// Sends a message, under an id drawn for it.
    pub fn send_room_message(
        &mut self,
        room_id: &str,
        body: &str,
        policy: &RotationPolicy,
        now: i64,
    ) -> (r: Result<Vec<Effect>, HuddleError>)
        requires
            old(self)@.wf(),
        ensures
            final(self)@.wf(),
            exists|id: Seq<u8>|
                id.len() == 16 && message_sent(
                    old(self)@,
                    room_id@,
                    body@,
                    None,
                    #[trigger] ids::msg_id_text(id),
                    *policy,
                    now,
                    final(self)@,
                    outcome(r),
                ),
    {
        let id: String = ids::new_client_msg_id();
        self.send_with_id(room_id, body, None, id, policy, now)
    }

    /// Sends a reply to the message with this id, under an id drawn for it.
    pub fn send_reply(
        &mut self,
        room_id: &str,
        body: &str,
        reply_to: &str,
        policy: &RotationPolicy,
        now: i64,
    ) -> (r: Result<Vec<Effect>, HuddleError>)
        requires
            old(self)@.wf(),
        ensures
            final(self)@.wf(),
            exists|id: Seq<u8>|
                id.len() == 16 && message_sent(
                    old(self)@,
                    room_id@,
                    body@,
                    Some(reply_to@),
                    #[trigger] ids::msg_id_text(id),
                    *policy,
                    now,
                    final(self)@,
                    outcome(r),
                ),
    {
        let id: String = ids::new_client_msg_id();
        self.send_with_id(room_id, body, Some(reply_to), id, policy, now)
    }

    /// Reacts to a message that is in the room.
    pub fn send_reaction(
        &self,
        target_known: bool,
        room_id: &str,
        target_msg_id: &str,
        emoji: &str,
        removed: bool,
        now: i64,
    ) -> (r: Result<Vec<Effect>, HuddleError>)
        ensures
            outcome(r) == self@.reaction_sent(
                target_known,
                room_id@,
                target_msg_id@,
                emoji@,
                removed,
                now,
            ),
    {
        if !target_known {
            return Err(crate::error::other_error("reaction target message not found"));
        }
        let ours: &str = self.identity.fingerprint();
        let write: Write = if removed {
            Write::RemoveReaction {
                room_id: text::owned(room_id),
                target_msg_id: text::owned(target_msg_id),
                sender_fingerprint: text::owned(ours),
                emoji: text::owned(emoji),
            }
        } else {
            Write::AddReaction {
                room_id: text::owned(room_id),
                target_msg_id: text::owned(target_msg_id),
                sender_fingerprint: text::owned(ours),
                emoji: text::owned(emoji),
                at: now,
            }
        };
        let mut out: Vec<Effect> = Vec::new();
        out.push(
            Effect::PublishSigned {
                room_id: text::owned(room_id),
                message: RoomMessage::Reaction {
                    sender_fingerprint: text::owned(ours),
                    target_msg_id: text::owned(target_msg_id),
                    emoji: text::owned(emoji),
                    removed,
                },
            },
        );
        out.push(Effect::MustStore(write));
        out.push(
            Effect::Emit(
                AppEvent::ReactionAdded {
                    room_id: text::owned(room_id),
                    message_id: text::owned(target_msg_id),
                    sender_fingerprint: text::owned(ours),
                    emoji: text::owned(emoji),
                    removed,
                },
            ),
        );
        assert(effects::effects(out@) =~= seq![out@[0]@, out@[1]@, out@[2]@]);
        Ok(out)
    }

    fn check_change(&self, f: &RoomFacts, missing: &str, forbidden: &str) -> (r: Option<HuddleError>)
        ensures
            match r {
                Some(e) => self@.change_fault(f@, missing@, forbidden@) == Some(e@),
                None => self@.change_fault(f@, missing@, forbidden@) is None,
            },
    {
        match &f.target_sender {
            None => Some(crate::error::other_error(missing)),
            Some(author) => if text::same(author.as_str(), self.identity.fingerprint())
                || f.is_owner(self.identity.fingerprint()) {
                None
            } else {
                Some(crate::error::other_error(forbidden))
            },
        }
    }

    fn edit_made(
        &self,
        room_id: &str,
        target_msg_id: &str,
        new_body: &str,
        message: RoomMessage,
        now_ms: i64,
    ) -> (r: Vec<Effect>)
        ensures
            effects::effects(r@) == self@.edit_effects(
                room_id@,
                target_msg_id@,
                new_body@,
                message@,
                now_ms,
            ),
    {
        let mut out: Vec<Effect> = Vec::new();
        out.push(Effect::PublishSigned { room_id: text::owned(room_id), message });
        out.push(
            Effect::MustStore(
                Write::EditMessage {
                    room_id: text::owned(room_id),
                    target_msg_id: text::owned(target_msg_id),
                    new_body: text::owned(new_body),
                    edited_at_ms: now_ms,
                },
            ),
        );
        out.push(
            Effect::Emit(
                AppEvent::MessageEdited {
                    room_id: text::owned(room_id),
                    message_id: text::owned(target_msg_id),
                    editor_fingerprint: text::owned(self.identity.fingerprint()),
                    new_body: text::owned(new_body),
                },
            ),
        );
        assert(effects::effects(out@) =~= seq![out@[0]@, out@[1]@, out@[2]@]);
        out
    }

    /// Edits a message of ours, or any message in a room that we own.
    pub fn edit_message(
        &mut self,
        f: &RoomFacts,
        room_id: &str,
        target_msg_id: &str,
        new_body: &str,
        now: i64,
        now_ms: i64,
    ) -> (r: Result<Vec<Effect>, HuddleError>)
        requires
            old(self)@.wf(),
        ensures
            final(self)@.wf(),
            (final(self)@, outcome(r)) == old(self)@.edit_sent(
                f@,
                room_id@,
                target_msg_id@,
                new_body@,
                now,
                now_ms,
            ),
            r is Ok && old(self)@.rooms.dom().contains(room_id@)
                && old(self)@.rooms[room_id@].info.encrypted ==> sent_readable(
                old(self)@.rooms[room_id@].crypto->0,
                vstd::utf8::encode_utf8(new_body@),
            ),
    {
        let ghost before = self@;
        match self.check_change(
            f,
            "edit target message not found",
            "not authorized to edit this message (not the sender or a room owner)",
        ) {
            Some(e) => {
                return Err(e);
            },
            None => {},
        }
        let encrypted: bool = match self.active_rooms.get(room_id) {
            Some(room) => room.info.encrypted,
            None => false,
        };
        if !encrypted {
            let message = RoomMessage::Edit {
                sender_fingerprint: text::owned(self.identity.fingerprint()),
                target_msg_id: text::owned(target_msg_id),
                new_ciphertext_b64: text::owned(""),
                session_id: text::owned(""),
                new_body: Some(text::owned(new_body)),
            };
            return Ok(self.edit_made(room_id, target_msg_id, new_body, message, now_ms));
        }
        assert(before.rooms.dom().contains(room_id@));
        let mut room: ActiveRoom = self.take_room(room_id).unwrap();
        let ghost room0 = room@;
        let mut crypto: Option<RoomCrypto> = None;
        std::mem::swap(&mut crypto, &mut room.crypto);
        let mut c: RoomCrypto = crypto.unwrap();
        let sent = c.encrypt_at(new_body.as_bytes(), now);
        let ghost next = c@;
        let mut out: Vec<Effect> = Vec::new();
        out.push(membership::rotation_effect(&c));
        let ghost first = effects::effects(out@);
        assert(first =~= seq![rotation_state(next)]);
        room.crypto = Some(c);
        proof {
            assert(room@ =~= RoomView { crypto: Some(next), ..room0 });
            if sent is Err {
                assert(room@ =~= room0);
            }
            super::lemma_put_back(before, room_id@, room@);
        }
        self.put_room(room_id, room);
        match sent {
            Err(e) => Err(e),
            Ok((session_id, ciphertext)) => {
                let message = RoomMessage::Edit {
                    sender_fingerprint: text::owned(self.identity.fingerprint()),
                    target_msg_id: text::owned(target_msg_id),
                    new_ciphertext_b64: primitives::base64_encode(ciphertext.as_slice()),
                    session_id,
                    new_body: None,
                };
                let mut more: Vec<Effect> = self.edit_made(
                    room_id,
                    target_msg_id,
                    new_body,
                    message,
                    now_ms,
                );
                let ghost said = effects::effects(more@);
                out.append(&mut more);
                assert(effects::effects(out@) =~= first + said);
                Ok(out)
            },
        }
    }

    /// Deletes a message of ours, or any message in a room that we own.
    pub fn delete_message(&self, f: &RoomFacts, room_id: &str, target_msg_id: &str, now_ms: i64) -> (r:
        Result<Vec<Effect>, HuddleError>)
        ensures
            outcome(r) == self@.delete_sent(f@, room_id@, target_msg_id@, now_ms),
    {
        match self.check_change(
            f,
            "delete target message not found",
            "not authorized to delete this message (not the sender or a room owner)",
        ) {
            Some(e) => {
                return Err(e);
            },
            None => {},
        }
        let mut out: Vec<Effect> = Vec::new();
        out.push(
            Effect::PublishSigned {
                room_id: text::owned(room_id),
                message: RoomMessage::Delete {
                    sender_fingerprint: text::owned(self.identity.fingerprint()),
                    target_msg_id: text::owned(target_msg_id),
                },
            },
        );
        out.push(
            Effect::MustStore(
                Write::DeleteMessage {
                    room_id: text::owned(room_id),
                    target_msg_id: text::owned(target_msg_id),
                    deleted_at_ms: now_ms,
                },
            ),
        );
        out.push(
            Effect::Emit(
                AppEvent::MessageDeleted {
                    room_id: text::owned(room_id),
                    message_id: text::owned(target_msg_id),
                    deleter_fingerprint: text::owned(self.identity.fingerprint()),
                },
            ),
        );
        assert(effects::effects(out@) =~= seq![out@[0]@, out@[1]@, out@[2]@]);
        Ok(out)
    }

    /// Sets for how long messages stay in a room, and tells the others.
    pub fn set_room_disappearing_ttl(&self, room_id: &str, ttl_secs: Option<u32>) -> (r: Vec<Effect>)
        ensures
            effects::effects(r@) == self@.ttl_sent(room_id@, ttl_secs),
    {
        let secs: u64 = match ttl_secs {
            Some(t) => t as u64,
            None => 0,
        };
        let mut out: Vec<Effect> = Vec::new();
        out.push(Effect::MustStore(Write::RoomTtl { room_id: text::owned(room_id), ttl_secs }));
        out.push(
            Effect::PublishSigned {
                room_id: text::owned(room_id),
                message: RoomMessage::RoomSetting {
                    sender_fingerprint: text::owned(self.identity.fingerprint()),
                    disappearing_ttl_secs: secs,
                    room_id: Some(text::owned(room_id)),
                },
            },
        );
        out.push(
            Effect::Emit(AppEvent::RoomTtlChanged { room_id: text::owned(room_id), ttl_secs }),
        );
        assert(effects::effects(out@) =~= seq![out@[0]@, out@[1]@, out@[2]@]);
        out
    }

    /// Tells the members of a room that we are typing.
    pub fn broadcast_typing(&self, room_id: &str) -> (r: Vec<Effect>)
        ensures
            effects::effects(r@) == self@.typing_sent(room_id@),
    {
        let mut out: Vec<Effect> = Vec::new();
        assert(effects::effects(out@) =~= seq![]);
        if self.active_rooms.contains_key(room_id) {
            out.push(
                Effect::Publish {
                    room_id: text::owned(room_id),
                    message: RoomMessage::Typing {
                        sender_fingerprint: text::owned(self.identity.fingerprint()),
                    },
                },
            );
            assert(effects::effects(out@) =~= seq![out@[0]@]);
        }
        out
    }

    /// Moves a room to another passphrase, with this salt.
    pub fn rotate_room_with(
        &mut self,
        room_id: &str,
        new_passphrase: &str,
        new_salt: [u8; SALT_LEN],
    ) -> (r: Result<Vec<Effect>, HuddleError>)
        requires
            old(self)@.wf(),
        ensures
            final(self)@.wf(),
            room_rotated(
                old(self)@,
                room_id@,
                new_passphrase@,
                new_salt@,
                final(self)@,
                outcome(r),
            ),
    {
        let ghost before = self@;
        match ids::validate_passphrase_len(new_passphrase) {
            Err(e) => {
                return Err(e);
            },
            Ok(_) => {},
        }
        let key: [u8; KEY_LEN] = match passphrase::derive_key(new_passphrase, new_salt.as_slice()) {
            Err(e) => {
                return Err(e);
            },
            Ok(k) => k,
        };
        let encrypted: bool = match self.active_rooms.get(room_id) {
            None => {
                return Err(HuddleError::Other(text::join2("not in room ", room_id)));
            },
            Some(room) => room.info.encrypted,
        };
        assert(before.rooms.dom().contains(room_id@));
        if !encrypted {
            return Err(crate::error::other_error("rotation only applies to encrypted rooms"));
        }
        let crypto: RoomCrypto = RoomCrypto::new_for_room(
            text::owned(room_id),
            text::owned(self.identity.fingerprint()),
            self.session_persist_key,
        ).unwrap();
        let ghost c = crypto@;
        let mut out: Vec<Effect> = Vec::new();
        out.push(membership::rotation_effect(&crypto));
        self.rekey(room_id, key, bytes::to_vec(new_salt.as_slice()), Some(crypto));
        out.push(
            Effect::PublishSigned {
                room_id: text::owned(room_id),
                message: RoomMessage::RotateRoomKey {
                    rotator_fingerprint: text::owned(self.identity.fingerprint()),
                    new_salt: bytes::to_vec(new_salt.as_slice()),
                    room_id: Some(text::owned(room_id)),
                },
            },
        );
        out.push(Effect::AnnounceMember { room_id: text::owned(room_id), delay_ms: 0 });
        assert(self@.rooms.dom().contains(room_id@));
        let room: &ActiveRoom = self.active_rooms.get(room_id).unwrap();
        assert(room@ == self@.rooms[room_id@]);
        out.push(Effect::MustStore(Write::Room(room.info.copy())));
        proof {
            assert(rooms::fresh_crypto(c, room_id@, before.our_fp(), before.persist_key));
            assert(effects::effects(out@) =~= seq![out@[0]@, out@[1]@, out@[2]@, out@[3]@]);
        }
        Ok(out)
    }

    /// Puts a room that we are in under another key.
    fn rekey(
        &mut self,
        room_id: &str,
        key: [u8; KEY_LEN],
        salt: Vec<u8>,
        crypto: Option<RoomCrypto>,
    )
        requires
            old(self)@.wf(),
            old(self)@.rooms.dom().contains(room_id@),
            crypto matches Some(c) ==> c@.wf(),
        ensures
            final(self)@.wf(),
            final(self)@ == old(self)@.rekeyed(
                room_id@,
                key@,
                salt@,
                match crypto {
                    Some(c) => Some(c@),
                    None => old(self)@.rooms[room_id@].crypto,
                },
            ),
    {
        let ghost before = self@;
        let ghost salt0 = salt@;
        let mut room: ActiveRoom = self.take_room(room_id).unwrap();
        let ghost room0 = room@;
        let ghost c = if crypto is Some {
            Some(crypto->0@)
        } else {
            room0.crypto
        };
        if crypto.is_some() {
            room.crypto = crypto;
        }
        room.passphrase_key = Some(key);
        room.info.passphrase_salt = Some(salt);
        proof {
            assert(room@ =~= RoomView {
                info: StoredRoomView { passphrase_salt: Some(salt0), ..room0.info },
                key: Some(key@),
                crypto: c,
                ..room0
            });
            super::lemma_put_back(before, room_id@, room@);
        }
        self.put_room(room_id, room);
        let ghost mid = self@;
        let gone: Option<i64> = self.announce_on_request_cooldown.remove(room_id);
        proof {
            assert(self@ =~= AppView { answers: mid.answers.remove(room_id@), ..mid });
        }
    }

    /// Moves a room to another passphrase, with a salt drawn for it.
    pub fn rotate_room(&mut self, room_id: &str, new_passphrase: &str) -> (r: Result<
        Vec<Effect>,
        HuddleError,
    >)
        requires
            old(self)@.wf(),
        ensures
            final(self)@.wf(),
            exists|salt: Seq<u8>|
                salt.len() == SALT_LEN && #[trigger] room_rotated(
                    old(self)@,
                    room_id@,
                    new_passphrase@,
                    salt,
                    final(self)@,
                    outcome(r),
                ),
    {
        self.rotate_room_with(room_id, new_passphrase, passphrase::random_salt())
    }

    /// Follows another member to another passphrase, asks for the session keys under it, and announces
    /// ourselves again.
    pub fn accept_rotation(&mut self, room_id: &str, new_salt: &[u8], new_passphrase: &str) -> (r: Result<
        Vec<Effect>,
        HuddleError,
    >)
        requires
            old(self)@.wf(),
        ensures
            final(self)@.wf(),
            (final(self)@, outcome(r)) == old(self)@.rotation_accepted(
                room_id@,
                new_salt@,
                new_passphrase@,
            ),
    {
        let ghost before = self@;
        let key: [u8; KEY_LEN] = match passphrase::derive_key(new_passphrase, new_salt) {
            Err(e) => {
                return Err(e);
            },
            Ok(k) => k,
        };
        if !self.active_rooms.contains_key(room_id) {
            return Err(HuddleError::Other(text::join2("not in room ", room_id)));
        }
        assert(before.rooms.dom().contains(room_id@));
        self.rekey(room_id, key, bytes::to_vec(new_salt), None);
        let mut out: Vec<Effect> = Vec::new();
        out.push(Effect::RequestKeys { room_id: text::owned(room_id), delay_ms: 0 });
        out.push(Effect::AnnounceMember { room_id: text::owned(room_id), delay_ms: 0 });
        assert(self@.rooms.dom().contains(room_id@));
        let room: &ActiveRoom = self.active_rooms.get(room_id).unwrap();
        assert(room@ == self@.rooms[room_id@]);
        out.push(Effect::MustStore(Write::Room(room.info.copy())));
        assert(effects::effects(out@) =~= seq![out@[0]@, out@[1]@, out@[2]@]);
        Ok(out)
    }

    /// Who is typing in a room at this time, in order. What is past is forgotten.
    pub fn typers_in_room(&mut self, room_id: &str, now: i64) -> (r: Vec<String>)
        requires
            old(self)@.wf(),
        ensures
            final(self)@.wf(),
            text::is_sorted(text::texts(r@)),
            text::texts(r@).no_duplicates(),
            if old(self)@.rooms.dom().contains(room_id@) {
                let room = old(self)@.rooms[room_id@];
                &&& final(self)@ == old(self)@.with_room(
                    room_id@,
                    RoomView { typers: still_typing(room.typers, now), ..room },
                )
                &&& text::texts(r@).to_set() == still_typing(room.typers, now).dom()
            } else {
                r@.len() == 0 && final(self)@ == old(self)@
            },
    {
        let ghost before = self@;
        match self.take_room(room_id) {
            None => Vec::new(),
            Some(mut room) => {
                let ghost room0 = room@;
                let mut names: strmap::StrSet = strmap::StrSet::new();
                let mut kept: StrMap<i64> = StrMap::new();
                let n: usize = room.typers.len();
                let ghost keys = room.typers.keys();
                let mut i: usize = 0;
                while i < n
                    invariant
                        i <= n,
                        n == keys.len(),
                        keys == room.typers.keys(),
                        room@ == room0,
                        room.typers@ == room0.typers,
                        forall|k: Seq<char>|
                            keys.contains(k) == #[trigger] room.typers@.dom().contains(k),
                        names@ == kept@.dom(),
                        forall|k: Seq<char>|
                            kept@.dom().contains(k) <==> (keys.take(i as int).contains(k)
                                && room0.typers[k] > now),
                        forall|k: Seq<char>| #[trigger]
                            kept@.dom().contains(k) ==> kept@[k] == room0.typers[k],
                    decreases n - i,
                {
                    let until: i64 = *room.typers.value_at(i);
                    let ghost k0 = keys[i as int];
                    proof {
                        let seen = keys.take(i as int);
                        assert(keys.take(i + 1) =~= seen.push(k0));
                        strmap::lemma_push_contains(seen, k0);
                    }
                    if until > now {
                        let ghost had = kept@;
                        kept.insert(text::owned(room.typers.key_at(i)), until);
                        names.insert(text::owned(room.typers.key_at(i)));
                        assert(names@ =~= kept@.dom());
                    }
                    i = i + 1;
                }
                proof {
                    assert(keys.take(n as int) =~= keys);
                    assert(kept@ =~= still_typing(room0.typers, now));
                }
                room.typers = kept;
                proof {
                    assert(room@ =~= RoomView {
                        typers: still_typing(room0.typers, now),
                        ..room0
                    });
                    super::lemma_put_back(before, room_id@, room@);
                }
                self.put_room(room_id, room);
                names.sorted()
            },
        }
    }
}

/// Those of whom it is shown at this time that they are typing.
pub open spec fn still_typing(typers: Map<Seq<char>, i64>, now: i64) -> Map<Seq<char>, i64> {
    Map::new(
        |k: Seq<char>| typers.dom().contains(k) && typers[k] > now,
        |k: Seq<char>| typers[k],
    )
}

// ---------------------------------------------------------------------------------------------
// Laws
// ---------------------------------------------------------------------------------------------

/// What a member sends in an encrypted room, every other member shows who took in a key of the sender's
/// session: the same text, from the same sender, once.
pub proof fn law_sent_messages_are_shown(
    sender: Seq<char>,
    sessions: RoomCryptoView,
    body: Seq<char>,
    receiver: AppView,
    f: FactsView,
    e: EnvelopeView,
    client_msg_id: Option<Seq<char>>,
    reply_to: Option<Seq<char>>,
)
    requires
        sent_readable(sessions, vstd::utf8::encode_utf8(body)),
        receiver.crypto_of(e.room_id) is Some,
        receiver.crypto_of(e.room_id)->0.holds(sender, sessions),
        sender != receiver.our_fp(),
        !f.banned.contains(sender),
        !f.seen_indices.contains(
            megolm::megolm_next_index(sessions.outbound, sessions.persist_key)->0,
        ),
    ensures
        receiver.on_encrypted(
            f,
            e,
            sender,
            sessions.session_id(),
            primitives::base64_text(ciphertext_of(sessions, vstd::utf8::encode_utf8(body))),
            client_msg_id,
            reply_to,
        ).1 == seq![
            EffectView::Store(
                WriteView::ContentSeen {
                    room_id: e.room_id,
                    sender_fingerprint: sender,
                    session_id: sessions.session_id(),
                    message_index: megolm::megolm_next_index(
                        sessions.outbound,
                        sessions.persist_key,
                    )->0,
                    seen_at: e.now,
                },
            ),
        ] + content::received(
            receiver.our_fp(),
            e.room_id,
            sender,
            body,
            e.now,
            client_msg_id,
            reply_to,
        ),
        receiver.on_encrypted(
            f,
            e,
            sender,
            sessions.session_id(),
            primitives::base64_text(ciphertext_of(sessions, vstd::utf8::encode_utf8(body))),
            client_msg_id,
            reply_to,
        ).1.contains(
            EffectView::Store(
                WriteView::Message {
                    room_id: e.room_id,
                    sender_fingerprint: sender,
                    direction: "in"@,
                    body,
                    sent_at: e.now,
                    client_msg_id,
                    reply_to,
                },
            ),
        ),
{
    broadcast use vstd::utf8::encode_utf8_valid_utf8, vstd::utf8::encode_utf8_decode_utf8;

    let c = receiver.crypto_of(e.room_id)->0;
    let plaintext = vstd::utf8::encode_utf8(body);
    let message = ciphertext_of(sessions, plaintext);
    let index = megolm::megolm_next_index(sessions.outbound, sessions.persist_key)->0;
    megolm::law_members_read_what_is_sent(c, sender, sessions, message, plaintext);
    assert(c.decrypted(sender, sessions.session_id(), message) matches Ok(d) && d.0 == plaintext
        && d.1 == index);
    assert(text::utf8_lossy(plaintext) == body);
    let eff = receiver.on_encrypted(
        f,
        e,
        sender,
        sessions.session_id(),
        primitives::base64_text(message),
        client_msg_id,
        reply_to,
    ).1;
    assert(eff[1] is Store);
}

} // verus!
