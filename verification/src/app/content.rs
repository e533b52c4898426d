//! What members write: messages, edits, deletions, reactions and that they are typing.
use crate::app::effects::{self, Effect, EffectView, Write, WriteView};
use crate::app::events::{AppEvent, EventView};
use crate::app::facts::{Envelope, EnvelopeView, FactsView, RoomFacts};
use crate::app::mention;
use crate::app::{dm_key, ActiveRoom, AppHandle, AppView, RoomView};
use crate::crypto::megolm::{self, RoomCrypto, RoomCryptoView};
use crate::strmap;
use crate::text;
use vstd::prelude::*;

verus! {

/// For how many seconds it is shown that somebody is typing.
pub const TYPING_TTL_SECS: i64 = 3;

/// How many seconds pass before the members of a room are asked for their keys again.
pub const KEY_REQUEST_COOLDOWN_SECS: i64 = 15;

// ---------------------------------------------------------------------------------------------
// What becomes of the state
// ---------------------------------------------------------------------------------------------

/// What a new message causes: it is stored, a mention of us is pointed out, and it is shown.
pub open spec fn received(
    our_fp: Seq<char>,
    room_id: Seq<char>,
    sender: Seq<char>,
    body: Seq<char>,
    sent_at: i64,
    client_msg_id: Option<Seq<char>>,
    reply_to: Option<Seq<char>>,
) -> Seq<EffectView> {
    seq![
        EffectView::Store(
            WriteView::Message {
                room_id,
                sender_fingerprint: sender,
                direction: "in"@,
                body,
                sent_at,
                client_msg_id,
                reply_to,
            },
        ),
        EffectView::Store(WriteView::LastActive { room_id, at: sent_at }),
    ] + (if mention::mentions(body, our_fp) {
        seq![EffectView::Emit(EventView::MentionReceived { room_id, body })]
    } else {
        Seq::empty()
    }) + seq![
        EffectView::Emit(
            EventView::MessageReceived { room_id, sender_fingerprint: sender, body, sent_at },
        ),
    ]
}

impl AppView {
    /// The sessions of a room.
    pub open spec fn crypto_of(self, room_id: Seq<char>) -> Option<RoomCryptoView> {
        if self.rooms.dom().contains(room_id) {
            self.rooms[room_id].crypto
        } else {
            None
        }
    }

    pub open spec fn with_crypto(self, room_id: Seq<char>, crypto: RoomCryptoView) -> Self {
        self.with_room(room_id, RoomView { crypto: Some(crypto), ..self.rooms[room_id] })
    }

    /// We read in every room what we read before, whoever sent it.
    pub open spec fn reads_on(self, after: Self) -> bool {
        forall|room_id: Seq<char>|
            (#[trigger] self.crypto_of(room_id)) is Some ==> after.crypto_of(room_id) is Some
                && megolm::reads_on(self.crypto_of(room_id)->0, after.crypto_of(room_id)->0)
    }

    /// The members of a room are asked for their keys, unless that happened a moment ago.
    pub open spec fn keys_wanted(self, room_id: Seq<char>, now: i64) -> (Self, Seq<EffectView>) {
        let kept = strmap::recent(self.key_requests, now, KEY_REQUEST_COOLDOWN_SECS);
        let last = if kept.dom().contains(room_id) {
            kept[room_id]
        } else {
            0
        };
        if now - last >= KEY_REQUEST_COOLDOWN_SECS {
            (
                AppView { key_requests: kept.insert(room_id, now), ..self },
                seq![EffectView::RequestKeys { room_id, delay_ms: 0 }],
            )
        } else {
            (AppView { key_requests: kept, ..self }, seq![])
        }
    }

    pub open spec fn on_typing(self, f: FactsView, e: EnvelopeView, sender: Seq<char>) -> (
        Self,
        Seq<EffectView>,
    ) {
        if sender == self.our_fp() || f.banned.contains(sender) {
            (self, seq![])
        } else {
            (
                if self.rooms.dom().contains(e.room_id) {
                    let room = self.rooms[e.room_id];
                    self.with_room(
                        e.room_id,
                        RoomView {
                            typers: room.typers.insert(sender, (e.now + TYPING_TTL_SECS) as i64),
                            ..room
                        },
                    )
                } else {
                    self
                },
                seq![EffectView::Emit(EventView::TypingChanged { room_id: e.room_id })],
            )
        }
    }

    /// A message that cannot be decrypted for want of a session makes us ask for it. One that was
    /// taken before is dropped.
    pub open spec fn on_encrypted(
        self,
        f: FactsView,
        e: EnvelopeView,
        sender: Seq<char>,
        session_id: Seq<char>,
        ciphertext_b64: Seq<char>,
        client_msg_id: Option<Seq<char>>,
        reply_to: Option<Seq<char>>,
    ) -> (Self, Seq<EffectView>) {
        match (dm_key::decoded(Some(ciphertext_b64)), self.crypto_of(e.room_id)) {
            (Some(ciphertext), Some(crypto)) => if sender == self.our_fp() || f.banned.contains(
                sender,
            ) {
                (self, seq![])
            } else {
                match crypto.decrypted(sender, session_id, ciphertext) {
                    Ok(d) => (
                        self.with_crypto(
                            e.room_id,
                            crypto.with_inbound(sender, session_id, d.2, e.now),
                        ),
                        if f.seen_indices.contains(d.1) {
                            seq![]
                        } else {
                            seq![
                                EffectView::Store(
                                    WriteView::ContentSeen {
                                        room_id: e.room_id,
                                        sender_fingerprint: sender,
                                        session_id,
                                        message_index: d.1,
                                        seen_at: e.now,
                                    },
                                ),
                            ] + received(
                                self.our_fp(),
                                e.room_id,
                                sender,
                                text::utf8_lossy(d.0),
                                e.now,
                                client_msg_id,
                                reply_to,
                            )
                        },
                    ),
                    Err(_) => if crypto.inbound.dom().contains((sender, session_id)) {
                        (self, seq![])
                    } else {
                        self.keys_wanted(e.room_id, e.now)
                    },
                }
            },
            _ => (self, seq![]),
        }
    }

    /// A message in the clear is dropped in an encrypted room: nobody vouches for its sender there.
    pub open spec fn on_plain(
        self,
        f: FactsView,
        e: EnvelopeView,
        sender: Seq<char>,
        body: Seq<char>,
        client_msg_id: Option<Seq<char>>,
        reply_to: Option<Seq<char>>,
    ) -> (Self, Seq<EffectView>) {
        let encrypted = match f.room {
            Some(room) => room.encrypted,
            None => false,
        };
        if sender == self.our_fp() || encrypted || f.banned.contains(sender) {
            (self, seq![])
        } else {
            (
                self,
                received(
                    self.our_fp(),
                    e.room_id,
                    sender,
                    body,
                    e.now,
                    client_msg_id,
                    reply_to,
                ),
            )
        }
    }

    /// The message says itself who sent it, and that is who signed it: neither we nor somebody who
    /// is banned.
    pub open spec fn vouched(self, f: FactsView, e: EnvelopeView, sender: Seq<char>) -> bool {
        sender != self.our_fp() && e.signer == Some(sender) && !f.banned.contains(sender)
    }

    /// The sender may change the message that this is about: it is theirs, or they own the room.
    pub open spec fn may_change(self, f: FactsView, sender: Seq<char>) -> bool {
        match f.target_sender {
            Some(author) => author == sender || f.is_owner(sender),
            None => false,
        }
    }

    pub open spec fn on_reaction(
        self,
        f: FactsView,
        e: EnvelopeView,
        sender: Seq<char>,
        target: Seq<char>,
        emoji: Seq<char>,
        removed: bool,
    ) -> (Self, Seq<EffectView>) {
        if self.vouched(f, e, sender) && f.target_sender is Some {
            (
                self,
                seq![
                    EffectView::StoreThen(
                        if removed {
                            WriteView::RemoveReaction {
                                room_id: e.room_id,
                                target_msg_id: target,
                                sender_fingerprint: sender,
                                emoji,
                            }
                        } else {
                            WriteView::AddReaction {
                                room_id: e.room_id,
                                target_msg_id: target,
                                sender_fingerprint: sender,
                                emoji,
                                at: e.now,
                            }
                        },
                        EventView::ReactionAdded {
                            room_id: e.room_id,
                            message_id: target,
                            sender_fingerprint: sender,
                            emoji,
                            removed,
                        },
                    ),
                ],
            )
        } else {
            (self, seq![])
        }
    }

    /// What an edit causes, once the new text is known. The time that was signed decides which of
    /// two edits is the later one.
    pub open spec fn edited(
        e: EnvelopeView,
        sender: Seq<char>,
        target: Seq<char>,
        new_body: Seq<char>,
    ) -> Seq<EffectView> {
        seq![
            EffectView::ChangeThen(
                WriteView::EditMessage {
                    room_id: e.room_id,
                    target_msg_id: target,
                    new_body,
                    edited_at_ms: match e.signed_at_ms {
                        Some(t) => t,
                        None => e.now_ms,
                    },
                },
                EventView::MessageEdited {
                    room_id: e.room_id,
                    message_id: target,
                    editor_fingerprint: sender,
                    new_body,
                },
            ),
        ]
    }

    pub open spec fn on_edit(
        self,
        f: FactsView,
        e: EnvelopeView,
        sender: Seq<char>,
        target: Seq<char>,
        ciphertext_b64: Seq<char>,
        session_id: Seq<char>,
        new_body: Option<Seq<char>>,
    ) -> (Self, Seq<EffectView>) {
        if !(self.vouched(f, e, sender) && self.may_change(f, sender)) {
            (self, seq![])
        } else {
            match new_body {
                Some(body) => (self, Self::edited(e, sender, target, body)),
                None => match (
                    dm_key::decoded(Some(ciphertext_b64)),
                    self.crypto_of(e.room_id),
                ) {
                    (Some(ciphertext), Some(crypto)) => if session_id.len() == 0 {
                        (self, seq![])
                    } else {
                        match crypto.decrypted(sender, session_id, ciphertext) {
                            Ok(d) => (
                                self.with_crypto(
                                    e.room_id,
                                    crypto.with_inbound(sender, session_id, d.2, e.now),
                                ),
                                Self::edited(e, sender, target, text::utf8_lossy(d.0)),
                            ),
                            Err(_) => (self, seq![]),
                        }
                    },
                    _ => (self, seq![]),
                },
            }
        }
    }

    pub open spec fn on_delete(
        self,
        f: FactsView,
        e: EnvelopeView,
        sender: Seq<char>,
        target: Seq<char>,
    ) -> (Self, Seq<EffectView>) {
        if self.vouched(f, e, sender) && self.may_change(f, sender) {
            (
                self,
                seq![
                    EffectView::ChangeThen(
                        WriteView::DeleteMessage {
                            room_id: e.room_id,
                            target_msg_id: target,
                            deleted_at_ms: e.now_ms,
                        },
                        EventView::MessageDeleted {
                            room_id: e.room_id,
                            message_id: target,
                            deleter_fingerprint: sender,
                        },
                    ),
                ],
            )
        } else {
            (self, seq![])
        }
    }
}

// ---------------------------------------------------------------------------------------------
// The functions
// ---------------------------------------------------------------------------------------------

fn push_received(
    out: &mut Vec<Effect>,
    our_fp: &str,
    room_id: &str,
    sender: String,
    body: String,
    sent_at: i64,
    client_msg_id: Option<String>,
    reply_to: Option<String>,
)
    ensures
        effects::effects(final(out)@) == effects::effects(old(out)@) + received(
            our_fp@,
            room_id@,
            sender@,
            body@,
            sent_at,
            text::opt(client_msg_id),
            text::opt(reply_to),
        ),
{
    let ghost before = effects::effects(out@);
    let ghost sender0 = sender@;
    let ghost body0 = body@;
    let ghost id0 = text::opt(client_msg_id);
    let ghost reply0 = text::opt(reply_to);
    out.push(
        Effect::Store(
            Write::Message {
                room_id: text::owned(room_id),
                sender_fingerprint: sender.clone(),
                direction: text::owned("in"),
                body: body.clone(),
                sent_at,
                client_msg_id,
                reply_to,
            },
        ),
    );
    out.push(Effect::Store(Write::LastActive { room_id: text::owned(room_id), at: sent_at }));
    if mention::mentions_peer(body.as_str(), our_fp) {
        out.push(
            Effect::Emit(
                AppEvent::MentionReceived { room_id: text::owned(room_id), body: body.clone() },
            ),
        );
    }
    out.push(
        Effect::Emit(
            AppEvent::MessageReceived {
                room_id: text::owned(room_id),
                sender_fingerprint: sender,
                body,
                sent_at,
            },
        ),
    );
    assert(effects::effects(out@) =~= before + received(
        our_fp@,
        room_id@,
        sender0,
        body0,
        sent_at,
        id0,
        reply0,
    ));
}

/// One of the numbers is this one.
fn holds_index(v: &Vec<u32>, x: u32) -> (r: bool)
    ensures
        r == v@.contains(x),
{
    let mut i: usize = 0;
    while i < v.len()
        invariant
            i <= v@.len(),
            forall|j: int| 0 <= j < i ==> v@[j] != x,
        decreases v@.len() - i,
    {
        if v[i] == x {
            assert(v@[i as int] == x);
            return true;
        }
        i = i + 1;
    }
    false
}

/// What `decrypt_in` came to.
enum Decrypted {
    /// The room is not encrypted, or we are not in it.
    NoSessions,
    Plaintext(Vec<u8>, u32),
    Failed,
}

impl AppHandle {
    /// Decrypts a message with the sessions of a room.
    fn decrypt_in(&mut self, room_id: &str, sender: &str, session_id: &str, ct: &[u8], now: i64) -> (r:
        Decrypted)
        requires
            old(self)@.wf(),
        ensures
            final(self)@.wf(),
            match old(self)@.crypto_of(room_id@) {
                None => r is NoSessions && final(self)@ == old(self)@,
                Some(c) => match c.decrypted(sender@, session_id@, ct@) {
                    Ok(d) => match r {
                        Decrypted::Plaintext(p, i) => p@ == d.0 && i == d.1 && final(self)@ == old(
                            self,
                        )@.with_crypto(
                            room_id@,
                            c.with_inbound(sender@, session_id@, d.2, now),
                        ),
                        _ => false,
                    },
                    Err(_) => r is Failed && final(self)@ == old(self)@,
                },
            },
            old(self)@.reads_on(final(self)@),
    {
        let ghost before = self@;
        let mut room: ActiveRoom = match self.take_room(room_id) {
            None => {
                return Decrypted::NoSessions;
            },
            Some(room) => room,
        };
        let ghost room0 = room@;
        let mut crypto: Option<RoomCrypto> = None;
        std::mem::swap(&mut crypto, &mut room.crypto);
        let r: Decrypted = match crypto {
            None => Decrypted::NoSessions,
            Some(mut c) => {
                let ghost c0 = c@;
                let outcome = c.decrypt_at(sender, session_id, ct, now);
                room.crypto = Some(c);
                match outcome {
                    Ok((plaintext, index)) => Decrypted::Plaintext(plaintext, index),
                    Err(_) => {
                        assert(room@ =~= room0);
                        Decrypted::Failed
                    },
                }
            },
        };
        proof {
            assert(room@ =~= RoomView { crypto: room@.crypto, ..room0 });
            super::lemma_put_back(before, room_id@, room@);
        }
        self.put_room(room_id, room);
        r
    }

    /// The members of a room are asked for their keys, unless that happened a moment ago.
    pub(crate) fn want_keys(&mut self, room_id: &str, now: i64) -> (r: Vec<Effect>)
        ensures
            (final(self)@, effects::effects(r@)) == old(self)@.keys_wanted(room_id@, now),
            old(self)@.wf() ==> final(self)@.wf(),
    {
        let ghost before = self@;
        let mut out: Vec<Effect> = Vec::new();
        strmap::keep_recent(&mut self.key_request_cooldown, now, KEY_REQUEST_COOLDOWN_SECS);
        let last: i64 = match self.key_request_cooldown.get(room_id) {
            Some(t) => *t,
            None => 0,
        };
        if now as i128 - last as i128 >= KEY_REQUEST_COOLDOWN_SECS as i128 {
            self.key_request_cooldown.insert(text::owned(room_id), now);
            out.push(Effect::RequestKeys { room_id: text::owned(room_id), delay_ms: 0 });
        }
        proof {
            let next = before.keys_wanted(room_id@, now);
            assert(effects::effects(out@) =~= next.1);
            assert(self@ =~= next.0);
        }
        out
    }

    pub(crate) fn take_typing(&mut self, f: &RoomFacts, e: &Envelope, sender: String) -> (r: Vec<
        Effect,
    >)
        requires
            old(self)@.wf(),
            e.now + TYPING_TTL_SECS <= i64::MAX,
        ensures
            final(self)@.wf(),
            (final(self)@, effects::effects(r@)) == old(self)@.on_typing(f@, e@, sender@),
    {
        let ghost before = self@;
        let ghost sender0 = sender@;
        let mut out: Vec<Effect> = Vec::new();
        if text::same(sender.as_str(), self.identity.fingerprint()) || f.is_banned(
            sender.as_str(),
        ) {
            assert(effects::effects(out@) =~= seq![]);
            return out;
        }
        match self.take_room(e.room_id.as_str()) {
            None => {},
            Some(mut room) => {
                let ghost room0 = room@;
                room.typers.insert(sender, e.now + TYPING_TTL_SECS);
                proof {
                    assert(room@ =~= RoomView {
                        typers: room0.typers.insert(sender0, (e.now + TYPING_TTL_SECS) as i64),
                        ..room0
                    });
                    super::lemma_put_back(before, e.room_id@, room@);
                }
                self.put_room(e.room_id.as_str(), room);
            },
        }
        out.push(Effect::Emit(AppEvent::TypingChanged { room_id: e.room_id.clone() }));
        assert(effects::effects(out@) =~= seq![out@[0]@]);
        out
    }

    pub(crate) fn take_encrypted(
        &mut self,
        f: &RoomFacts,
        e: &Envelope,
        sender: String,
        session_id: String,
        ciphertext_b64: String,
        client_msg_id: Option<String>,
        reply_to: Option<String>,
    ) -> (r: Vec<Effect>)
        requires
            old(self)@.wf(),
        ensures
            final(self)@.wf(),
            (final(self)@, effects::effects(r@)) == old(self)@.on_encrypted(
                f@,
                e@,
                sender@,
                session_id@,
                ciphertext_b64@,
                text::opt(client_msg_id),
                text::opt(reply_to),
            ),
            old(self)@.reads_on(final(self)@),
    {
        let mut out: Vec<Effect> = Vec::new();
        assert(effects::effects(out@) =~= seq![]);
        assert(self@.reads_on(self@));
        if text::same(sender.as_str(), self.identity.fingerprint()) || f.is_banned(
            sender.as_str(),
        ) {
            return out;
        }
        let ciphertext: Vec<u8> = match dm_key::decode(Some(ciphertext_b64.as_str())) {
            None => {
                return out;
            },
            Some(b) => b,
        };
        let missing: bool = match self.active_rooms.get(e.room_id.as_str()) {
            None => false,
            Some(room) => match &room.crypto {
                None => false,
                Some(c) => !c.has_inbound_session(sender.as_str(), session_id.as_str()),
            },
        };
        match self.decrypt_in(
            e.room_id.as_str(),
            sender.as_str(),
            session_id.as_str(),
            ciphertext.as_slice(),
            e.now,
        ) {
            Decrypted::NoSessions => out,
            Decrypted::Failed => {
                if missing {
                    self.want_keys(e.room_id.as_str(), e.now)
                } else {
                    out
                }
            },
            Decrypted::Plaintext(plaintext, index) => {
                if holds_index(&f.seen_indices, index) {
                    return out;
                }
                let body: String = text::text_lossy(plaintext.as_slice());
                out.push(
                    Effect::Store(
                        Write::ContentSeen {
                            room_id: e.room_id.clone(),
                            sender_fingerprint: sender.clone(),
                            session_id,
                            message_index: index,
                            seen_at: e.now,
                        },
                    ),
                );
                assert(effects::effects(out@) =~= seq![out@[0]@]);
                push_received(
                    &mut out,
                    self.identity.fingerprint(),
                    e.room_id.as_str(),
                    sender,
                    body,
                    e.now,
                    client_msg_id,
                    reply_to,
                );
                out
            },
        }
    }

    pub(crate) fn take_plain(
        &self,
        f: &RoomFacts,
        e: &Envelope,
        sender: String,
        body: String,
        client_msg_id: Option<String>,
        reply_to: Option<String>,
    ) -> (r: Vec<Effect>)
        ensures
            (self@, effects::effects(r@)) == self@.on_plain(
                f@,
                e@,
                sender@,
                body@,
                text::opt(client_msg_id),
                text::opt(reply_to),
            ),
    {
        let mut out: Vec<Effect> = Vec::new();
        assert(effects::effects(out@) =~= seq![]);
        let encrypted: bool = match &f.room {
            Some(room) => room.encrypted,
            None => false,
        };
        if text::same(sender.as_str(), self.identity.fingerprint()) || encrypted || f.is_banned(
            sender.as_str(),
        ) {
            return out;
        }
        push_received(
            &mut out,
            self.identity.fingerprint(),
            e.room_id.as_str(),
            sender,
            body,
            e.now,
            client_msg_id,
            reply_to,
        );
        assert(effects::effects(out@) =~= received(
            self@.our_fp(),
            e.room_id@,
            sender@,
            body@,
            e.now,
            text::opt(client_msg_id),
            text::opt(reply_to),
        ));
        out
    }

    fn is_vouched(&self, f: &RoomFacts, e: &Envelope, sender: &str) -> (r: bool)
        ensures
            r == self@.vouched(f@, e@, sender@),
    {
        !text::same(sender, self.identity.fingerprint()) && e.signed_by(sender) && !f.is_banned(
            sender,
        )
    }

    fn can_change(&self, f: &RoomFacts, sender: &str) -> (r: bool)
        ensures
            r == self@.may_change(f@, sender@),
    {
        match &f.target_sender {
            Some(author) => text::same(author.as_str(), sender) || f.is_owner(sender),
            None => false,
        }
    }

    pub(crate) fn take_reaction(
        &self,
        f: &RoomFacts,
        e: &Envelope,
        sender: String,
        target: String,
        emoji: String,
        removed: bool,
    ) -> (r: Vec<Effect>)
        ensures
            (self@, effects::effects(r@)) == self@.on_reaction(
                f@,
                e@,
                sender@,
                target@,
                emoji@,
                removed,
            ),
    {
        let mut out: Vec<Effect> = Vec::new();
        assert(effects::effects(out@) =~= seq![]);
        if !self.is_vouched(f, e, sender.as_str()) || f.target_sender.is_none() {
            return out;
        }
        let write: Write = if removed {
            Write::RemoveReaction {
                room_id: e.room_id.clone(),
                target_msg_id: target.clone(),
                sender_fingerprint: sender.clone(),
                emoji: emoji.clone(),
            }
        } else {
            Write::AddReaction {
                room_id: e.room_id.clone(),
                target_msg_id: target.clone(),
                sender_fingerprint: sender.clone(),
                emoji: emoji.clone(),
                at: e.now,
            }
        };
        out.push(
            Effect::StoreThen(
                write,
                AppEvent::ReactionAdded {
                    room_id: e.room_id.clone(),
                    message_id: target,
                    sender_fingerprint: sender,
                    emoji,
                    removed,
                },
            ),
        );
        assert(effects::effects(out@) =~= seq![out@[0]@]);
        out
    }

    pub(crate) fn take_edit(
        &mut self,
        f: &RoomFacts,
        e: &Envelope,
        sender: String,
        target: String,
        ciphertext_b64: String,
        session_id: String,
        new_body: Option<String>,
    ) -> (r: Vec<Effect>)
        requires
            old(self)@.wf(),
        ensures
            final(self)@.wf(),
            (final(self)@, effects::effects(r@)) == old(self)@.on_edit(
                f@,
                e@,
                sender@,
                target@,
                ciphertext_b64@,
                session_id@,
                text::opt(new_body),
            ),
            old(self)@.reads_on(final(self)@),
    {
        let mut out: Vec<Effect> = Vec::new();
        assert(effects::effects(out@) =~= seq![]);
        assert(self@.reads_on(self@));
        if !self.is_vouched(f, e, sender.as_str()) || !self.can_change(f, sender.as_str()) {
            return out;
        }
        let body: String = match new_body {
            Some(body) => body,
            None => {
                let ciphertext: Vec<u8> = match dm_key::decode(Some(ciphertext_b64.as_str())) {
                    None => {
                        return out;
                    },
                    Some(b) => b,
                };
                let session_chars: Vec<char> = text::chars_of(session_id.as_str());
                if session_chars.len() == 0 {
                    return out;
                }
                match self.decrypt_in(
                    e.room_id.as_str(),
                    sender.as_str(),
                    session_id.as_str(),
                    ciphertext.as_slice(),
                    e.now,
                ) {
                    Decrypted::Plaintext(plaintext, _) => text::text_lossy(plaintext.as_slice()),
                    _ => {
                        return out;
                    },
                }
            },
        };
        let at: i64 = match e.signed_at_ms {
            Some(t) => t,
            None => e.now_ms,
        };
        out.push(
            Effect::ChangeThen(
                Write::EditMessage {
                    room_id: e.room_id.clone(),
                    target_msg_id: target.clone(),
                    new_body: body.clone(),
                    edited_at_ms: at,
                },
                AppEvent::MessageEdited {
                    room_id: e.room_id.clone(),
                    message_id: target,
                    editor_fingerprint: sender,
                    new_body: body,
                },
            ),
        );
        assert(effects::effects(out@) =~= seq![out@[0]@]);
        out
    }

    pub(crate) fn take_delete(&self, f: &RoomFacts, e: &Envelope, sender: String, target: String) -> (r:
        Vec<Effect>)
        ensures
            (self@, effects::effects(r@)) == self@.on_delete(f@, e@, sender@, target@),
    {
        let mut out: Vec<Effect> = Vec::new();
        assert(effects::effects(out@) =~= seq![]);
        if !self.is_vouched(f, e, sender.as_str()) || !self.can_change(f, sender.as_str()) {
            return out;
        }
        out.push(
            Effect::ChangeThen(
                Write::DeleteMessage {
                    room_id: e.room_id.clone(),
                    target_msg_id: target.clone(),
                    deleted_at_ms: e.now_ms,
                },
                AppEvent::MessageDeleted {
                    room_id: e.room_id.clone(),
                    message_id: target,
                    deleter_fingerprint: sender,
                },
            ),
        );
        assert(effects::effects(out@) =~= seq![out@[0]@]);
        out
    }
}

} // verus!
