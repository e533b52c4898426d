//! Messages, and what is done to them: what one member writes, every other member has in their history.
use super::{sends, sent, shown, shows, writes, written};
use crate::app::chat;
use crate::app::dm_key;
use crate::app::effects::{EffectView, WriteView};
use crate::app::events::EventView;
use crate::app::facts::{EnvelopeView, FactsView};
use crate::app::handlers::handled;
use crate::app::mention;
use crate::app::messages::MessageView;
use crate::app::AppView;
use crate::crypto::megolm::{self, RotationPolicy};
use crate::error::ErrorView;
use crate::text;
use vstd::prelude::*;

verus! {

/// The text of a message that is taken: as it stands, or as it decrypts.
pub open spec fn text_in(app: AppView, e: EnvelopeView, msg: MessageView) -> Option<Seq<char>> {
    match msg {
        MessageView::Plain { body, .. } => Some(body),
        MessageView::Encrypted { sender_fingerprint, session_id, ciphertext_b64, .. } => match (
            dm_key::decoded(Some(ciphertext_b64)),
            app.crypto_of(e.room_id),
        ) {
            (Some(ciphertext), Some(c)) => match c.decrypted(
                sender_fingerprint,
                session_id,
                ciphertext,
            ) {
                Ok(d) => Some(text::utf8_lossy(d.0)),
                Err(_) => None,
            },
            _ => None,
        },
        _ => None,
    }
}

/// The message was taken before: its index is among those that were seen of its session.
pub open spec fn was_seen(app: AppView, f: FactsView, e: EnvelopeView, msg: MessageView) -> bool {
    match msg {
        MessageView::Encrypted { sender_fingerprint, session_id, ciphertext_b64, .. } => {
            app.crypto_of(e.room_id)->0.decrypted(
                sender_fingerprint,
                session_id,
                dm_key::decoded(Some(ciphertext_b64))->0,
            ) matches Ok(d) && f.seen_indices.contains(d.1)
        },
        _ => false,
    }
}

/// A message that somebody else wrote, who is not banned, is taken once: one row is stored, under the name
/// of who wrote it, with the text, the id and the message that it answers; the same is shown; and no other
/// message is stored or shown. What was seen before, or cannot be read, leaves no row at all.
pub proof fn law_received_messages_are_stored_as_they_were_written(
    app: AppView,
    f: FactsView,
    e: EnvelopeView,
    msg: MessageView,
    after: AppView,
    eff: Seq<EffectView>,
    sender: Seq<char>,
    client_msg_id: Option<Seq<char>>,
    reply_to: Option<Seq<char>>,
)
    requires
        handled(app, f, e, msg, after, eff),
        match msg {
            MessageView::Plain { sender_fingerprint: s, client_msg_id: c, reply_to: r, .. } => s
                == sender && c == client_msg_id && r == reply_to,
            MessageView::Encrypted { sender_fingerprint: s, client_msg_id: c, reply_to: r, .. } => s
                == sender && c == client_msg_id && r == reply_to,
            _ => false,
        },
    ensures
        forall|i: int|
            0 <= i < eff.len() ==> (written(#[trigger] eff[i]) matches Some(
                WriteView::Message {
                    room_id: row_room,
                    sender_fingerprint: row_sender,
                    direction,
                    body,
                    sent_at,
                    client_msg_id: row_id,
                    reply_to: row_reply,
                },
            ) ==> row_room == e.room_id && row_sender == sender && direction == "in"@ && Some(body)
                == text_in(app, e, msg) && sent_at == e.now && row_id == client_msg_id && row_reply
                == reply_to),
        forall|i: int|
            0 <= i < eff.len() ==> (shown(#[trigger] eff[i]) matches Some(
                EventView::MessageReceived {
                    room_id: shown_room,
                    sender_fingerprint: shown_sender,
                    body,
                    sent_at,
                },
            ) ==> shown_room == e.room_id && shown_sender == sender && Some(body) == text_in(
                app,
                e,
                msg,
            ) && sent_at == e.now),
        forall|i: int, j: int|
            0 <= i < eff.len() && 0 <= j < eff.len() && written(#[trigger] eff[i]) is Some
                && written(#[trigger] eff[j]) is Some && written(eff[i])->0 is Message
                && written(eff[j])->0 is Message ==> i == j,
        forall|i: int, j: int|
            0 <= i < eff.len() && 0 <= j < eff.len() && shown(#[trigger] eff[i]) is Some && shown(
                #[trigger] eff[j],
            ) is Some && shown(eff[i])->0 is MessageReceived && shown(eff[j])->0 is MessageReceived
                ==> i == j,
        ({
            let taken = sender != app.our_fp() && !f.banned.contains(sender) && (msg is Plain
                ==> !(f.room matches Some(r) && r.encrypted)) && text_in(app, e, msg) is Some
                && !was_seen(app, f, e, msg);
            let body = text_in(app, e, msg)->0;
            &&& taken ==> writes(
                eff,
                WriteView::Message {
                    room_id: e.room_id,
                    sender_fingerprint: sender,
                    direction: "in"@,
                    body,
                    sent_at: e.now,
                    client_msg_id,
                    reply_to,
                },
            )
            &&& taken ==> shows(
                eff,
                EventView::MessageReceived {
                    room_id: e.room_id,
                    sender_fingerprint: sender,
                    body,
                    sent_at: e.now,
                },
            )
            &&& taken ==> writes(eff, WriteView::LastActive { room_id: e.room_id, at: e.now })
            &&& taken ==> (shows(eff, EventView::MentionReceived { room_id: e.room_id, body })
                <==> mention::mentions(body, app.our_fp()))
            &&& !taken ==> forall|i: int|
                0 <= i < eff.len() ==> written(#[trigger] eff[i]) is None && shown(eff[i]) is None
        }),
{
    let body = text_in(app, e, msg)->0;
    if eff.len() >= 3 {
        let k: int = if msg is Encrypted {
            1
        } else {
            0
        };
        assert(written(eff[k]) is Some);
        assert(written(eff[k + 1]) is Some);
        assert(shown(eff[eff.len() - 1]) is Some);
        if mention::mentions(body, app.our_fp()) {
            assert(shown(eff[k + 2]) is Some);
        }
    }
}

/// An encrypted message that is taken is noted as seen, under its sender, its session and its index: it is
/// not taken again.
pub proof fn law_taken_messages_are_noted_as_seen(
    app: AppView,
    f: FactsView,
    e: EnvelopeView,
    msg: MessageView,
    after: AppView,
    eff: Seq<EffectView>,
    f2: FactsView,
    e2: EnvelopeView,
    after2: AppView,
    eff2: Seq<EffectView>,
)
    requires
        app.wf(),
        handled(app, f, e, msg, after, eff),
        msg is Encrypted,
        eff.len() > 0 && written(eff[0]) is Some,
        e2.room_id == e.room_id,
        handled(after, f2, e2, msg, after2, eff2),
        forall|sender: Seq<char>, session: Seq<char>, index: u32, at: i64| #[trigger]
            writes(
                eff,
                WriteView::ContentSeen {
                    room_id: e.room_id,
                    sender_fingerprint: sender,
                    session_id: session,
                    message_index: index,
                    seen_at: at,
                },
            ) && sender == msg->Encrypted_sender_fingerprint && session
                == msg->Encrypted_session_id ==> f2.seen_indices.contains(index),
        app.reads_on(after),
    ensures
        forall|i: int|
            0 <= i < eff2.len() ==> written(#[trigger] eff2[i]) is None && shown(eff2[i]) is None,
{
    let sender = msg->Encrypted_sender_fingerprint;
    let session = msg->Encrypted_session_id;
    let ciphertext = dm_key::decoded(Some(msg->ciphertext_b64))->0;
    let c = app.crypto_of(e.room_id)->0;
    let c2 = after.crypto_of(e.room_id)->0;
    let d = c.decrypted(sender, session, ciphertext)->Ok_0;
    let row = WriteView::ContentSeen {
        room_id: e.room_id,
        sender_fingerprint: sender,
        session_id: session,
        message_index: d.1,
        seen_at: e.now,
    };
    assert(written(eff[0]) == Some(row));
    assert(writes(eff, row));
    assert(megolm::reads_on(c, c2));
    assert(c.inbound.dom().contains((sender, session)));
    assert(megolm::same_reader(
        c2.inbound[(sender, session)],
        c2.persist_key,
        c.inbound[(sender, session)],
        c.persist_key,
    ));
    let _ = megolm::megolm_decrypted(c2.inbound[(sender, session)], c2.persist_key, ciphertext);
}

/// A message can be sent by whoever is in the room and not there to read only, as long as the session lasts.
pub proof fn law_members_can_send(
    app: AppView,
    room_id: Seq<char>,
    body: Seq<char>,
    reply_to: Option<Seq<char>>,
    id: Seq<char>,
    policy: RotationPolicy,
    now: i64,
    after: AppView,
    r: Result<Seq<EffectView>, ErrorView>,
)
    requires
        chat::message_sent(app, room_id, body, reply_to, id, policy, now, after, r),
    ensures
        r is Ok <==> app.rooms.dom().contains(room_id) && !app.rooms[room_id].read_only && (
        app.rooms[room_id].info.encrypted ==> app.rooms[room_id].crypto->0.can_encrypt()),
        r is Err ==> after == app,
{
}

/// What a member sends, each other member has in their history as the sender has it in their own: under the
/// sender's name, with the same text and id and as an answer to the same message. One message goes out, and
/// in an encrypted room its text does not.
pub proof fn law_both_histories_agree(
    a: AppView,
    room_id: Seq<char>,
    body: Seq<char>,
    reply_to: Option<Seq<char>>,
    id: Seq<char>,
    policy: RotationPolicy,
    now: i64,
    a2: AppView,
    out: Seq<EffectView>,
    msg: MessageView,
    b: AppView,
    f: FactsView,
    e: EnvelopeView,
    b2: AppView,
    eff: Seq<EffectView>,
)
    requires
        chat::message_sent(a, room_id, body, reply_to, id, policy, now, a2, Ok(out)),
        sends(out, room_id, msg),
        handled(b, f, e, msg, b2, eff),
        e.room_id == room_id,
        a.our_fp() != b.our_fp(),
        !f.banned.contains(a.our_fp()),
        if a.rooms[room_id].info.encrypted {
            let c = a.rooms[room_id].crypto->0;
            &&& b.crypto_of(room_id) is Some
            &&& b.crypto_of(room_id)->0.holds(a.our_fp(), c)
            &&& !f.seen_indices.contains(megolm::megolm_next_index(c.outbound, c.persist_key)->0)
        } else {
            !(f.room matches Some(r) && r.encrypted)
        },
    ensures
        out.contains(
            EffectView::SendStored {
                room_id,
                sender_fingerprint: a.our_fp(),
                body,
                sent_at: now,
                client_msg_id: id,
                reply_to,
            },
        ),
        writes(
            eff,
            WriteView::Message {
                room_id,
                sender_fingerprint: a.our_fp(),
                direction: "in"@,
                body,
                sent_at: e.now,
                client_msg_id: Some(id),
                reply_to,
            },
        ),
        shows(
            eff,
            EventView::MessageReceived {
                room_id,
                sender_fingerprint: a.our_fp(),
                body,
                sent_at: e.now,
            },
        ),
        forall|i: int|
            0 <= i < out.len() ==> (sent(#[trigger] out[i]) matches Some(s) ==> s == (room_id, msg)),
        a.rooms[room_id].info.encrypted <==> msg is Encrypted,
{
    let encrypted = a.rooms[room_id].info.encrypted;
    let k = choose|k: int| 0 <= k < out.len() && sent(#[trigger] out[k]) == Some((room_id, msg));
    let last = out[out.len() - 1];
    assert(last == EffectView::SendStored {
        room_id,
        sender_fingerprint: a.our_fp(),
        body,
        sent_at: now,
        client_msg_id: id,
        reply_to,
    });
    if encrypted {
        let c = a.rooms[room_id].crypto->0;
        assert(sent(out[1]) is Some);
        chat::law_sent_messages_are_shown(a.our_fp(), c, body, b, f, e, Some(id), reply_to);
        assert(written(eff[1]) is Some);
        assert(shown(eff[eff.len() - 1]) is Some);
    } else {
        assert(sent(out[0]) is Some);
        assert(written(eff[0]) is Some);
        assert(shown(eff[eff.len() - 1]) is Some);
    }
}

/// Sending keeps the books of the outbound session: one message more is counted, or, where the session was
/// due, another session begins at zero and we announce ourselves in the room; and the state of whichever
/// session is in use then is what is stored.
pub proof fn law_sending_keeps_the_books(
    a: AppView,
    room_id: Seq<char>,
    body: Seq<char>,
    reply_to: Option<Seq<char>>,
    id: Seq<char>,
    policy: RotationPolicy,
    now: i64,
    a2: AppView,
    out: Seq<EffectView>,
)
    requires
        chat::message_sent(a, room_id, body, reply_to, id, policy, now, a2, Ok(out)),
        a.rooms[room_id].info.encrypted,
    ensures
        ({
            let c = a.rooms[room_id].crypto->0;
            let next = a2.rooms[room_id].crypto->0;
            let count = if c.messages_since_rotation < u32::MAX {
                c.messages_since_rotation + 1
            } else {
                u32::MAX as int
            };
            let due = (policy.max_messages > 0 && count >= policy.max_messages) || (
            policy.max_age_secs > 0 && now - c.last_rotation_at >= policy.max_age_secs);
            &&& a2.rooms.dom().contains(room_id)
            &&& a2.rooms[room_id].crypto is Some
            &&& writes(
                out,
                WriteView::RotationState {
                    room_id: next.room_id,
                    fingerprint: next.our_fingerprint,
                    messages_since_rotation: next.messages_since_rotation,
                    last_rotation_at: next.last_rotation_at,
                },
            )
            &&& next.room_id == c.room_id && next.our_fingerprint == c.our_fingerprint
            &&& next.inbound == c.inbound
            &&& -0x4000_0000_0000_0000 < now - c.last_rotation_at < 0x4000_0000_0000_0000 ==> {
                &&& !due ==> next.messages_since_rotation == count && next.last_rotation_at
                    == c.last_rotation_at && next.session_id() == c.session_id()
                &&& due ==> next.messages_since_rotation == 0 && next.last_rotation_at == now
                    && next.is_unused()
                &&& due <==> out.contains(EffectView::AnnounceMember { room_id, delay_ms: 0 })
            }
        }),
{
    let c = a.rooms[room_id].crypto->0;
    let plaintext = vstd::utf8::encode_utf8(body);
    let next = a2.rooms[room_id].crypto->0;
    assert(chat::sent_with(c, plaintext, policy, now, next));
    assert(written(out[0]) is Some);
    let sent_c = c.after_encrypt(plaintext, now);
    if chat::rotation_due(policy, sent_c, now) {
        let pickle = choose|pickle: Seq<char>| next == #[trigger] sent_c.rotated(pickle, now);
        assert(next == sent_c.rotated(pickle, now));
        assert(out[2] == EffectView::AnnounceMember { room_id, delay_ms: 0 });
    }
}

/// A message that we lack the session for makes us ask for it, in the room in which it came, but not more
/// than once in a quarter of a minute; and nothing is stored or shown of it.
pub proof fn law_unreadable_messages_are_asked_about(
    app: AppView,
    f: FactsView,
    e: EnvelopeView,
    msg: MessageView,
    after: AppView,
    eff: Seq<EffectView>,
)
    requires
        handled(app, f, e, msg, after, eff),
        msg matches MessageView::Encrypted { sender_fingerprint, session_id, ciphertext_b64, .. }
            && sender_fingerprint != app.our_fp() && !f.banned.contains(sender_fingerprint)
            && dm_key::decoded(Some(ciphertext_b64)) is Some && app.crypto_of(e.room_id) is Some
            && !app.crypto_of(e.room_id)->0.inbound.dom().contains(
            (sender_fingerprint, session_id),
        ),
        e.now >= 15,
    ensures
        ({
            let asked = app.key_requests.dom().contains(e.room_id) && e.now
                - app.key_requests[e.room_id] < 15;
            &&& !asked ==> eff == seq![EffectView::RequestKeys { room_id: e.room_id, delay_ms: 0 }]
            &&& !asked ==> after.key_requests.dom().contains(e.room_id)
                && after.key_requests[e.room_id] == e.now
            &&& asked ==> eff == Seq::<EffectView>::empty()
        }),
        after.rooms == app.rooms,
{
}

/// A reaction is the same wherever it is stored: with whoever reacts and with every other member it is added
/// to the same message, or taken from it, with the same emoji and under the same name, and shown as such.
pub proof fn law_reactions_travel(
    a: AppView,
    room_id: Seq<char>,
    target: Seq<char>,
    emoji: Seq<char>,
    removed: bool,
    now: i64,
    out: Seq<EffectView>,
    msg: MessageView,
    b: AppView,
    f: FactsView,
    e: EnvelopeView,
    b2: AppView,
    eff: Seq<EffectView>,
)
    requires
        a.reaction_sent(true, room_id, target, emoji, removed, now) == Ok::<
            Seq<EffectView>,
            ErrorView,
        >(out),
        sends(out, room_id, msg),
        handled(b, f, e, msg, b2, eff),
        e.room_id == room_id,
        e.signer == Some(a.our_fp()),
        a.our_fp() != b.our_fp(),
        !f.banned.contains(a.our_fp()),
        f.target_sender is Some,
    ensures
        b2 == b,
        removed ==> ({
            let row = WriteView::RemoveReaction {
                room_id,
                target_msg_id: target,
                sender_fingerprint: a.our_fp(),
                emoji,
            };
            writes(out, row) && writes(eff, row)
        }),
        !removed ==> writes(
            out,
            WriteView::AddReaction {
                room_id,
                target_msg_id: target,
                sender_fingerprint: a.our_fp(),
                emoji,
                at: now,
            },
        ) && writes(
            eff,
            WriteView::AddReaction {
                room_id,
                target_msg_id: target,
                sender_fingerprint: a.our_fp(),
                emoji,
                at: e.now,
            },
        ),
        ({
            let seen = EventView::ReactionAdded {
                room_id,
                message_id: target,
                sender_fingerprint: a.our_fp(),
                emoji,
                removed,
            };
            shows(out, seen) && shows(eff, seen)
        }),
        eff.len() == 1,
{
    assert(sent(out[0]) is Some && written(out[1]) is Some && shown(out[2]) is Some);
    let k = choose|k: int| 0 <= k < out.len() && sent(#[trigger] out[k]) == Some((room_id, msg));
    assert(k == 0);
    assert(written(eff[0]) is Some && shown(eff[0]) is Some);
}

/// Nobody reacts to a message that is not there, neither we nor others.
pub proof fn law_reactions_need_a_message(
    app: AppView,
    room_id: Seq<char>,
    target: Seq<char>,
    emoji: Seq<char>,
    removed: bool,
    now: i64,
    f: FactsView,
    e: EnvelopeView,
    sender: Seq<char>,
    after: AppView,
    eff: Seq<EffectView>,
)
    requires
        f.target_sender is None,
        handled(
            app,
            f,
            e,
            MessageView::Reaction {
                sender_fingerprint: sender,
                target_msg_id: target,
                emoji,
                removed,
            },
            after,
            eff,
        ),
    ensures
        app.reaction_sent(false, room_id, target, emoji, removed, now) is Err,
        app.reaction_sent(true, room_id, target, emoji, removed, now) is Ok,
        after == app && eff == Seq::<EffectView>::empty(),
{
}

/// Only who wrote a message, or an owner of the room who is not banned, edits or deletes it; for us and for
/// others it is the same rule.
pub proof fn law_only_authors_and_owners_change_messages(
    app: AppView,
    f: FactsView,
    e: EnvelopeView,
    msg: MessageView,
    after: AppView,
    eff: Seq<EffectView>,
    room_id: Seq<char>,
    target: Seq<char>,
    new_body: Seq<char>,
    now: i64,
    now_ms: i64,
)
    requires
        handled(app, f, e, msg, after, eff),
        msg is Edit || msg is Delete,
    ensures
        ({
            let sender = match msg {
                MessageView::Edit { sender_fingerprint, .. } => sender_fingerprint,
                MessageView::Delete { sender_fingerprint, .. } => sender_fingerprint,
                _ => Seq::empty(),
            };
            let may = |who: Seq<char>|
                f.target_sender matches Some(author) && (author == who || (f.owners.contains(who)
                    && !f.banned.contains(who)));
            &&& !may(sender) ==> after == app && eff == Seq::<EffectView>::empty()
            &&& app.delete_sent(f, room_id, target, now_ms) is Ok <==> may(app.our_fp())
            &&& app.edit_sent(f, room_id, target, new_body, now, now_ms).1 is Ok ==> may(
                app.our_fp(),
            )
            &&& may(app.our_fp()) && !(app.rooms.dom().contains(room_id)
                && app.rooms[room_id].info.encrypted && !app.rooms[room_id].crypto->0.can_encrypt())
                ==> app.edit_sent(f, room_id, target, new_body, now, now_ms).1 is Ok
        }),
{
}

/// An edit is the same wherever it is stored: with whoever edits and with every other member the same message
/// gets the same new text, at the time that was signed, and is shown as edited by them. In an encrypted room
/// the text does not go out as it stands.
pub proof fn law_edits_travel(
    a: AppView,
    fa: FactsView,
    room_id: Seq<char>,
    target: Seq<char>,
    new_body: Seq<char>,
    now: i64,
    now_ms: i64,
    a2: AppView,
    out: Seq<EffectView>,
    msg: MessageView,
    b: AppView,
    f: FactsView,
    e: EnvelopeView,
    b2: AppView,
    eff: Seq<EffectView>,
)
    requires
        a.edit_sent(fa, room_id, target, new_body, now, now_ms) == (
            a2,
            Ok::<Seq<EffectView>, ErrorView>(out),
        ),
        a.rooms.dom().contains(room_id),
        sends(out, room_id, msg),
        handled(b, f, e, msg, b2, eff),
        e.room_id == room_id,
        e.signer == Some(a.our_fp()),
        a.our_fp() != b.our_fp(),
        !f.banned.contains(a.our_fp()),
        f.target_sender matches Some(author) && (author == a.our_fp() || f.owners.contains(
            a.our_fp(),
        )),
        a.rooms[room_id].info.encrypted ==> {
            let c = a.rooms[room_id].crypto->0;
            &&& chat::sent_readable(c, vstd::utf8::encode_utf8(new_body))
            &&& c.session_id().len() > 0
            &&& b.crypto_of(room_id) is Some
            &&& b.crypto_of(room_id)->0.holds(a.our_fp(), c)
        },
    ensures
        writes(
            out,
            WriteView::EditMessage { room_id, target_msg_id: target, new_body, edited_at_ms: now_ms },
        ),
        writes(
            eff,
            WriteView::EditMessage {
                room_id,
                target_msg_id: target,
                new_body,
                edited_at_ms: if e.signed_at_ms is Some {
                    e.signed_at_ms->0
                } else {
                    e.now_ms
                },
            },
        ),
        ({
            let seen = EventView::MessageEdited {
                room_id,
                message_id: target,
                editor_fingerprint: a.our_fp(),
                new_body,
            };
            shows(out, seen) && shows(eff, seen)
        }),
        eff.len() == 1,
        a.rooms[room_id].info.encrypted ==> (msg matches MessageView::Edit {
            new_body: open,
            ..
        } && open is None),
{
    broadcast use vstd::utf8::encode_utf8_valid_utf8, vstd::utf8::encode_utf8_decode_utf8;

    let k = choose|k: int| 0 <= k < out.len() && sent(#[trigger] out[k]) == Some((room_id, msg));
    if a.rooms[room_id].info.encrypted {
        let c = a.rooms[room_id].crypto->0;
        let plaintext = vstd::utf8::encode_utf8(new_body);
        let message = chat::ciphertext_of(c, plaintext);
        megolm::law_members_read_what_is_sent(
            b.crypto_of(room_id)->0,
            a.our_fp(),
            c,
            message,
            plaintext,
        );
        assert(k == 1);
        assert(text::utf8_lossy(plaintext) == new_body);
        assert(written(out[2]) is Some && shown(out[3]) is Some);
    } else {
        assert(k == 0);
        assert(written(out[1]) is Some && shown(out[2]) is Some);
    }
    assert(written(eff[0]) is Some && shown(eff[0]) is Some);
}

/// A deletion is the same wherever it is stored: the same message is deleted with whoever deletes it and
/// with every other member, and shown as deleted by them.
pub proof fn law_deletions_travel(
    a: AppView,
    fa: FactsView,
    room_id: Seq<char>,
    target: Seq<char>,
    now_ms: i64,
    out: Seq<EffectView>,
    msg: MessageView,
    b: AppView,
    f: FactsView,
    e: EnvelopeView,
    b2: AppView,
    eff: Seq<EffectView>,
)
    requires
        a.delete_sent(fa, room_id, target, now_ms) == Ok::<Seq<EffectView>, ErrorView>(out),
        sends(out, room_id, msg),
        handled(b, f, e, msg, b2, eff),
        e.room_id == room_id,
        e.signer == Some(a.our_fp()),
        a.our_fp() != b.our_fp(),
        !f.banned.contains(a.our_fp()),
        f.target_sender matches Some(author) && (author == a.our_fp() || f.owners.contains(
            a.our_fp(),
        )),
    ensures
        writes(
            out,
            WriteView::DeleteMessage { room_id, target_msg_id: target, deleted_at_ms: now_ms },
        ),
        writes(
            eff,
            WriteView::DeleteMessage { room_id, target_msg_id: target, deleted_at_ms: e.now_ms },
        ),
        ({
            let seen = EventView::MessageDeleted {
                room_id,
                message_id: target,
                deleter_fingerprint: a.our_fp(),
            };
            shows(out, seen) && shows(eff, seen)
        }),
        eff.len() == 1,
        b2 == b,
{
    let k = choose|k: int| 0 <= k < out.len() && sent(#[trigger] out[k]) == Some((room_id, msg));
    assert(k == 0);
    assert(written(out[1]) is Some && shown(out[2]) is Some);
    assert(written(eff[0]) is Some && shown(eff[0]) is Some);
}

/// For how long messages stay is the same for everybody: what the creator or an owner sets is what every
/// other member stores and shows, for ever included.
pub proof fn law_room_settings_travel(
    a: AppView,
    room_id: Seq<char>,
    ttl_secs: Option<u32>,
    msg: MessageView,
    b: AppView,
    f: FactsView,
    e: EnvelopeView,
    b2: AppView,
    eff: Seq<EffectView>,
)
    requires
        ttl_secs != Some(0u32),
        sends(a.ttl_sent(room_id, ttl_secs), room_id, msg),
        handled(b, f, e, msg, b2, eff),
        e.room_id == room_id,
        e.signer == Some(a.our_fp()),
        a.our_fp() != b.our_fp(),
        !f.banned.contains(a.our_fp()),
        f.owners.contains(a.our_fp()) || (f.room matches Some(r) && r.creator_fingerprint
            == a.our_fp()),
    ensures
        ({
            let row = WriteView::RoomTtl { room_id, ttl_secs };
            writes(a.ttl_sent(room_id, ttl_secs), row) && writes(eff, row)
        }),
        ({
            let seen = EventView::RoomTtlChanged { room_id, ttl_secs };
            shows(a.ttl_sent(room_id, ttl_secs), seen) && shows(eff, seen)
        }),
        eff.len() == 1,
        b2 == b,
{
    let out = a.ttl_sent(room_id, ttl_secs);
    let k = choose|k: int| 0 <= k < out.len() && sent(#[trigger] out[k]) == Some((room_id, msg));
    assert(k == 1);
    assert(written(out[0]) is Some && shown(out[2]) is Some);
    assert(written(eff[0]) is Some && shown(eff[0]) is Some);
}

/// Whoever is neither the creator nor an owner sets nothing, however they sign it.
pub proof fn law_only_owners_set_rooms(
    app: AppView,
    f: FactsView,
    e: EnvelopeView,
    msg: MessageView,
    after: AppView,
    eff: Seq<EffectView>,
)
    requires
        handled(app, f, e, msg, after, eff),
        msg matches MessageView::RoomSetting { sender_fingerprint, .. } && !f.owners.contains(
            sender_fingerprint,
        ) && !(f.room matches Some(r) && r.creator_fingerprint == sender_fingerprint),
    ensures
        after == app,
        eff == Seq::<EffectView>::empty(),
{
}

/// That a member is typing is shown to every other member of the room for three seconds, and no longer.
pub proof fn law_typing_is_shown_for_a_while(
    a: AppView,
    room_id: Seq<char>,
    msg: MessageView,
    b: AppView,
    f: FactsView,
    e: EnvelopeView,
    b2: AppView,
    eff: Seq<EffectView>,
    at: i64,
)
    requires
        a.rooms.dom().contains(room_id),
        sends(a.typing_sent(room_id), room_id, msg),
        b.rooms.dom().contains(room_id),
        handled(b, f, e, msg, b2, eff),
        e.room_id == room_id,
        a.our_fp() != b.our_fp(),
        !f.banned.contains(a.our_fp()),
        0 <= e.now < i64::MAX - 3,
        e.now <= at,
    ensures
        eff == seq![EffectView::Emit(EventView::TypingChanged { room_id })],
        b2.rooms.dom() == b.rooms.dom(),
        chat::still_typing(b2.rooms[room_id].typers, at).dom().contains(a.our_fp()) <==> at < e.now
            + 3,
        forall|other: Seq<char>|
            other != a.our_fp() ==> (#[trigger] chat::still_typing(
                b2.rooms[room_id].typers,
                at,
            ).dom().contains(other) <==> b.rooms[room_id].typers.dom().contains(other)
                && b.rooms[room_id].typers[other] > at),
        b2.rooms[room_id].members == b.rooms[room_id].members,
{
    let out = a.typing_sent(room_id);
    let k = choose|k: int| 0 <= k < out.len() && sent(#[trigger] out[k]) == Some((room_id, msg));
    assert(k == 0);
    assert(b2.rooms.dom() =~= b.rooms.dom());
}

/// Reading a message moves the session on with which it was encrypted, and no other; no session is made up, and what
/// we send with stays as it is. A message that is not read changes nothing of the room.
pub proof fn law_reading_moves_one_session_on(
    app: AppView,
    f: FactsView,
    e: EnvelopeView,
    msg: MessageView,
    after: AppView,
    eff: Seq<EffectView>,
)
    requires
        app.wf(),
        handled(app, f, e, msg, after, eff),
        msg is Encrypted,
        app.crypto_of(e.room_id) is Some,
    ensures
        after.crypto_of(e.room_id) is Some,
        ({
            let c = app.crypto_of(e.room_id)->0;
            let c2 = after.crypto_of(e.room_id)->0;
            let key = (msg->Encrypted_sender_fingerprint, msg->Encrypted_session_id);
            &&& c2.inbound.dom() == c.inbound.dom()
            &&& forall|k: (Seq<char>, Seq<char>)|
                k != key && c.inbound.dom().contains(k) ==> #[trigger] c2.inbound[k] == c.inbound[k]
            &&& c2.outbound == c.outbound
            &&& c2.messages_since_rotation == c.messages_since_rotation
        }),
        after.rooms.dom() == app.rooms.dom(),
        after.rooms[e.room_id].members == app.rooms[e.room_id].members,
        after.rooms[e.room_id].key == app.rooms[e.room_id].key,
{
    let c = app.crypto_of(e.room_id)->0;
    let c2 = after.crypto_of(e.room_id)->0;
    assert(after.rooms.dom() =~= app.rooms.dom());
    assert(c2.inbound.dom() =~= c.inbound.dom());
}

/// What a user does to messages and rooms has to be stored: if it cannot be, the user hears of it.
pub proof fn law_what_users_do_must_be_stored(
    app: AppView,
    f: FactsView,
    room_id: Seq<char>,
    target: Seq<char>,
    words: Seq<char>,
    removed: bool,
    ttl_secs: Option<u32>,
    now: i64,
    now_ms: i64,
)
    ensures
        app.reaction_sent(true, room_id, target, words, removed, now) matches Ok(out)
            && must_store_all(out),
        app.delete_sent(f, room_id, target, now_ms) matches Ok(out) ==> must_store_all(out),
        must_store_all(app.ttl_sent(room_id, ttl_secs)),
        app.owner_granted(f, room_id, target) matches Ok(out) ==> must_store_all(out),
{
}

/// Everything that is stored has to be.
pub open spec fn must_store_all(eff: Seq<EffectView>) -> bool {
    forall|i: int| 0 <= i < eff.len() && written(#[trigger] eff[i]) is Some ==> eff[i] is MustStore
}

/// What others send is handled to the end even where something of it cannot be stored: only a request to be a
/// contact, and the end of a verification, are not shown unless they are.
pub proof fn law_handling_goes_on(
    app: AppView,
    f: FactsView,
    e: EnvelopeView,
    msg: MessageView,
    after: AppView,
    eff: Seq<EffectView>,
)
    requires
        handled(app, f, e, msg, after, eff),
        msg is Encrypted || msg is Plain || msg is Reaction || msg is Edit || msg is Delete || msg
            is RoomSetting || msg is OwnerGrant || msg is BanMember || msg is ProfileUpdate || msg
            is FileOffer || msg is MemberLeave || msg is Typing || msg is RotateRoomKey,
    ensures
        forall|i: int| 0 <= i < eff.len() ==> !(#[trigger] eff[i] is MustStore),
{
}

} // verus!
