//! What is done in a room is said in it: every operation that others are to hear of sends something to its room,
//! and to no other.
use super::contacts::sends_direct;
use super::{sends, sent, tells};
use crate::app::attachments;
use crate::app::chat;
use crate::app::code_join;
use crate::app::effects::EffectView;
use crate::app::facts::FactsView;
use crate::app::messages::MessageView;
use crate::app::rooms;
use crate::app::AppView;
use crate::crypto::megolm::{RoomCryptoView, RotationPolicy};
use crate::crypto::passphrase;
use crate::crypto::primitives;
use crate::error::ErrorView;
use crate::files::transfer;
use vstd::prelude::*;

verus! {

/// A message that could be sent was sent.
pub proof fn law_messages_are_told(
    app: AppView,
    room_id: Seq<char>,
    body: Seq<char>,
    reply_to: Option<Seq<char>>,
    id: Seq<char>,
    policy: RotationPolicy,
    now: i64,
    after: AppView,
    out: Seq<EffectView>,
)
    requires
        chat::message_sent(app, room_id, body, reply_to, id, policy, now, after, Ok(out)),
    ensures
        tells(out, room_id),
{
    if app.rooms[room_id].info.encrypted {
        assert(sent(out[1]) is Some);
    } else {
        assert(sent(out[0]) is Some);
    }
}

/// A reaction, an edit, a deletion, a setting and that we are typing are told to the room; so are that we leave it
/// and whom we make an owner.
pub proof fn law_changes_are_told(
    app: AppView,
    f: FactsView,
    room_id: Seq<char>,
    target: Seq<char>,
    words: Seq<char>,
    removed: bool,
    ttl_secs: Option<u32>,
    now: i64,
    now_ms: i64,
)
    ensures
        app.reaction_sent(true, room_id, target, words, removed, now) matches Ok(out) && tells(
            out,
            room_id,
        ),
        app.edit_sent(f, room_id, target, words, now, now_ms).1 matches Ok(out) ==> tells(
            out,
            room_id,
        ),
        app.delete_sent(f, room_id, target, now_ms) matches Ok(out) ==> tells(out, room_id),
        tells(app.ttl_sent(room_id, ttl_secs), room_id),
        app.rooms.dom().contains(room_id) ==> tells(app.typing_sent(room_id), room_id),
        tells(app.room_left(room_id).1, room_id),
        app.owner_granted(f, room_id, target) matches Ok(out) ==> tells(out, room_id),
{
    let out = app.reaction_sent(true, room_id, target, words, removed, now)->Ok_0;
    assert(sent(out[0]) is Some);
    if app.edit_sent(f, room_id, target, words, now, now_ms).1 is Ok {
        let out = app.edit_sent(f, room_id, target, words, now, now_ms).1->Ok_0;
        let k: int = if app.rooms.dom().contains(room_id) && app.rooms[room_id].info.encrypted {
            1
        } else {
            0
        };
        assert(sent(out[k]) is Some);
    }
    if app.delete_sent(f, room_id, target, now_ms) is Ok {
        assert(sent((app.delete_sent(f, room_id, target, now_ms)->Ok_0)[0]) is Some);
    }
    assert(sent(app.ttl_sent(room_id, ttl_secs)[1]) is Some);
    if app.rooms.dom().contains(room_id) {
        assert(sent(app.typing_sent(room_id)[0]) is Some);
    }
    assert(sent(app.room_left(room_id).1[0]) is Some);
    if app.owner_granted(f, room_id, target) is Ok {
        assert(sent((app.owner_granted(f, room_id, target)->Ok_0)[0]) is Some);
    }
}

/// A rotation is told to the room; it happens in every encrypted room that we are in, if the passphrase has eight
/// characters or more and makes a key.
pub proof fn law_rotations_are_told(
    app: AppView,
    room_id: Seq<char>,
    words: Seq<char>,
    salt: Seq<u8>,
    after: AppView,
    r: Result<Seq<EffectView>, ErrorView>,
)
    requires
        chat::room_rotated(app, room_id, words, salt, after, r),
    ensures
        r is Ok <==> words.len() >= 8 && passphrase::key_of(words, salt) is Ok
            && app.rooms.dom().contains(room_id) && app.rooms[room_id].info.encrypted,
        r matches Ok(out) ==> tells(out, room_id),
        r is Err ==> after == app,
{
    if r is Ok {
        let c = choose|c: RoomCryptoView| #[trigger]
            rooms::fresh_crypto(c, room_id, app.our_fp(), app.persist_key) && after == app.rekeyed(
                room_id,
                passphrase::key_of(words, salt)->Ok_0,
                salt,
                Some(c),
            );
        assert(sent((r->Ok_0)[1]) is Some);
    }
}

/// Whoever asks to be let in asks in the room, and is answered there, if the code counts, the session key can be
/// wrapped and both sides came to a key.
pub proof fn law_joining_is_told(
    owner: AppView,
    room_id: Seq<char>,
    joiner: Seq<char>,
    code: Seq<char>,
    code_proof: Seq<u8>,
    public: Seq<u8>,
    wrap_key: Seq<u8>,
    now: i64,
    owner2: AppView,
    out: Seq<EffectView>,
)
    requires
        code_join::join_answered(
            owner,
            room_id,
            joiner,
            code,
            public,
            Some(wrap_key),
            now,
            owner2,
            out,
        ),
        owner.rooms.dom().contains(room_id),
        owner.rooms[room_id].crypto is Some,
        super::codes::counts(owner.rooms[room_id].codes, code, now),
        vstd::utf8::encode_utf8(owner.rooms[room_id].crypto->0.session_key()).len()
            < primitives::SEAL_LIMIT,
    ensures
        tells(code_join::join_requested(room_id, code, code_proof, public), room_id),
        tells(out, room_id),
{
    assert(sent(code_join::join_requested(room_id, code, code_proof, public)[2]) is Some);
    code_join::law_only_live_codes_let_in(owner.rooms[room_id].codes, code, now);
    let c = owner.rooms[room_id].crypto->0;
    let wrapped = choose|wrapped: Seq<char>| #[trigger]
        code_join::session_wrapped(c, wrap_key, wrapped) && out == seq![
            EffectView::PublishSigned {
                room_id,
                message: MessageView::CodeJoinResponse {
                    room_id,
                    target_fingerprint: joiner,
                    owner_x25519_pubkey_b64: primitives::base64_text(public),
                    owner_session_id: c.session_id(),
                    wrapped_session_key_b64: wrapped,
                    nonce_b64: ""@,
                },
            },
        ];
    assert(sent(out[0]) is Some);
}

/// A proof that is held against one code after another stays that of the same joiner, for the same room and under
/// the same key; the codes that were looked at are not looked at again.
pub proof fn law_proofs_stay_with_their_joiner(
    room_id: Seq<char>,
    joiner: Seq<char>,
    public: Seq<u8>,
    codes: Seq<Seq<char>>,
    proof_bytes: Seq<u8>,
    derived: Option<Seq<u8>>,
)
    requires
        codes.len() > 0,
    ensures
        ({
            let out = code_join::proof_compared(room_id, joiner, public, codes, proof_bytes, derived);
            &&& derived == Some(proof_bytes) ==> out == seq![
                EffectView::AnswerJoin {
                    room_id,
                    joiner_fingerprint: joiner,
                    joiner_public: public,
                    code: codes[0],
                },
            ]
            &&& derived != Some(proof_bytes) ==> if codes.len() == 1 {
                out.len() == 0
            } else {
                out == seq![
                    super::codes::checked(room_id, joiner, public, codes.skip(1), proof_bytes),
                ]
            }
        }),
{
}

/// A request to verify each other goes to the room, and so does every word that the codes match.
pub proof fn law_verifications_are_told(
    app: AppView,
    room_id: Seq<char>,
    target: Seq<char>,
    now: i64,
    tx_id: Seq<char>,
    secret: Seq<u8>,
    public: Seq<u8>,
)
    ensures
        tells(app.sas_begun(room_id, target, now, tx_id, secret, public).1, room_id),
        app.sas_begun(room_id, target, now, tx_id, secret, public).0.sas.flows.dom().contains(tx_id),
        app.sas_matched(tx_id, now).1 matches Ok(out) ==> tells(
            out,
            app.sas.flows[tx_id].room_id,
        ),
{
    assert(sent(app.sas_begun(room_id, target, now, tx_id, secret, public).1[0]) is Some);
    if app.sas_matched(tx_id, now).1 is Ok {
        let os = app.sas.matched(tx_id)->Ok_0.1;
        let out = app.sas_matched(tx_id, now).1->Ok_0;
        if os.len() == 1 {
            super::verification::lemma_one_outcome(os[0], now);
            assert(os =~= seq![os[0]]);
        } else {
            super::verification::lemma_two_outcomes(os[0], os[1], now);
            assert(os =~= seq![os[0], os[1]]);
        }
        assert(sent(out[0]) is Some);
    }
}

/// A file is offered in the room, and every chunk of it follows there.
pub proof fn law_files_are_told(
    app: AppView,
    room_id: Seq<char>,
    name: Seq<char>,
    path: Seq<char>,
    wire: Seq<u8>,
    meta: Option<crate::files::encryption::FileMetaView>,
    now: i64,
    index: u32,
)
    requires
        app.sending(room_id, name, path, wire, meta, now) is Ok,
        index < transfer::chunk_count(wire.len()),
    ensures
        ({
            let out = app.sending(room_id, name, path, wire, meta, now)->Ok_0.1;
            &&& tells(out, room_id)
            &&& exists|offer: MessageView| #[trigger]
                sends(out, room_id, offer) && offer is FileOffer && offer->chunk_count
                    == transfer::chunk_count(wire.len())
            &&& exists|chunk: MessageView| #[trigger]
                sends(out, room_id, chunk) && chunk is FileChunk && chunk->chunk_index == index
                    && chunk->total_chunks == transfer::chunk_count(wire.len())
        }),
{
    let (file_id, out) = app.sending(room_id, name, path, wire, meta, now)->Ok_0;
    let chunks = attachments::chunk_messages(app.our_fp(), room_id, file_id, wire);
    assert(sent(out[3]) is Some);
    assert(sends(out, room_id, (sent(out[3])->0).1));
    assert(transfer::chunk_count(wire.len()) <= u32::MAX);
    let k = index as int;
    assert(out[4 + k] == chunks[k]);
    assert(sent(out[4 + k]) is Some);
    assert(sends(out, room_id, (sent(out[4 + k])->0).1));
    assert forall|i: int| 0 <= i < out.len() implies (sent(#[trigger] out[i]) matches Some(s)
        ==> s.0 == room_id) by {
        if i >= 4 {
            assert(out[i] == chunks[i - 4]);
        }
    }
}

/// Whoever is accepted as a contact is told so, in their own inbox.
pub proof fn law_acceptance_is_told(
    app: AppView,
    asker: Seq<char>,
    name: Option<Seq<char>>,
    pubkey_b64: Option<Seq<char>>,
    now: i64,
)
    requires
        asker != app.our_fp(),
    ensures
        exists|msg: MessageView|
            #![trigger sends_direct(app.contact_accepted(asker, name, pubkey_b64, now), asker, msg)]
            sends_direct(app.contact_accepted(asker, name, pubkey_b64, now), asker, msg)
                && msg is ContactRequest,
{
    let out = app.contact_accepted(asker, name, pubkey_b64, now);
    let last = out[out.len() - 1];
    assert(last is PublishDirect);
    assert(last == EffectView::PublishDirect {
        target_fingerprint: asker,
        message: last->PublishDirect_message,
    });
    assert(sends_direct(out, asker, last->PublishDirect_message));
}

} // verus!
