//! The account: its passphrase, its seed, and what is kept when one of them is used.
use crate::app::account;
use crate::app::ids;
use crate::app::AppView;
use crate::crypto::megolm::{self, RoomCryptoView, StoredSessionView};
use crate::crypto::mnemonic;
use crate::error::ErrorView;
use vstd::prelude::*;

verus! {

/// The passphrase is changed exactly where there is one, the current one was given and the new one has eight
/// characters or more; the account is deleted exactly where the passphrase was given, or where there is none, on
/// eight characters of any kind.
pub proof fn law_only_the_passphrase_unlocks(app: AppView, key: Seq<u8>, words: Seq<char>)
    ensures
        app.change_refused(key, words) is None <==> app.is_protected() && words.len() >= 8 && key
            == app.persist_key,
        app.end_refused(key, words) is None <==> if app.is_protected() {
            key == app.persist_key
        } else {
            words.len() >= 8
        },
{
}

/// A phrase that stands for our seed stands for us, and for nobody else.
pub proof fn law_our_phrase_stands_for_us(app: AppView, phrase: Seq<char>)
    requires
        app.wf(),
        mnemonic::seed_of(phrase) == Ok::<Seq<u8>, ErrorView>(app.identity.seed),
    ensures
        ids::phrase_fingerprint(phrase) == Ok::<Seq<char>, ErrorView>(app.our_fp()),
{
}

/// Sessions that are moved to another key are those of the same rooms and senders, under the same ids, in the
/// same order; none is moved that could not be read.
pub proof fn law_moved_sessions_keep_their_place(
    rows: Seq<StoredSessionView>,
    old_key: Seq<u8>,
    new_key: Seq<u8>,
)
    ensures
        ({
            let moved = megolm::rows_moved(rows, old_key, new_key);
            &&& moved.len() <= rows.len()
            &&& forall|j: int| 0 <= j < moved.len() ==> is_among(rows, #[trigger] moved[j])
            &&& forall|i: int|
                0 <= i < rows.len() && megolm::row_moved(#[trigger] rows[i], old_key, new_key)
                    is Some ==> is_among(moved, rows[i])
        }),
    decreases rows.len(),
{
    if rows.len() > 0 {
        let rest = rows.drop_last();
        law_moved_sessions_keep_their_place(rest, old_key, new_key);
        let before = megolm::rows_moved(rest, old_key, new_key);
        let moved = megolm::rows_moved(rows, old_key, new_key);
        let n = rows.len() - 1;
        assert forall|j: int| 0 <= j < moved.len() implies is_among(rows, #[trigger] moved[j]) by {
            if j < before.len() {
                assert(is_among(rest, before[j]));
                let i = choose|i: int| 0 <= i < rest.len() && same_session(
                    #[trigger] rest[i],
                    before[j],
                );
                assert(rows[i] == rest[i]);
            } else {
                assert(same_session(rows[n], moved[j]));
            }
        }
        assert forall|i: int|
            0 <= i < rows.len() && megolm::row_moved(
                #[trigger] rows[i],
                old_key,
                new_key,
            ) is Some implies is_among(moved, rows[i]) by {
            if i < n {
                assert(rest[i] == rows[i]);
                let j = choose|j: int| 0 <= j < before.len() && same_session(
                    #[trigger] before[j],
                    rest[i],
                );
                assert(moved[j] == before[j]);
            } else {
                assert(same_session(moved[moved.len() - 1], rows[n]));
            }
        }
    }
}

/// One of the rows is about the session of this one.
pub open spec fn is_among(rows: Seq<StoredSessionView>, row: StoredSessionView) -> bool {
    exists|i: int| 0 <= i < rows.len() && same_session(#[trigger] rows[i], row)
}

/// The two rows are about one session.
pub open spec fn same_session(a: StoredSessionView, b: StoredSessionView) -> bool {
    &&& a.room_id == b.room_id
    &&& a.sender_fingerprint == b.sender_fingerprint
    &&& a.session_id == b.session_id
    &&& a.is_outbound == b.is_outbound
}

/// Taking the sessions of a room from disk again changes nothing else of it, and no other room; what is on disk
/// is what is read with from then on.
pub proof fn law_reloaded_rooms_stay(
    app: AppView,
    room_id: Seq<char>,
    rows: Seq<StoredSessionView>,
    rotation: Option<(u32, i64)>,
    after: AppView,
)
    requires
        account::crypto_reloaded(app, room_id, rows, rotation, after),
        app.rooms.dom().contains(room_id),
    ensures
        after.rooms.dom() == app.rooms.dom(),
        after.rooms[room_id].info == app.rooms[room_id].info,
        after.rooms[room_id].key == app.rooms[room_id].key,
        after.rooms[room_id].members == app.rooms[room_id].members,
        forall|other: Seq<char>|
            other != room_id && app.rooms.dom().contains(other) ==> #[trigger] after.rooms[other]
                == app.rooms[other],
        app.rooms[room_id].info.encrypted && megolm::stored_outbound(rows, app.persist_key) is Some
            ==> after.rooms[room_id].crypto is Some && after.rooms[room_id].crypto->0.inbound
            == megolm::stored_inbound(rows, app.persist_key)
            && after.rooms[room_id].crypto->0.our_fingerprint == app.our_fp() && (rotation
            matches Some(r) ==> after.rooms[room_id].crypto->0.messages_since_rotation == r.0
            && after.rooms[room_id].crypto->0.last_rotation_at == r.1),
{
    if app.rooms[room_id].info.encrypted && megolm::stored_outbound(rows, app.persist_key) is Some {
        let c = choose|c: RoomCryptoView| #[trigger]
            app.with_crypto(room_id, c) == after && crate::app::rooms::entry_crypto(
                Some(c),
                true,
                room_id,
                app.our_fp(),
                app.persist_key,
                rows,
                rotation,
            );
        assert(after == app.with_crypto(room_id, c));
    }
    assert(after.rooms.dom() =~= app.rooms.dom());
}

} // verus!
