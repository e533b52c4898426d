//! The sessions of a room on disk: whatever happens in a room, a restart finds its sessions as they were.
use crate::crypto::megolm::{self, RoomCryptoView, SessionWriteView, StoredSessionView};
use vstd::prelude::*;

verus! {

/// The two rows take each other's place: one room, one sender, one session.
pub open spec fn same_place(a: StoredSessionView, b: StoredSessionView) -> bool {
    a.room_id == b.room_id && a.sender_fingerprint == b.sender_fingerprint && a.session_id
        == b.session_id
}

/// The rows of a room after something was written.
pub open spec fn after_write(rows: Seq<StoredSessionView>, w: SessionWriteView) -> Seq<
    StoredSessionView,
> {
    match w {
        SessionWriteView::Save(row) => rows.filter(
            |r: StoredSessionView| !same_place(r, row),
        ).push(row),
        SessionWriteView::DeleteOutbound { room_id, fingerprint } => rows.filter(
            |r: StoredSessionView|
                !(r.room_id == room_id && r.sender_fingerprint == fingerprint && r.is_outbound),
        ),
    }
}

/// The rows of a room after all of this was written, in order.
pub open spec fn after_writes(
    rows: Seq<StoredSessionView>,
    writes: Seq<SessionWriteView>,
) -> Seq<StoredSessionView>
    decreases writes.len(),
{
    if writes.len() == 0 {
        rows
    } else {
        after_write(after_writes(rows, writes.drop_last()), writes.last())
    }
}

/// The rows are of this room; the outbound ones are ours, and the others are of others.
pub open spec fn rows_of(rows: Seq<StoredSessionView>, c: RoomCryptoView) -> bool {
    forall|i: int|
        0 <= i < rows.len() ==> (#[trigger] rows[i]).room_id == c.room_id && rows[i].is_outbound
            == (rows[i].sender_fingerprint == c.our_fingerprint)
}

/// The rows hold the sessions of a room.
pub open spec fn holds_sessions(rows: Seq<StoredSessionView>, c: RoomCryptoView) -> bool {
    &&& rows_of(rows, c)
    &&& megolm::stored_outbound(rows, c.persist_key) == Some(c.outbound)
    &&& megolm::stored_inbound(rows, c.persist_key) == c.inbound
}

/// Once what waits to be written is written, the rows hold the sessions of a room.
pub open spec fn kept(rows: Seq<StoredSessionView>, c: RoomCryptoView) -> bool {
    holds_sessions(after_writes(rows, c.writes), c)
}

proof fn lemma_push(rows: Seq<StoredSessionView>, row: StoredSessionView)
    ensures
        rows.push(row).drop_last() == rows,
        rows.push(row).last() == row,
{
    assert(rows.push(row).drop_last() =~= rows);
}

/// What is left of the rows of a room is still of the room.
proof fn lemma_filter_rows(
    rows: Seq<StoredSessionView>,
    keep: spec_fn(StoredSessionView) -> bool,
    c: RoomCryptoView,
)
    requires
        rows_of(rows, c),
    ensures
        rows_of(rows.filter(keep), c),
    decreases rows.len(),
{
    reveal(Seq::filter);
    if rows.len() > 0 {
        assert(rows_of(rows.drop_last(), c));
        lemma_filter_rows(rows.drop_last(), keep, c);
        let before = rows.drop_last().filter(keep);
        if keep(rows.last()) {
            let after = before.push(rows.last());
            assert forall|i: int| 0 <= i < after.len() implies (#[trigger] after[i]).room_id
                == c.room_id && after[i].is_outbound == (after[i].sender_fingerprint
                == c.our_fingerprint) by {
                if i < before.len() {
                    assert(after[i] == before[i]);
                } else {
                    assert(after[i] == rows[rows.len() - 1]);
                }
            }
        }
    }
}

/// To take away the row of a sender's session takes away that session.
proof fn lemma_filter_inbound(
    rows: Seq<StoredSessionView>,
    row: StoredSessionView,
    c: RoomCryptoView,
    key: Seq<u8>,
)
    requires
        rows_of(rows, c),
        row.room_id == c.room_id,
    ensures
        megolm::stored_inbound(
            rows.filter(|r: StoredSessionView| !same_place(r, row)),
            key,
        ) == megolm::stored_inbound(rows, key).remove((row.sender_fingerprint, row.session_id)),
    decreases rows.len(),
{
    reveal(Seq::filter);
    let keep = |r: StoredSessionView| !same_place(r, row);
    let k = (row.sender_fingerprint, row.session_id);
    if rows.len() == 0 {
        assert(megolm::stored_inbound(rows, key).remove(k) =~= megolm::stored_inbound(rows, key));
    } else {
        let first = rows.drop_last();
        assert(rows_of(first, c));
        assert(rows[rows.len() - 1].room_id == c.room_id);
        lemma_filter_inbound(first, row, c, key);
        let before = first.filter(keep);
        lemma_push(before, rows.last());
        assert(megolm::stored_inbound(rows.filter(keep), key) =~= megolm::stored_inbound(
            rows,
            key,
        ).remove(k));
    }
}

/// To take away other rows leaves the outbound session.
proof fn lemma_filter_outbound(
    rows: Seq<StoredSessionView>,
    row: StoredSessionView,
    c: RoomCryptoView,
    key: Seq<u8>,
)
    requires
        rows_of(rows, c),
        row.sender_fingerprint != c.our_fingerprint,
    ensures
        megolm::stored_outbound(
            rows.filter(|r: StoredSessionView| !same_place(r, row)),
            key,
        ) == megolm::stored_outbound(rows, key),
    decreases rows.len(),
{
    reveal(Seq::filter);
    let keep = |r: StoredSessionView| !same_place(r, row);
    if rows.len() > 0 {
        let first = rows.drop_last();
        assert(rows_of(first, c));
        assert(rows[rows.len() - 1].is_outbound == (rows.last().sender_fingerprint
            == c.our_fingerprint));
        lemma_filter_outbound(first, row, c, key);
        lemma_push(first.filter(keep), rows.last());
    }
}

/// To delete the outbound sessions leaves the inbound ones.
proof fn lemma_delete_outbound(
    rows: Seq<StoredSessionView>,
    room_id: Seq<char>,
    fingerprint: Seq<char>,
    key: Seq<u8>,
)
    ensures
        megolm::stored_inbound(
            after_write(rows, SessionWriteView::DeleteOutbound { room_id, fingerprint }),
            key,
        ) == megolm::stored_inbound(rows, key),
    decreases rows.len(),
{
    reveal(Seq::filter);
    if rows.len() > 0 {
        let first = rows.drop_last();
        lemma_delete_outbound(first, room_id, fingerprint, key);
        lemma_push(
            after_write(first, SessionWriteView::DeleteOutbound { room_id, fingerprint }),
            rows.last(),
        );
    }
}

proof fn lemma_after_push(
    rows: Seq<StoredSessionView>,
    writes: Seq<SessionWriteView>,
    w: SessionWriteView,
)
    ensures
        after_writes(rows, writes.push(w)) == after_write(after_writes(rows, writes), w),
{
    assert(writes.push(w).drop_last() =~= writes);
}

/// To save our outbound session makes it the one that is found, and leaves the others.
proof fn lemma_save_outbound(
    rows: Seq<StoredSessionView>,
    before: RoomCryptoView,
    after: RoomCryptoView,
    now: i64,
)
    requires
        rows_of(rows, before),
        megolm::stored_inbound(rows, before.persist_key) == before.inbound,
        after.room_id == before.room_id,
        after.our_fingerprint == before.our_fingerprint,
        after.persist_key == before.persist_key,
        after.inbound == before.inbound,
        megolm::megolm_session_id(after.outbound, after.persist_key) is Some,
        forall|k: (Seq<char>, Seq<char>)| #[trigger]
            before.inbound.dom().contains(k) ==> k.0 != before.our_fingerprint,
    ensures
        holds_sessions(after_write(rows, after.outbound_row(now)), after),
{
    broadcast use vstd::utf8::encode_utf8_valid_utf8, vstd::utf8::encode_utf8_decode_utf8;

    let key = after.persist_key;
    let row = after.outbound_row(now)->Save_0;
    let keep = |r: StoredSessionView| !same_place(r, row);
    let left = rows.filter(keep);
    lemma_filter_rows(rows, keep, before);
    lemma_filter_inbound(rows, row, before, key);
    lemma_push(left, row);
    let k = (row.sender_fingerprint, row.session_id);
    assert(before.inbound.remove(k) =~= before.inbound);
    let out = after_write(rows, after.outbound_row(now));
    assert(out == left.push(row));
    assert(vstd::utf8::decode_utf8(row.session_data) == after.outbound);
    assert(megolm::stored_outbound(out, key) == Some(after.outbound));
    assert(megolm::stored_inbound(out, key) == megolm::stored_inbound(left, key));
    assert forall|i: int| 0 <= i < out.len() implies (#[trigger] out[i]).room_id == after.room_id
        && out[i].is_outbound == (out[i].sender_fingerprint == after.our_fingerprint) by {
        if i < left.len() {
            assert(out[i] == left[i]);
        }
    }
}

/// The senders of inbound sessions on disk are others than us.
proof fn lemma_inbound_of_others(rows: Seq<StoredSessionView>, c: RoomCryptoView, key: Seq<u8>)
    requires
        rows_of(rows, c),
    ensures
        forall|k: (Seq<char>, Seq<char>)| #[trigger]
            megolm::stored_inbound(rows, key).dom().contains(k) ==> k.0 != c.our_fingerprint,
    decreases rows.len(),
{
    if rows.len() > 0 {
        assert(rows_of(rows.drop_last(), c));
        assert(rows[rows.len() - 1].is_outbound == (rows.last().sender_fingerprint
            == c.our_fingerprint));
        lemma_inbound_of_others(rows.drop_last(), c, key);
        let before = megolm::stored_inbound(rows.drop_last(), key);
        assert forall|k: (Seq<char>, Seq<char>)| #[trigger]
            megolm::stored_inbound(rows, key).dom().contains(k) implies k.0
            != c.our_fingerprint by {
            if !before.dom().contains(k) {
                assert(k.0 == rows.last().sender_fingerprint);
            }
        }
    }
}

// ---------------------------------------------------------------------------------------------
// Laws
// ---------------------------------------------------------------------------------------------

/// A room that we begin is kept.
pub proof fn law_new_sessions_are_kept(c: RoomCryptoView, now: i64)
    requires
        c.wf(),
        c.inbound == Map::<(Seq<char>, Seq<char>), Seq<char>>::empty(),
        c.writes == seq![c.outbound_row(now)],
    ensures
        kept(Seq::empty(), c),
{
    let none = Seq::<StoredSessionView>::empty();
    assert(c.writes =~= Seq::<SessionWriteView>::empty().push(c.outbound_row(now)));
    lemma_after_push(none, Seq::empty(), c.outbound_row(now));
    lemma_save_outbound(none, c, c, now);
}

/// Sending a message keeps what is kept.
pub proof fn law_sending_is_kept(
    rows: Seq<StoredSessionView>,
    c: RoomCryptoView,
    plaintext: Seq<u8>,
    now: i64,
)
    requires
        kept(rows, c),
        c.after_encrypt(plaintext, now).wf(),
    ensures
        kept(rows, c.after_encrypt(plaintext, now)),
{
    let after = c.after_encrypt(plaintext, now);
    let disk = after_writes(rows, c.writes);
    lemma_inbound_of_others(disk, c, c.persist_key);
    lemma_after_push(rows, c.writes, after.outbound_row(now));
    lemma_save_outbound(disk, c, after, now);
}

/// Taking in the session of another member, or reading with it, keeps what is kept.
pub proof fn law_inbound_sessions_are_kept(
    rows: Seq<StoredSessionView>,
    c: RoomCryptoView,
    sender: Seq<char>,
    session_id: Seq<char>,
    pickle: Seq<char>,
    now: i64,
)
    requires
        kept(rows, c),
        sender != c.our_fingerprint,
        megolm::megolm_inbound_opens(pickle, c.persist_key),
    ensures
        kept(rows, c.with_inbound(sender, session_id, pickle, now)),
{
    broadcast use vstd::utf8::encode_utf8_valid_utf8, vstd::utf8::encode_utf8_decode_utf8;

    let after = c.with_inbound(sender, session_id, pickle, now);
    let disk = after_writes(rows, c.writes);
    let key = c.persist_key;
    let w = c.inbound_row(sender, session_id, pickle, now);
    let row = w->Save_0;
    let keep = |r: StoredSessionView| !same_place(r, row);
    let left = disk.filter(keep);
    lemma_after_push(rows, c.writes, w);
    lemma_filter_rows(disk, keep, c);
    lemma_filter_inbound(disk, row, c, key);
    lemma_filter_outbound(disk, row, c, key);
    lemma_push(left, row);
    let out = left.push(row);
    assert(out == after_writes(rows, after.writes));
    assert(vstd::utf8::decode_utf8(row.session_data) == pickle);
    assert(megolm::stored_outbound(out, key) == megolm::stored_outbound(left, key));
    assert(megolm::stored_inbound(out, key) =~= after.inbound);
    assert forall|i: int| 0 <= i < out.len() implies (#[trigger] out[i]).room_id == after.room_id
        && out[i].is_outbound == (out[i].sender_fingerprint == after.our_fingerprint) by {
        if i < left.len() {
            assert(out[i] == left[i]);
        }
    }
}

/// Another outbound session keeps what is kept.
pub proof fn law_rotation_is_kept(
    rows: Seq<StoredSessionView>,
    c: RoomCryptoView,
    pickle: Seq<char>,
    now: i64,
)
    requires
        kept(rows, c),
        c.rotated(pickle, now).wf(),
    ensures
        kept(rows, c.rotated(pickle, now)),
{
    let after = c.rotated(pickle, now);
    let disk = after_writes(rows, c.writes);
    let delete = SessionWriteView::DeleteOutbound {
        room_id: c.room_id,
        fingerprint: c.our_fingerprint,
    };
    let cleared = after_write(disk, delete);
    lemma_after_push(rows, c.writes, delete);
    lemma_after_push(rows, c.writes.push(delete), after.outbound_row(now));
    lemma_delete_outbound(disk, c.room_id, c.our_fingerprint, c.persist_key);
    lemma_filter_rows(
        disk,
        |r: StoredSessionView|
            !(r.room_id == c.room_id && r.sender_fingerprint == c.our_fingerprint && r.is_outbound),
        c,
    );
    lemma_inbound_of_others(disk, c, c.persist_key);
    lemma_save_outbound(cleared, c, after, now);
}

/// Writing what waits to be written keeps what is kept.
pub proof fn law_writing_is_kept(rows: Seq<StoredSessionView>, c: RoomCryptoView)
    requires
        kept(rows, c),
    ensures
        kept(
            after_writes(rows, c.writes),
            RoomCryptoView { writes: Seq::empty(), ..c },
        ),
{
}

/// A restart finds what is kept: once everything is written, the rows give back our outbound session and
/// the sessions of all others (`RoomCrypto::load`).
pub proof fn law_a_restart_finds_the_sessions(rows: Seq<StoredSessionView>, c: RoomCryptoView)
    requires
        kept(rows, c),
    ensures
        megolm::stored_outbound(after_writes(rows, c.writes), c.persist_key) == Some(c.outbound),
        megolm::stored_inbound(after_writes(rows, c.writes), c.persist_key) == c.inbound,
{
}

/// The sessions that `RoomCrypto::load_at` finds after everything was written.
pub open spec fn reloaded(
    rows: Seq<StoredSessionView>,
    c: RoomCryptoView,
    now: i64,
) -> RoomCryptoView {
    RoomCryptoView {
        outbound: megolm::stored_outbound(after_writes(rows, c.writes), c.persist_key)->0,
        inbound: megolm::stored_inbound(after_writes(rows, c.writes), c.persist_key),
        messages_since_rotation: 0,
        last_rotation_at: now,
        writes: Seq::empty(),
        ..c
    }
}

/// A reader who is loaded again from the rows reads what it read before: each message gives the same, at
/// the same index or with the same error, and whom it could read it still can.
pub proof fn law_reloaded_readers_read_the_same(
    rows: Seq<StoredSessionView>,
    c: RoomCryptoView,
    now: i64,
)
    requires
        kept(rows, c),
        c.wf(),
    ensures
        reloaded(rows, c, now).wf(),
        megolm::reads_on(c, reloaded(rows, c, now)),
        forall|sender: Seq<char>, session_id: Seq<char>, message: Seq<u8>|
            #![trigger reloaded(rows, c, now).decrypted(sender, session_id, message)]
            reloaded(rows, c, now).decrypted(sender, session_id, message) == c.decrypted(
                sender,
                session_id,
                message,
            ),
        forall|sender: Seq<char>, from: RoomCryptoView| #[trigger]
            c.holds(sender, from) ==> reloaded(rows, c, now).holds(sender, from),
{
    let again = reloaded(rows, c, now);
    assert forall|k: (Seq<char>, Seq<char>)| again.inbound.dom().contains(
        k,
    ) implies megolm::megolm_inbound_opens(#[trigger] again.inbound[k], again.persist_key) by {
        assert(megolm::megolm_inbound_opens(c.inbound[k], c.persist_key));
    }
}

/// Whoever could read a sender still can after that sender is loaded again from the rows.
pub proof fn law_reloaded_senders_are_read(
    rows: Seq<StoredSessionView>,
    c: RoomCryptoView,
    now: i64,
    receiver: RoomCryptoView,
    sender: Seq<char>,
)
    requires
        kept(rows, c),
        receiver.holds(sender, c),
    ensures
        receiver.holds(sender, reloaded(rows, c, now)),
{
}

} // verus!
