//! Files: what one member sends, every other member can save as it was.
use super::{reads_back, sends, sent, shown, shows, writes, written};
use crate::app::attachments;
use crate::app::effects::{EffectView, WriteView};
use crate::app::events::EventView;
use crate::app::facts::{EnvelopeView, FactsView};
use crate::app::handlers::handled;
use crate::app::messages::MessageView;
use crate::app::records::{AttachmentStatus, AttachmentView};
use crate::app::AppView;
use crate::crypto::megolm::RoomCryptoView;
use crate::error::ErrorView;
use crate::files::encryption::{self, FileMetaView};
use crate::files::names;
use crate::files::transfer::{self, CompletedView, ManagerView};
use vstd::prelude::*;

verus! {

/// A chunk says nothing but how far its file is: still coming, or complete. A file is said to be ready exactly
/// when its bytes, which are those with its digest, are in the cache or are written there; then its place in
/// the cache is stored too. Nothing is ever said of another file or in another room.
pub proof fn law_complete_files_are_ready(
    app: AppView,
    f: FactsView,
    e: EnvelopeView,
    msg: MessageView,
    after: AppView,
    eff: Seq<EffectView>,
)
    requires
        handled(app, f, e, msg, after, eff),
        msg is FileChunk,
    ensures
        ({
            let file_id = msg->FileChunk_file_id;
            let path = app.files.cache_dir + "/"@ + file_id;
            let ready = WriteView::AttachmentStatus {
                room_id: e.room_id,
                file_id,
                status: AttachmentStatus::Ready,
            };
            let coming = WriteView::AttachmentStatus {
                room_id: e.room_id,
                file_id,
                status: AttachmentStatus::Downloading,
            };
            let place = WriteView::AttachmentPaths {
                room_id: e.room_id,
                file_id,
                cache_path: Some(path),
                saved_path: None,
            };
            &&& forall|i: int|
                0 <= i < eff.len() ==> (written(#[trigger] eff[i]) matches Some(w) ==> w == ready
                    || w == coming || w == place)
            &&& forall|i: int|
                0 <= i < eff.len() ==> (#[trigger] eff[i] matches EffectView::WriteFile {
                    path: p,
                    contents,
                } ==> p == path && encryption::digest_hex(contents) == file_id && writes(eff, ready))
            &&& writes(eff, ready) <==> shows(eff, EventView::FileReady { file_id })
            &&& writes(eff, ready) <==> writes(eff, place)
            &&& writes(eff, ready) ==> !writes(eff, coming)
            &&& writes(eff, ready) ==> (f.cached_file matches Some(cached)
                && encryption::digest_hex(cached) == file_id) || exists|contents: Seq<u8>|
                encryption::digest_hex(contents) == file_id && #[trigger] eff.contains(
                    EffectView::WriteFile { path, contents },
                )
            &&& forall|i: int|
                0 <= i < eff.len() ==> (shown(#[trigger] eff[i]) matches Some(v) ==> v
                    == EventView::FileReady { file_id } || (v == EventView::FileProgress {
                    file_id,
                    bytes_received: after.files.incoming[file_id].bytes_received,
                    total_bytes: match f.attachment {
                        Some(row) => attachments::size_stored(row.size_bytes),
                        None => transfer::MAX_FILE_SIZE,
                    },
                } && after.files.incoming.dom().contains(file_id)))
            &&& (exists|i: int| 0 <= i < eff.len() && shown(#[trigger] eff[i]) is Some) ==> writes(
                eff,
                ready,
            ) || writes(eff, coming)
            &&& after.rooms == app.rooms
            &&& f.attachment matches Some(row) ==> row.status != AttachmentStatus::Offered && row.status
                != AttachmentStatus::Downloading ==> after == app && eff.len() == 0
        }),
{
    let file_id = msg->FileChunk_file_id;
    if eff.len() > 0 {
        let data = crate::app::dm_key::decoded(Some(msg->data_b64))->0;
        let expected_size = match f.attachment {
            Some(a) => attachments::size_stored(a.size_bytes),
            None => transfer::MAX_FILE_SIZE,
        };
        let said = choose|said: Result<Option<CompletedView>, ErrorView>| #[trigger]
            transfer::chunk_taken(
                app.files,
                file_id,
                msg->chunk_index,
                msg->total_chunks,
                data,
                expected_size,
                f.cached_file,
                after.files,
                said,
            ) && after == app.with_files(after.files) && eff == attachments::chunk_effects(
                after.files,
                e.room_id,
                file_id,
                expected_size,
                said,
            );
        if said is Ok && said->Ok_0 is Some {
            let done = said->Ok_0->0;
            if done.contents is Some {
                assert(eff[0] == EffectView::WriteFile {
                    path: done.cache_path,
                    contents: done.contents->0,
                });
                assert(eff.contains(eff[0]));
                assert(written(eff[1]) is Some && written(eff[2]) is Some && shown(eff[3])
                    is Some);
            } else {
                assert(written(eff[0]) is Some && written(eff[1]) is Some && shown(eff[2])
                    is Some);
            }
        } else {
            assert(written(eff[0]) is Some && shown(eff[1]) is Some);
        }
    }
}

/// The file that a row is about, as both ends know it.
pub open spec fn same_file(a: AttachmentView, b: AttachmentView) -> bool {
    &&& a.room_id == b.room_id
    &&& a.sender_fingerprint == b.sender_fingerprint
    &&& a.file_id == b.file_id
    &&& a.name == b.name
    &&& a.mime == b.mime
    &&& a.size_bytes == b.size_bytes
    &&& a.encrypted == b.encrypted
    &&& a.wrapped_key == b.wrapped_key
    &&& a.nonce == b.nonce
    &&& a.megolm_session_id == b.megolm_session_id
    &&& a.content_hash == b.content_hash
    &&& a.content_mac == b.content_mac
}

/// What was put into the cache by whoever sent a file.
pub open spec fn kept(out: Seq<EffectView>) -> Seq<u8> {
    out[choose|i: int| 0 <= i < out.len() && #[trigger] out[i] is CacheFile]->CacheFile_contents
}

/// What sending a file comes to, whether it is encrypted or not.
proof fn lemma_sent_file(
    a: AppView,
    room_id: Seq<char>,
    name: Seq<char>,
    path: Seq<char>,
    data: Seq<u8>,
    private_meta: bool,
    now: i64,
    a2: AppView,
    out: Seq<EffectView>,
    file_id: Seq<char>,
) -> (r: (Seq<u8>, Option<FileMetaView>, Seq<EffectView>))
    requires
        attachments::file_sent(a, room_id, name, path, data, private_meta, now, a2, out, Ok(file_id)),
    ensures
        ({
            let (wire, meta, first) = r;
            &&& a.rooms.dom().contains(room_id) && !a.rooms[room_id].read_only
            &&& meta is Some == a.rooms[room_id].info.encrypted
            &&& meta is None ==> wire == data && a2 == a
            &&& meta is Some ==> encryption::file_sealed(
                a.rooms[room_id].crypto->0,
                data,
                private_meta,
                a2.rooms[room_id].crypto->0,
                wire,
                meta->0,
            )
            &&& first.len() == (if meta is Some {
                1nat
            } else {
                0nat
            })
            &&& meta is Some ==> sent(first[0]) is None && !(first[0] is CacheFile) && !(written(
                first[0],
            ) matches Some(w) && w is Attachment)
            &&& a.sending(room_id, name, path, wire, meta, now) is Ok
            &&& out == first + a.sending(room_id, name, path, wire, meta, now)->Ok_0.1
            &&& file_id == a.sending(room_id, name, path, wire, meta, now)->Ok_0.0
        }),
{
    if !a.rooms[room_id].info.encrypted {
        let rest = a.sending(room_id, name, path, data, None, now)->Ok_0.1;
        assert(out =~= Seq::<EffectView>::empty() + rest);
        (data, None, Seq::empty())
    } else {
        let (next, wire, meta) = choose|next: RoomCryptoView, wire: Seq<u8>, meta: FileMetaView| #[trigger]
            encryption::file_sealed(
                a.rooms[room_id].crypto->0,
                data,
                private_meta,
                next,
                wire,
                meta,
            ) && a2 == a.with_crypto(room_id, next) && (out, Ok::<Seq<char>, ErrorView>(file_id))
                == attachments::sent_after(
                seq![crate::app::membership::rotation_state(next)],
                a.sending(room_id, name, path, wire, Some(meta), now),
            );
        (wire, Some(meta), seq![crate::app::membership::rotation_state(next)])
    }
}

/// Whoever sends a file has it in their own history as ready, with the path that it came from, and what they
/// keep of it has the digest by which it goes. What they offer, every other member stores as offered: the same
/// file, from them, under the same name, with the same size and the same description.
pub proof fn law_offers_travel(
    a: AppView,
    room_id: Seq<char>,
    name: Seq<char>,
    path: Seq<char>,
    data: Seq<u8>,
    private_meta: bool,
    now: i64,
    a2: AppView,
    out: Seq<EffectView>,
    file_id: Seq<char>,
    msg: MessageView,
    b: AppView,
    f: FactsView,
    e: EnvelopeView,
    b2: AppView,
    eff: Seq<EffectView>,
)
    requires
        attachments::file_sent(a, room_id, name, path, data, private_meta, now, a2, out, Ok(file_id)),
        sends(out, room_id, msg),
        msg is FileOffer,
        handled(b, f, e, msg, b2, eff),
        e.room_id == room_id,
        e.signer == Some(a.our_fp()),
        a.our_fp() != b.our_fp(),
        !f.banned.contains(a.our_fp()),
    ensures
        b2 == b,
        eff.len() == 1,
        exists|mine: AttachmentView, theirs: AttachmentView|
            #![trigger same_file(mine, theirs)]
            same_file(mine, theirs) && writes(out, WriteView::Attachment(mine)) && writes(
                eff,
                WriteView::Attachment(theirs),
            ) && mine.room_id == room_id && mine.sender_fingerprint == a.our_fp() && mine.file_id
                == file_id && mine.name == name && mine.status == AttachmentStatus::Ready
                && mine.saved_path == Some(path) && mine.encrypted
                == a.rooms[room_id].info.encrypted && theirs.status == AttachmentStatus::Offered
                && theirs.saved_path is None && theirs.cache_path is None,
        exists|size: u64|
            #![trigger offer_shown(eff, room_id, file_id, name, size, a.our_fp())]
            offer_shown(eff, room_id, file_id, name, size, a.our_fp()) && offer_shown(
                out,
                room_id,
                file_id,
                name,
                size,
                a.our_fp(),
            ) && size == kept(out).len(),
        encryption::digest_hex(kept(out)) == file_id,
        !a.rooms[room_id].info.encrypted ==> kept(out) == data,
{
    let (wire, meta, first) = lemma_sent_file(
        a,
        room_id,
        name,
        path,
        data,
        private_meta,
        now,
        a2,
        out,
        file_id,
    );
    let rest = a.sending(room_id, name, path, wire, meta, now)->Ok_0.1;
    let n = first.len() as int;
    assert(out[n] == rest[0] && out[n + 1] == rest[1] && out[n + 2] == rest[2] && out[n + 3]
        == rest[3]);
    let k = choose|k: int| 0 <= k < out.len() && sent(#[trigger] out[k]) == Some((room_id, msg));
    lemma_only_offer(a, room_id, name, path, wire, meta, now, first, out, k);
    lemma_kept(a, room_id, name, path, wire, meta, now, first, out);
    let mine = written(out[n + 1])->0->Attachment_0;
    let theirs = written(eff[0])->0->Attachment_0;
    assert(written(out[n + 1]) is Some);
    assert(written(eff[0]) is Some);
    assert(same_file(mine, theirs));
    assert(shown(out[n + 2]) is Some && shown(eff[0]) is Some);
    assert(offer_shown(eff, room_id, file_id, name, wire.len() as u64, a.our_fp()));
}

/// The user is told of a file.
pub open spec fn offer_shown(
    eff: Seq<EffectView>,
    room_id: Seq<char>,
    file_id: Seq<char>,
    name: Seq<char>,
    size_bytes: u64,
    sender: Seq<char>,
) -> bool {
    shows(
        eff,
        EventView::FileOffered { room_id, file_id, name, size_bytes, sender_fingerprint: sender },
    )
}

proof fn lemma_only_offer(
    a: AppView,
    room_id: Seq<char>,
    name: Seq<char>,
    path: Seq<char>,
    wire: Seq<u8>,
    meta: Option<FileMetaView>,
    now: i64,
    first: Seq<EffectView>,
    out: Seq<EffectView>,
    k: int,
)
    requires
        a.sending(room_id, name, path, wire, meta, now) is Ok,
        out == first + a.sending(room_id, name, path, wire, meta, now)->Ok_0.1,
        first.len() <= 1,
        first.len() == 1 ==> sent(first[0]) is None,
        0 <= k < out.len(),
        sent(out[k]) is Some,
        (sent(out[k])->0).1 is FileOffer,
    ensures
        k == first.len() + 3,
{
    let rest = a.sending(room_id, name, path, wire, meta, now)->Ok_0.1;
    let file_id = a.sending(room_id, name, path, wire, meta, now)->Ok_0.0;
    let n = first.len() as int;
    if k >= n {
        assert(out[k] == rest[k - n]);
        if k - n >= 4 {
            let chunks = attachments::chunk_messages(a.our_fp(), room_id, file_id, wire);
            assert(rest[k - n] == chunks[k - n - 4]);
        }
    }
}

proof fn lemma_kept(
    a: AppView,
    room_id: Seq<char>,
    name: Seq<char>,
    path: Seq<char>,
    wire: Seq<u8>,
    meta: Option<FileMetaView>,
    now: i64,
    first: Seq<EffectView>,
    out: Seq<EffectView>,
)
    requires
        a.sending(room_id, name, path, wire, meta, now) is Ok,
        out == first + a.sending(room_id, name, path, wire, meta, now)->Ok_0.1,
        first.len() <= 1,
        first.len() == 1 ==> !(first[0] is CacheFile),
    ensures
        kept(out) == wire,
{
    let rest = a.sending(room_id, name, path, wire, meta, now)->Ok_0.1;
    let file_id = a.sending(room_id, name, path, wire, meta, now)->Ok_0.0;
    let n = first.len() as int;
    assert(out[n] == rest[0]);
    let j = choose|i: int| 0 <= i < out.len() && #[trigger] out[i] is CacheFile;
    assert(out[j] is CacheFile);
    if j >= n {
        assert(out[j] == rest[j - n]);
        if j - n >= 4 {
            let chunks = attachments::chunk_messages(a.our_fp(), room_id, file_id, wire);
            assert(rest[j - n] == chunks[j - n - 4]);
        }
    }
}

/// The `k`-th chunk that comes to a receiver, who was offered the file and does not have it yet.
pub open spec fn chunk_comes(
    sender: Seq<char>,
    room_id: Seq<char>,
    file_id: Seq<char>,
    size: nat,
    msg: MessageView,
    app: AppView,
    f: FactsView,
    e: EnvelopeView,
    after: AppView,
    eff: Seq<EffectView>,
) -> bool {
    &&& handled(app, f, e, msg, after, eff)
    &&& e.room_id == room_id
    &&& !f.banned.contains(sender)
    &&& f.cached_file is None
    &&& f.attachment matches Some(row) && (row.status == AttachmentStatus::Offered || row.status
        == AttachmentStatus::Downloading) && attachments::size_stored(row.size_bytes) == size
}

/// All chunks of a sent file come to a receiver, in whatever order.
pub open spec fn all_come(
    sender: Seq<char>,
    room_id: Seq<char>,
    file_id: Seq<char>,
    out: Seq<EffectView>,
    order: Seq<u32>,
    msgs: Seq<MessageView>,
    apps: Seq<AppView>,
    facts: Seq<FactsView>,
    envs: Seq<EnvelopeView>,
    effs: Seq<Seq<EffectView>>,
) -> bool {
    &&& transfer::is_chunk_order(order, kept(out))
    &&& msgs.len() == order.len() && facts.len() == order.len() && envs.len() == order.len()
        && effs.len() == order.len() && apps.len() == order.len() + 1
    &&& forall|k: int|
        0 <= k < order.len() ==> #[trigger] msgs[k] is FileChunk && msgs[k]->chunk_index == order[k]
            && sends(out, room_id, msgs[k]) && chunk_comes(
            sender,
            room_id,
            file_id,
            kept(out).len(),
            msgs[k],
            apps[k],
            facts[k],
            envs[k],
            apps[k + 1],
            effs[k],
        )
}

/// A file that was sent can be saved by every member whom its offer and its chunks reach, in whatever order
/// the chunks come: with the last one it is complete, what is written to the cache is what was sent, the row
/// of the file says that it is ready and where it is, the file may be saved from there, and what is saved is
/// what the sender had. In an encrypted room that needs the sender's session.
pub proof fn law_sent_files_can_be_saved(
    a: AppView,
    room_id: Seq<char>,
    name: Seq<char>,
    path: Seq<char>,
    data: Seq<u8>,
    private_meta: bool,
    now: i64,
    a2: AppView,
    out: Seq<EffectView>,
    file_id: Seq<char>,
    order: Seq<u32>,
    msgs: Seq<MessageView>,
    apps: Seq<AppView>,
    facts: Seq<FactsView>,
    envs: Seq<EnvelopeView>,
    effs: Seq<Seq<EffectView>>,
    rows: Map<(Seq<char>, Seq<char>), AttachmentView>,
    saver: AppView,
)
    requires
        attachments::file_sent(a, room_id, name, path, data, private_meta, now, a2, out, Ok(file_id)),
        all_come(a.our_fp(), room_id, file_id, out, order, msgs, apps, facts, envs, effs),
        names::valid_file_id(file_id),
        forall|i: int| #[trigger] reads_back(transfer::chunk_of(kept(out), i)),
        transfer::can_take(apps[0].files, kept(out)),
        !apps[0].cancelled.contains((room_id, file_id)),
        a.our_fp() != apps[0].our_fp(),
        rows.dom().contains((room_id, file_id)),
        ({
            let row = rows[(room_id, file_id)];
            &&& row.sender_fingerprint == a.our_fp()
            &&& exists|mine: AttachmentView| #[trigger]
                same_file(mine, row) && writes(out, WriteView::Attachment(mine))
        }),
        saver.our_fp() == apps[0].our_fp(),
        a.rooms[room_id].info.encrypted ==> saver.crypto_of(room_id) is Some && saver.crypto_of(
            room_id,
        )->0.holds(a.our_fp(), a.rooms[room_id].crypto->0),
    ensures
        ({
            let place = apps[0].files.cache_dir + "/"@ + file_id;
            let last = effs.last();
            let row = attachments::rows_after(rows, last)[(room_id, file_id)];
            &&& last.contains(EffectView::WriteFile { path: place, contents: kept(out) })
            &&& shows(last, EventView::FileReady { file_id })
            &&& attachments::rows_after(rows, last).dom().contains((room_id, file_id))
            &&& row.status == AttachmentStatus::Ready
            &&& row.cache_path == Some(place)
            &&& saver.save_source(Some(row), false) == Ok::<attachments::SaveSourceView, ErrorView>(
                attachments::SaveSourceView::Cache,
            )
            &&& attachments::saved_contents(saver, room_id, row, kept(out)) == Ok::<
                Seq<u8>,
                ErrorView,
            >(data)
        }),
        forall|k: int|
            0 <= k < order.len() - 1 ==> !shows(#[trigger] effs[k], EventView::FileReady { file_id })
                && writes(
                effs[k],
                WriteView::AttachmentStatus {
                    room_id,
                    file_id,
                    status: AttachmentStatus::Downloading,
                },
            ),
{
    let (wire, meta, first) = lemma_sent_file(
        a,
        room_id,
        name,
        path,
        data,
        private_meta,
        now,
        a2,
        out,
        file_id,
    );
    lemma_kept(a, room_id, name, path, wire, meta, now, first, out);
    let n = order.len() as int;
    let states = Seq::new(apps.len(), |k: int| apps[k].files);
    let said = Seq::new(
        order.len(),
        |k: int|
            choose|s: Result<Option<CompletedView>, ErrorView>|
                step_said(wire, order, states, k, s) && effs[k] == attachments::chunk_effects(
                    states[k + 1],
                    room_id,
                    file_id,
                    wire.len() as u64,
                    s,
                ),
    );
    assert(wire.len() <= transfer::MAX_FILE_SIZE);
    assert forall|k: int| 0 <= k < n implies #[trigger] transfer::chunk_delivered(
        wire,
        order,
        states,
        said,
        k,
    ) && effs[k] == attachments::chunk_effects(
        states[k + 1],
        room_id,
        file_id,
        wire.len() as u64,
        said[k],
    ) by {
        lemma_steps(a, room_id, name, path, wire, meta, now, first, out, file_id, order, msgs, apps, facts, envs, effs, k);
    }
    assert(transfer::delivered(wire, order, states, said));
    transfer::law_sent_files_arrive_whole(wire);
    assert(transfer::arrived_whole(wire, states, said));
    let last = effs.last();
    assert(transfer::chunk_delivered(wire, order, states, said, n - 1));
    let place = apps[0].files.path_of(file_id);
    let done = said.last()->Ok_0->0;
    assert(said[n - 1] == said.last());
    assert(last == seq![
        EffectView::WriteFile { path: place, contents: wire },
        EffectView::Store(
            WriteView::AttachmentPaths {
                room_id,
                file_id,
                cache_path: Some(place),
                saved_path: None,
            },
        ),
        EffectView::Store(
            WriteView::AttachmentStatus { room_id, file_id, status: AttachmentStatus::Ready },
        ),
        EffectView::Emit(EventView::FileReady { file_id }),
    ]) by {
        assert(last =~= attachments::chunk_effects(
            states[n],
            room_id,
            file_id,
            wire.len() as u64,
            said[n - 1],
        ));
    }
    assert(last[0] == EffectView::WriteFile { path: place, contents: wire });
    assert(shown(last[3]) is Some);
    reveal_with_fuel(attachments::rows_after, 5);
    let w3 = last.drop_last();
    let w2 = w3.drop_last();
    let w1 = w2.drop_last();
    assert(w1.drop_last() =~= Seq::<EffectView>::empty());
    let row0 = rows[(room_id, file_id)];
    let row = attachments::rows_after(rows, last)[(room_id, file_id)];
    assert(row.status == AttachmentStatus::Ready && row.encrypted == row0.encrypted);
    let mine = choose|mine: AttachmentView| #[trigger]
        same_file(mine, row0) && writes(out, WriteView::Attachment(mine));
    lemma_only_row(a, room_id, name, path, wire, meta, now, first, out, file_id, mine);
    if meta is Some {
        assert(attachments::stored_meta(row) == Ok::<FileMetaView, ErrorView>(meta->0));
        attachments::law_sent_files_are_saved_as_they_were(
            a.our_fp(),
            a.rooms[room_id].crypto->0,
            data,
            private_meta,
            a2.rooms[room_id].crypto->0,
            wire,
            meta->0,
            saver,
            room_id,
            row,
        );
    }
    assert forall|k: int| 0 <= k < n - 1 implies !shows(
        #[trigger] effs[k],
        EventView::FileReady { file_id },
    ) && writes(
        effs[k],
        WriteView::AttachmentStatus { room_id, file_id, status: AttachmentStatus::Downloading },
    ) by {
        assert(transfer::chunk_delivered(wire, order, states, said, k));
        assert(said[k] == Ok::<Option<CompletedView>, ErrorView>(None));
        assert(written(effs[k][0]) is Some);
    }
}

spec fn step_said(
    wire: Seq<u8>,
    order: Seq<u32>,
    states: Seq<ManagerView>,
    k: int,
    s: Result<Option<CompletedView>, ErrorView>,
) -> bool {
    transfer::chunk_taken(
        states[k],
        encryption::digest_hex(wire),
        order[k],
        transfer::chunk_count(wire.len()) as u32,
        transfer::chunk_of(wire, order[k] as int),
        wire.len() as u64,
        None,
        states[k + 1],
        s,
    )
}

proof fn lemma_only_row(
    a: AppView,
    room_id: Seq<char>,
    name: Seq<char>,
    path: Seq<char>,
    wire: Seq<u8>,
    meta: Option<FileMetaView>,
    now: i64,
    first: Seq<EffectView>,
    out: Seq<EffectView>,
    file_id: Seq<char>,
    mine: AttachmentView,
)
    requires
        a.sending(room_id, name, path, wire, meta, now) is Ok,
        out == first + a.sending(room_id, name, path, wire, meta, now)->Ok_0.1,
        file_id == a.sending(room_id, name, path, wire, meta, now)->Ok_0.0,
        first.len() <= 1,
        first.len() == 1 ==> !(written(first[0]) matches Some(w) && w is Attachment),
        writes(out, WriteView::Attachment(mine)),
    ensures
        mine.encrypted == meta is Some,
        meta is Some ==> attachments::stored_meta(mine) == Ok::<FileMetaView, ErrorView>(meta->0),
{
    let rest = a.sending(room_id, name, path, wire, meta, now)->Ok_0.1;
    let n = first.len() as int;
    let j = choose|j: int| 0 <= j < out.len() && written(#[trigger] out[j]) == Some(
        WriteView::Attachment(mine),
    );
    if j >= n {
        assert(out[j] == rest[j - n]);
        if j - n >= 4 {
            let chunks = attachments::chunk_messages(a.our_fp(), room_id, file_id, wire);
            assert(rest[j - n] == chunks[j - n - 4]);
        }
    }
}

proof fn lemma_steps(
    a: AppView,
    room_id: Seq<char>,
    name: Seq<char>,
    path: Seq<char>,
    wire: Seq<u8>,
    meta: Option<FileMetaView>,
    now: i64,
    first: Seq<EffectView>,
    out: Seq<EffectView>,
    file_id: Seq<char>,
    order: Seq<u32>,
    msgs: Seq<MessageView>,
    apps: Seq<AppView>,
    facts: Seq<FactsView>,
    envs: Seq<EnvelopeView>,
    effs: Seq<Seq<EffectView>>,
    k: int,
)
    requires
        a.sending(room_id, name, path, wire, meta, now) is Ok,
        out == first + a.sending(room_id, name, path, wire, meta, now)->Ok_0.1,
        file_id == a.sending(room_id, name, path, wire, meta, now)->Ok_0.0,
        first.len() <= 1,
        first.len() == 1 ==> sent(first[0]) is None,
        kept(out) == wire,
        all_come(a.our_fp(), room_id, file_id, out, order, msgs, apps, facts, envs, effs),
        forall|i: int| #[trigger] reads_back(transfer::chunk_of(wire, i)),
        !apps[0].cancelled.contains((room_id, file_id)),
        a.our_fp() != apps[0].our_fp(),
        0 <= k < order.len(),
    ensures
        ({
            let states = Seq::new(apps.len(), |i: int| apps[i].files);
            exists|s: Result<Option<CompletedView>, ErrorView>|
                step_said(wire, order, states, k, s) && effs[k] == attachments::chunk_effects(
                    states[k + 1],
                    room_id,
                    file_id,
                    wire.len() as u64,
                    s,
                )
        }),
        apps[k + 1].cancelled == apps[0].cancelled,
        apps[k + 1].our_fp() == apps[0].our_fp(),
    decreases k,
{
    if k > 0 {
        lemma_steps(a, room_id, name, path, wire, meta, now, first, out, file_id, order, msgs, apps, facts, envs, effs, k - 1);
    }
    let states = Seq::new(apps.len(), |i: int| apps[i].files);
    let msg = msgs[k];
    let rest = a.sending(room_id, name, path, wire, meta, now)->Ok_0.1;
    let chunks = attachments::chunk_messages(a.our_fp(), room_id, file_id, wire);
    let n = first.len() as int;
    let j = choose|j: int| 0 <= j < out.len() && sent(#[trigger] out[j]) == Some((room_id, msg));
    assert(out[j] == rest[j - n]);
    assert(j - n >= 4);
    assert(rest[j - n] == chunks[j - n - 4]);
    let i = j - n - 4;
    assert(transfer::chunk_count(wire.len()) <= u32::MAX);
    assert(i as u32 == order[k] && i == order[k] as int);
    assert(reads_back(transfer::chunk_of(wire, i)));
    let data = transfer::chunk_of(wire, i);
    assert(crate::app::dm_key::decoded(Some(msg->data_b64)) == Some(data));
    let said = choose|said: Result<Option<CompletedView>, ErrorView>| #[trigger]
        transfer::chunk_taken(
            apps[k].files,
            file_id,
            order[k],
            transfer::chunk_count(wire.len()) as u32,
            data,
            wire.len() as u64,
            facts[k].cached_file,
            apps[k + 1].files,
            said,
        ) && apps[k + 1] == apps[k].with_files(apps[k + 1].files) && effs[k]
            == attachments::chunk_effects(
            apps[k + 1].files,
            room_id,
            file_id,
            wire.len() as u64,
            said,
        );
    assert(step_said(wire, order, states, k, said));
}

/// A file that was saved is found where it was saved, and can be saved again; that it was is stored.
pub proof fn law_saved_files_are_found(
    app: AppView,
    rows: Map<(Seq<char>, Seq<char>), AttachmentView>,
    room_id: Seq<char>,
    file_id: Seq<char>,
    path: Seq<char>,
)
    requires
        rows.dom().contains((room_id, file_id)),
    ensures
        ({
            let after = attachments::rows_after(
                rows,
                attachments::saved_effects(room_id, file_id, path),
            );
            let row = after[(room_id, file_id)];
            &&& after.dom() == rows.dom()
            &&& row.status == AttachmentStatus::Saved
            &&& attachments::path_to_open(Some(row)) == Ok::<Seq<char>, ErrorView>(path)
            &&& app.save_source(Some(row), true) is Ok
            &&& row.cache_path == rows[(room_id, file_id)].cache_path
            &&& shows(
                attachments::saved_effects(room_id, file_id, path),
                EventView::FileSaved { file_id, path },
            )
            &&& forall|k: (Seq<char>, Seq<char>)|
                k != (room_id, file_id) && rows.dom().contains(k) ==> #[trigger] after[k] == rows[k]
        }),
{
    let eff = attachments::saved_effects(room_id, file_id, path);
    reveal_with_fuel(attachments::rows_after, 4);
    assert(eff.drop_last().drop_last().drop_last() =~= Seq::<EffectView>::empty());
    assert(attachments::rows_after(rows, eff).dom() =~= rows.dom());
    assert(shown(eff[2]) is Some);
}

/// Only a file that is ready, or was saved, can be saved; and a file of our own from an encrypted room only
/// from where we sent it, if it is still there.
pub proof fn law_only_ready_files_are_saved(
    app: AppView,
    row: AttachmentView,
    original_exists: bool,
)
    ensures
        app.save_source(None, original_exists) is Err,
        app.save_source(Some(row), original_exists) is Ok ==> row.status == AttachmentStatus::Ready
            || row.status == AttachmentStatus::Saved,
        (row.status == AttachmentStatus::Ready || row.status == AttachmentStatus::Saved) && !(
        row.encrypted && row.sender_fingerprint == app.our_fp()) ==> app.save_source(
            Some(row),
            original_exists,
        ) == Ok::<attachments::SaveSourceView, ErrorView>(attachments::SaveSourceView::Cache),
        row.encrypted && row.sender_fingerprint == app.our_fp() ==> (app.save_source(
            Some(row),
            original_exists,
        ) matches Ok(source) ==> original_exists && row.saved_path is Some && source
            == attachments::SaveSourceView::Original(row.saved_path->0)),
{
}

/// A file that is offered again after it was given up may come: its chunks are no longer refused for that.
pub proof fn law_offers_lift_a_cancellation(
    app: AppView,
    room_id: Seq<char>,
    file_id: Seq<char>,
    size_bytes: u64,
)
    ensures
        app.given_up(room_id, file_id).cancelled.contains((room_id, file_id)),
        !app.given_up(room_id, file_id).files.incoming.dom().contains(file_id),
        !app.given_up(room_id, file_id).offer_stored(room_id, file_id, size_bytes).cancelled.contains(
            (room_id, file_id),
        ),
        forall|other: (Seq<char>, Seq<char>)|
            other != (room_id, file_id) ==> (#[trigger] app.given_up(
                room_id,
                file_id,
            ).cancelled.contains(other) == app.cancelled.contains(other)),
        app.files.incoming.dom().contains(file_id) ==> app.offer_stored(
            room_id,
            file_id,
            size_bytes,
        ).files.incoming[file_id].expected_size == size_bytes,
        app.given_up(room_id, file_id).rooms == app.rooms,
{
}

} // verus!
