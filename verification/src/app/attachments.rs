//! Files in rooms: offers and chunks that arrive, files that we send, and files that we save.
use crate::app::dm_key;
use crate::app::effects::{self, Effect, EffectView, Write, WriteView};
use crate::app::events::{AppEvent, EventView};
use crate::app::facts::{Envelope, EnvelopeView, FactsView, RoomFacts};
use crate::app::membership::{rotation_effect, rotation_state};
use crate::app::messages::{self, MessageView, RoomMessage};
use crate::app::records::{AttachmentStatus, AttachmentView, StoredAttachment};
use crate::app::{ActiveRoom, AppHandle, AppView, RoomView};
use crate::bytes;
use crate::crypto::megolm::{RoomCrypto, RoomCryptoView};
use crate::crypto::primitives;
use crate::error::{ErrorView, HuddleError};
use crate::files::encryption::{self, EncryptedFileMeta, FileMetaView};
use crate::files::names;
use crate::files::transfer::{self, CompletedView, ManagerView, OutgoingPlan};
use crate::text;
use vstd::prelude::*;

verus! {

// ---------------------------------------------------------------------------------------------
// Sizes on disk
// ---------------------------------------------------------------------------------------------

/// A size as it is on disk, where it has a sign.
pub open spec fn stored_size(n: u64) -> i64 {
    if n <= i64::MAX {
        n as i64
    } else {
        (n - 0x1_0000_0000_0000_0000) as i64
    }
}

/// The size that stands on disk.
pub open spec fn size_stored(n: i64) -> u64 {
    if n >= 0 {
        n as u64
    } else {
        (n + 0x1_0000_0000_0000_0000) as u64
    }
}

fn to_stored_size(n: u64) -> (r: i64)
    ensures
        r == stored_size(n),
{
    if n <= i64::MAX as u64 {
        n as i64
    } else {
        (n as i128 - 0x1_0000_0000_0000_0000) as i64
    }
}

fn from_stored_size(n: i64) -> (r: u64)
    ensures
        r == size_stored(n),
{
    if n >= 0 {
        n as u64
    } else {
        (n as i128 + 0x1_0000_0000_0000_0000) as u64
    }
}

/// Every size comes back from disk as it was stored.
pub proof fn law_sizes_survive_storage(n: u64)
    ensures
        size_stored(stored_size(n)) == n,
{
}

// ---------------------------------------------------------------------------------------------
// What becomes of the state
// ---------------------------------------------------------------------------------------------

/// A field of the description of an encrypted file.
pub open spec fn meta_field(
    meta: Option<FileMetaView>,
    field: spec_fn(FileMetaView) -> Seq<char>,
) -> Option<Seq<char>> {
    match meta {
        Some(m) => Some(field(m)),
        None => None,
    }
}

/// The row of a file.
pub open spec fn attachment_row(
    room_id: Seq<char>,
    sender: Seq<char>,
    file_id: Seq<char>,
    name: Seq<char>,
    mime: Option<Seq<char>>,
    size_bytes: u64,
    status: AttachmentStatus,
    cache_path: Option<Seq<char>>,
    saved_path: Option<Seq<char>>,
    meta: Option<FileMetaView>,
    now: i64,
) -> AttachmentView {
    AttachmentView {
        id: 0,
        room_id,
        message_id: None,
        sender_fingerprint: sender,
        file_id,
        name,
        mime,
        size_bytes: stored_size(size_bytes),
        status,
        cache_path,
        saved_path,
        error: None,
        encrypted: meta is Some,
        wrapped_key: meta_field(meta, |m: FileMetaView| m.wrapped_key_b64),
        nonce: meta_field(meta, |m: FileMetaView| m.nonce_b64),
        megolm_session_id: meta_field(meta, |m: FileMetaView| m.megolm_session_id),
        content_hash: meta_field(meta, |m: FileMetaView| m.content_hash),
        content_mac: match meta {
            Some(m) => m.content_mac_b64,
            None => None,
        },
        created_at: now,
    }
}

/// A file that takes no more chunks.
pub open spec fn is_settled(status: AttachmentStatus) -> bool {
    status == AttachmentStatus::Cancelled || status == AttachmentStatus::Failed || status
        == AttachmentStatus::Ready || status == AttachmentStatus::Saved
}

/// What a chunk causes. One that is refused leaves the file as it is.
pub open spec fn chunk_effects(
    files: ManagerView,
    room_id: Seq<char>,
    file_id: Seq<char>,
    expected_size: u64,
    said: Result<Option<CompletedView>, ErrorView>,
) -> Seq<EffectView> {
    match said {
        Err(_) => Seq::empty(),
        Ok(None) => seq![
            EffectView::Store(
                WriteView::AttachmentStatus {
                    room_id,
                    file_id,
                    status: AttachmentStatus::Downloading,
                },
            ),
            EffectView::Emit(
                EventView::FileProgress {
                    file_id,
                    bytes_received: if files.incoming.dom().contains(file_id) {
                        files.incoming[file_id].bytes_received
                    } else {
                        0
                    },
                    total_bytes: expected_size,
                },
            ),
        ],
        Ok(Some(done)) => (match done.contents {
            Some(contents) => seq![EffectView::WriteFile { path: done.cache_path, contents }],
            None => Seq::empty(),
        }) + seq![
            EffectView::Store(
                WriteView::AttachmentPaths {
                    room_id,
                    file_id,
                    cache_path: Some(done.cache_path),
                    saved_path: None,
                },
            ),
            EffectView::Store(
                WriteView::AttachmentStatus { room_id, file_id, status: AttachmentStatus::Ready },
            ),
            EffectView::Emit(EventView::FileReady { file_id }),
        ],
    }
}

impl AppView {
    pub open spec fn with_cancelled(self, cancelled: Set<(Seq<char>, Seq<char>)>) -> Self {
        AppView { cancelled, ..self }
    }

    pub open spec fn with_files(self, files: ManagerView) -> Self {
        AppView { files, ..self }
    }

    /// A file is offered: by whom it says, signed, and not by somebody who is banned.
    pub open spec fn on_file_offer(
        self,
        f: FactsView,
        e: EnvelopeView,
        sender: Seq<char>,
        file_id: Seq<char>,
        name: Seq<char>,
        size_bytes: u64,
        mime: Option<Seq<char>>,
        meta: Option<FileMetaView>,
    ) -> (Self, Seq<EffectView>) {
        if self.vouched(f, e, sender) {
            (
                self,
                seq![
                    EffectView::StoreOffer(
                        attachment_row(
                            e.room_id,
                            sender,
                            file_id,
                            name,
                            mime,
                            size_bytes,
                            AttachmentStatus::Offered,
                            None,
                            None,
                            meta,
                            e.now,
                        ),
                        EventView::FileOffered {
                            room_id: e.room_id,
                            file_id,
                            name,
                            size_bytes,
                            sender_fingerprint: sender,
                        },
                    ),
                ],
            )
        } else {
            (self, seq![])
        }
    }

    /// A chunk goes to the files that are being received.
    pub open spec fn chunk_handled(
        self,
        f: FactsView,
        e: EnvelopeView,
        file_id: Seq<char>,
        chunk_index: u32,
        total_chunks: u32,
        data: Seq<u8>,
        expected_size: u64,
        after: Self,
        eff: Seq<EffectView>,
    ) -> bool {
        exists|said: Result<Option<CompletedView>, ErrorView>| #[trigger]
            transfer::chunk_taken(
                self.files,
                file_id,
                chunk_index,
                total_chunks,
                data,
                expected_size,
                f.cached_file,
                after.files,
                said,
            ) && after == self.with_files(after.files) && eff == chunk_effects(
                after.files,
                e.room_id,
                file_id,
                expected_size,
                said,
            )
    }

    /// A chunk of a file arrives. Nobody vouches for it: the digest of the whole file does. A file that
    /// is done, or that the user gave up in this room, takes no more chunks.
    pub open spec fn on_file_chunk(
        self,
        f: FactsView,
        e: EnvelopeView,
        sender: Seq<char>,
        file_id: Seq<char>,
        chunk_index: u32,
        total_chunks: u32,
        data_b64: Seq<char>,
        after: Self,
        eff: Seq<EffectView>,
    ) -> bool {
        let settled = match f.attachment {
            Some(a) => is_settled(a.status),
            None => false,
        };
        let expected_size = match f.attachment {
            Some(a) => size_stored(a.size_bytes),
            None => transfer::MAX_FILE_SIZE,
        };
        match dm_key::decoded(Some(data_b64)) {
            Some(data) => if sender == self.our_fp() || f.banned.contains(sender) || settled
                || self.cancelled.contains((e.room_id, file_id)) {
                after == self && eff == Seq::<EffectView>::empty()
            } else {
                self.chunk_handled(
                    f,
                    e,
                    file_id,
                    chunk_index,
                    total_chunks,
                    data,
                    expected_size,
                    after,
                    eff,
                )
            },
            None => after == self && eff == Seq::<EffectView>::empty(),
        }
    }

    /// What a file of ours causes, once it is in the form in which it travels: it is kept, stored, shown, and
    /// offered, and its chunks follow.
    pub open spec fn sending(
        self,
        room_id: Seq<char>,
        name: Seq<char>,
        path: Seq<char>,
        wire: Seq<u8>,
        meta: Option<FileMetaView>,
        now: i64,
    ) -> Result<(Seq<char>, Seq<EffectView>), ErrorView> {
        match transfer::plan_fault(wire.len()) {
            Some(e) => Err(e),
            None => {
                let file_id = encryption::digest_hex(wire);
                let count = transfer::chunk_count(wire.len());
                Ok(
                    (
                        file_id,
                        seq![
                            EffectView::CacheFile {
                                path: self.files.path_of(file_id),
                                contents: wire,
                            },
                            EffectView::MustStore(
                                WriteView::Attachment(
                                    attachment_row(
                                        room_id,
                                        self.our_fp(),
                                        file_id,
                                        name,
                                        names::mime_of(name),
                                        wire.len() as u64,
                                        AttachmentStatus::Ready,
                                        Some(self.files.path_of(file_id)),
                                        Some(path),
                                        meta,
                                        now,
                                    ),
                                ),
                            ),
                            EffectView::Emit(
                                EventView::FileOffered {
                                    room_id,
                                    file_id,
                                    name,
                                    size_bytes: wire.len() as u64,
                                    sender_fingerprint: self.our_fp(),
                                },
                            ),
                            EffectView::PublishSigned {
                                room_id,
                                message: MessageView::FileOffer {
                                    sender_fingerprint: self.our_fp(),
                                    file_id,
                                    name,
                                    size_bytes: wire.len() as u64,
                                    mime: names::mime_of(name),
                                    chunk_count: count as u32,
                                    encrypted_meta: meta,
                                },
                            },
                        ] + chunk_messages(self.our_fp(), room_id, file_id, wire),
                    ),
                )
            },
        }
    }
}

/// The chunks of a file, as they are sent.
pub open spec fn chunk_messages(
    our_fp: Seq<char>,
    room_id: Seq<char>,
    file_id: Seq<char>,
    wire: Seq<u8>,
) -> Seq<EffectView> {
    let count = transfer::chunk_count(wire.len());
    Seq::new(
        count,
        |i: int|
            EffectView::PublishPaced {
                room_id,
                message: MessageView::FileChunk {
                    sender_fingerprint: our_fp,
                    file_id,
                    chunk_index: i as u32,
                    total_chunks: count as u32,
                    data_b64: primitives::base64_text(transfer::chunk_of(wire, i)),
                },
            },
    )
}

/// A file id and effects, or an error, by their views.
pub open spec fn sent_view(r: Result<(String, Vec<Effect>), HuddleError>) -> Result<
    (Seq<char>, Seq<EffectView>),
    ErrorView,
> {
    match r {
        Ok(k) => Ok((k.0@, effects::effects(k.1@))),
        Err(e) => Err(e@),
    }
}

/// What comes of sending a file, after what was caused already: its effects and its id, or why it is not
/// sent.
pub open spec fn sent_after(
    first: Seq<EffectView>,
    sending: Result<(Seq<char>, Seq<EffectView>), ErrorView>,
) -> (Seq<EffectView>, Result<Seq<char>, ErrorView>) {
    match sending {
        Ok(k) => (first + k.1, Ok(k.0)),
        Err(e) => (first, Err(e)),
    }
}

/// We send a file. In an encrypted room the file is encrypted, under a key that is drawn at random, and the
/// state of the session that the key goes through is stored.
pub open spec fn file_sent(
    before: AppView,
    room_id: Seq<char>,
    name: Seq<char>,
    path: Seq<char>,
    data: Seq<u8>,
    private_meta: bool,
    now: i64,
    after: AppView,
    eff: Seq<EffectView>,
    r: Result<Seq<char>, ErrorView>,
) -> bool {
    let fault = if !before.rooms.dom().contains(room_id) {
        Some(ErrorView::Other("not in room "@ + room_id))
    } else if before.rooms[room_id].read_only {
        Some(ErrorView::Other("this room is read-only — you can't send files"@))
    } else if before.rooms[room_id].info.encrypted && data.len() >= primitives::SEAL_LIMIT {
        Some(ErrorView::Other("chacha20 encrypt: aead::Error"@))
    } else if before.rooms[room_id].info.encrypted && !before.rooms[room_id].crypto->0.can_encrypt() {
        Some(ErrorView::Session("megolm session is exhausted"@))
    } else {
        None
    };
    match fault {
        Some(e) => after == before && eff == Seq::<EffectView>::empty() && r == Err::<
            Seq<char>,
            ErrorView,
        >(e),
        None => if !before.rooms[room_id].info.encrypted {
            after == before && (eff, r) == sent_after(
                Seq::empty(),
                before.sending(room_id, name, path, data, None, now),
            )
        } else {
            exists|next: RoomCryptoView, wire: Seq<u8>, meta: FileMetaView| #[trigger]
                encryption::file_sealed(
                    before.rooms[room_id].crypto->0,
                    data,
                    private_meta,
                    next,
                    wire,
                    meta,
                ) && after == before.with_crypto(room_id, next) && (eff, r) == sent_after(
                    seq![rotation_state(next)],
                    before.sending(room_id, name, path, wire, Some(meta), now),
                )
        },
    }
}

// ---------------------------------------------------------------------------------------------
// The functions
// ---------------------------------------------------------------------------------------------

fn row(
    room_id: &str,
    sender: &str,
    file_id: &str,
    name: &str,
    mime: Option<String>,
    size_bytes: u64,
    status: AttachmentStatus,
    cache_path: Option<String>,
    saved_path: Option<String>,
    meta: &Option<EncryptedFileMeta>,
    now: i64,
) -> (r: StoredAttachment)
    ensures
        r@ == attachment_row(
            room_id@,
            sender@,
            file_id@,
            name@,
            text::opt(mime),
            size_bytes,
            status,
            text::opt(cache_path),
            text::opt(saved_path),
            messages::meta_opt(*meta),
            now,
        ),
{
    let (wrapped_key, nonce, megolm_session_id, content_hash, content_mac) = match meta {
        Some(m) => (
            Some(m.wrapped_key_b64.clone()),
            Some(m.nonce_b64.clone()),
            Some(m.megolm_session_id.clone()),
            Some(m.content_hash.clone()),
            text::opt_copy(&m.content_mac_b64),
        ),
        None => (None, None, None, None, None),
    };
    StoredAttachment {
        id: 0,
        room_id: text::owned(room_id),
        message_id: None,
        sender_fingerprint: text::owned(sender),
        file_id: text::owned(file_id),
        name: text::owned(name),
        mime,
        size_bytes: to_stored_size(size_bytes),
        status,
        cache_path,
        saved_path,
        error: None,
        encrypted: meta.is_some(),
        wrapped_key,
        nonce,
        megolm_session_id,
        content_hash,
        content_mac,
        created_at: now,
    }
}

impl AppHandle {
    pub(crate) fn take_file_offer(
        &self,
        f: &RoomFacts,
        e: &Envelope,
        sender: String,
        file_id: String,
        name: String,
        size_bytes: u64,
        mime: Option<String>,
        meta: Option<EncryptedFileMeta>,
    ) -> (r: Vec<Effect>)
        ensures
            (self@, effects::effects(r@)) == self@.on_file_offer(
                f@,
                e@,
                sender@,
                file_id@,
                name@,
                size_bytes,
                text::opt(mime),
                messages::meta_opt(meta),
            ),
    {
        let mut out: Vec<Effect> = Vec::new();
        assert(effects::effects(out@) =~= seq![]);
        if text::same(sender.as_str(), self.identity.fingerprint()) || !e.signed_by(
            sender.as_str(),
        ) || f.is_banned(sender.as_str()) {
            return out;
        }
        let attachment: StoredAttachment = row(
            e.room_id.as_str(),
            sender.as_str(),
            file_id.as_str(),
            name.as_str(),
            mime,
            size_bytes,
            AttachmentStatus::Offered,
            None,
            None,
            &meta,
            e.now,
        );
        out.push(
            Effect::StoreOffer(
                attachment,
                AppEvent::FileOffered {
                    room_id: e.room_id.clone(),
                    file_id,
                    name,
                    size_bytes,
                    sender_fingerprint: sender,
                },
            ),
        );
        assert(effects::effects(out@) =~= seq![out@[0]@]);
        out
    }

    /// An offer is stored: the size that it says is the size of the file, and if the user gave the file up
    /// before, it may come now.
    pub fn file_offer_stored(&mut self, room_id: &str, file_id: &str, size_bytes: u64)
        requires
            old(self)@.wf(),
        ensures
            final(self)@.wf(),
            final(self)@ == old(self)@.offer_stored(room_id@, file_id@, size_bytes),
    {
        let ghost before = self@;
        self.file_manager.set_expected_size(file_id, size_bytes);
        self.cancelled_files.remove(room_id, file_id);
        proof {
            assert(self@.cancelled =~= before.cancelled.remove((room_id@, file_id@)));
            assert(self@ =~= before.with_cancelled(self@.cancelled).with_files(
                self.file_manager@,
            ));
        }
    }

    pub(crate) fn take_file_chunk(
        &mut self,
        f: &RoomFacts,
        e: &Envelope,
        sender: String,
        file_id: String,
        chunk_index: u32,
        total_chunks: u32,
        data_b64: String,
    ) -> (r: Vec<Effect>)
        requires
            old(self)@.wf(),
        ensures
            final(self)@.wf(),
            old(self)@.on_file_chunk(
                f@,
                e@,
                sender@,
                file_id@,
                chunk_index,
                total_chunks,
                data_b64@,
                final(self)@,
                effects::effects(r@),
            ),
    {
        let ghost before = self@;
        let mut out: Vec<Effect> = Vec::new();
        assert(effects::effects(out@) =~= Seq::<EffectView>::empty());
        if text::same(sender.as_str(), self.identity.fingerprint()) || f.is_banned(
            sender.as_str(),
        ) || self.cancelled_files.contains_key(e.room_id.as_str(), file_id.as_str()) {
            return out;
        }
        let data: Vec<u8> = match dm_key::decode(Some(data_b64.as_str())) {
            None => {
                return out;
            },
            Some(d) => d,
        };
        let expected_size: u64 = match &f.attachment {
            None => transfer::MAX_FILE_SIZE,
            Some(a) => {
                if a.status == AttachmentStatus::Cancelled || a.status == AttachmentStatus::Failed
                    || a.status == AttachmentStatus::Ready || a.status == AttachmentStatus::Saved {
                    return out;
                }
                from_stored_size(a.size_bytes)
            },
        };
        let cached: Option<Vec<u8>> = bytes::opt_copy(&f.cached_file);
        let result = self.file_manager.accept_chunk(
            file_id.as_str(),
            chunk_index,
            total_chunks,
            data,
            expected_size,
            cached,
        );
        let ghost said = transfer::completed_view(result);
        let ghost id0 = file_id@;
        match result {
            Err(_) => {},
            Ok(None) => {
                let so_far: u64 = match self.file_manager.progress(file_id.as_str()) {
                    Some((b, _)) => b,
                    None => 0,
                };
                out.push(
                    Effect::Store(
                        Write::AttachmentStatus {
                            room_id: e.room_id.clone(),
                            file_id: file_id.clone(),
                            status: AttachmentStatus::Downloading,
                        },
                    ),
                );
                out.push(
                    Effect::Emit(
                        AppEvent::FileProgress {
                            file_id,
                            bytes_received: so_far,
                            total_bytes: expected_size,
                        },
                    ),
                );
            },
            Ok(Some(done)) => {
                let path: String = done.cache_path.clone();
                match done.contents {
                    Some(contents) => {
                        out.push(Effect::WriteFile { path: path.clone(), contents });
                    },
                    None => {},
                }
                out.push(
                    Effect::Store(
                        Write::AttachmentPaths {
                            room_id: e.room_id.clone(),
                            file_id: file_id.clone(),
                            cache_path: Some(path),
                            saved_path: None,
                        },
                    ),
                );
                out.push(
                    Effect::Store(
                        Write::AttachmentStatus {
                            room_id: e.room_id.clone(),
                            file_id: file_id.clone(),
                            status: AttachmentStatus::Ready,
                        },
                    ),
                );
                out.push(Effect::Emit(AppEvent::FileReady { file_id }));
            },
        }
        proof {
            assert(self@ =~= before.with_files(self.file_manager@));
            assert(effects::effects(out@) =~= chunk_effects(
                self@.files,
                e.room_id@,
                id0,
                expected_size,
                said,
            ));
            assert(transfer::chunk_taken(
                before.files,
                id0,
                chunk_index,
                total_chunks,
                dm_key::decoded(Some(data_b64@))->0,
                expected_size,
                f@.cached_file,
                self@.files,
                said,
            ));
            assert(before.chunk_handled(
                f@,
                e@,
                id0,
                chunk_index,
                total_chunks,
                dm_key::decoded(Some(data_b64@))->0,
                expected_size,
                self@,
                effects::effects(out@),
            ));
        }
        out
    }

    fn send_wire(
        &self,
        room_id: &str,
        name: &str,
        path: &str,
        wire: &[u8],
        meta: Option<EncryptedFileMeta>,
        now: i64,
    ) -> (r: Result<(String, Vec<Effect>), HuddleError>)
        ensures
            sent_view(r) == self@.sending(
                room_id@,
                name@,
                path@,
                wire@,
                messages::meta_opt(meta),
                now,
            ),
    {
        let mime: Option<String> = names::guess_mime(name);
        let plan: OutgoingPlan = match self.file_manager.prepare_outgoing_from_bytes(
            name,
            text::opt_copy(&mime),
            wire,
        ) {
            Err(e) => {
                return Err(e);
            },
            Ok(plan) => plan,
        };
        let ours: &str = self.identity.fingerprint();
        let file_id: String = plan.file_id.clone();
        let total: usize = plan.chunks.len();
        proof {
            assert(transfer::chunk_views(plan.chunks@).len() == transfer::chunk_count(wire@.len()));
        }
        let count: u32 = total as u32;
        let attachment: StoredAttachment = row(
            room_id,
            ours,
            file_id.as_str(),
            name,
            text::opt_copy(&mime),
            plan.size_bytes,
            AttachmentStatus::Ready,
            Some(self.file_manager.cache_path(file_id.as_str())),
            Some(text::owned(path)),
            &meta,
            now,
        );
        let mut out: Vec<Effect> = Vec::new();
        out.push(
            Effect::CacheFile {
                path: self.file_manager.cache_path(file_id.as_str()),
                contents: bytes::to_vec(wire),
            },
        );
        out.push(Effect::MustStore(Write::Attachment(attachment)));
        out.push(
            Effect::Emit(
                AppEvent::FileOffered {
                    room_id: text::owned(room_id),
                    file_id: file_id.clone(),
                    name: text::owned(name),
                    size_bytes: plan.size_bytes,
                    sender_fingerprint: text::owned(ours),
                },
            ),
        );
        out.push(
            Effect::PublishSigned {
                room_id: text::owned(room_id),
                message: RoomMessage::FileOffer {
                    sender_fingerprint: text::owned(ours),
                    file_id: file_id.clone(),
                    name: text::owned(name),
                    size_bytes: plan.size_bytes,
                    mime,
                    chunk_count: count,
                    encrypted_meta: meta,
                },
            },
        );
        let ghost head = effects::effects(out@);
        let ghost tail = chunk_messages(ours@, room_id@, file_id@, wire@);
        assert(head =~= seq![out@[0]@, out@[1]@, out@[2]@, out@[3]@]);
        assert(head + tail.take(0) =~= head);
        let mut i: usize = 0;
        while i < total
            invariant
                i <= total,
                total == plan.chunks@.len(),
                total == transfer::chunk_count(wire@.len()),
                total <= u32::MAX,
                count == total as u32,
                ours@ == self@.our_fp(),
                transfer::chunk_views(plan.chunks@) == transfer::chunks_of(wire@),
                tail == chunk_messages(ours@, room_id@, file_id@, wire@),
                effects::effects(out@) == head + tail.take(i as int),
            decreases total - i,
        {
            let ghost got = effects::effects(out@);
            proof {
                assert(transfer::chunk_views(plan.chunks@)[i as int] == plan.chunks@[i as int]@);
            }
            out.push(
                Effect::PublishPaced {
                    room_id: text::owned(room_id),
                    message: RoomMessage::FileChunk {
                        sender_fingerprint: text::owned(ours),
                        file_id: file_id.clone(),
                        chunk_index: i as u32,
                        total_chunks: count,
                        data_b64: primitives::base64_encode(plan.chunks[i].as_slice()),
                    },
                },
            );
            proof {
                assert(effects::effects(out@) =~= got.push(tail[i as int]));
                assert(head + tail.take(i + 1) =~= (head + tail.take(i as int)).push(
                    tail[i as int],
                ));
            }
            i = i + 1;
        }
        assert(tail.take(total as int) =~= tail);
        Ok((file_id, out))
    }

    /// Sends a file that was read from this path: what to do, and its id or why it is not sent.
    pub fn send_file(
        &mut self,
        room_id: &str,
        name: &str,
        path: &str,
        data: &[u8],
        private_meta: bool,
        now: i64,
    ) -> (r: (Vec<Effect>, Result<String, HuddleError>))
        requires
            old(self)@.wf(),
        ensures
            final(self)@.wf(),
            file_sent(
                old(self)@,
                room_id@,
                name@,
                path@,
                data@,
                private_meta,
                now,
                final(self)@,
                effects::effects(r.0@),
                crate::error::result_view(r.1),
            ),
    {
        let ghost before = self@;
        let mut out: Vec<Effect> = Vec::new();
        assert(effects::effects(out@) =~= Seq::<EffectView>::empty());
        let mut room: ActiveRoom = match self.take_room(room_id) {
            None => {
                return (out, Err(HuddleError::Other(text::join2("not in room ", room_id))));
            },
            Some(room) => room,
        };
        let ghost room0 = room@;
        proof {
            super::lemma_put_back(before, room_id@, room0);
        }
        if room.read_only {
            self.put_room(room_id, room);
            return (
                out,
                Err(crate::error::other_error("this room is read-only — you can't send files")),
            );
        }
        if !room.info.encrypted {
            self.put_room(room_id, room);
            return match self.send_wire(room_id, name, path, data, None, now) {
                Ok((file_id, more)) => {
                    assert(Seq::<EffectView>::empty() + effects::effects(more@)
                        =~= effects::effects(more@));
                    (more, Ok(file_id))
                },
                Err(e) => (out, Err(e)),
            };
        }
        let mut crypto: Option<RoomCrypto> = None;
        std::mem::swap(&mut crypto, &mut room.crypto);
        let mut c: RoomCrypto = crypto.unwrap();
        let sealed = encryption::encrypt_file(data, &mut c, private_meta);
        let ghost next = c@;
        if sealed.is_ok() {
            out.push(rotation_effect(&c));
            assert(effects::effects(out@) =~= seq![rotation_state(next)]);
        }
        let ghost first = effects::effects(out@);
        room.crypto = Some(c);
        proof {
            assert(room@ =~= RoomView { crypto: Some(next), ..room0 });
            if sealed is Err {
                assert(room@ =~= room0);
            }
            super::lemma_put_back(before, room_id@, room@);
        }
        self.put_room(room_id, room);
        match sealed {
            Err(e) => (out, Err(e)),
            Ok((wire, meta)) => {
                let ghost m = meta@;
                let r = self.send_wire(room_id, name, path, wire.as_slice(), Some(meta), now);
                proof {
                    assert(encryption::file_sealed(
                        before.rooms[room_id@].crypto->0,
                        data@,
                        private_meta,
                        next,
                        wire@,
                        m,
                    ));
                    assert(self@.our_fp() == before.our_fp() && self@.files == before.files);
                }
                match r {
                    Ok((file_id, mut more)) => {
                        let ghost said = effects::effects(more@);
                        out.append(&mut more);
                        assert(effects::effects(out@) =~= first + said);
                        (out, Ok(file_id))
                    },
                    Err(e) => (out, Err(e)),
                }
            },
        }
    }
}

// ---------------------------------------------------------------------------------------------
// Saving
// ---------------------------------------------------------------------------------------------

impl AttachmentStatus {
    pub open spec fn name(self) -> Seq<char> {
        match self {
            AttachmentStatus::Offered => "offered"@,
            AttachmentStatus::Downloading => "downloading"@,
            AttachmentStatus::Ready => "ready"@,
            AttachmentStatus::Saved => "saved"@,
            AttachmentStatus::Failed => "failed"@,
            AttachmentStatus::Cancelled => "cancelled"@,
        }
    }

    pub fn as_str(self) -> (r: &'static str)
        ensures
            r@ == self.name(),
    {
        match self {
            AttachmentStatus::Offered => "offered",
            AttachmentStatus::Downloading => "downloading",
            AttachmentStatus::Ready => "ready",
            AttachmentStatus::Saved => "saved",
            AttachmentStatus::Failed => "failed",
            AttachmentStatus::Cancelled => "cancelled",
        }
    }
}

/// Where a file that is to be saved comes from.
#[derive(Debug)]
pub enum SaveSource {
    /// From where we sent it: only ciphertext of our own is in the cache.
    Original(String),
    Cache,
}

pub enum SaveSourceView {
    Original(Seq<char>),
    Cache,
}

impl View for SaveSource {
    type V = SaveSourceView;

    open spec fn view(&self) -> SaveSourceView {
        match self {
            SaveSource::Original(p) => SaveSourceView::Original(p@),
            SaveSource::Cache => SaveSourceView::Cache,
        }
    }
}

pub open spec fn attachment_opt(a: Option<StoredAttachment>) -> Option<AttachmentView> {
    match a {
        Some(a) => Some(a@),
        None => None,
    }
}

impl AppView {
    /// Where a file that is to be saved comes from, or why it cannot be saved.
    pub open spec fn save_source(self, a: Option<AttachmentView>, original_exists: bool) -> Result<
        SaveSourceView,
        ErrorView,
    > {
        match a {
            None => Err(ErrorView::Other("attachment not found"@)),
            Some(a) => if a.status != AttachmentStatus::Ready && a.status
                != AttachmentStatus::Saved {
                Err(
                    ErrorView::Other(
                        "attachment is not ready (status="@ + a.status.name() + ")"@,
                    ),
                )
            } else if !a.encrypted || a.sender_fingerprint != self.our_fp() {
                Ok(SaveSourceView::Cache)
            } else if a.saved_path is Some && original_exists {
                Ok(SaveSourceView::Original(a.saved_path->0))
            } else {
                Err(
                    ErrorView::Other(
                        "your original file has moved or been deleted — it can't be recovered from the encrypted cache"@,
                    ),
                )
            },
        }
    }
}

/// The description of an encrypted file, as far as the row of the file holds it.
pub open spec fn stored_meta(a: AttachmentView) -> Result<FileMetaView, ErrorView> {
    if a.megolm_session_id is None {
        Err(ErrorView::Other("missing megolm_session_id"@))
    } else if a.wrapped_key is None {
        Err(ErrorView::Other("missing wrapped_key"@))
    } else if a.nonce is None {
        Err(ErrorView::Other("missing nonce"@))
    } else if a.content_hash is None {
        Err(ErrorView::Other("missing content_hash"@))
    } else {
        Ok(
            FileMetaView {
                megolm_session_id: a.megolm_session_id->0,
                wrapped_key_b64: a.wrapped_key->0,
                nonce_b64: a.nonce->0,
                content_hash: a.content_hash->0,
                content_mac_b64: a.content_mac,
            },
        )
    }
}

fn required(field: &Option<String>, missing: &str) -> (r: Result<String, HuddleError>)
    ensures
        match r {
            Ok(s) => text::opt(*field) == Some(s@),
            Err(e) => *field is None && e@ == ErrorView::Other(missing@),
        },
{
    match field {
        Some(s) => Ok(s.clone()),
        None => Err(crate::error::other_error(missing)),
    }
}

fn meta_of_row(a: &StoredAttachment) -> (r: Result<EncryptedFileMeta, HuddleError>)
    ensures
        crate::error::result_view(r) == stored_meta(a@),
{
    let megolm_session_id: String = match required(
        &a.megolm_session_id,
        "missing megolm_session_id",
    ) {
        Ok(s) => s,
        Err(e) => {
            return Err(e);
        },
    };
    let wrapped_key_b64: String = match required(&a.wrapped_key, "missing wrapped_key") {
        Ok(s) => s,
        Err(e) => {
            return Err(e);
        },
    };
    let nonce_b64: String = match required(&a.nonce, "missing nonce") {
        Ok(s) => s,
        Err(e) => {
            return Err(e);
        },
    };
    let content_hash: String = match required(&a.content_hash, "missing content_hash") {
        Ok(s) => s,
        Err(e) => {
            return Err(e);
        },
    };
    Ok(
        EncryptedFileMeta {
            megolm_session_id,
            wrapped_key_b64,
            nonce_b64,
            content_hash,
            content_mac_b64: text::opt_copy(&a.content_mac),
        },
    )
}

/// What is saved of a file that came from the cache, or why nothing.
pub open spec fn saved_contents(app: AppView, room_id: Seq<char>, a: AttachmentView, cached: Seq<u8>) -> Result<
    Seq<u8>,
    ErrorView,
> {
    if !a.encrypted {
        Ok(cached)
    } else {
        match stored_meta(a) {
            Err(e) => Err(e),
            Ok(meta) => if !app.rooms.dom().contains(room_id) {
                Err(ErrorView::Other("not in room"@))
            } else {
                match app.rooms[room_id].crypto {
                    None => Err(ErrorView::Session("missing room crypto"@)),
                    Some(c) => encryption::decrypted_file(c, cached, meta, a.sender_fingerprint),
                }
            },
        }
    }
}

/// The rows of files, by room and file id, after these effects.
pub open spec fn rows_after(
    rows: Map<(Seq<char>, Seq<char>), AttachmentView>,
    eff: Seq<EffectView>,
) -> Map<(Seq<char>, Seq<char>), AttachmentView>
    decreases eff.len(),
{
    if eff.len() == 0 {
        rows
    } else {
        let before = rows_after(rows, eff.drop_last());
        match eff.last() {
            EffectView::Store(w) => row_written(before, w),
            EffectView::MustStore(w) => row_written(before, w),
            EffectView::StoreOffer(a, _) => before.insert((a.room_id, a.file_id), a),
            _ => before,
        }
    }
}

/// The rows of files after one change of what is on disk.
pub open spec fn row_written(
    rows: Map<(Seq<char>, Seq<char>), AttachmentView>,
    w: WriteView,
) -> Map<(Seq<char>, Seq<char>), AttachmentView> {
    match w {
        WriteView::Attachment(a) => rows.insert((a.room_id, a.file_id), a),
        WriteView::DeleteAttachment { room_id, file_id } => rows.remove((room_id, file_id)),
        WriteView::AttachmentStatus { room_id, file_id, status } => if rows.dom().contains(
            (room_id, file_id),
        ) {
            rows.insert(
                (room_id, file_id),
                AttachmentView { status, ..rows[(room_id, file_id)] },
            )
        } else {
            rows
        },
        WriteView::AttachmentPaths { room_id, file_id, cache_path, saved_path } => if rows.dom().contains(
            (room_id, file_id),
        ) {
            let row = rows[(room_id, file_id)];
            rows.insert(
                (room_id, file_id),
                AttachmentView {
                    cache_path: if cache_path is Some {
                        cache_path
                    } else {
                        row.cache_path
                    },
                    saved_path: if saved_path is Some {
                        saved_path
                    } else {
                        row.saved_path
                    },
                    ..row
                },
            )
        } else {
            rows
        },
        _ => rows,
    }
}

impl AppView {
    /// The state after an offer was stored: its size is the size of the file, and it may come.
    pub open spec fn offer_stored(
        self,
        room_id: Seq<char>,
        file_id: Seq<char>,
        size_bytes: u64,
    ) -> Self {
        self.with_cancelled(self.cancelled.remove((room_id, file_id))).with_files(
            ManagerView {
                incoming: if self.files.incoming.dom().contains(file_id) {
                    self.files.incoming.insert(
                        file_id,
                        transfer::TransferView {
                            expected_size: size_bytes,
                            ..self.files.incoming[file_id]
                        },
                    )
                } else {
                    self.files.incoming
                },
                ..self.files
            },
        )
    }

    /// The state after the user gave up a file in a room.
    pub open spec fn given_up(self, room_id: Seq<char>, file_id: Seq<char>) -> Self {
        self.with_cancelled(self.cancelled.insert((room_id, file_id))).with_files(
            ManagerView { incoming: self.files.incoming.remove(file_id), ..self.files },
        )
    }
}

/// What it causes that a file was saved under this path.
pub open spec fn saved_effects(
    room_id: Seq<char>,
    file_id: Seq<char>,
    path: Seq<char>,
) -> Seq<EffectView> {
    seq![
        EffectView::MustStore(
            WriteView::AttachmentPaths {
                room_id,
                file_id,
                cache_path: None,
                saved_path: Some(path),
            },
        ),
        EffectView::MustStore(
            WriteView::AttachmentStatus { room_id, file_id, status: AttachmentStatus::Saved },
        ),
        EffectView::Emit(EventView::FileSaved { file_id, path }),
    ]
}

/// Where a file is that the user wants to open, or why it cannot be opened.
pub open spec fn path_to_open(a: Option<AttachmentView>) -> Result<Seq<char>, ErrorView> {
    match a {
        None => Err(ErrorView::Other("attachment not found"@)),
        Some(a) => match a.saved_path {
            Some(p) => Ok(p),
            None => Err(ErrorView::Other("not saved yet — press Enter to save first"@)),
        },
    }
}

/// What reading a file from the cache makes of the state: the session that its key came under is noted.
pub open spec fn attachment_read(
    before: AppView,
    room_id: Seq<char>,
    a: AttachmentView,
    after: AppView,
) -> bool {
    if a.encrypted && stored_meta(a) is Ok && before.crypto_of(room_id) is Some {
        exists|c: RoomCryptoView| #[trigger]
            encryption::key_read(
                before.crypto_of(room_id)->0,
                stored_meta(a)->Ok_0,
                a.sender_fingerprint,
                c,
            ) && after == before.with_crypto(room_id, c)
    } else {
        after == before
    }
}

impl AppHandle {
    /// Where a file that is to be saved comes from. `original_exists` says whether the file is still where
    /// we sent it from.
    pub fn save_source(&self, attachment: &Option<StoredAttachment>, original_exists: bool) -> (r: Result<
        SaveSource,
        HuddleError,
    >)
        ensures
            crate::error::result_view(r) == self@.save_source(
                attachment_opt(*attachment),
                original_exists,
            ),
    {
        let a: &StoredAttachment = match attachment {
            None => {
                return Err(crate::error::other_error("attachment not found"));
            },
            Some(a) => a,
        };
        if a.status != AttachmentStatus::Ready && a.status != AttachmentStatus::Saved {
            return Err(
                HuddleError::Other(
                    text::join3("attachment is not ready (status=", a.status.as_str(), ")"),
                ),
            );
        }
        if !a.encrypted || !text::same(
            a.sender_fingerprint.as_str(),
            self.identity.fingerprint(),
        ) {
            return Ok(SaveSource::Cache);
        }
        match &a.saved_path {
            Some(p) => {
                if original_exists {
                    return Ok(SaveSource::Original(p.clone()));
                }
            },
            None => {},
        }
        Err(
            crate::error::other_error(
                "your original file has moved or been deleted — it can't be recovered from the encrypted cache",
            ),
        )
    }

    /// What is saved of a file that came from the cache: an encrypted one is decrypted.
    pub fn decrypt_attachment(&mut self, room_id: &str, a: &StoredAttachment, cached: Vec<u8>) -> (r: Result<
        Vec<u8>,
        HuddleError,
    >)
        requires
            old(self)@.wf(),
        ensures
            final(self)@.wf(),
            crate::error::result_view(r) == saved_contents(old(self)@, room_id@, a@, cached@),
            attachment_read(old(self)@, room_id@, a@, final(self)@),
    {
        let ghost before = self@;
        if !a.encrypted {
            return Ok(cached);
        }
        let meta: EncryptedFileMeta = match meta_of_row(a) {
            Err(e) => {
                return Err(e);
            },
            Ok(meta) => meta,
        };
        let mut room: ActiveRoom = match self.take_room(room_id) {
            None => {
                return Err(crate::error::other_error("not in room"));
            },
            Some(room) => room,
        };
        let ghost room0 = room@;
        let mut crypto: Option<RoomCrypto> = None;
        std::mem::swap(&mut crypto, &mut room.crypto);
        let r = match crypto {
            None => {
                assert(room@ =~= room0);
                Err(crate::error::session_error("missing room crypto"))
            },
            Some(mut c) => {
                let opened = encryption::decrypt_file(
                    cached.as_slice(),
                    &meta,
                    &mut c,
                    a.sender_fingerprint.as_str(),
                );
                let ghost next = c@;
                room.crypto = Some(c);
                assert(room@ =~= RoomView { crypto: Some(next), ..room0 });
                opened
            },
        };
        let ghost room1 = room@;
        proof {
            super::lemma_put_back(before, room_id@, room1);
        }
        self.put_room(room_id, room);
        proof {
            if room1.crypto is Some {
                assert(self@ == before.with_crypto(room_id@, room1.crypto->0));
                assert(encryption::key_read(
                    before.crypto_of(room_id@)->0,
                    meta@,
                    a@.sender_fingerprint,
                    room1.crypto->0,
                ));
            }
        }
        r
    }

    /// A file was saved under this path.
    pub fn file_saved(room_id: &str, file_id: &str, path: &str) -> (r: Vec<Effect>)
        ensures
            effects::effects(r@) == saved_effects(room_id@, file_id@, path@),
    {
        let mut out: Vec<Effect> = Vec::new();
        out.push(
            Effect::MustStore(
                Write::AttachmentPaths {
                    room_id: text::owned(room_id),
                    file_id: text::owned(file_id),
                    cache_path: None,
                    saved_path: Some(text::owned(path)),
                },
            ),
        );
        out.push(
            Effect::MustStore(
                Write::AttachmentStatus {
                    room_id: text::owned(room_id),
                    file_id: text::owned(file_id),
                    status: AttachmentStatus::Saved,
                },
            ),
        );
        out.push(
            Effect::Emit(
                AppEvent::FileSaved { file_id: text::owned(file_id), path: text::owned(path) },
            ),
        );
        assert(effects::effects(out@) =~= seq![out@[0]@, out@[1]@, out@[2]@]);
        out
    }

    /// Gives up a file that is being received: what came of it is dropped, its row is deleted, and no more
    /// chunks of it are taken in this room.
    pub fn cancel_transfer(&mut self, room_id: &str, file_id: &str) -> (r: Vec<Effect>)
        requires
            old(self)@.wf(),
        ensures
            final(self)@.wf(),
            final(self)@ == old(self)@.given_up(room_id@, file_id@),
            effects::effects(r@) == seq![
                EffectView::MustStore(
                    WriteView::DeleteAttachment { room_id: room_id@, file_id: file_id@ },
                ),
            ],
            forall|rows: Map<(Seq<char>, Seq<char>), AttachmentView>|
                !(#[trigger] rows_after(rows, effects::effects(r@))).dom().contains(
                    (room_id@, file_id@),
                ),
    {
        let ghost before = self@;
        self.file_manager.cancel_incoming(file_id);
        self.cancelled_files.insert(text::owned(room_id), text::owned(file_id), ());
        let mut out: Vec<Effect> = Vec::new();
        out.push(
            Effect::MustStore(
                Write::DeleteAttachment {
                    room_id: text::owned(room_id),
                    file_id: text::owned(file_id),
                },
            ),
        );
        proof {
            assert(self@.cancelled =~= before.cancelled.insert((room_id@, file_id@)));
            assert(self@ =~= before.given_up(room_id@, file_id@));
            reveal_with_fuel(rows_after, 2);
            assert(effects::effects(out@).drop_last() =~= Seq::<EffectView>::empty());
            assert(effects::effects(out@) =~= seq![out@[0]@]);
        }
        out
    }

    /// Where a file is that the user wants to open.
    pub fn open_saved(attachment: &Option<StoredAttachment>) -> (r: Result<String, HuddleError>)
        ensures
            crate::error::result_view(r) == path_to_open(attachment_opt(*attachment)),
    {
        match attachment {
            None => Err(crate::error::other_error("attachment not found")),
            Some(a) => required(&a.saved_path, "not saved yet — press Enter to save first"),
        }
    }

    /// Where a complete file is in the cache.
    pub fn cached_path(&self, file_id: &str) -> (r: Result<String, HuddleError>)
        ensures
            match r {
                Ok(p) => names::valid_file_id(file_id@) && p@ == self@.files.path_of(file_id@),
                Err(e) => !names::valid_file_id(file_id@) && e@ == ErrorView::Other(
                    "read_cache: file_id is not a 64-char hex digest (rejected to prevent path traversal)"@,
                ),
            },
    {
        self.file_manager.readable_path(file_id)
    }
}

/// A file that another member sent in an encrypted room is saved as it was, by every member who took in
/// a key of the sender's session.
pub proof fn law_sent_files_are_saved_as_they_were(
    sender: Seq<char>,
    before: RoomCryptoView,
    data: Seq<u8>,
    private_meta: bool,
    after: RoomCryptoView,
    wire: Seq<u8>,
    meta: FileMetaView,
    receiver: AppView,
    room_id: Seq<char>,
    a: AttachmentView,
)
    requires
        encryption::file_sealed(before, data, private_meta, after, wire, meta),
        receiver.crypto_of(room_id) is Some,
        receiver.crypto_of(room_id)->0.holds(sender, before),
        a.encrypted,
        a.sender_fingerprint == sender,
        stored_meta(a) == Ok::<FileMetaView, ErrorView>(meta),
    ensures
        saved_contents(receiver, room_id, a, wire) == Ok::<Seq<u8>, ErrorView>(data),
{
}

/// A file that the user gave up (`AppHandle::cancel_transfer`) stays given up until it is offered again: a
/// chunk of it that comes late in that room changes nothing and causes nothing, though no row of the file is
/// left.
pub proof fn law_late_chunks_of_a_cancelled_file_are_refused(
    app: AppView,
    f: FactsView,
    e: EnvelopeView,
    sender: Seq<char>,
    file_id: Seq<char>,
    chunk_index: u32,
    total_chunks: u32,
    data_b64: Seq<char>,
    after: AppView,
    eff: Seq<EffectView>,
)
    requires
        app.cancelled.contains((e.room_id, file_id)),
        app.on_file_chunk(
            f,
            e,
            sender,
            file_id,
            chunk_index,
            total_chunks,
            data_b64,
            after,
            eff,
        ),
    ensures
        after == app,
        eff == Seq::<EffectView>::empty(),
{
}

} // verus!
