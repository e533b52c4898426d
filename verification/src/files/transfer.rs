//! Chunks of files: cutting a file up to send it, and putting it together again.
//!
//! A file is known by the SHA-256 digest of the bytes that are sent. A receiver keeps the chunks of
//! a bounded number of files, of bounded size, and hands a file on only if its digest is right.
use crate::bytes;
use crate::error::{ErrorView, HuddleError};
use crate::files::encryption;
use crate::files::names;
use crate::strmap::StrMap;
use crate::sums;
use crate::text;
use std::collections::HashMap;
use vstd::prelude::*;
use vstd::slice::slice_subrange;

verus! {

broadcast use vstd::std_specs::hash::group_hash_axioms;

/// Bytes of a file in one chunk.
pub const CHUNK_SIZE: usize = 131_072;

/// The most bytes of a file.
pub const MAX_FILE_SIZE: u64 = 52_428_800;

/// The most files that are received at a time.
pub const MAX_CONCURRENT_INCOMING: usize = 32;

/// The most bytes that are held of all files that are being received.
pub const MAX_TOTAL_INCOMING_BYTES: u64 = 268_435_456;

/// The most chunks of a file.
pub const MAX_CHUNKS_PER_FILE: u32 = 16_384;

/// The most bytes of a chunk that is received.
pub const MAX_CHUNK_BYTES: usize = 262_144;

/// How far the bytes of a file may exceed its announced size.
pub const SIZE_GRACE: u64 = 1024;

// ---------------------------------------------------------------------------------------------
// Sending
// ---------------------------------------------------------------------------------------------

/// A file cut into chunks, ready to be sent.
#[derive(Debug)]
pub struct OutgoingPlan {
    pub file_id: String,
    pub name: String,
    pub mime: Option<String>,
    pub size_bytes: u64,
    pub chunks: Vec<Vec<u8>>,
}

/// The number of chunks of so many bytes: at least one.
pub open spec fn chunk_count(n: nat) -> nat {
    if n == 0 {
        1
    } else {
        (n + CHUNK_SIZE - 1) as nat / CHUNK_SIZE as nat
    }
}

/// The `i`-th chunk of a file.
pub open spec fn chunk_of(data: Seq<u8>, i: int) -> Seq<u8> {
    let from = i * CHUNK_SIZE;
    let to = if from + CHUNK_SIZE <= data.len() {
        from + CHUNK_SIZE
    } else {
        data.len() as int
    };
    data.subrange(from, to)
}

/// The chunks of a file.
pub open spec fn chunks_of(data: Seq<u8>) -> Seq<Seq<u8>> {
    Seq::new(chunk_count(data.len()), |i: int| chunk_of(data, i))
}

pub open spec fn chunk_views(chunks: Seq<Vec<u8>>) -> Seq<Seq<u8>> {
    chunks.map_values(|c: Vec<u8>| c@)
}

/// Chunks one after the other.
pub open spec fn flattened(chunks: Seq<Seq<u8>>) -> Seq<u8>
    decreases chunks.len(),
{
    if chunks.len() == 0 {
        Seq::empty()
    } else {
        flattened(chunks.drop_last()) + chunks.last()
    }
}

fn cut(data: &[u8]) -> (r: Vec<Vec<u8>>)
    ensures
        chunk_views(r@) == chunks_of(data@),
{
    let mut out: Vec<Vec<u8>> = Vec::new();
    let n: usize = data.len();
    if n == 0 {
        out.push(Vec::new());
        proof {
            assert(chunk_views(out@)[0] =~= chunk_of(data@, 0));
            assert(chunk_views(out@) =~= chunks_of(data@));
        }
        return out;
    }
    let mut from: usize = 0;
    while from < n
        invariant
            n == data@.len(),
            n > 0,
            from <= n,
            from == out@.len() * CHUNK_SIZE || from == n,
            from == n ==> out@.len() == chunk_count(n as nat),
            from < n ==> out@.len() < chunk_count(n as nat),
            out@.len() <= chunk_count(n as nat),
            forall|i: int| 0 <= i < out@.len() ==> (#[trigger] out@[i])@ == chunk_of(data@, i),
        decreases n - from,
    {
        let to: usize = if n - from < CHUNK_SIZE {
            n
        } else {
            from + CHUNK_SIZE
        };
        let piece: &[u8] = slice_subrange(data, from, to);
        assert(piece@ =~= chunk_of(data@, out@.len() as int));
        out.push(bytes::to_vec(piece));
        from = to;
    }
    assert(chunk_views(out@) =~= chunks_of(data@));
    out
}

/// What is sent of a file, or why it is not.
pub open spec fn plan_fault(size: nat) -> Option<ErrorView> {
    if size > MAX_FILE_SIZE {
        Some(
            ErrorView::Other(
                "file is "@ + text::decimal(size)
                    + " bytes — the cap is 52428800 bytes (~50 MiB)"@,
            ),
        )
    } else {
        None
    }
}

fn plan_outgoing(name: &str, mime: Option<String>, data: &[u8]) -> (r: Result<
    OutgoingPlan,
    HuddleError,
>)
    ensures
        match r {
            Ok(plan) => plan_fault(data@.len()) is None && plan.file_id@ == encryption::digest_hex(
                data@,
            ) && names::valid_file_id(plan.file_id@) && plan.name@ == name@ && plan.mime == mime
                && plan.size_bytes == data@.len() && chunk_views(plan.chunks@) == chunks_of(data@),
            Err(e) => plan_fault(data@.len()) == Some(e@),
        },
{
    let size: u64 = data.len() as u64;
    if size > MAX_FILE_SIZE {
        let n: String = text::decimal_of(size);
        return Err(
            HuddleError::Other(
                text::join3(
                    "file is ",
                    n.as_str(),
                    " bytes — the cap is 52428800 bytes (~50 MiB)",
                ),
            ),
        );
    }
    let digest: [u8; 32] = crate::crypto::primitives::sha256_digest(data);
    let file_id: String = crate::crypto::primitives::hex_encode(digest.as_slice());
    proof {
        names::law_digest_is_a_file_id(digest@);
    }
    Ok(
        OutgoingPlan {
            file_id,
            name: text::owned(name),
            mime,
            size_bytes: size,
            chunks: cut(data),
        },
    )
}

proof fn lemma_flatten_prefix(data: Seq<u8>, k: nat)
    requires
        k <= chunk_count(data.len()),
    ensures
        flattened(chunks_of(data).take(k as int)) == data.take(
            if k * CHUNK_SIZE <= data.len() {
                k * CHUNK_SIZE
            } else {
                data.len() as int
            },
        ),
    decreases k,
{
    if k == 0 {
        assert(chunks_of(data).take(0) =~= Seq::<Seq<u8>>::empty());
        assert(data.take(0) =~= Seq::<u8>::empty());
    } else {
        let p = (k - 1) as nat;
        lemma_flatten_prefix(data, p);
        let t = chunks_of(data).take(k as int);
        assert(t.drop_last() =~= chunks_of(data).take(p as int));
        assert(t.last() == chunk_of(data, p as int));
        if data.len() == 0 {
            assert(flattened(t) =~= data.take(0));
        } else {
            assert(p * CHUNK_SIZE < data.len()) by {
                assert(p < (data.len() + CHUNK_SIZE - 1) as nat / CHUNK_SIZE as nat);
            }
            let end = if k * CHUNK_SIZE <= data.len() {
                k * CHUNK_SIZE
            } else {
                data.len() as int
            };
            assert(flattened(t) =~= data.take(end));
        }
    }
}

/// The chunks of a file, put together in order, are the file.
pub proof fn law_chunks_make_the_file(data: Seq<u8>)
    ensures
        flattened(chunks_of(data)) == data,
{
    let n = chunk_count(data.len());
    lemma_flatten_prefix(data, n);
    assert(chunks_of(data).take(n as int) =~= chunks_of(data));
    assert(n * CHUNK_SIZE >= data.len());
    assert(data.take(data.len() as int) =~= data);
    if n * CHUNK_SIZE <= data.len() {
        assert(n * CHUNK_SIZE == data.len());
    }
}

// ---------------------------------------------------------------------------------------------
// Receiving
// ---------------------------------------------------------------------------------------------

/// A file that all chunks have come of.
#[derive(Debug)]
pub struct CompletedFile {
    pub file_id: String,
    pub cache_path: String,
    pub size_bytes: u64,
    /// What is to be written to `cache_path`; nothing if the file is there already.
    pub contents: Option<Vec<u8>>,
}

pub struct CompletedView {
    pub file_id: Seq<char>,
    pub cache_path: Seq<char>,
    pub size_bytes: nat,
    pub contents: Option<Seq<u8>>,
}

impl View for CompletedFile {
    type V = CompletedView;

    open spec fn view(&self) -> CompletedView {
        CompletedView {
            file_id: self.file_id@,
            cache_path: self.cache_path@,
            size_bytes: self.size_bytes as nat,
            contents: match self.contents {
                Some(c) => Some(c@),
                None => None,
            },
        }
    }
}

/// A file that is being received.
pub struct IncomingTransfer {
    expected_total: u32,
    expected_size: u64,
    chunks: HashMap<u32, Vec<u8>>,
    bytes_received: u64,
    last_activity: u64,
}

#[verifier::ext_equal]
pub struct TransferView {
    /// The number of chunks of the file.
    pub expected_total: u32,
    /// The announced size of the file.
    pub expected_size: u64,
    /// The chunks that have come.
    pub chunks: Map<u32, Seq<u8>>,
    pub bytes_received: u64,
    /// When a chunk came last, on the manager's own clock.
    pub last_activity: u64,
}

impl View for IncomingTransfer {
    type V = TransferView;

    closed spec fn view(&self) -> TransferView {
        TransferView {
            expected_total: self.expected_total,
            expected_size: self.expected_size,
            chunks: self.chunks@.map_values(|c: Vec<u8>| c@),
            bytes_received: self.bytes_received,
            last_activity: self.last_activity,
        }
    }
}

pub open spec fn len_of(c: Seq<u8>) -> nat {
    c.len()
}

pub open spec fn received_of(t: TransferView) -> nat {
    t.bytes_received as nat
}

impl TransferView {
    /// The books are right: the chunks are some of those expected, but not all of them, and the
    /// bytes are counted.
    pub open spec fn wf(self) -> bool {
        &&& 1 <= self.expected_total <= MAX_CHUNKS_PER_FILE
        &&& self.chunks.dom().finite()
        &&& self.chunks.dom().len() < self.expected_total
        &&& forall|i: u32| #[trigger]
            self.chunks.dom().contains(i) ==> i < self.expected_total
        &&& self.bytes_received == sums::map_sum(self.chunks, |c: Seq<u8>| len_of(c))
    }

    pub open spec fn fresh(total: u32, size: u64, tick: u64) -> Self {
        TransferView {
            expected_total: total,
            expected_size: size,
            chunks: Map::empty(),
            bytes_received: 0,
            last_activity: tick,
        }
    }

    pub open spec fn with_chunk(self, index: u32, data: Seq<u8>, tick: u64) -> Self {
        TransferView {
            chunks: self.chunks.insert(index, data),
            bytes_received: (self.bytes_received + data.len()) as u64,
            last_activity: tick,
            ..self
        }
    }
}

/// The first `n` chunks one after the other.
pub open spec fn assembled(chunks: Map<u32, Seq<u8>>, n: nat) -> Seq<u8>
    decreases n,
{
    if n == 0 {
        Seq::empty()
    } else {
        assembled(chunks, (n - 1) as nat) + chunks[(n - 1) as u32]
    }
}

/// What a receiver holds of the files that it receives.
pub struct FileManager {
    cache_dir: String,
    incoming: StrMap<IncomingTransfer>,
    tick: u64,
}

#[verifier::ext_equal]
pub struct ManagerView {
    pub cache_dir: Seq<char>,
    /// The files that are being received, by file id.
    pub incoming: Map<Seq<char>, TransferView>,
    /// The manager's own clock: it moves on with every chunk.
    pub tick: u64,
}

pub open spec fn transfer_views(m: Map<Seq<char>, IncomingTransfer>) -> Map<
    Seq<char>,
    TransferView,
> {
    m.map_values(|t: IncomingTransfer| t@)
}

impl View for FileManager {
    type V = ManagerView;

    closed spec fn view(&self) -> ManagerView {
        ManagerView {
            cache_dir: self.cache_dir@,
            incoming: transfer_views(self.incoming@),
            tick: self.tick,
        }
    }
}

/// The bytes that are held of all these files.
pub open spec fn total_received(m: Map<Seq<char>, TransferView>) -> nat {
    sums::map_sum(m, |t: TransferView| received_of(t))
}

/// Bounded in number and in size, and the books of each file are right.
pub open spec fn wf_incoming(m: Map<Seq<char>, TransferView>) -> bool {
    &&& m.dom().finite()
    &&& m.dom().len() <= MAX_CONCURRENT_INCOMING
    &&& total_received(m) <= MAX_TOTAL_INCOMING_BYTES
    &&& forall|id: Seq<char>| #[trigger]
        m.dom().contains(id) ==> m[id].wf() && names::valid_file_id(id)
}

impl ManagerView {
    pub open spec fn wf(self) -> bool {
        wf_incoming(self.incoming)
    }

    pub open spec fn path_of(self, file_id: Seq<char>) -> Seq<char> {
        self.cache_dir + "/"@ + file_id
    }
}

/// No file has been idle for longer.
pub open spec fn least_recent(m: Map<Seq<char>, TransferView>, id: Seq<char>) -> bool {
    &&& m.dom().contains(id)
    &&& forall|other: Seq<char>| #[trigger]
        m.dom().contains(other) ==> m[id].last_activity <= m[other].last_activity
}

/// There is room for `id`: it is one of the files, or there are fewer than the most allowed, or one
/// that was idle for longest has left.
pub open spec fn room_made(
    before: Map<Seq<char>, TransferView>,
    id: Seq<char>,
    after: Map<Seq<char>, TransferView>,
) -> bool {
    if before.dom().contains(id) || before.dom().len() < MAX_CONCURRENT_INCOMING {
        after == before
    } else {
        exists|victim: Seq<char>| #[trigger]
            least_recent(before, victim) && after == before.remove(victim)
    }
}

/// Why a chunk is refused whatever has come before it.
pub open spec fn chunk_fault(
    file_id: Seq<char>,
    chunk_index: u32,
    total_chunks: u32,
    len: nat,
    expected_size: u64,
) -> Option<ErrorView> {
    if !names::valid_file_id(file_id) {
        Some(
            ErrorView::Other(
                "FileChunk: file_id is not a 64-char hex digest (rejected to prevent path traversal)"@,
            ),
        )
    } else if expected_size > MAX_FILE_SIZE {
        Some(
            ErrorView::Other(
                "incoming size "@ + text::decimal(expected_size as nat) + " exceeds Phase 2 cap"@,
            ),
        )
    } else if total_chunks == 0 {
        Some(ErrorView::Other("FileChunk: total_chunks must be ≥ 1"@))
    } else if total_chunks > MAX_CHUNKS_PER_FILE {
        Some(
            ErrorView::Other(
                "FileChunk: total_chunks "@ + text::decimal(total_chunks as nat)
                    + " exceeds cap of 16384"@,
            ),
        )
    } else if len == 0 && !(total_chunks == 1 && expected_size == 0) {
        Some(ErrorView::Other("FileChunk: empty chunk rejected"@))
    } else if chunk_index >= total_chunks {
        Some(
            ErrorView::Other(
                "FileChunk: chunk_index "@ + text::decimal(chunk_index as nat)
                    + " >= total_chunks "@ + text::decimal(total_chunks as nat),
            ),
        )
    } else if len > MAX_CHUNK_BYTES {
        Some(
            ErrorView::Other(
                "FileChunk: data "@ + text::decimal(len)
                    + " bytes exceeds per-chunk cap of 262144"@,
            ),
        )
    } else {
        None
    }
}

fn check_chunk(
    file_id: &str,
    chunk_index: u32,
    total_chunks: u32,
    len: usize,
    expected_size: u64,
) -> (r: Option<HuddleError>)
    ensures
        match r {
            Some(e) => chunk_fault(
                file_id@,
                chunk_index,
                total_chunks,
                len as nat,
                expected_size,
            ) == Some(e@),
            None => chunk_fault(
                file_id@,
                chunk_index,
                total_chunks,
                len as nat,
                expected_size,
            ) is None,
        },
{
    if !names::is_valid_file_id(file_id) {
        return Some(
            crate::error::other_error(
                "FileChunk: file_id is not a 64-char hex digest (rejected to prevent path traversal)",
            ),
        );
    }
    if expected_size > MAX_FILE_SIZE {
        let n: String = text::decimal_of(expected_size);
        return Some(
            HuddleError::Other(
                text::join3("incoming size ", n.as_str(), " exceeds Phase 2 cap"),
            ),
        );
    }
    if total_chunks == 0 {
        return Some(crate::error::other_error("FileChunk: total_chunks must be ≥ 1"));
    }
    if total_chunks > MAX_CHUNKS_PER_FILE {
        let n: String = text::decimal_of(total_chunks as u64);
        return Some(
            HuddleError::Other(
                text::join3("FileChunk: total_chunks ", n.as_str(), " exceeds cap of 16384"),
            ),
        );
    }
    if len == 0 && !(total_chunks == 1 && expected_size == 0) {
        return Some(crate::error::other_error("FileChunk: empty chunk rejected"));
    }
    if chunk_index >= total_chunks {
        let a: String = text::decimal_of(chunk_index as u64);
        let b: String = text::decimal_of(total_chunks as u64);
        return Some(
            HuddleError::Other(
                text::join4(
                    "FileChunk: chunk_index ",
                    a.as_str(),
                    " >= total_chunks ",
                    b.as_str(),
                ),
            ),
        );
    }
    if len > MAX_CHUNK_BYTES {
        let n: String = text::decimal_of(len as u64);
        return Some(
            HuddleError::Other(
                text::join3(
                    "FileChunk: data ",
                    n.as_str(),
                    " bytes exceeds per-chunk cap of 262144",
                ),
            ),
        );
    }
    None
}

/// What becomes of the files that are being received, and what is said of a chunk: an error, or
/// nothing yet, or the file that it completes.
pub open spec fn take_chunk(
    base: Map<Seq<char>, TransferView>,
    tick: u64,
    file_id: Seq<char>,
    chunk_index: u32,
    total_chunks: u32,
    data: Seq<u8>,
    expected_size: u64,
) -> (Map<Seq<char>, TransferView>, Result<Option<Seq<u8>>, ErrorView>) {
    let t = if base.dom().contains(file_id) {
        base[file_id]
    } else {
        TransferView::fresh(total_chunks, expected_size, tick)
    };
    let others = base.remove(file_id);
    let new_total = (t.bytes_received + data.len()) as nat;
    if t.expected_total != total_chunks {
        (base, Err(ErrorView::Other("chunk total disagrees with prior chunks"@)))
    } else if t.chunks.dom().contains(chunk_index) {
        (base, Ok(None))
    } else if new_total > t.expected_size + SIZE_GRACE {
        (
            others,
            Err(
                ErrorView::Other(
                    "FileChunk: bytes_received "@ + text::decimal(new_total)
                        + " would exceed expected_size "@ + text::decimal(t.expected_size as nat),
                ),
            ),
        )
    } else if total_received(others) + new_total > MAX_TOTAL_INCOMING_BYTES {
        (
            others,
            Err(
                ErrorView::Other(
                    "FileChunk: total buffered "@ + text::decimal(
                        total_received(others) + new_total,
                    ) + " would exceed global cap 268435456"@,
                ),
            ),
        )
    } else {
        let next = t.with_chunk(chunk_index, data, tick);
        if next.chunks.dom().len() != total_chunks {
            (base.insert(file_id, next), Ok(None))
        } else {
            let file = assembled(next.chunks, total_chunks as nat);
            if encryption::digest_hex(file) != file_id {
                (
                    others,
                    Err(
                        ErrorView::Other(
                            "hash mismatch — expected "@ + file_id + ", got "@
                                + encryption::digest_hex(file),
                        ),
                    ),
                )
            } else {
                (others, Ok(Some(file)))
            }
        }
    }
}

/// What `accept_chunk` returns for what is said of a chunk.
pub open spec fn chunk_result(
    manager: ManagerView,
    file_id: Seq<char>,
    said: Result<Option<Seq<u8>>, ErrorView>,
) -> Result<Option<CompletedView>, ErrorView> {
    match said {
        Err(e) => Err(e),
        Ok(None) => Ok(None),
        Ok(Some(file)) => Ok(
            Some(
                CompletedView {
                    file_id,
                    cache_path: manager.path_of(file_id),
                    size_bytes: file.len(),
                    contents: Some(file),
                },
            ),
        ),
    }
}

pub open spec fn completed_view(r: Result<Option<CompletedFile>, HuddleError>) -> Result<
    Option<CompletedView>,
    ErrorView,
> {
    match r {
        Err(e) => Err(e@),
        Ok(None) => Ok(None),
        Ok(Some(f)) => Ok(Some(f@)),
    }
}

/// What a chunk makes of the files that are being received, and what `accept_chunk` returns. A
/// chunk of the wrong shape changes nothing, nor does one of a file that the cache holds.
pub open spec fn chunk_taken(
    before: ManagerView,
    file_id: Seq<char>,
    chunk_index: u32,
    total_chunks: u32,
    data: Seq<u8>,
    expected_size: u64,
    cached: Option<Seq<u8>>,
    after: ManagerView,
    said: Result<Option<CompletedView>, ErrorView>,
) -> bool {
    match chunk_fault(file_id, chunk_index, total_chunks, data.len(), expected_size) {
        Some(e) => said == Err::<Option<CompletedView>, ErrorView>(e) && after == before,
        None => if cached is Some && encryption::digest_hex(cached->0) == file_id {
            said == Ok::<Option<CompletedView>, ErrorView>(
                Some(
                    CompletedView {
                        file_id,
                        cache_path: before.path_of(file_id),
                        size_bytes: cached->0.len(),
                        contents: None,
                    },
                ),
            ) && after == before
        } else {
            exists|base: Map<Seq<char>, TransferView>| #[trigger]
                room_made(before.incoming, file_id, base) && (after, said) == ({
                    let taken = take_chunk(
                        base,
                        before.tick,
                        file_id,
                        chunk_index,
                        total_chunks,
                        data,
                        expected_size,
                    );
                    (
                        ManagerView {
                            incoming: taken.0,
                            tick: if before.tick < u64::MAX {
                                (before.tick + 1) as u64
                            } else {
                                before.tick
                            },
                            ..before
                        },
                        chunk_result(before, file_id, taken.1),
                    )
                })
        },
    }
}

proof fn lemma_wf_remove(m: Map<Seq<char>, TransferView>, id: Seq<char>)
    requires
        wf_incoming(m),
    ensures
        wf_incoming(m.remove(id)),
        m.dom().contains(id) ==> total_received(m) == m[id].bytes_received + total_received(
            m.remove(id),
        ),
        total_received(m.remove(id)) <= MAX_TOTAL_INCOMING_BYTES,
{
    let f = |t: TransferView| received_of(t);
    if m.dom().contains(id) {
        sums::lemma_sum_remove(m, f, id);
        assert(m.remove(id).dom() =~= m.dom().remove(id));
    } else {
        assert(m.remove(id) =~= m);
    }
    assert forall|k: Seq<char>| #[trigger] m.remove(id).dom().contains(k) implies m.remove(
        id,
    )[k].wf() && names::valid_file_id(k) by {
        assert(m.dom().contains(k));
    }
}

proof fn lemma_with_chunk(t: TransferView, index: u32, data: Seq<u8>, tick: u64)
    requires
        t.chunks.dom().finite(),
        !t.chunks.dom().contains(index),
        t.bytes_received == sums::map_sum(t.chunks, |c: Seq<u8>| len_of(c)),
        t.bytes_received + data.len() <= u64::MAX,
    ensures
        t.with_chunk(index, data, tick).bytes_received == sums::map_sum(
            t.with_chunk(index, data, tick).chunks,
            |c: Seq<u8>| len_of(c),
        ),
        t.with_chunk(index, data, tick).chunks.dom().len() == t.chunks.dom().len() + 1,
{
    let f = |c: Seq<u8>| len_of(c);
    sums::lemma_sum_insert(t.chunks, f, index, data);
    assert(t.chunks.remove(index) =~= t.chunks);
    assert(t.chunks.insert(index, data).dom() =~= t.chunks.dom().insert(index));
}

proof fn lemma_fresh(total: u32, size: u64, tick: u64)
    requires
        1 <= total <= MAX_CHUNKS_PER_FILE,
    ensures
        TransferView::fresh(total, size, tick).wf(),
{
    let t = TransferView::fresh(total, size, tick);
    assert(t.chunks.dom() =~= Set::<u32>::empty());
}

impl IncomingTransfer {
    fn start(total: u32, size: u64, tick: u64) -> (r: Self)
        ensures
            r@ == TransferView::fresh(total, size, tick),
    {
        let r = IncomingTransfer {
            expected_total: total,
            expected_size: size,
            chunks: HashMap::new(),
            bytes_received: 0,
            last_activity: tick,
        };
        assert(r@.chunks =~= Map::<u32, Seq<u8>>::empty());
        r
    }

    fn join(&self) -> (r: Vec<u8>)
        requires
            forall|i: u32| i < self@.expected_total ==> self@.chunks.dom().contains(i),
        ensures
            r@ == assembled(self@.chunks, self@.expected_total as nat),
    {
        let mut out: Vec<u8> = Vec::new();
        let mut i: u32 = 0;
        while i < self.expected_total
            invariant
                i <= self@.expected_total,
                forall|i: u32| i < self@.expected_total ==> self@.chunks.dom().contains(i),
                out@ == assembled(self@.chunks, i as nat),
            decreases self@.expected_total - i,
        {
            assert(self@.chunks.dom().contains(i));
            let part: &Vec<u8> = self.chunks.get(&i).unwrap();
            assert(part@ == self@.chunks[i]);
            bytes::push_all(&mut out, part.as_slice());
            i = i + 1;
        }
        out
    }
}

impl FileManager {
    /// A manager whose cache stands under this data directory.
    pub fn new(data_dir: &str) -> (r: Self)
        ensures
            r@.wf(),
            r@ == (ManagerView {
                cache_dir: data_dir@ + "/files/cache"@,
                incoming: Map::empty(),
                tick: 0,
            }),
    {
        let r = FileManager {
            cache_dir: text::join2(data_dir, "/files/cache"),
            incoming: StrMap::new(),
            tick: 0,
        };
        proof {
            assert(r@.incoming =~= Map::<Seq<char>, TransferView>::empty());
            assert(r@.incoming.dom() =~= Set::<Seq<char>>::empty());
        }
        r
    }

    pub fn cache_dir(&self) -> (r: &str)
        ensures
            r@ == self@.cache_dir,
    {
        self.cache_dir.as_str()
    }

    /// Where a complete file is kept.
    pub fn cache_path(&self, file_id: &str) -> (r: String)
        ensures
            r@ == self@.path_of(file_id@),
    {
        text::join3(self.cache_dir.as_str(), "/", file_id)
    }

    /// Where a complete file may be read; nothing for a text that is no file id.
    pub fn readable_path(&self, file_id: &str) -> (r: Result<String, HuddleError>)
        ensures
            match r {
                Ok(p) => names::valid_file_id(file_id@) && p@ == self@.path_of(file_id@),
                Err(e) => !names::valid_file_id(file_id@) && e@ == ErrorView::Other(
                    "read_cache: file_id is not a 64-char hex digest (rejected to prevent path traversal)"@,
                ),
            },
    {
        if !names::is_valid_file_id(file_id) {
            return Err(
                crate::error::other_error(
                    "read_cache: file_id is not a 64-char hex digest (rejected to prevent path traversal)",
                ),
            );
        }
        Ok(self.cache_path(file_id))
    }

    /// Cuts a file up to be sent. It is refused if it is too large.
    pub fn prepare_outgoing_from_bytes(&self, name: &str, mime: Option<String>, data: &[u8]) -> (r:
        Result<OutgoingPlan, HuddleError>)
        ensures
            match r {
                Ok(plan) => plan_fault(data@.len()) is None && plan.file_id@
                    == encryption::digest_hex(data@) && names::valid_file_id(plan.file_id@)
                    && plan.name@ == name@ && plan.mime == mime && plan.size_bytes == data@.len()
                    && chunk_views(plan.chunks@) == chunks_of(data@) && arrives(data@),
                Err(e) => plan_fault(data@.len()) == Some(e@),
            },
    {
        let plan = plan_outgoing(name, mime, data);
        proof {
            if plan is Ok {
                law_sent_files_arrive_whole(data@);
            }
        }
        plan
    }

    /// How many files are being received.
    pub fn incoming_count(&self) -> (r: usize)
        requires
            self@.wf(),
        ensures
            r == self@.incoming.dom().len(),
            r <= MAX_CONCURRENT_INCOMING,
    {
        assert(self@.incoming.dom() =~= self.incoming@.dom());
        self.incoming.len()
    }

    fn total(&self) -> (r: u64)
        requires
            self@.wf(),
        ensures
            r == total_received(self@.incoming),
    {
        let ghost m = self@.incoming;
        let ghost f = |t: TransferView| received_of(t);
        let ghost keys = self.incoming.keys();
        let n: usize = self.incoming.len();
        assert(m.dom() =~= self.incoming@.dom());
        let mut sum: u64 = 0;
        let mut i: usize = 0;
        proof {
            sums::lemma_keys_sum(keys, m, f);
        }
        while i < n
            invariant
                n == keys.len(),
                keys == self.incoming.keys(),
                m == self@.incoming,
                f == (|t: TransferView| received_of(t)),
                i <= n,
                sum == sums::keys_sum(keys.take(i as int), m, f),
                sums::keys_sum(keys, m, f) <= MAX_TOTAL_INCOMING_BYTES,
            decreases n - i,
        {
            let t: &IncomingTransfer = self.incoming.value_at(i);
            proof {
                assert(keys.take(i + 1).drop_last() =~= keys.take(i as int));
                assert(m[keys[i as int]] == t@);
                lemma_keys_sum_prefix(keys, m, f, i + 1);
            }
            sum = sum + t.bytes_received;
            i = i + 1;
        }
        assert(keys.take(n as int) =~= keys);
        sum
    }

    /// The file that was idle for longest.
    fn lru_incoming_key(&self) -> (r: Option<String>)
        ensures
            match r {
                Some(k) => least_recent(self@.incoming, k@),
                None => self@.incoming.dom() =~= Set::<Seq<char>>::empty(),
            },
    {
        let ghost m = self@.incoming;
        let ghost keys = self.incoming.keys();
        let n: usize = self.incoming.len();
        assert(m.dom() =~= self.incoming@.dom());
        if n == 0 {
            assert forall|k: Seq<char>| !m.dom().contains(k) by {
                assert(!keys.contains(k));
            }
            return None;
        }
        let mut best: usize = 0;
        let mut i: usize = 1;
        while i < n
            invariant
                n == keys.len(),
                keys == self.incoming.keys(),
                m == self@.incoming,
                best < n,
                i <= n,
                forall|j: int|
                    0 <= j < i ==> m[keys[best as int]].last_activity <= m[#[trigger] keys[j]].last_activity,
            decreases n - i,
        {
            let a: &IncomingTransfer = self.incoming.value_at(best);
            let b: &IncomingTransfer = self.incoming.value_at(i);
            assert(m[keys[best as int]] == a@);
            assert(m[keys[i as int]] == b@);
            if b.last_activity < a.last_activity {
                best = i;
            }
            i = i + 1;
        }
        proof {
            let v = keys[best as int];
            assert(keys.contains(v));
            assert forall|other: Seq<char>| #[trigger]
                m.dom().contains(other) implies m[v].last_activity <= m[other].last_activity by {
                assert(keys.contains(other));
                let j = keys.index_of(other);
                assert(keys[j] == other);
            }
        }
        Some(text::owned(self.incoming.key_at(best)))
    }

    fn make_room(&mut self, file_id: &str)
        requires
            old(self)@.wf(),
        ensures
            final(self)@.wf(),
            room_made(old(self)@.incoming, file_id@, final(self)@.incoming),
            final(self)@.cache_dir == old(self)@.cache_dir,
            final(self)@.tick == old(self)@.tick,
            final(self)@.incoming.dom().contains(file_id@) || final(self)@.incoming.dom().len()
                < MAX_CONCURRENT_INCOMING,
    {
        let ghost before = self@.incoming;
        assert(before.dom() =~= self.incoming@.dom());
        if self.incoming.contains_key(file_id) {
            return ;
        }
        if self.incoming.len() >= MAX_CONCURRENT_INCOMING {
            match self.lru_incoming_key() {
                Some(victim) => {
                    let gone = self.incoming.remove(victim.as_str());
                    proof {
                        assert(self@.incoming =~= before.remove(victim@));
                        lemma_wf_remove(before, victim@);
                        assert(before.remove(victim@).dom() =~= before.dom().remove(victim@));
                    }
                },
                None => {
                    assert(before.dom().len() == 0);
                },
            }
        }
    }

    /// Takes in one chunk of a file. `cached` is what the cache holds under this file id, if
    /// anything. The chunk that completes the file returns it, if its digest is right.
    pub fn accept_chunk(
        &mut self,
        file_id: &str,
        chunk_index: u32,
        total_chunks: u32,
        data: Vec<u8>,
        expected_size: u64,
        cached: Option<Vec<u8>>,
    ) -> (r: Result<Option<CompletedFile>, HuddleError>)
        requires
            old(self)@.wf(),
        ensures
            final(self)@.wf(),
            chunk_taken(
                old(self)@,
                file_id@,
                chunk_index,
                total_chunks,
                data@,
                expected_size,
                bytes::opt(cached),
                final(self)@,
                completed_view(r),
            ),
    {
        match check_chunk(file_id, chunk_index, total_chunks, data.len(), expected_size) {
            Some(e) => {
                return Err(e);
            },
            None => {},
        }
        let ghost start = self@;
        match cached {
            Some(held) => {
                let digest: String = encryption::sha256_hex(held.as_slice());
                if text::same(digest.as_str(), file_id) {
                    return Ok(
                        Some(
                            CompletedFile {
                                file_id: text::owned(file_id),
                                cache_path: self.cache_path(file_id),
                                size_bytes: held.len() as u64,
                                contents: None,
                            },
                        ),
                    );
                }
            },
            None => {},
        }
        self.make_room(file_id);
        let ghost base = self@.incoming;
        let tick: u64 = self.tick;
        if self.tick < u64::MAX {
            self.tick = self.tick + 1;
        }
        let buffered: u64 = self.total();
        let ghost taken = take_chunk(
            base,
            tick,
            file_id@,
            chunk_index,
            total_chunks,
            data@,
            expected_size,
        );
        assert(room_made(start.incoming, file_id@, base));
        proof {
            lemma_wf_remove(base, file_id@);
            lemma_fresh(total_chunks, expected_size, tick);
            assert(base.dom() =~= self.incoming@.dom());
        }
        let mut transfer: IncomingTransfer = match self.incoming.remove(file_id) {
            Some(t) => t,
            None => IncomingTransfer::start(total_chunks, expected_size, tick),
        };
        let ghost t0 = transfer@;
        let ghost others = base.remove(file_id@);
        proof {
            assert(self@.incoming =~= others);
            assert(t0.wf());
            assert(others.dom() =~= base.dom().remove(file_id@));
        }
        if transfer.expected_total != total_chunks {
            self.incoming.insert(text::owned(file_id), transfer);
            assert(self@.incoming =~= base);
            return Err(crate::error::other_error("chunk total disagrees with prior chunks"));
        }
        if transfer.chunks.contains_key(&chunk_index) {
            self.incoming.insert(text::owned(file_id), transfer);
            assert(self@.incoming =~= base);
            return Ok(None);
        }
        let own: u64 = transfer.bytes_received;
        proof {
            if base.dom().contains(file_id@) {
                assert(total_received(base) == own + total_received(others));
            } else {
                assert(others =~= base);
                assert(own == 0);
            }
            assert(own <= MAX_TOTAL_INCOMING_BYTES);
        }
        let others_total: u64 = buffered - own;
        assert(others_total == total_received(others));
        let new_total: u64 = own + (data.len() as u64);
        let over_size: bool = if transfer.expected_size > u64::MAX - SIZE_GRACE {
            false
        } else {
            new_total > transfer.expected_size + SIZE_GRACE
        };
        if over_size {
            let a: String = text::decimal_of(new_total);
            let b: String = text::decimal_of(transfer.expected_size);
            return Err(
                HuddleError::Other(
                    text::join4(
                        "FileChunk: bytes_received ",
                        a.as_str(),
                        " would exceed expected_size ",
                        b.as_str(),
                    ),
                ),
            );
        }
        if others_total + new_total > MAX_TOTAL_INCOMING_BYTES {
            let a: String = text::decimal_of(others_total + new_total);
            return Err(
                HuddleError::Other(
                    text::join3(
                        "FileChunk: total buffered ",
                        a.as_str(),
                        " would exceed global cap 268435456",
                    ),
                ),
            );
        }
        let ghost piece = data@;
        let ghost chunks_before = transfer.chunks@;
        transfer.bytes_received = new_total;
        transfer.chunks.insert(chunk_index, data);
        transfer.last_activity = tick;
        let ghost t1 = t0.with_chunk(chunk_index, piece, tick);
        proof {
            assert(transfer@.chunks =~= t1.chunks);
            assert(transfer@ =~= t1);
            lemma_with_chunk(t0, chunk_index, piece, tick);
            assert(transfer.chunks@.dom() =~= t1.chunks.dom());
            sums::lemma_at_most(t1.chunks.dom(), total_chunks);
        }
        if transfer.chunks.len() != total_chunks as usize {
            proof {
                let f = |t: TransferView| received_of(t);
                sums::lemma_sum_insert(base, f, file_id@, t1);
                assert(base.insert(file_id@, t1).dom() =~= others.dom().insert(file_id@));
                assert(t1.wf());
            }
            self.incoming.insert(text::owned(file_id), transfer);
            proof {
                assert(self@.incoming =~= base.insert(file_id@, t1));
                assert forall|k: Seq<char>| #[trigger]
                    self@.incoming.dom().contains(k) implies self@.incoming[k].wf()
                    && names::valid_file_id(k) by {
                    if k != file_id@ {
                        assert(others.dom().contains(k));
                    }
                }
            }
            return Ok(None);
        }
        proof {
            sums::lemma_all_below(t1.chunks.dom(), total_chunks);
        }
        let file: Vec<u8> = transfer.join();
        let computed: String = encryption::sha256_hex(file.as_slice());
        if !text::same(computed.as_str(), file_id) {
            return Err(
                HuddleError::Other(
                    text::join4(
                        "hash mismatch — expected ",
                        file_id,
                        ", got ",
                        computed.as_str(),
                    ),
                ),
            );
        }
        Ok(
            Some(
                CompletedFile {
                    file_id: text::owned(file_id),
                    cache_path: self.cache_path(file_id),
                    size_bytes: file.len() as u64,
                    contents: Some(file),
                },
            ),
        )
    }

    /// Forgets what came of a file.
    pub fn cancel_incoming(&mut self, file_id: &str)
        requires
            old(self)@.wf(),
        ensures
            final(self)@.wf(),
            final(self)@ == (ManagerView {
                incoming: old(self)@.incoming.remove(file_id@),
                ..old(self)@
            }),
    {
        let ghost before = self@.incoming;
        let gone = self.incoming.remove(file_id);
        proof {
            assert(self@.incoming =~= before.remove(file_id@));
            lemma_wf_remove(before, file_id@);
        }
    }

    /// Notes the size that an offer announces of a file, where chunks of it have come already.
    pub fn set_expected_size(&mut self, file_id: &str, size: u64)
        requires
            old(self)@.wf(),
        ensures
            final(self)@.wf(),
            final(self)@ == (ManagerView {
                incoming: if old(self)@.incoming.dom().contains(file_id@) {
                    old(self)@.incoming.insert(
                        file_id@,
                        TransferView { expected_size: size, ..old(self)@.incoming[file_id@] },
                    )
                } else {
                    old(self)@.incoming
                },
                ..old(self)@
            }),
    {
        let ghost before = self@.incoming;
        match self.incoming.remove(file_id) {
            Some(mut t) => {
                let ghost t0 = t@;
                t.expected_size = size;
                let ghost t1 = TransferView { expected_size: size, ..t0 };
                proof {
                    assert(before.dom().contains(file_id@));
                    assert(t@ =~= t1);
                    assert(t0 == before[file_id@]);
                    lemma_wf_remove(before, file_id@);
                    let f = |t: TransferView| received_of(t);
                    sums::lemma_sum_insert(before, f, file_id@, t1);
                    assert(before.insert(file_id@, t1).dom() =~= before.dom());
                }
                self.incoming.insert(text::owned(file_id), t);
                proof {
                    assert(self@.incoming =~= before.insert(file_id@, t1));
                    assert forall|k: Seq<char>| #[trigger]
                        self@.incoming.dom().contains(k) implies self@.incoming[k].wf()
                        && names::valid_file_id(k) by {
                        assert(before.dom().contains(k));
                    }
                }
            },
            None => {
                assert(self@.incoming =~= before);
            },
        }
    }

    /// The bytes that have come of a file, and its announced size.
    pub fn progress(&self, file_id: &str) -> (r: Option<(u64, u64)>)
        ensures
            r == (if self@.incoming.dom().contains(file_id@) {
                Some(
                    (
                        self@.incoming[file_id@].bytes_received,
                        self@.incoming[file_id@].expected_size,
                    ),
                )
            } else {
                None::<(u64, u64)>
            }),
    {
        match self.incoming.get(file_id) {
            Some(t) => Some((t.bytes_received, t.expected_size)),
            None => None,
        }
    }
}

proof fn lemma_keys_sum_prefix(
    keys: Seq<Seq<char>>,
    m: Map<Seq<char>, TransferView>,
    f: spec_fn(TransferView) -> nat,
    i: int,
)
    requires
        0 <= i <= keys.len(),
    ensures
        sums::keys_sum(keys.take(i), m, f) <= sums::keys_sum(keys, m, f),
    decreases keys.len() - i,
{
    if i == keys.len() {
        assert(keys.take(i) =~= keys);
    } else {
        lemma_keys_sum_prefix(keys, m, f, i + 1);
        assert(keys.take(i + 1).drop_last() =~= keys.take(i));
    }
}

// ---------------------------------------------------------------------------------------------
// Laws
// ---------------------------------------------------------------------------------------------

/// No chunk that is cut from a file of a size that may be sent is refused for its shape.
pub proof fn law_sent_chunks_are_taken(data: Seq<u8>, i: u32)
    requires
        data.len() <= MAX_FILE_SIZE,
        i < chunk_count(data.len()),
    ensures
        names::valid_file_id(encryption::digest_hex(data)) ==> chunk_fault(
            encryption::digest_hex(data),
            i,
            chunk_count(data.len()) as u32,
            chunk_of(data, i as int).len(),
            data.len() as u64,
        ) is None,
{
    let n = chunk_count(data.len());
    assert(n <= 400);
    if data.len() > 0 {
        assert(i * CHUNK_SIZE < data.len());
    }
}

proof fn lemma_assembled_is_flattened(chunks: Map<u32, Seq<u8>>, s: Seq<Seq<u8>>, n: nat)
    requires
        n <= s.len(),
        n <= u32::MAX,
        forall|i: u32| i < n ==> chunks[i] == s[i as int],
    ensures
        assembled(chunks, n) == flattened(s.take(n as int)),
    decreases n,
{
    if n == 0 {
        assert(s.take(0) =~= Seq::<Seq<u8>>::empty());
    } else {
        let p = (n - 1) as nat;
        lemma_assembled_is_flattened(chunks, s, p);
        assert(s.take(n as int).drop_last() =~= s.take(p as int));
        assert(s.take(n as int).last() == s[p as int]);
        assert(chunks[p as u32] == s[p as int]);
    }
}

/// How many bytes the chunks among the first `n` have whose numbers are in a set.
pub open spec fn bytes_among(data: Seq<u8>, s: Set<u32>, n: nat) -> nat
    decreases n,
{
    if n == 0 {
        0
    } else {
        let p = (n - 1) as nat;
        bytes_among(data, s, p) + (if s.contains(p as u32) {
            chunk_of(data, p as int).len()
        } else {
            0
        })
    }
}

/// Some chunks of a file never have more bytes than the file.
proof fn lemma_bytes_bounded(data: Seq<u8>, s: Set<u32>, n: nat)
    requires
        n <= chunk_count(data.len()),
    ensures
        bytes_among(data, s, n) <= n * CHUNK_SIZE,
        bytes_among(data, s, n) <= data.len(),
    decreases n,
{
    if n > 0 {
        let p = (n - 1) as nat;
        lemma_bytes_bounded(data, s, p);
        if data.len() > 0 {
            assert(p * CHUNK_SIZE < data.len()) by {
                assert(p < (data.len() + CHUNK_SIZE - 1) as nat / CHUNK_SIZE as nat);
            }
        }
    }
}

/// One chunk more counts its bytes.
proof fn lemma_bytes_insert(data: Seq<u8>, s: Set<u32>, j: u32, n: nat)
    requires
        !s.contains(j),
        n <= u32::MAX,
    ensures
        bytes_among(data, s.insert(j), n) == bytes_among(data, s, n) + (if j < n {
            chunk_of(data, j as int).len()
        } else {
            0
        }),
    decreases n,
{
    if n > 0 {
        lemma_bytes_insert(data, s, j, (n - 1) as nat);
    }
}

proof fn lemma_bytes_of_none(data: Seq<u8>, n: nat)
    ensures
        bytes_among(data, Set::empty(), n) == 0,
    decreases n,
{
    if n > 0 {
        lemma_bytes_of_none(data, (n - 1) as nat);
    }
}

/// The numbers of all chunks of a file, each once, in whatever order.
pub open spec fn is_chunk_order(order: Seq<u32>, data: Seq<u8>) -> bool {
    &&& order.len() == chunk_count(data.len())
    &&& order.no_duplicates()
    &&& forall|k: int| 0 <= k < order.len() ==> #[trigger] order[k] < chunk_count(data.len())
}

/// A receiver who has begun nothing of this file, and can take it.
pub open spec fn can_take(m: ManagerView, data: Seq<u8>) -> bool {
    &&& !m.incoming.dom().contains(encryption::digest_hex(data))
    &&& m.incoming.dom().len() < MAX_CONCURRENT_INCOMING
    &&& total_received(m.incoming) + data.len() <= MAX_TOTAL_INCOMING_BYTES
}

/// The `k`-th chunk that comes, and what `FileManager::accept_chunk` makes of it; nothing of the file is
/// in the cache.
pub open spec fn chunk_delivered(
    data: Seq<u8>,
    order: Seq<u32>,
    states: Seq<ManagerView>,
    said: Seq<Result<Option<CompletedView>, ErrorView>>,
    k: int,
) -> bool {
    chunk_taken(
        states[k],
        encryption::digest_hex(data),
        order[k],
        chunk_count(data.len()) as u32,
        chunk_of(data, order[k] as int),
        data.len() as u64,
        None,
        states[k + 1],
        said[k],
    )
}

/// All chunks of a file come to a receiver, one after another in this order: what it holds before and after
/// each, and what it says to each.
pub open spec fn delivered(
    data: Seq<u8>,
    order: Seq<u32>,
    states: Seq<ManagerView>,
    said: Seq<Result<Option<CompletedView>, ErrorView>>,
) -> bool {
    &&& is_chunk_order(order, data)
    &&& states.len() == order.len() + 1
    &&& said.len() == order.len()
    &&& forall|k: int|
        0 <= k < order.len() ==> #[trigger] chunk_delivered(data, order, states, said, k)
}

/// The receiver says nothing until the last chunk, then hands the whole file over and holds nothing of it
/// any more.
pub open spec fn arrived_whole(
    data: Seq<u8>,
    states: Seq<ManagerView>,
    said: Seq<Result<Option<CompletedView>, ErrorView>>,
) -> bool {
    &&& forall|k: int|
        0 <= k < said.len() - 1 ==> #[trigger] said[k] == Ok::<Option<CompletedView>, ErrorView>(
            None,
        )
    &&& said.last() == Ok::<Option<CompletedView>, ErrorView>(
        Some(
            CompletedView {
                file_id: encryption::digest_hex(data),
                cache_path: states[0].path_of(encryption::digest_hex(data)),
                size_bytes: data.len(),
                contents: Some(data),
            },
        ),
    )
    &&& states.last().incoming == states[0].incoming
}

/// A file arrives whole in whatever order its chunks come.
pub open spec fn arrives(data: Seq<u8>) -> bool {
    forall|
        order: Seq<u32>,
        states: Seq<ManagerView>,
        said: Seq<Result<Option<CompletedView>, ErrorView>>,
    | #[trigger]
        delivered(data, order, states, said) && can_take(states[0], data) ==> arrived_whole(
            data,
            states,
            said,
        )
}

/// What a receiver holds of a file after these chunks of it.
spec fn holds_part(t: TransferView, data: Seq<u8>, got: Set<u32>) -> bool {
    &&& t.expected_total == chunk_count(data.len())
    &&& t.expected_size == data.len()
    &&& t.chunks.dom() == got
    &&& forall|i: u32| #[trigger] got.contains(i) ==> t.chunks[i] == chunk_of(data, i as int)
    &&& t.bytes_received == bytes_among(data, got, chunk_count(data.len()))
}

proof fn lemma_partial(
    data: Seq<u8>,
    order: Seq<u32>,
    states: Seq<ManagerView>,
    said: Seq<Result<Option<CompletedView>, ErrorView>>,
    k: int,
)
    requires
        data.len() <= MAX_FILE_SIZE,
        names::valid_file_id(encryption::digest_hex(data)),
        delivered(data, order, states, said),
        can_take(states[0], data),
        0 <= k <= order.len(),
    ensures
        states[k].cache_dir == states[0].cache_dir,
        k == 0 || k == order.len() ==> states[k].incoming == states[0].incoming,
        0 < k < order.len() ==> states[k].incoming.dom().contains(encryption::digest_hex(data))
            && states[k].incoming.remove(encryption::digest_hex(data)) == states[0].incoming
            && holds_part(
            states[k].incoming[encryption::digest_hex(data)],
            data,
            order.take(k).to_set(),
        ),
        0 < k < order.len() ==> said[k - 1] == Ok::<Option<CompletedView>, ErrorView>(None),
        k == order.len() ==> said[k - 1] == Ok::<Option<CompletedView>, ErrorView>(
            Some(
                CompletedView {
                    file_id: encryption::digest_hex(data),
                    cache_path: states[0].path_of(encryption::digest_hex(data)),
                    size_bytes: data.len(),
                    contents: Some(data),
                },
            ),
        ),
    decreases k,
{
    if k > 0 {
        let id = encryption::digest_hex(data);
        let n = chunk_count(data.len());
        assert(n <= 400);
        let p = k - 1;
        lemma_partial(data, order, states, said, p);
        assert(chunk_delivered(data, order, states, said, p));
        let j = order[p];
        let piece = chunk_of(data, j as int);
        law_sent_chunks_are_taken(data, j);
        let before = states[p];
        let base = before.incoming;
        let first = states[0].incoming;
        let got = order.take(p).to_set();
        let t = if base.dom().contains(id) {
            base[id]
        } else {
            TransferView::fresh(n as u32, data.len() as u64, before.tick)
        };
        if p == 0 {
            assert(order.take(0) =~= Seq::<u32>::empty());
            assert(got =~= Set::<u32>::empty());
            assert(t.chunks.dom() =~= got);
            lemma_bytes_of_none(data, n);
        }
        assert(holds_part(t, data, got));
        let others = base.remove(id);
        assert(others =~= first);
        assert(!got.contains(j)) by {
            if got.contains(j) {
                let i = choose|i: int| 0 <= i < p && order.take(p)[i] == j;
                assert(order[i] == order[p]);
            }
        }
        lemma_bytes_insert(data, got, j, n);
        lemma_bytes_bounded(data, got.insert(j), n);
        let next = t.with_chunk(j, piece, before.tick);
        let more = order.take(k).to_set();
        assert(order.take(k) =~= order.take(p).push(j));
        assert(more =~= got.insert(j)) by {
            assert forall|x: u32| more.contains(x) == got.insert(j).contains(x) by {
                if got.contains(x) {
                    let i = choose|i: int| 0 <= i < p && order.take(p)[i] == x;
                    assert(order.take(k)[i] == x);
                }
                if x == j {
                    assert(order.take(k)[p] == x);
                }
                if more.contains(x) && x != j {
                    let i = choose|i: int| 0 <= i < k && order.take(k)[i] == x;
                    assert(order.take(p)[i] == x);
                }
            }
        }
        assert(next.chunks.dom() =~= more);
        assert(holds_part(next, data, more));
        assert(order.take(k).no_duplicates());
        order.take(k).unique_seq_to_set();
        assert(next.chunks.dom().len() == k);
        let taken = take_chunk(
            base,
            before.tick,
            id,
            j,
            n as u32,
            piece,
            data.len() as u64,
        );
        if k < n {
            assert(taken == (base.insert(id, next), Ok::<Option<Seq<u8>>, ErrorView>(None)));
            assert(base.insert(id, next).remove(id) =~= others);
        } else {
            let s = chunks_of(data);
            assert forall|i: u32| more.contains(i) implies i < n by {
                let x = choose|x: int| 0 <= x < k && order.take(k)[x] == i;
                assert(order[x] == i);
            }
            sums::lemma_all_below(more, n as u32);
            assert forall|i: u32| i < n implies next.chunks[i] == s[i as int] by {
                assert(more.contains(i));
            }
            lemma_assembled_is_flattened(next.chunks, s, n);
            assert(s.take(n as int) =~= s);
            law_chunks_make_the_file(data);
            assert(taken == (others, Ok::<Option<Seq<u8>>, ErrorView>(Some(data))));
        }
    }
}

/// A file that was sent arrives whole, in whatever order its chunks come: a file of one chunk or of many,
/// and an empty one. That the digest of a file is a file id is what `prepare_outgoing_from_bytes` says.
pub proof fn law_sent_files_arrive_whole(data: Seq<u8>)
    requires
        data.len() <= MAX_FILE_SIZE,
        names::valid_file_id(encryption::digest_hex(data)),
    ensures
        arrives(data),
{
    assert forall|
        order: Seq<u32>,
        states: Seq<ManagerView>,
        said: Seq<Result<Option<CompletedView>, ErrorView>>,
    | #[trigger]
        delivered(data, order, states, said) && can_take(states[0], data) implies arrived_whole(
        data,
        states,
        said,
    ) by {
        let n = order.len() as int;
        lemma_partial(data, order, states, said, n);
        assert forall|k: int| 0 <= k < said.len() - 1 implies #[trigger] said[k] == Ok::<
            Option<CompletedView>,
            ErrorView,
        >(None) by {
            lemma_partial(data, order, states, said, k + 1);
        }
    }
}

/// A receiver who receives nothing yet can take any file that may be sent.
pub proof fn law_a_fresh_receiver_can_take_any_file(m: ManagerView, data: Seq<u8>)
    requires
        m.incoming == Map::<Seq<char>, TransferView>::empty(),
        data.len() <= MAX_FILE_SIZE,
    ensures
        can_take(m, data),
{
    assert(m.incoming.dom() =~= Set::<Seq<char>>::empty());
}

} // verus!
