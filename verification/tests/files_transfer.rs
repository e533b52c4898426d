//! Files in chunks, and their names.
use huddle_core::files::names::{
    guess_mime, is_valid_file_id, pick_non_colliding, sanitize_filename,
};
use huddle_core::files::transfer::{
    CompletedFile, FileManager, CHUNK_SIZE, MAX_CONCURRENT_INCOMING, MAX_FILE_SIZE,
};

fn fresh_manager() -> FileManager {
    FileManager::new("/data")
}

#[test]
fn sanitize_strips_slashes_and_control_chars() {
    assert_eq!(sanitize_filename("../../etc/passwd"), "_.._etc_passwd");
    assert_eq!(sanitize_filename("file/with\\path"), "file_with_path");
    assert_eq!(sanitize_filename(""), "untitled");
    assert_eq!(sanitize_filename("..."), "untitled");
}

#[test]
fn safe_names_stay_as_they_are() {
    for name in ["../../etc/passwd", " .a b. ", "...", "né/\u{1F980}.png", "plain-name_1.txt"] {
        let once = sanitize_filename(name);
        assert_eq!(sanitize_filename(&once), once);
    }
}

#[test]
fn files_arrive_whole_in_any_order() {
    for len in [0, 1, CHUNK_SIZE, CHUNK_SIZE + 1, 3 * CHUNK_SIZE + 7] {
        let data: Vec<u8> = (0..len).map(|i| (i % 253) as u8).collect();
        let plan = fresh_manager().prepare_outgoing_from_bytes("f", None, &data).unwrap();
        let total = plan.chunks.len() as u32;
        let forwards: Vec<u32> = (0..total).collect();
        let backwards: Vec<u32> = (0..total).rev().collect();
        for order in [forwards, backwards] {
            let mut receiver = fresh_manager();
            receiver.set_expected_size(&plan.file_id, plan.size_bytes);
            let mut done: Option<CompletedFile> = None;
            for i in &order {
                assert!(done.is_none(), "complete with the last chunk only");
                let chunk = plan.chunks[*i as usize].clone();
                done = receiver
                    .accept_chunk(&plan.file_id, *i, total, chunk, plan.size_bytes, None)
                    .unwrap();
            }
            assert_eq!(done.expect("complete").contents.expect("whole"), data);
            assert_eq!(receiver.incoming_count(), 0);
        }
    }
}

#[test]
fn collision_picks_dash_suffix() {
    let mut taken: Vec<String> = Vec::new();
    let first = pick_non_colliding("a.txt", &taken);
    assert_eq!(first, "a.txt");
    taken.push(first);
    let second = pick_non_colliding("a.txt", &taken);
    assert_eq!(second, "a-1.txt");
    taken.push(second);
    let third = pick_non_colliding("a.txt", &taken);
    assert_eq!(third, "a-2.txt");
}

#[test]
fn mime_lookup() {
    assert_eq!(guess_mime("photo.png").as_deref(), Some("image/png"));
    assert_eq!(guess_mime("notes.md").as_deref(), Some("text/markdown"));
    assert!(guess_mime("unknown.xyz").is_none());
}

#[test]
fn outgoing_plan_round_trip_with_chunking() {
    let mgr = fresh_manager();
    let bytes: Vec<u8> = (0..200_000u32).map(|i| (i & 0xFF) as u8).collect();
    let plan = mgr
        .prepare_outgoing_from_bytes("file.bin", None, &bytes)
        .unwrap();
    let expected_chunks = (bytes.len() + CHUNK_SIZE - 1) / CHUNK_SIZE;
    assert_eq!(plan.chunks.len(), expected_chunks);
    assert_eq!(plan.size_bytes, bytes.len() as u64);

    let mut mgr2 = fresh_manager();
    let total = plan.chunks.len() as u32;
    let mut completion: Option<CompletedFile> = None;
    for (i, chunk) in plan.chunks.iter().enumerate() {
        let c = mgr2
            .accept_chunk(
                &plan.file_id,
                i as u32,
                total,
                chunk.clone(),
                plan.size_bytes,
                None,
            )
            .unwrap();
        if c.is_some() {
            completion = c;
        }
    }
    let done = completion.expect("completion on last chunk");
    assert_eq!(done.file_id, plan.file_id);
    assert_eq!(done.cache_path, format!("/data/files/cache/{}", plan.file_id));
    assert_eq!(done.contents.expect("to be written"), bytes);
}

#[test]
fn duplicate_chunks_are_ignored_no_double_count() {
    let mgr = fresh_manager();
    let plan = mgr
        .prepare_outgoing_from_bytes("x.bin", None, &vec![7u8; 200_000])
        .unwrap();
    let total = plan.chunks.len() as u32;
    let mut mgr2 = fresh_manager();
    mgr2.accept_chunk(
        &plan.file_id,
        0,
        total,
        plan.chunks[0].clone(),
        plan.size_bytes,
        None,
    )
    .unwrap();
    mgr2.accept_chunk(
        &plan.file_id,
        0,
        total,
        plan.chunks[0].clone(),
        plan.size_bytes,
        None,
    )
    .unwrap();
    assert_eq!(
        mgr2.progress(&plan.file_id),
        Some((plan.chunks[0].len() as u64, 200_000))
    );
    for i in 1..total {
        let r = mgr2
            .accept_chunk(
                &plan.file_id,
                i,
                total,
                plan.chunks[i as usize].clone(),
                plan.size_bytes,
                None,
            )
            .unwrap();
        if i + 1 == total {
            assert!(r.is_some(), "completion should fire on last chunk");
        }
    }
}

#[test]
fn hash_mismatch_is_rejected() {
    let mgr = fresh_manager();
    let bytes = vec![1u8; 100];
    let plan = mgr
        .prepare_outgoing_from_bytes("x.bin", None, &bytes)
        .unwrap();
    let mut mgr2 = fresh_manager();
    let mut bad = plan.chunks[0].clone();
    bad[0] = bad[0].wrapping_add(1);
    let total = plan.chunks.len() as u32;
    let err = mgr2
        .accept_chunk(&plan.file_id, 0, total, bad, plan.size_bytes, None)
        .err();
    if total == 1 {
        assert!(err.is_some(), "expected hash mismatch error");
    }
    assert!(err.unwrap().message().starts_with("hash mismatch — expected "));
}

#[test]
fn write_to_downloads_collision_suffixes() {
    let mut taken: Vec<String> = Vec::new();
    let a = pick_non_colliding("doc.txt", &taken);
    taken.push(a);
    let b = pick_non_colliding("doc.txt", &taken);
    assert!(b.contains("doc-1"));
}

#[test]
fn file_id_path_traversal_is_rejected() {
    assert!(is_valid_file_id(&"a".repeat(64)));
    assert!(is_valid_file_id(&"0123456789abcdef".repeat(4)));
    assert!(!is_valid_file_id("../../../../etc/passwd"));
    assert!(!is_valid_file_id(".."));
    assert!(!is_valid_file_id(&"a".repeat(63)));
    assert!(!is_valid_file_id(&"a".repeat(65)));
    assert!(!is_valid_file_id(&format!("{}/", "a".repeat(63))));
    assert!(!is_valid_file_id(&"g".repeat(64)));

    let mut mgr = fresh_manager();
    let err = mgr
        .accept_chunk("../../../../etc/passwd", 0, 1, vec![1], 1, None)
        .unwrap_err();
    assert!(err.message().contains("path traversal"));
    assert!(mgr.readable_path("../../secret").is_err());
}

#[test]
fn incomplete_transfers_are_bounded() {
    let mut mgr = fresh_manager();
    for i in 0..(MAX_CONCURRENT_INCOMING * 4) {
        let id = format!("{:064x}", i);
        let _ = mgr.accept_chunk(&id, 0, 2, vec![0u8; 16], 1024, None);
    }
    let live = mgr.incoming_count();
    assert!(
        live <= MAX_CONCURRENT_INCOMING,
        "incomplete-transfer map grew to {live}, cap is {MAX_CONCURRENT_INCOMING}"
    );
    // The last to come are the ones that stay.
    assert!(mgr.progress(&format!("{:064x}", 127)).is_some());
    assert!(mgr.progress(&format!("{:064x}", 0)).is_none());
}

#[test]
fn a_file_that_is_cached_is_complete_at_once() {
    let mgr = fresh_manager();
    let plan = mgr
        .prepare_outgoing_from_bytes("x.bin", None, b"abc")
        .unwrap();
    let mut mgr2 = fresh_manager();
    let done = mgr2
        .accept_chunk(&plan.file_id, 0, 1, vec![9], 3, Some(b"abc".to_vec()))
        .unwrap()
        .expect("complete");
    assert!(done.contents.is_none());
    assert_eq!(done.size_bytes, 3);
}

#[test]
fn chunks_of_the_wrong_shape_are_refused() {
    let mut mgr = fresh_manager();
    let id = "a".repeat(64);
    assert!(mgr.accept_chunk(&id, 0, 0, vec![1], 1, None).is_err());
    assert!(mgr.accept_chunk(&id, 2, 2, vec![1], 1, None).is_err());
    assert!(mgr.accept_chunk(&id, 0, 2, vec![], 1, None).is_err());
    assert!(mgr
        .accept_chunk(&id, 0, 2, vec![0; CHUNK_SIZE * 3], MAX_FILE_SIZE, None)
        .is_err());
    assert!(mgr.accept_chunk(&id, 0, 3, vec![1; 8], 64, None).unwrap().is_none());
    assert_eq!(
        mgr.accept_chunk(&id, 1, 2, vec![1; 8], 64, None)
            .unwrap_err()
            .message(),
        "chunk total disagrees with prior chunks"
    );
    mgr.set_expected_size(&id, 16);
    assert_eq!(mgr.progress(&id), Some((8, 16)));
    mgr.cancel_incoming(&id);
    assert_eq!(mgr.progress(&id), None);
}

#[test]
fn a_file_that_is_too_large_is_not_sent() {
    let mgr = fresh_manager();
    let data = vec![0u8; MAX_FILE_SIZE as usize + 1];
    let e = mgr
        .prepare_outgoing_from_bytes("big", None, &data)
        .unwrap_err();
    assert_eq!(
        e.message(),
        "file is 52428801 bytes — the cap is 52428800 bytes (~50 MiB)"
    );
    assert_eq!(mgr.cache_dir(), "/data/files/cache");
}

#[test]
fn names_beyond_ascii() {
    assert_eq!(sanitize_filename("Köln/2024.pdf"), "Köln_2024.pdf");
    assert_eq!(sanitize_filename("a\u{2603}b"), "a_b");
    assert_eq!(guess_mime("ÉTÉ.JPEG").as_deref(), Some("image/jpeg"));
    assert_eq!(guess_mime("png").as_deref(), Some("image/png"));
}
