use dfs_server::chunk_map::ChunkMap;
use dfs_server::digest::{compute_chunk_hash, compute_chunk_hash_at, public_token};
use dfs_server::patch::{
    compose_one_patch, corrected_location, followed_hints, full_rewrite_chunk, multi_patch_response,
    multi_patch_stale, patch_chunk_response, patch_chunk_stale, plan_patch, recover_patch_journal,
    resolve_chunk_content, resolve_patch_base, rewrite_time, rewritten_location, run_single_fold,
    starts_prefetch, token_location, ChunkRead, Composed, ContentSource, FoldOutcome,
    PatchJournalEntry, PatchPlan, PatchState, RecentlyPatched, RecoveryStep, Rewrite,
};
use dfs_server::protocol::Response;
use dfs_server::rewrite_run::{after_rewrite_step, rewrite_begins, RewriteStep};
use dfs_server::types::{ChunkId, ChunkLocation, ErrorCode, FileId, NodeId};
use std::collections::BTreeMap;

fn location(chunk_id: ChunkId, nodes: Vec<NodeId>, size: usize, file_id: FileId) -> ChunkLocation {
    ChunkLocation {
        chunk_id,
        nodes,
        size,
        checksum: chunk_id.hash,
        file_offset: Some(0),
        written_at: Some(1000),
        client_write_seq: Some(1),
        file_id: Some(file_id),
    }
}

fn rewritten(r: Result<Rewrite, (String, ErrorCode)>) -> Rewrite {
    match r {
        Ok(rw) => rw,
        Err((text, _)) => panic!("{}", text),
    }
}

fn folded(o: FoldOutcome) -> Rewrite {
    match o {
        FoldOutcome::Folded(rw) => rw,
        other => panic!("expected a fold, got {:?}", other),
    }
}

fn plan(file_id: FileId, patches: &Vec<(usize, Vec<u8>)>, base_size: usize) -> PatchPlan {
    plan_patch(file_id, 0, patches, "base", true, base_size).expect("the base is on disk")
}

#[test]
fn cheap_path_rejects_a_ghost_base_not_actually_on_disk() {
    let file_id = FileId { id: 4 };
    let ghost_id = ChunkId::from_hash(compute_chunk_hash(b"never-actually-written-here"));
    let mut map = ChunkMap::new();
    map.set_entry(file_id, vec![location(ghost_id, vec![], 4096, file_id)], 1);

    let current = map.current(file_id, 0);
    assert!(multi_patch_stale(&current, ghost_id, None, false).is_none());
    let base = resolve_patch_base(ghost_id, Ok(None)).unwrap();
    assert_eq!(base, ghost_id);
    let patches = vec![(0usize, vec![1u8; 100])];
    match plan_patch(file_id, 0, &patches, "ghost", false, 4096) {
        Err((text, code)) => {
            assert_eq!(code, ErrorCode::NotFound);
            assert_eq!(text, "Failed to read chunk range: Failed to open chunk file for ghost");
        }
        Ok(_) => panic!("a ghost base must be rejected"),
    }
}

#[test]
fn single_patch_acks_fast_then_folds_to_byte_identical_content() {
    let file_id = FileId { id: 11 };
    let original_data = vec![0u8; 4096];
    let original_hash = compute_chunk_hash(&original_data);
    let original_chunk_id = ChunkId::from_hash(original_hash);
    let patch: (usize, Vec<u8>) = (0, vec![3u8; 64]);

    let reference = rewritten(full_rewrite_chunk(
        file_id,
        0,
        original_chunk_id,
        &vec![patch.clone()],
        ChunkRead::Bytes(original_data.clone()),
    ));

    let p = plan(file_id, &vec![patch], original_data.len());
    assert_ne!(p.public_token, original_chunk_id);
    assert_eq!(p.size, 4096);

    let expected_nodes = vec![NodeId { id: 1 }, NodeId { id: 2 }];
    let original_loc = location(original_chunk_id, expected_nodes.clone(), 4096, file_id);
    let token_loc = token_location(&original_loc, &p, 2000, Some(2), file_id);
    assert_eq!(token_loc.chunk_id, p.public_token);
    assert_eq!(token_loc.client_write_seq, Some(2));

    let f = folded(run_single_fold(
        file_id,
        0,
        original_chunk_id,
        &p.delta_bytes,
        ChunkRead::Bytes(original_data),
    ));
    assert_ne!(f.new_chunk_id, p.public_token);
    assert_eq!(f.content, reference.content);
    assert_eq!(f.new_chunk_id, reference.new_chunk_id);

    let persisted =
        rewritten_location(None, Some(token_loc), f.new_chunk_id, f.size, 3000, file_id).unwrap();
    let (persisted, changed) = corrected_location(persisted, Some(2));
    assert!(changed);
    assert_eq!(persisted.nodes, expected_nodes);
    assert_eq!(persisted.file_offset, Some(0));
    assert_eq!(persisted.client_write_seq, Some(2));
}

#[test]
fn repeated_append_extend_patches_survive_multiple_fold_generations() {
    let file_id = FileId { id: 12 };
    let original_data = vec![0u8; 2048];
    let mut head = ChunkId::from_hash(compute_chunk_hash(&original_data));
    let mut on_disk = original_data.clone();
    let mut expected = original_data.clone();
    const NUM_PATCHES: usize = 7;
    const APPEND_LEN: usize = 512;
    for i in 0..NUM_PATCHES {
        let byte_val = (i + 1) as u8;
        let append_offset = expected.len();
        let data = vec![byte_val; APPEND_LEN];
        expected.extend_from_slice(&data);
        let p = plan(file_id, &vec![(append_offset, data)], on_disk.len());
        assert_eq!(p.size, expected.len());
        let f = folded(run_single_fold(file_id, 0, head, &p.delta_bytes, ChunkRead::Bytes(on_disk)));
        head = f.new_chunk_id;
        on_disk = f.content;
    }
    assert_eq!(on_disk.len(), expected.len());
    assert_eq!(on_disk.as_slice(), expected.as_slice());
}

#[test]
fn stale_metadata_resurrecting_public_token_still_resolves() {
    let file_id = FileId { id: 13 };
    let original_data = vec![0u8; 4096];
    let original_chunk_id = ChunkId::from_hash(compute_chunk_hash(&original_data));
    let p = plan(file_id, &vec![(0, vec![2u8; 100])], 4096);
    let f = folded(run_single_fold(
        file_id,
        0,
        original_chunk_id,
        &p.delta_bytes,
        ChunkRead::Bytes(original_data.clone()),
    ));
    assert_ne!(f.new_chunk_id, p.public_token);

    match resolve_chunk_content(true, Some(PatchState::Folded(f.new_chunk_id))) {
        ContentSource::Redirect(c) => assert_eq!(c, f.new_chunk_id),
        other => panic!("expected a redirect, got {:?}", other),
    }
    let mut expected = original_data.clone();
    expected[0..100].copy_from_slice(&[2u8; 100]);
    assert_eq!(f.content.as_slice(), expected.as_slice());
}

#[test]
fn sequential_patches_resolve_via_patch_state_without_chunkstale() {
    let file_id = FileId { id: 14 };
    let original_data = vec![0u8; 4096];
    let original_chunk_id = ChunkId::from_hash(compute_chunk_hash(&original_data));
    let mut map = ChunkMap::new();
    map.set_entry(file_id, vec![location(original_chunk_id, vec![], 4096, file_id)], 1);

    let p1 = plan(file_id, &vec![(0, vec![1u8; 100])], 4096);
    map.update_chunk_map_after_patch(file_id, Some(0), original_chunk_id, p1.public_token, p1.size, 10);
    let f1 = folded(run_single_fold(
        file_id,
        0,
        original_chunk_id,
        &p1.delta_bytes,
        ChunkRead::Bytes(original_data.clone()),
    ));
    map.update_chunk_map_after_patch(file_id, Some(0), p1.public_token, f1.new_chunk_id, f1.size, 20);

    let state = Some(PatchState::Folded(f1.new_chunk_id));
    let current = map.current(file_id, 0);
    assert!(multi_patch_stale(&current, p1.public_token, state, true).is_none());
    let base = resolve_patch_base(p1.public_token, Ok(state)).unwrap();
    assert_eq!(base, f1.new_chunk_id);

    let p2 = plan(file_id, &vec![(100, vec![2u8; 100])], f1.size);
    assert_ne!(p2.public_token, p1.public_token);
    let f2 = folded(run_single_fold(
        file_id,
        0,
        base,
        &p2.delta_bytes,
        ChunkRead::Bytes(f1.content),
    ));
    let mut expected = original_data.clone();
    expected[0..100].copy_from_slice(&[1u8; 100]);
    expected[100..200].copy_from_slice(&[2u8; 100]);
    assert_eq!(f2.content.as_slice(), expected.as_slice());
}

/// Carries out a recovery step on a file.
fn restore(file: &mut Vec<u8>, step: &RecoveryStep) {
    for (at, bytes) in step.restore.as_ref().expect("the old chunk is still there") {
        let end = *at + bytes.len();
        if file.len() < end {
            file.resize(end, 0);
        }
        file[*at..end].copy_from_slice(bytes);
    }
    file.truncate(step.cut_to);
}

#[test]
fn restores_old_chunk_when_rename_never_happened() {
    let old_id = ChunkId::from_hash([1u8; 32]);
    let new_id = ChunkId::from_hash([2u8; 32]);
    let mut patched = vec![0u8; 64];
    patched[0..8].copy_from_slice(&[0xAAu8; 8]);
    let undo_bytes = vec![0u8; 8];
    let entries = vec![PatchJournalEntry {
        old_chunk_id: old_id,
        new_chunk_id: new_id,
        patches: vec![(0, undo_bytes.clone())],
        old_len: 64,
    }];
    let steps = recover_patch_journal(&entries, &vec![true]);
    assert_eq!(steps.len(), 1);
    assert_eq!(steps[0].old_chunk_id, old_id);
    restore(&mut patched, &steps[0]);
    assert_eq!(&patched[0..8], undo_bytes.as_slice());
    assert_eq!(patched, vec![0u8; 64]);
    assert!(steps[0].clears_entry(true));
    assert!(!steps[0].clears_entry(false));
}

#[test]
fn discards_entry_when_rename_already_completed() {
    let old_id = ChunkId::from_hash([3u8; 32]);
    let new_id = ChunkId::from_hash([4u8; 32]);
    let entries = vec![PatchJournalEntry {
        old_chunk_id: old_id,
        new_chunk_id: new_id,
        patches: vec![(0, vec![0u8; 8])],
        old_len: 64,
    }];
    let steps = recover_patch_journal(&entries, &vec![false]);
    assert!(steps[0].restore.is_none());
    assert!(steps[0].clears_entry(false));
}

#[test]
fn mid_fold_crash_restores_base_and_preserves_patch_state() {
    let original_data = vec![0u8; 4096];
    let original_chunk_id = ChunkId::from_hash(compute_chunk_hash(&original_data));
    let delta_patches: Vec<(usize, Vec<u8>)> = vec![(0, vec![1u8; 100])];
    let delta_bytes = bincode::serialize(&delta_patches).unwrap();
    let delta_chunk_id = ChunkId::from_hash(compute_chunk_hash(&delta_bytes));
    let state = PatchState::Pending { base_chunk_id: original_chunk_id, delta_chunk_id };

    let undo_bytes = original_data[0..100].to_vec();
    let entries = vec![PatchJournalEntry {
        old_chunk_id: original_chunk_id,
        new_chunk_id: ChunkId::from_hash([9u8; 32]),
        patches: vec![(0, undo_bytes)],
        old_len: 4096,
    }];
    let steps = recover_patch_journal(&entries, &vec![true]);
    let mut on_disk = original_data.clone();
    restore(&mut on_disk, &steps[0]);
    assert_eq!(on_disk, original_data);
    assert!(steps[0].clears_entry(true));

    match resolve_chunk_content(true, Some(state)) {
        ContentSource::Compose { base_chunk_id, delta_chunk_id: d } => {
            assert_eq!(base_chunk_id, original_chunk_id);
            assert_eq!(d, delta_chunk_id);
        }
        other => panic!("expected Compose, got {:?}", other),
    }
    match compose_one_patch(original_data.clone(), &delta_bytes) {
        Composed::Bytes(b) => {
            assert_eq!(&b[0..100], &[1u8; 100]);
            assert_eq!(&b[100..], &original_data[100..]);
        }
        other => panic!("expected bytes, got {:?}", other),
    }
}

#[test]
fn a_torn_write_is_taken_back_whatever_part_of_it_was_done() {
    let file_id = FileId { id: 1 };
    let base: Vec<u8> = (0..40u8).collect();
    let patches = vec![(4usize, vec![200u8; 10]), (8usize, vec![201u8; 4]), (2usize, vec![202u8; 8])];
    let old = ChunkId::from_hash([7u8; 32]);
    let rw = rewritten(full_rewrite_chunk(file_id, 0, old, &patches, ChunkRead::Bytes(base.clone())));
    let journal = rw.journal.expect("the content changed");
    assert_eq!(journal.old_chunk_id, old);
    assert_eq!(journal.new_chunk_id, rw.new_chunk_id);
    let steps = recover_patch_journal(&vec![journal], &vec![true]);
    for done in 0..=3 {
        let mut torn = base.clone();
        for (at, bytes) in patches.iter().take(done) {
            torn[*at..*at + bytes.len()].copy_from_slice(bytes);
        }
        if done < 3 {
            let (at, bytes) = &patches[done];
            torn[*at..*at + bytes.len() / 2].copy_from_slice(&bytes[..bytes.len() / 2]);
        }
        restore(&mut torn, &steps[0]);
        assert_eq!(torn, base);
    }
}

#[test]
fn a_chunk_that_a_patch_made_longer_is_restored_to_its_old_length() {
    let file_id = FileId { id: 1 };
    let old = ChunkId::from_hash([7u8; 32]);
    let base = vec![1u8, 2, 3, 4];
    let patches = vec![(2usize, vec![9u8, 9, 9, 9])];
    let rw = rewritten(full_rewrite_chunk(file_id, 0, old, &patches, ChunkRead::Bytes(base.clone())));
    assert_eq!(rw.content, vec![1, 2, 9, 9, 9, 9]);
    let journal = rw.journal.expect("the content changed");
    assert_eq!(journal.patches, vec![(2, vec![3, 4, 0, 0])]);
    assert_eq!(journal.old_len, 4);
    let steps = recover_patch_journal(&vec![journal], &vec![true]);
    assert_eq!(steps[0].cut_to, 4);
    for stopped in [vec![1u8, 2, 3, 4], vec![1, 2, 9, 9], vec![1, 2, 9, 9, 9, 9]] {
        let mut file = stopped;
        restore(&mut file, &steps[0]);
        assert_eq!(file, base);
        restore(&mut file, &steps[0]);
        assert_eq!(file, base);
    }
    assert!(steps[0].clears_entry(true));
}

#[test]
fn a_patch_behind_the_end_grows_the_chunk_with_zeros() {
    let file_id = FileId { id: 1 };
    let old = ChunkId::from_hash([7u8; 32]);
    let rw = rewritten(full_rewrite_chunk(
        file_id,
        8,
        old,
        &vec![(5, vec![9u8, 9])],
        ChunkRead::Bytes(vec![1, 2, 3]),
    ));
    assert_eq!(rw.content, vec![1, 2, 3, 0, 0, 9, 9]);
    assert_eq!(rw.size, 7);
    assert_eq!(rw.new_chunk_id.hash, compute_chunk_hash_at(&[1, 2, 3, 0, 0, 9, 9], 8, file_id));
}

#[test]
fn a_patch_that_changes_nothing_keeps_the_identity() {
    let file_id = FileId { id: 1 };
    let content = vec![5u8; 16];
    let id = ChunkId::from_hash(compute_chunk_hash_at(&content, 0, file_id));
    let rw = rewritten(full_rewrite_chunk(
        file_id,
        0,
        id,
        &vec![(3, vec![5u8; 4])],
        ChunkRead::Bytes(content),
    ));
    assert_eq!(rw.new_chunk_id, id);
    assert!(rw.journal.is_none());
    assert_eq!(rewrite_time(id, rw.new_chunk_id, 9), None);
    assert_eq!(rewrite_time(id, ChunkId::from_hash([0; 32]), 9), Some(9));
}

#[test]
fn what_cannot_be_read_cannot_be_rewritten() {
    let file_id = FileId { id: 1 };
    let old = ChunkId::from_hash([7u8; 32]);
    let missing = full_rewrite_chunk(file_id, 0, old, &vec![], ChunkRead::Missing("/x".to_string()));
    match missing {
        Err((text, code)) => {
            assert_eq!(text, "Failed to read chunk range: Failed to open chunk file: /x");
            assert_eq!(code, ErrorCode::NotFound);
        }
        Ok(_) => panic!("must fail"),
    }
    let failed = full_rewrite_chunk(file_id, 0, old, &vec![], ChunkRead::Failed("io".to_string()));
    match failed {
        Err((text, code)) => {
            assert_eq!(text, "Failed to read chunk: io");
            assert_eq!(code, ErrorCode::InternalError);
        }
        Ok(_) => panic!("must fail"),
    }
}

#[test]
fn a_corrupt_delta_is_told_apart() {
    let file_id = FileId { id: 1 };
    let old = ChunkId::from_hash([7u8; 32]);
    let cut = vec![1u8, 0, 0];
    assert!(matches!(compose_one_patch(vec![], &cut), Composed::Corrupt(_)));
    assert!(matches!(
        run_single_fold(file_id, 0, old, &cut, ChunkRead::Bytes(vec![])),
        FoldOutcome::CorruptDelta(_)
    ));
    let far: Vec<(usize, Vec<u8>)> = vec![(usize::MAX, vec![1])];
    let bytes = bincode::serialize(&far).unwrap();
    assert!(matches!(compose_one_patch(vec![], &bytes), Composed::TooLong));
    assert!(matches!(
        run_single_fold(file_id, 0, old, &bytes, ChunkRead::Bytes(vec![])),
        FoldOutcome::TooLong
    ));
    let near: Vec<(usize, Vec<u8>)> = vec![(0, vec![1])];
    let bytes = bincode::serialize(&near).unwrap();
    assert!(matches!(
        run_single_fold(file_id, 0, old, &bytes, ChunkRead::Missing("m".to_string())),
        FoldOutcome::Failed(_, ErrorCode::NotFound)
    ));
}

#[test]
fn the_token_is_the_digest_of_its_domain_and_the_delta() {
    let delta = ChunkId::from_hash([5u8; 32]);
    let mut input = b"dfs-patch-token".to_vec();
    input.extend_from_slice(&delta.hash);
    assert_eq!(public_token(delta).hash, *blake3::hash(&input).as_bytes());
    assert_eq!(compute_chunk_hash(b"abc"), *blake3::hash(b"abc").as_bytes());
    let file = FileId { id: 0x0102030405060708090a0b0c0d0e0f10 };
    let mut placed = (1u8..=16).collect::<Vec<u8>>();
    placed.extend_from_slice(&7u64.to_le_bytes());
    placed.extend_from_slice(b"abc");
    assert_eq!(compute_chunk_hash_at(b"abc", 7, file), *blake3::hash(&placed).as_bytes());
}

#[test]
fn the_delta_is_stored_as_bincode() {
    let file_id = FileId { id: 1 };
    let patches: Vec<(usize, Vec<u8>)> = vec![(3, vec![1, 2]), (9, vec![])];
    let p = plan(file_id, &patches, 5);
    assert_eq!(p.delta_bytes, bincode::serialize(&patches).unwrap());
    assert_eq!(p.delta_chunk_id.hash, compute_chunk_hash_at(&p.delta_bytes, 0, file_id));
    assert_eq!(p.public_token, public_token(p.delta_chunk_id));
    assert_eq!(p.size, 9);
}

#[test]
fn a_failed_fold_stops_the_next_patch() {
    let token = ChunkId::from_hash([1u8; 32]);
    let pending = PatchState::Pending { base_chunk_id: token, delta_chunk_id: token };
    match resolve_patch_base(token, Ok(Some(pending))) {
        Err((text, code)) => {
            assert_eq!(text, "Previous fold for this chunk did not complete");
            assert_eq!(code, ErrorCode::InternalError);
        }
        Ok(_) => panic!("must be refused"),
    }
    match resolve_patch_base(token, Err("db".to_string())) {
        Err((text, _)) => assert_eq!(text, "Failed to resolve patch state: db"),
        Ok(_) => panic!("must be refused"),
    }
}

#[test]
fn an_outdated_client_is_sent_to_the_current_chunk() {
    let file_id = FileId { id: 1 };
    let current = ChunkId::from_hash([1u8; 32]);
    let claimed = ChunkId::from_hash([2u8; 32]);
    let held = Some(location(current, vec![NodeId { id: 3 }], 1, file_id));
    match patch_chunk_stale(&held, claimed, None) {
        Some(Response::ChunkStale { current_chunk_id, current_nodes }) => {
            assert_eq!(current_chunk_id, current);
            assert_eq!(current_nodes, vec![NodeId { id: 3 }]);
        }
        other => panic!("expected ChunkStale, got {:?}", other),
    }
    assert!(patch_chunk_stale(&held, current, None).is_none());
    assert!(patch_chunk_stale(&None, claimed, None).is_none());
    assert!(multi_patch_stale(&held, claimed, None, false).is_none());
    assert!(multi_patch_stale(&held, claimed, Some(PatchState::Folded(claimed)), true).is_some());
}

#[test]
fn replies_to_patches() {
    let id = ChunkId::from_hash([1u8; 32]);
    assert!(matches!(
        patch_chunk_response(Ok((id, 5))),
        Response::PatchChunkResult { size: 5, .. }
    ));
    assert!(matches!(
        multi_patch_response(Ok((id, 5, Some(8)))),
        Response::MultiPatchResult { size: 5, patch_ts: Some(8), .. }
    ));
    match multi_patch_response(Err(("no".to_string(), ErrorCode::NotFound))) {
        Response::Error { message, code } => {
            assert_eq!(message, "no");
            assert_eq!(code, ErrorCode::NotFound);
        }
        other => panic!("expected an error, got {:?}", other),
    }
}

#[test]
fn hints_and_prefetches() {
    let ids: Vec<ChunkId> = (0..4u8).map(|i| ChunkId::from_hash([i; 32])).collect();
    assert_eq!(followed_hints(ids.clone()), ids[0..2].to_vec());
    assert_eq!(followed_hints(ids[0..1].to_vec()), ids[0..1].to_vec());
    assert!(starts_prefetch(false, false, false, false, true));
    assert!(!starts_prefetch(true, false, false, false, true));
    assert!(!starts_prefetch(false, true, false, false, true));
    assert!(!starts_prefetch(false, false, true, false, true));
    assert!(!starts_prefetch(false, false, false, true, true));
    assert!(!starts_prefetch(false, false, false, false, false));
}

#[test]
fn recently_patched_chunks_are_forgotten_in_order() {
    let mut r = RecentlyPatched::new();
    for i in 0..40u8 {
        r.note_patch(ChunkId::from_hash([i; 32]), ChunkId::from_hash([100 + i; 32]));
    }
    assert!(!r.contains(ChunkId::from_hash([0; 32])));
    assert!(!r.contains(ChunkId::from_hash([107; 32])));
    assert!(r.contains(ChunkId::from_hash([8; 32])));
    assert!(r.contains(ChunkId::from_hash([139; 32])));
    r.note_patch(ChunkId::from_hash([200; 32]), ChunkId::from_hash([200; 32]));
    assert!(r.contains(ChunkId::from_hash([200; 32])));
    assert!(!r.contains(ChunkId::from_hash([8; 32])));
    assert!(r.contains(ChunkId::from_hash([108; 32])));
}

/// Carries out the steps of a rewrite on files.
fn rewrite_files(
    files: &mut BTreeMap<[u8; 32], Vec<u8>>,
    old: ChunkId,
    patches: &Vec<(usize, Vec<u8>)>,
    file_id: FileId,
) -> Rewrite {
    let base = files[&old.hash].clone();
    let r = rewritten(full_rewrite_chunk(file_id, 0, old, patches, ChunkRead::Bytes(base)));
    let renames = r.new_chunk_id != old;
    let mut step = rewrite_begins(r.journal.is_some());
    while step != RewriteStep::Done {
        match step {
            RewriteStep::Grow => files.get_mut(&old.hash).unwrap().resize(r.size, 0),
            RewriteStep::Write(k) => {
                let (at, bytes) = &patches[k];
                files.get_mut(&old.hash).unwrap()[*at..*at + bytes.len()].copy_from_slice(bytes);
            }
            RewriteStep::Rename => {
                let bytes = files.remove(&old.hash).unwrap();
                files.insert(r.new_chunk_id.hash, bytes);
            }
            _ => {}
        }
        step = after_rewrite_step(step, patches.len(), renames, None).unwrap();
    }
    r
}

#[test]
fn what_a_rewrite_stores_is_what_its_identity_says() {
    let file_id = FileId { id: 5 };
    let base = vec![1u8, 2, 3, 4];
    let cases: Vec<Vec<(usize, Vec<u8>)>> = vec![
        vec![(6, vec![])],
        vec![(1, vec![])],
        vec![(6, vec![]), (1, vec![9])],
        vec![(3, vec![7, 7, 7]), (8, vec![])],
        vec![],
    ];
    for patches in cases {
        let old = ChunkId::from_hash(compute_chunk_hash_at(&base, 0, file_id));
        let mut files = BTreeMap::from([(old.hash, base.clone())]);
        let r = rewrite_files(&mut files, old, &patches, file_id);
        assert_eq!(files.len(), 1);
        let stored = &files[&r.new_chunk_id.hash];
        assert_eq!(stored, &r.content);
        assert_eq!(r.new_chunk_id.hash, compute_chunk_hash_at(stored, 0, file_id));
    }
}

#[test]
fn a_patch_that_mends_a_damaged_chunk_is_written() {
    let file_id = FileId { id: 5 };
    let right = vec![1u8, 2, 3, 4];
    let id = ChunkId::from_hash(compute_chunk_hash_at(&right, 0, file_id));
    let mut files = BTreeMap::from([(id.hash, vec![1u8, 0, 3, 4])]);
    let r = rewrite_files(&mut files, id, &vec![(1, vec![2])], file_id);
    assert_eq!(r.new_chunk_id, id);
    assert!(r.journal.is_some());
    assert_eq!(files[&id.hash], right);
    let again = rewrite_files(&mut files, id, &vec![(1, vec![2])], file_id);
    assert!(again.journal.is_none());
    assert_eq!(files[&id.hash], right);
}
