use dfs_server::metadata::{
    broadcast_targets, chunk_ids, delete_entry, disseminate_reply, dissemination_batch,
    drop_marked, enqueue_metadata_for_followers, failed, fold_metadata_batch, forwarded_ttl,
    get_file_metadata_by_path, list_all_files, metadata_sequence, not_found, put_admission,
    put_follow_up, queues_for_leader, reconcile_disseminated, reconcile_put,
    reconcile_replicated, rename_file, should_store, spent_chunk_tombstones, split_results,
    takes_leader_record, tombstone, with_map_locations, write_seq_after, ByPath, Grave, Lookup,
    PutAdmission, PutFileResult,
};
use dfs_server::protocol::Response;
use dfs_server::types::{
    ChunkId, ChunkLocation, ErrorCode, FileId, FileMetadata, FileType, NodeId, NodeInfo,
    NodeStatus, CHUNK_SIZE,
};
use std::collections::BTreeMap;

fn location(tag: u8, offset: Option<u64>, seq: Option<u64>, at: Option<u64>) -> ChunkLocation {
    ChunkLocation {
        chunk_id: ChunkId::from_hash([tag; 32]),
        nodes: vec![NodeId { id: 1 }],
        size: 100,
        checksum: [tag; 32],
        file_offset: offset,
        written_at: at,
        client_write_seq: seq,
        file_id: None,
    }
}

fn record(id: u128, path: &str, write_seq: u64, list: Vec<ChunkLocation>) -> FileMetadata {
    FileMetadata {
        id: FileId { id },
        path: path.to_string(),
        size: 10,
        mode: 0o644,
        uid: 0,
        gid: 0,
        file_type: FileType::RegularFile,
        created_at: 0,
        modified_at: 77,
        write_seq,
        chunk_locations: list,
        symlink_target: None,
    }
}

fn tags(m: &FileMetadata) -> Vec<u8> {
    m.chunk_locations.iter().map(|l| l.chunk_id.hash[0]).collect()
}

fn info(id: u128, status: NodeStatus) -> NodeInfo {
    NodeInfo { id: NodeId { id }, status, available_bytes: 0, total_bytes: 0 }
}

/// The scalar fields of the record with the higher write sequence, and the slots of both, where
/// the higher client write sequence wins.
fn merge(a: &FileMetadata, b: &FileMetadata) -> FileMetadata {
    let mut out = if b.write_seq >= a.write_seq { b.clone() } else { a.clone() };
    let mut slots: BTreeMap<Option<u64>, ChunkLocation> = BTreeMap::new();
    for l in a.chunk_locations.iter().chain(b.chunk_locations.iter()) {
        let newer = match slots.get(&l.file_offset) {
            Some(held) => l.client_write_seq >= held.client_write_seq,
            None => true,
        };
        if newer {
            slots.insert(l.file_offset, l.clone());
        }
    }
    out.size = a.size.max(b.size);
    out.chunk_locations = slots.into_values().collect();
    out
}

#[test]
fn test_fold_metadata_batch_matches_serial_put_file_application() {
    let file_id = FileId { id: 9 };
    let mk = |write_seq: u64, offset: u64, tag: u8| {
        let mut m = record(9, "/fold_test.bin", write_seq, vec![]);
        m.size = offset + 4 * 1024 * 1024;
        m.chunk_locations = vec![ChunkLocation {
            chunk_id: ChunkId::from_hash([tag; 32]),
            nodes: vec![NodeId { id: 1 }],
            size: 4 * 1024 * 1024,
            checksum: [tag; 32],
            file_offset: Some(offset),
            written_at: Some(1000 + write_seq),
            client_write_seq: Some(write_seq),
            file_id: Some(file_id),
        }];
        m
    };
    let item_a = mk(2, 0, 1);
    let item_b = mk(1, 4 * 1024 * 1024, 2);
    let item_c = mk(4, 0, 3);
    let item_d = mk(3, 8 * 1024 * 1024, 4);
    let batch: Vec<FileMetadata> =
        vec![item_c.clone(), item_a.clone(), item_d.clone(), item_b.clone()];

    let mut reference_store: BTreeMap<u128, FileMetadata> = BTreeMap::new();
    for item in &batch {
        let stored = match reference_store.get(&item.id.id) {
            Some(held) => merge(held, item),
            None => item.clone(),
        };
        reference_store.insert(item.id.id, stored);
    }
    let reference_result = reference_store.get(&file_id.id).unwrap();

    let folded = fold_metadata_batch(batch, merge);
    assert_eq!(folded.len(), 1);
    let folded_result = &folded[0];

    assert_eq!(folded_result.write_seq, reference_result.write_seq);
    assert_eq!(folded_result.write_seq, 4);
    assert_eq!(folded_result.size, reference_result.size);

    let mut ref_locs: Vec<(Option<u64>, [u8; 32])> =
        reference_result.chunk_locations.iter().map(|l| (l.file_offset, l.chunk_id.hash)).collect();
    let mut folded_locs: Vec<(Option<u64>, [u8; 32])> =
        folded_result.chunk_locations.iter().map(|l| (l.file_offset, l.chunk_id.hash)).collect();
    ref_locs.sort_by_key(|(o, _)| *o);
    folded_locs.sort_by_key(|(o, _)| *o);
    assert_eq!(folded_locs, ref_locs);

    let at_offset_0 =
        folded_result.chunk_locations.iter().find(|l| l.file_offset == Some(0)).unwrap();
    assert_eq!(at_offset_0.chunk_id, item_c.chunk_locations[0].chunk_id);
    assert_eq!(folded_result.chunk_locations.len(), 3);
}

#[test]
fn folding_keeps_files_apart_and_in_order() {
    let batch = vec![
        record(2, "/two", 1, vec![location(1, Some(0), Some(1), None)]),
        record(1, "/one", 5, vec![]),
        record(2, "/two", 3, vec![location(2, Some(CHUNK_SIZE), Some(2), None)]),
    ];
    let folded = fold_metadata_batch(batch, merge);
    assert_eq!(folded.iter().map(|m| m.id.id).collect::<Vec<u128>>(), vec![2, 1]);
    assert_eq!(folded[0].write_seq, 3);
    assert_eq!(tags(&folded[0]), vec![1, 2]);
    assert!(fold_metadata_batch(vec![], merge).is_empty());
}

#[test]
fn write_sequences_only_grow() {
    assert_eq!(write_seq_after(5, 7), (7, true));
    assert_eq!(write_seq_after(7, 7), (7, false));
    assert_eq!(write_seq_after(7, 3), (7, false));
    assert!(should_store(None, 0));
    assert!(should_store(Some(3), 4));
    assert!(!should_store(Some(3), 3));
    assert!(!takes_leader_record(None, 0));
    assert!(takes_leader_record(None, 1));
    assert!(!takes_leader_record(Some(4), 4));
    assert!(matches!(
        metadata_sequence(true, Some(4), Some(9)),
        Response::MetadataSequence { sequence: 4 }
    ));
    assert!(matches!(
        metadata_sequence(false, Some(4), None),
        Response::MetadataSequence { sequence: 0 }
    ));
}

#[test]
fn tombstones_age() {
    assert_eq!(tombstone(None), Grave::Absent);
    assert_eq!(tombstone(Some(29_999)), Grave::Fresh);
    assert_eq!(tombstone(Some(30_000)), Grave::Expired);
    let a = ChunkId::from_hash([1; 32]);
    let b = ChunkId::from_hash([2; 32]);
    assert_eq!(spent_chunk_tombstones(&vec![a, b], &vec![true, false]), vec![b]);
}

#[test]
fn only_the_leader_takes_a_put() {
    match put_admission(false, Some("10.0.0.1:8900".to_string()), None) {
        PutAdmission::Answer(Response::NotLeader { leader_addr }) => {
            assert_eq!(leader_addr, Some("10.0.0.1:8900".to_string()))
        }
        other => panic!("expected a redirect, got {:?}", other),
    }
    assert!(matches!(
        put_admission(true, None, Some(5)),
        PutAdmission::Answer(Response::Done { data: None })
    ));
    assert!(matches!(
        put_admission(true, None, Some(60_000)),
        PutAdmission::Take { forget_tombstone: true }
    ));
    assert!(matches!(
        put_admission(true, None, None),
        PutAdmission::Take { forget_tombstone: false }
    ));
    assert_eq!(put_follow_up(&record(1, "/f", 0, vec![])), (false, true));
    assert_eq!(put_follow_up(&record(1, "/f", 1, vec![])), (true, false));
}

#[test]
fn a_put_keeps_what_is_newer_and_loses_no_slot() {
    let held = vec![
        location(10, Some(0), Some(9), Some(500)),
        location(11, Some(CHUNK_SIZE), None, None),
        location(12, Some(5 * CHUNK_SIZE), None, None),
        location(13, None, None, None),
    ];
    let put = record(
        1,
        "/new",
        3,
        vec![location(21, Some(CHUNK_SIZE), None, None), location(20, Some(0), Some(2), Some(400))],
    );
    let r = reconcile_put(put.clone(), Some("/old".to_string()), Some(&held));
    assert_eq!(r.path, "/old");
    assert_eq!(tags(&r), vec![10, 21, 12]);

    let newer = record(1, "/new", 3, vec![location(20, Some(0), Some(2), Some(600))]);
    assert_eq!(tags(&reconcile_put(newer, None, Some(&held))), vec![20, 11, 12]);

    let untimed = record(1, "/new", 3, vec![location(20, Some(0), Some(9), None)]);
    assert_eq!(tags(&reconcile_put(untimed, None, Some(&held))), vec![20, 11, 12]);
    let untimed = record(1, "/new", 3, vec![location(20, Some(0), None, None)]);
    assert_eq!(tags(&reconcile_put(untimed, None, Some(&held))), vec![10, 11, 12]);

    let truncated = record(1, "/new", 3, vec![]);
    assert!(reconcile_put(truncated, None, Some(&held)).chunk_locations.is_empty());
    assert_eq!(tags(&reconcile_put(put, None, None)), vec![21, 20]);
}

#[test]
fn replication_keeps_patches() {
    let held = vec![location(10, Some(0), None, Some(500))];
    let older = record(1, "/f", 1, vec![location(20, Some(0), None, Some(400))]);
    let later = record(1, "/f", 1, vec![location(20, Some(0), None, Some(600))]);
    let untimed = record(1, "/f", 1, vec![location(20, Some(0), None, None)]);
    assert_eq!(tags(&reconcile_replicated(older, Some(&held), true)), vec![10]);
    assert_eq!(tags(&reconcile_replicated(later, Some(&held), false)), vec![20]);
    assert_eq!(tags(&reconcile_replicated(untimed.clone(), Some(&held), false)), vec![10]);
    assert_eq!(tags(&reconcile_replicated(untimed.clone(), Some(&held), true)), vec![20]);
    assert_eq!(tags(&reconcile_replicated(untimed.clone(), None, false)), vec![20]);
    assert_eq!(tags(&reconcile_disseminated(untimed, Some(&held))), vec![10]);
    assert_eq!(forwarded_ttl(3), Some(2));
    assert_eq!(forwarded_ttl(0), None);
    assert!(queues_for_leader(1, false, false));
    assert!(!queues_for_leader(0, false, false));
    assert!(!queues_for_leader(1, true, false));
    assert!(!queues_for_leader(1, false, true));
}

#[test]
fn a_disseminated_batch_is_settled() {
    let items = vec![record(1, "/a", 1, vec![]), record(2, "/b", 1, vec![])];
    let kept = drop_marked(items.clone(), &vec![true, false]);
    assert_eq!(kept.len(), 1);
    assert_eq!(kept[0].path, "/b");
    let newer = record(2, "/b", 9, vec![]);
    let (stored, corrections) =
        split_results(&items, &vec![PutFileResult::Stored, PutFileResult::Stale(newer)]);
    assert_eq!(stored[0].path, "/a");
    assert_eq!(corrections[0].write_seq, 9);
    assert_eq!((stored.len(), corrections.len()), (1, 1));
    assert!(matches!(disseminate_reply(None, 7), (Response::Done { data: None }, Some(7))));
    assert!(matches!(disseminate_reply(None, 0), (Response::Done { data: None }, None)));
    match disseminate_reply(Some("disk full".to_string()), 7) {
        (Response::Error { message, code }, None) => {
            assert_eq!(message, "disseminate: batch store failed: disk full");
            assert_eq!(code, ErrorCode::InternalError);
        }
        other => panic!("expected an error, got {:?}", other),
    }
    let queue = vec![(4, items[0].clone()), (6, items[1].clone())];
    let (batch, up_to) = dissemination_batch(&queue, &vec![false, true]).unwrap();
    assert_eq!((batch.len(), up_to), (1, 6));
    assert!(dissemination_batch(&vec![], &vec![]).is_none());
}

#[test]
fn every_peer_hears_one_way() {
    let nodes = vec![
        info(1, NodeStatus::Online),
        info(2, NodeStatus::Offline),
        info(3, NodeStatus::Online),
        info(4, NodeStatus::Suspected),
    ];
    let local = NodeId { id: 1 };
    assert_eq!(broadcast_targets(&nodes, local), vec![NodeId { id: 3 }]);
    let told = record(1, "/f", 1, vec![]);
    assert_eq!(
        enqueue_metadata_for_followers(&told, true, &nodes, local),
        vec![NodeId { id: 2 }, NodeId { id: 4 }]
    );
    assert!(enqueue_metadata_for_followers(&told, false, &nodes, local).is_empty());
    let empty = record(1, "/f", 0, vec![]);
    assert!(enqueue_metadata_for_followers(&empty, true, &nodes, local).is_empty());
}

#[test]
fn a_file_is_answered_with_what_the_map_holds() {
    let m = record(1, "/f", 3, vec![location(1, Some(0), None, None)]);
    let held = Some((vec![location(2, Some(0), None, None)], 5));
    match get_file_metadata_by_path(Lookup::Found(m.clone()), held.clone(), Some(4), false, true) {
        ByPath::Answer(Response::FileMetadata { metadata }) => {
            assert_eq!(tags(&metadata), vec![2]);
            assert_eq!(metadata.write_seq, 5);
        }
        other => panic!("expected a record, got {:?}", other),
    }
    assert!(matches!(
        get_file_metadata_by_path(Lookup::Found(m.clone()), held, Some(5), false, true),
        ByPath::Answer(Response::NotModified)
    ));
    match get_file_metadata_by_path(Lookup::Found(m), Some((vec![], 50)), Some(2), true, true) {
        ByPath::Answer(Response::FileMetadata { metadata }) => assert_eq!(metadata.write_seq, 3),
        other => panic!("expected a record, got {:?}", other),
    }
    assert!(matches!(
        get_file_metadata_by_path(Lookup::Missing, None, None, false, true),
        ByPath::AskLeader
    ));
    match get_file_metadata_by_path(Lookup::Missing, None, None, true, true) {
        ByPath::Answer(Response::Error { message, code }) => {
            assert_eq!(message, "File not found");
            assert_eq!(code, ErrorCode::NotFound);
        }
        other => panic!("expected an error, got {:?}", other),
    }
    match get_file_metadata_by_path(Lookup::Failed("io".to_string()), None, None, true, true) {
        ByPath::Answer(Response::Error { message, .. }) => {
            assert_eq!(message, "Failed to get file metadata: io")
        }
        other => panic!("expected an error, got {:?}", other),
    }
    assert!(matches!(not_found(), Response::Error { code: ErrorCode::NotFound, .. }));
    match failed("Failed: ", "x") {
        Response::Error { message, .. } => assert_eq!(message, "Failed: x"),
        other => panic!("expected an error, got {:?}", other),
    }
}

#[test]
fn listings_renames_and_deletions() {
    let m = record(1, "/f", 3, vec![location(1, Some(0), None, None), location(2, None, None, None)]);
    match list_all_files(vec![m.clone()]) {
        Response::FileList { files, total_count } => {
            assert!(files[0].chunk_locations.is_empty());
            assert_eq!((files[0].path.as_str(), total_count), ("/f", 1));
        }
        other => panic!("expected a listing, got {:?}", other),
    }
    let r = rename_file(m.clone(), "/g".to_string());
    assert_eq!((r.path.as_str(), r.write_seq, r.modified_at), ("/g", 4, 77));
    let last = record(1, "/f", u64::MAX, vec![]);
    assert_eq!(rename_file(last, "/g".to_string()).write_seq, u64::MAX);
    let ids = vec![ChunkId::from_hash([1; 32]), ChunkId::from_hash([2; 32])];
    assert_eq!(chunk_ids(&m.chunk_locations), ids);
    let e = delete_entry(&m, "/f".to_string());
    assert_eq!((e.file_id.id, e.path.as_str()), (1, "/f"));
    assert_eq!(e.chunk_ids, ids);
    let w = with_map_locations(m.clone(), Some(vec![]));
    assert!(w.chunk_locations.is_empty());
    assert_eq!(tags(&with_map_locations(m, None)), vec![1, 2]);
}
