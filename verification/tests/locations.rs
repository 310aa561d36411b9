use dfs_server::chunk_map::ChunkMap;
use dfs_server::digest::compute_chunk_hash;
use dfs_server::locations::{
    batch_response, chunk_map_fallback, chunks_to_heal, confirm_chunks_live, file_chunk_map_slice,
    file_info, has_chunks, last_chunk_slot, needs_heal, patch_file_record, purge_response,
    replicate_chunk_location, replicate_chunk_locations, report_is_live, resolve_chunk_nodes,
    Reported,
};
use dfs_server::protocol::Response;
use dfs_server::server::Server;
use dfs_server::types::{
    ChunkId, ChunkLocation, ErrorCode, FileId, FileMetadata, FileType, NodeId, CHUNK_SIZE,
};

fn node(id: u128) -> NodeId {
    NodeId { id }
}

fn file_meta(id: FileId, path: &str, size: u64, list: Vec<ChunkLocation>) -> FileMetadata {
    FileMetadata {
        id,
        path: path.to_string(),
        size,
        mode: 0o644,
        uid: 0,
        gid: 0,
        file_type: FileType::RegularFile,
        created_at: 0,
        modified_at: 0,
        write_seq: 1,
        chunk_locations: list,
        symlink_target: None,
    }
}

fn plain(tag: &[u8], nodes: Vec<NodeId>, offset: Option<u64>, at: Option<u64>) -> ChunkLocation {
    let hash = compute_chunk_hash(tag);
    ChunkLocation {
        chunk_id: ChunkId::from_hash(hash),
        nodes,
        size: 4096,
        checksum: hash,
        file_offset: offset,
        written_at: at,
        client_write_seq: None,
        file_id: None,
    }
}

#[test]
fn test_get_file_chunk_map_uses_chunk_table_authoritative_nodes() {
    let file_id = FileId { id: 21 };
    let hash = compute_chunk_hash(b"chunk-data");
    let chunk_id = ChunkId::from_hash(hash);
    let stale_node = node(1);
    let current_node = node(2);
    let loc = ChunkLocation {
        chunk_id,
        nodes: vec![stale_node],
        size: 65536,
        checksum: hash,
        file_offset: Some(0),
        written_at: Some(1000),
        client_write_seq: Some(1),
        file_id: None,
    };
    let mut server = Server::new(3);
    server.set_chunk_map_entry(file_id, vec![loc.clone()], 1);
    let record = ChunkLocation { nodes: vec![current_node], ..loc.clone() };

    let (locations, write_seq) = server.chunk_map_ref().entry(file_id).unwrap();
    let response =
        file_chunk_map_slice(file_id, &locations, &vec![Some(record)], write_seq, 0, u32::MAX);
    match response {
        Response::FileChunkMap { locations, .. } => {
            assert_eq!(locations.len(), 1);
            assert_eq!(locations[0].nodes, vec![current_node]);
        }
        other => panic!("expected FileChunkMap response, got {:?}", other),
    }
}

#[test]
fn test_replicate_chunk_locations_batch_does_not_revert_healthy_prune() {
    let file_id = FileId { id: 22 };
    let hash = compute_chunk_hash(b"chunk-data-ghost-pruned-batch");
    let chunk_id = ChunkId::from_hash(hash);
    let (node_a, node_b, node_c, ghost) = (node(1), node(2), node(3), node(4));
    let existing = ChunkLocation {
        chunk_id,
        nodes: vec![node_a, node_b, node_c],
        size: 65536,
        checksum: hash,
        file_offset: Some(0),
        written_at: Some(2_000),
        client_write_seq: None,
        file_id: Some(file_id),
    };
    let stale_incoming = ChunkLocation {
        chunk_id,
        nodes: vec![node_a, node_b, node_c, ghost],
        size: 65536,
        checksum: hash,
        file_offset: Some(0),
        written_at: Some(1_000),
        client_write_seq: None,
        file_id: Some(file_id),
    };
    let items =
        vec![Reported { location: stale_incoming, live: true, on_disk: Some(existing.clone()) }];
    let outcome = replicate_chunk_locations(&items, 3);
    assert!(outcome.to_commit.is_empty());
    assert!(matches!(
        batch_response(true, outcome.to_commit.len(), 1),
        Response::Done { data: None }
    ));
    assert_eq!(existing.nodes, vec![node_a, node_b, node_c]);
}

#[test]
fn test_replicate_chunk_locations_batch_commits_distinct_chunks_together() {
    let file_id = FileId { id: 23 };
    let nodes = vec![node(1), node(2), node(3)];
    let mut items = Vec::new();
    let mut chunk_ids = Vec::new();
    for i in 0..5u8 {
        let hash = compute_chunk_hash(format!("distinct-chunk-{}", i).as_bytes());
        let chunk_id = ChunkId::from_hash(hash);
        chunk_ids.push(chunk_id);
        items.push(Reported {
            location: ChunkLocation {
                chunk_id,
                nodes: nodes.clone(),
                size: 4096,
                checksum: hash,
                file_offset: Some(i as u64 * 4096),
                written_at: None,
                client_write_seq: None,
                file_id: Some(file_id),
            },
            live: true,
            on_disk: None,
        });
    }
    let outcome = replicate_chunk_locations(&items, 3);
    assert_eq!(outcome.rejected, 0);
    assert!(outcome.under_replicated.is_empty());
    for chunk_id in chunk_ids {
        let resolved = outcome.to_commit.iter().find(|l| l.chunk_id == chunk_id);
        assert!(resolved.is_some());
        assert_eq!(resolved.unwrap().nodes, nodes);
    }
}

#[test]
fn test_replicate_chunk_locations_batch_updates_chunk_map_and_file_record() {
    let file_id = FileId { id: 24 };
    let nodes = vec![node(1), node(2), node(3)];
    let make = |name: &str, seq: u64| -> Vec<ChunkLocation> {
        (0..2u8)
            .map(|i| {
                let h = compute_chunk_hash(format!("{}-chunk-{}", name, i).as_bytes());
                ChunkLocation {
                    chunk_id: ChunkId::from_hash(h),
                    nodes: nodes.clone(),
                    size: 4096,
                    checksum: h,
                    file_offset: Some(i as u64 * CHUNK_SIZE),
                    written_at: None,
                    client_write_seq: Some(seq),
                    file_id: Some(file_id),
                }
            })
            .collect()
    };
    let old_locations = make("old", 1);
    let file = file_meta(file_id, "/test-chunk-map-parity", 2 * CHUNK_SIZE, old_locations);
    let new_locations = make("new", 2);
    let items: Vec<Reported> = new_locations
        .iter()
        .map(|l| Reported { location: l.clone(), live: true, on_disk: None })
        .collect();

    let outcome = replicate_chunk_locations(&items, 3);
    let mut server = Server::new(3);
    server.take_locations(&outcome.to_commit);
    let (chunk_map_locs, _) = server.chunk_map_ref().entry(file_id).unwrap();
    for new_loc in &new_locations {
        assert!(chunk_map_locs
            .iter()
            .any(|l| l.chunk_id == new_loc.chunk_id && l.file_offset == new_loc.file_offset));
    }

    let updated_file = patch_file_record(file, &outcome.to_commit);
    for new_loc in &new_locations {
        let matching =
            updated_file.chunk_locations.iter().find(|l| l.file_offset == new_loc.file_offset);
        assert_eq!(matching.map(|l| l.chunk_id), Some(new_loc.chunk_id));
    }
}

#[test]
fn test_replicate_chunk_locations_batch_merges_duplicate_chunk_id_within_batch() {
    let file_id = FileId { id: 25 };
    let hash = compute_chunk_hash(b"duplicate-in-one-batch");
    let chunk_id = ChunkId::from_hash(hash);
    let (node_a, node_b) = (node(1), node(2));
    let first = ChunkLocation {
        chunk_id,
        nodes: vec![node_a],
        size: 4096,
        checksum: hash,
        file_offset: Some(0),
        written_at: Some(1_000),
        client_write_seq: None,
        file_id: Some(file_id),
    };
    let second = ChunkLocation {
        chunk_id,
        nodes: vec![node_b],
        size: 4096,
        checksum: hash,
        file_offset: Some(0),
        written_at: Some(1_001),
        client_write_seq: None,
        file_id: Some(file_id),
    };
    let items = vec![
        Reported { location: first, live: true, on_disk: None },
        Reported { location: second, live: true, on_disk: None },
    ];
    let outcome = replicate_chunk_locations(&items, 3);
    assert_eq!(outcome.to_commit.len(), 1);
    assert_eq!(outcome.to_commit[0].nodes, vec![node_a, node_b]);
    assert_eq!(outcome.to_commit[0].written_at, Some(1_000));
    assert_eq!(outcome.under_replicated, vec![chunk_id, chunk_id]);
}

#[test]
fn a_batch_turns_away_orphans_and_settles_chunks_that_become_full() {
    let a = plain(b"a", vec![node(1)], Some(0), None);
    let full = plain(b"a", vec![node(1), node(2), node(3)], Some(0), None);
    let items = vec![
        Reported { location: plain(b"gone", vec![node(1)], None, None), live: false, on_disk: None },
        Reported { location: a.clone(), live: true, on_disk: None },
        Reported { location: full, live: true, on_disk: None },
    ];
    let outcome = replicate_chunk_locations(&items, 3);
    assert_eq!(outcome.rejected, 1);
    assert!(outcome.under_replicated.is_empty());
    assert_eq!(outcome.to_commit.len(), 1);
    assert_eq!(outcome.to_commit[0].nodes, vec![node(1), node(2), node(3)]);
    match batch_response(false, 1, 3) {
        Response::Error { message, code } => {
            assert_eq!(message, "Failed to replicate 1/3 chunk locations");
            assert_eq!(code, ErrorCode::InternalError);
        }
        other => panic!("expected an error, got {:?}", other),
    }
    assert!(report_is_live(&a, false, true));
    let owned = ChunkLocation { file_id: Some(FileId { id: 1 }), ..a.clone() };
    assert!(!report_is_live(&owned, false, true));
    assert!(report_is_live(&owned, true, false));
    let ids = vec![a.chunk_id, ChunkId::from_hash([9; 32])];
    assert_eq!(chunks_to_heal(&ids, &vec![true, false]), vec![ChunkId::from_hash([9; 32])]);
}

#[test]
fn one_report_is_settled_by_count_and_age() {
    let held = plain(b"c", vec![node(1)], Some(8), Some(100));
    let report = plain(b"c", vec![node(2)], None, Some(50));
    let joined = replicate_chunk_location(&Some(held.clone()), report, 3, 999).unwrap();
    assert_eq!(joined.nodes, vec![node(1), node(2)]);
    assert_eq!(joined.file_offset, Some(8));
    assert_eq!(joined.written_at, Some(100));

    let healthy = plain(b"c", vec![node(1), node(2), node(3)], Some(8), Some(100));
    let straggler = plain(b"c", vec![node(1)], Some(8), Some(500));
    assert!(replicate_chunk_location(&Some(healthy.clone()), straggler, 3, 999).is_none());

    let stale_more =
        plain(b"c", vec![node(1), node(2), node(3), node(4)], Some(8), Some(50));
    let kept = replicate_chunk_location(&Some(healthy.clone()), stale_more, 3, 999).unwrap();
    assert_eq!(kept.nodes, vec![node(1), node(2), node(3)]);

    let trimmed = plain(b"c", vec![node(2), node(3), node(5)], Some(8), Some(100));
    let taken = replicate_chunk_location(&Some(healthy), trimmed, 3, 999).unwrap();
    assert_eq!(taken.nodes, vec![node(2), node(3), node(5)]);

    let fresh = replicate_chunk_location(&None, plain(b"d", vec![node(1)], None, None), 3, 999);
    let fresh = fresh.unwrap();
    assert_eq!(fresh.written_at, Some(999));
    assert!(needs_heal(&fresh, false, 3));
    assert!(!needs_heal(&fresh, true, 3));
    assert!(!needs_heal(&fresh, false, 1));
}

#[test]
fn test_resolve_chunk_nodes_untimestamped_chunk_table_does_not_win_tie() {
    let hash = compute_chunk_hash(b"chunk-data-tie");
    let chunk_id = ChunkId::from_hash(hash);
    let (correct_node_a, correct_node_b, self_registered_node) = (node(1), node(2), node(3));
    let inline = ChunkLocation {
        chunk_id,
        nodes: vec![correct_node_a, correct_node_b],
        size: 65536,
        checksum: hash,
        file_offset: Some(0),
        written_at: None,
        client_write_seq: Some(1),
        file_id: None,
    };
    let sled_loc = ChunkLocation {
        nodes: vec![self_registered_node],
        written_at: None,
        ..inline.clone()
    };
    let resolved = resolve_chunk_nodes(&inline, sled_loc);
    assert_eq!(resolved.nodes, vec![correct_node_a, correct_node_b]);
}

#[test]
fn test_resolve_chunk_nodes_stamped_chunk_table_wins_over_untimestamped_inline() {
    let hash = compute_chunk_hash(b"chunk-data-healed");
    let chunk_id = ChunkId::from_hash(hash);
    let (old_node, healed_node_a, healed_node_b) = (node(1), node(2), node(3));
    let inline = ChunkLocation {
        chunk_id,
        nodes: vec![old_node],
        size: 65536,
        checksum: hash,
        file_offset: Some(0),
        written_at: None,
        client_write_seq: Some(1),
        file_id: None,
    };
    let sled_loc = ChunkLocation {
        nodes: vec![healed_node_a, healed_node_b],
        written_at: Some(1_700_000_000),
        ..inline.clone()
    };
    let resolved = resolve_chunk_nodes(&inline, sled_loc);
    assert_eq!(resolved.nodes, vec![healed_node_a, healed_node_b]);
}

#[test]
fn test_resolve_chunk_nodes_stamped_but_smaller_chunk_table_does_not_regress_inline() {
    let hash = compute_chunk_hash(b"chunk-data-restart-selfreg");
    let chunk_id = ChunkId::from_hash(hash);
    let (node_a, node_b) = (node(1), node(2));
    let inline = ChunkLocation {
        chunk_id,
        nodes: vec![node_a, node_b],
        size: 65536,
        checksum: hash,
        file_offset: Some(0),
        written_at: None,
        client_write_seq: Some(1),
        file_id: None,
    };
    let sled_loc = ChunkLocation {
        nodes: vec![node_a],
        written_at: Some(1_700_000_000),
        ..inline.clone()
    };
    let resolved = resolve_chunk_nodes(&inline, sled_loc);
    assert_eq!(resolved.nodes, vec![node_a, node_b]);
}

#[test]
fn test_resolve_chunk_nodes_multi_node_smaller_chunk_table_is_trusted() {
    let hash = compute_chunk_hash(b"chunk-data-ghost-pruned");
    let chunk_id = ChunkId::from_hash(hash);
    let (node_a, node_b, node_ghost) = (node(1), node(2), node(3));
    let inline = ChunkLocation {
        chunk_id,
        nodes: vec![node_a, node_b, node_ghost],
        size: 65536,
        checksum: hash,
        file_offset: Some(0),
        written_at: Some(1_000),
        client_write_seq: Some(1),
        file_id: None,
    };
    let sled_loc = ChunkLocation {
        nodes: vec![node_a, node_b],
        written_at: Some(2_000),
        ..inline.clone()
    };
    let resolved = resolve_chunk_nodes(&inline, sled_loc);
    assert_eq!(resolved.nodes, vec![node_a, node_b]);
}

#[test]
fn confirm_chunks_live_protects_pending_patch_chunks() {
    let base_chunk_id = ChunkId::from_hash(compute_chunk_hash(b"pending-base"));
    let delta_chunk_id = ChunkId::from_hash(compute_chunk_hash(b"pending-delta"));
    let map = ChunkMap::new();
    let response = confirm_chunks_live(
        &vec![base_chunk_id, delta_chunk_id],
        Some(&vec![]),
        &map,
        &vec![base_chunk_id, delta_chunk_id],
    );
    let live = match response {
        Response::ChunkLiveness { live } => live,
        other => panic!("expected ChunkLiveness, got {:?}", other),
    };
    assert!(live.contains(&base_chunk_id));
    assert!(live.contains(&delta_chunk_id));
}

#[test]
fn test_confirm_chunks_live_must_trust_chunk_map_not_just_file_table() {
    let file_id = FileId { id: 26 };
    let hash = compute_chunk_hash(b"current post-patch chunk content");
    let chunk_id = ChunkId::from_hash(hash);
    let mut map = ChunkMap::new();
    map.set_entry(
        file_id,
        vec![ChunkLocation {
            chunk_id,
            nodes: vec![node(1)],
            size: 33,
            checksum: hash,
            file_offset: Some(0),
            written_at: Some(1_700_000_000 * 1000),
            client_write_seq: Some(1),
            file_id: Some(file_id),
        }],
        1,
    );
    let response = confirm_chunks_live(&vec![chunk_id], Some(&vec![]), &map, &vec![]);
    let live = match response {
        Response::ChunkLiveness { live } => live,
        other => panic!("expected ChunkLiveness, got {:?}", other),
    };
    assert!(live.contains(&chunk_id));
}

#[test]
fn chunks_that_nobody_needs_are_not_live() {
    let a = ChunkId::from_hash([1; 32]);
    let b = ChunkId::from_hash([2; 32]);
    let map = ChunkMap::new();
    match confirm_chunks_live(&vec![a, b, a], Some(&vec![a]), &map, &vec![]) {
        Response::ChunkLiveness { live } => assert_eq!(live, vec![a, a]),
        other => panic!("expected ChunkLiveness, got {:?}", other),
    }
    match confirm_chunks_live(&vec![a], None, &map, &vec![]) {
        Response::Error { message, .. } => assert_eq!(message, "Failed to read local metadata"),
        other => panic!("expected an error, got {:?}", other),
    }
    assert_eq!(has_chunks(&vec![true, true, false], &vec![false, true, false]), vec![true, false, false]);
    match purge_response(2, 5) {
        Response::Error { message, .. } => {
            assert_eq!(message, "Failed to purge 2/5 chunk locations")
        }
        other => panic!("expected an error, got {:?}", other),
    }
    assert!(matches!(purge_response(0, 5), Response::Done { data: None }));
}

#[test]
fn a_window_of_a_sparse_unordered_map() {
    let file_id = FileId { id: 1 };
    let list = vec![
        plain(b"tail", vec![node(1)], Some(9 * CHUNK_SIZE), None),
        plain(b"head", vec![node(1)], Some(0), None),
        plain(b"mid", vec![node(1)], Some(4 * CHUNK_SIZE + 5), None),
    ];
    assert_eq!(last_chunk_slot(&list), 9);
    let none = vec![None, None, None];
    match file_chunk_map_slice(file_id, &list, &none, 6, 0, 5) {
        Response::FileChunkMap { locations, from_chunk, total_chunks, write_seq, .. } => {
            let at: Vec<Option<u64>> = locations.iter().map(|l| l.file_offset).collect();
            assert_eq!(at, vec![Some(0), Some(4 * CHUNK_SIZE + 5)]);
            assert_eq!((from_chunk, total_chunks, write_seq), (0, 10, 6));
        }
        other => panic!("expected FileChunkMap, got {:?}", other),
    }
    match file_chunk_map_slice(file_id, &list, &none, 6, 5, u32::MAX) {
        Response::FileChunkMap { locations, .. } => assert_eq!(locations.len(), 1),
        other => panic!("expected FileChunkMap, got {:?}", other),
    }
    assert_eq!(last_chunk_slot(&vec![]), 0);
    assert_eq!(last_chunk_slot(&vec![plain(b"x", vec![], None, None), plain(b"y", vec![], None, None)]), 1);
    assert!(chunk_map_fallback(None).is_none());
    assert!(chunk_map_fallback(Some(file_meta(file_id, "/p", 0, vec![]))).is_none());
    let (l, seq) = chunk_map_fallback(Some(file_meta(file_id, "/p", 0, list))).unwrap();
    assert_eq!((l.len(), seq), (3, 1));
}

#[test]
fn file_info_reports_the_nodes_of_what_a_token_became() {
    let file_id = FileId { id: 1 };
    let inline = vec![
        plain(b"token", vec![node(1), node(2)], Some(0), None),
        plain(b"plain", vec![node(1)], Some(CHUNK_SIZE), None),
    ];
    let real = plain(b"real", vec![node(7)], Some(0), None);
    let own = plain(b"plain", vec![node(8)], Some(CHUNK_SIZE), None);
    let r = file_info(
        file_meta(file_id, "/p", 1, inline),
        &vec![Some(real), None],
        &vec![None, Some(own)],
    );
    match r {
        Response::FileInfo { chunk_locations, metadata } => {
            assert_eq!(chunk_locations[0].nodes, vec![node(7)]);
            assert_eq!(chunk_locations[1].nodes, vec![node(8)]);
            assert_eq!(metadata.chunk_locations[0].nodes, vec![node(1), node(2)]);
        }
        other => panic!("expected FileInfo, got {:?}", other),
    }
}
