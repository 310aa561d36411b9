use dfs_server::chunk_map::ChunkMap;
use dfs_server::digest::compute_chunk_hash;
use dfs_server::loc_list::{chunk_map_find_by_idx, sort_by_offset};
use dfs_server::types::{
    ChunkId, ChunkLocation, FileId, FileMetadata, FileType, NodeId, CHUNK_SIZE,
};

fn location(tag: &[u8], offset: Option<u64>, seq: Option<u64>, at: Option<u64>) -> ChunkLocation {
    let hash = compute_chunk_hash(tag);
    ChunkLocation {
        chunk_id: ChunkId::from_hash(hash),
        nodes: vec![],
        size: 4096,
        checksum: hash,
        file_offset: offset,
        written_at: at,
        client_write_seq: seq,
        file_id: None,
    }
}

fn record(id: FileId, size: u64, write_seq: u64, list: Vec<ChunkLocation>) -> FileMetadata {
    FileMetadata {
        id,
        path: "/a/file".to_string(),
        size,
        mode: 0o644,
        uid: 0,
        gid: 0,
        file_type: FileType::RegularFile,
        created_at: 0,
        modified_at: 0,
        write_seq,
        chunk_locations: list,
        symlink_target: None,
    }
}

fn id_of(tag: &[u8]) -> ChunkId {
    ChunkId::from_hash(compute_chunk_hash(tag))
}

#[test]
fn test_chunk_map_update_converges_on_highest_write_seq_despite_reordering() {
    let mut map = ChunkMap::new();
    let file_id = FileId { id: 77 };
    let file_offset = 2 * 1024 * 1024u64;

    let rotations: Vec<ChunkLocation> = (1u64..=8)
        .map(|seq| {
            let hash = compute_chunk_hash(format!("rotation-{}", seq).as_bytes());
            ChunkLocation {
                chunk_id: ChunkId::from_hash(hash),
                nodes: vec![],
                size: 65536,
                checksum: hash,
                file_offset: Some(file_offset),
                written_at: Some(1000 + seq),
                client_write_seq: Some(seq),
                file_id: None,
            }
        })
        .collect();
    let final_chunk_id = rotations[7].chunk_id;

    let arrival_order = [1usize, 3, 2, 5, 4, 8, 6, 7];
    for seq in arrival_order {
        map.chunk_map_update_location_for_file(file_id, &rotations[seq - 1]);
    }

    let (locs, _) = map.entry(file_id).expect("chunk_map entry must exist");
    let loc = locs
        .iter()
        .find(|l| l.file_offset == Some(file_offset))
        .expect("location for file_offset must exist");
    assert_eq!(loc.chunk_id, final_chunk_id);
    assert_eq!(loc.client_write_seq, Some(8));
}

#[test]
fn test_chunk_map_rcl_coerces_nonaligned_offset_to_chunk_idx() {
    let mut map = ChunkMap::new();
    let file_id = FileId { id: 78 };
    let chunk_boundary: u64 = 512 * CHUNK_SIZE;
    let intra_offset: u64 = chunk_boundary + 524288;

    let hash_a = compute_chunk_hash(b"small-prealloc-write-65536-bytes");
    let rcl_a = ChunkLocation {
        chunk_id: ChunkId::from_hash(hash_a),
        nodes: vec![],
        size: 65536,
        checksum: hash_a,
        file_offset: Some(intra_offset),
        written_at: None,
        client_write_seq: Some(5),
        file_id: None,
    };
    map.chunk_map_update_location_for_file(file_id, &rcl_a);

    let hash_b = compute_chunk_hash(b"full-slot-589824-bytes-at-chunk-boundary");
    let chunk_b = ChunkId::from_hash(hash_b);
    let rcl_b = ChunkLocation {
        chunk_id: chunk_b,
        nodes: vec![],
        size: 589824,
        checksum: hash_b,
        file_offset: Some(chunk_boundary),
        written_at: None,
        client_write_seq: Some(5),
        file_id: None,
    };
    map.chunk_map_update_location_for_file(file_id, &rcl_b);

    let (locs, _) = map.entry(file_id).expect("chunk_map entry must exist");
    let matching: Vec<_> = locs
        .iter()
        .filter(|l| l.file_offset.map(|o| o / CHUNK_SIZE) == Some(512))
        .collect();
    assert_eq!(matching.len(), 1);
    assert_eq!(matching[0].chunk_id, chunk_b);
}

#[test]
fn reports_keep_the_entry_ordered_and_owned() {
    let mut map = ChunkMap::new();
    let file = FileId { id: 1 };
    for slot in [5u64, 1, 3, 2, 4] {
        let tag = format!("slot-{}", slot);
        let l = location(tag.as_bytes(), Some(slot * CHUNK_SIZE), Some(1), None);
        map.chunk_map_update_location_for_file(file, &l);
        assert_eq!(map.find_file_by_chunk(&id_of(tag.as_bytes())), Some(file));
    }
    let (locs, seq) = map.entry(file).unwrap();
    let slots: Vec<u64> = locs.iter().map(|l| l.file_offset.unwrap() / CHUNK_SIZE).collect();
    assert_eq!(slots, vec![1, 2, 3, 4, 5]);
    assert_eq!(seq, 1);
    assert_eq!(chunk_map_find_by_idx(&locs, 3), Some(2));
    assert_eq!(chunk_map_find_by_idx(&locs, 9), None);
    assert_eq!(map.current(file, 4).unwrap().chunk_id, id_of(b"slot-4"));
    assert!(map.current(file, 6).is_none());
    assert!(map.current(FileId { id: 2 }, 4).is_none());
}

#[test]
fn a_report_without_a_sequence_yields_to_one_with() {
    let mut map = ChunkMap::new();
    let file = FileId { id: 1 };
    map.chunk_map_update_location_for_file(file, &location(b"old", Some(0), Some(3), Some(10)));
    map.chunk_map_update_location_for_file(file, &location(b"late", Some(0), None, Some(99)));
    assert_eq!(map.current(file, 0).unwrap().chunk_id, id_of(b"old"));
    assert_eq!(map.find_file_by_chunk(&id_of(b"late")), None);
    map.chunk_map_update_location_for_file(file, &location(b"new", Some(0), Some(3), None));
    assert_eq!(map.current(file, 0).unwrap().chunk_id, id_of(b"new"));
    assert_eq!(map.find_file_by_chunk(&id_of(b"old")), None);
}

#[test]
fn a_report_without_a_place_joins_by_name() {
    let mut map = ChunkMap::new();
    let file = FileId { id: 1 };
    map.chunk_map_update_location_for_file(file, &location(b"x", None, None, None));
    let mut again = location(b"x", None, None, None);
    again.size = 7;
    map.chunk_map_update_location_for_file(file, &again);
    map.chunk_map_update_location_for_file(file, &location(b"y", None, None, None));
    let (locs, _) = map.entry(file).unwrap();
    assert_eq!(locs.len(), 2);
    assert_eq!(locs[0].size, 7);
}

#[test]
fn a_record_yields_where_it_is_stale_and_loses_places_it_does_not_have() {
    let mut map = ChunkMap::new();
    let file = FileId { id: 9 };
    map.chunk_map_update_location_for_file(file, &location(b"new", Some(0), Some(5), None));
    let rec = record(
        file,
        100,
        4,
        vec![
            location(b"stale", Some(0), Some(4), None),
            location(b"fresh", Some(CHUNK_SIZE), Some(4), None),
            location(b"nowhere", None, Some(4), None),
        ],
    );
    map.chunk_map_update(&rec, &vec![true, true, true]);
    let (locs, seq) = map.entry(file).unwrap();
    assert_eq!(seq, 4);
    assert_eq!(locs.len(), 2);
    assert_eq!(locs[0].chunk_id, id_of(b"new"));
    assert_eq!(locs[1].chunk_id, id_of(b"fresh"));
    assert_eq!(map.find_file_by_chunk(&id_of(b"nowhere")), None);
    assert_eq!(map.find_file_by_chunk(&id_of(b"fresh")), Some(file));
}

#[test]
fn an_untimed_record_counts_only_if_its_chunk_is_on_disk() {
    let mut map = ChunkMap::new();
    let file = FileId { id: 9 };
    map.chunk_map_update_location_for_file(file, &location(b"held", Some(0), None, None));
    let rec = record(file, 10, 1, vec![location(b"gone", Some(0), None, None)]);
    map.chunk_map_update(&rec, &vec![false]);
    assert_eq!(map.current(file, 0).unwrap().chunk_id, id_of(b"held"));
    map.chunk_map_update(&rec, &vec![true]);
    assert_eq!(map.current(file, 0).unwrap().chunk_id, id_of(b"gone"));
}

#[test]
fn truncating_to_nothing_empties_the_entry_but_an_incomplete_record_does_not() {
    let mut map = ChunkMap::new();
    let file = FileId { id: 9 };
    map.chunk_map_update_location_for_file(file, &location(b"held", Some(0), Some(1), None));
    map.chunk_map_update(&record(file, 4096, 2, vec![]), &vec![]);
    assert_eq!(map.entry(file).unwrap().0.len(), 1);
    map.chunk_map_update(&record(file, 0, 3, vec![]), &vec![]);
    let (locs, seq) = map.entry(file).unwrap();
    assert!(locs.is_empty());
    assert_eq!(seq, 3);
    assert_eq!(map.find_file_by_chunk(&id_of(b"held")), None);
    map.chunk_map_update(&record(FileId { id: 10 }, 0, 3, vec![]), &vec![]);
    assert!(map.entry(FileId { id: 10 }).is_none());
}

#[test]
fn a_report_for_an_unknown_file_finds_its_chunk() {
    let mut map = ChunkMap::new();
    let a = FileId { id: 1 };
    let b = FileId { id: 2 };
    map.chunk_map_update_location_for_file(a, &location(b"a", Some(0), None, None));
    map.chunk_map_update_location_for_file(b, &location(b"b", Some(0), None, None));
    let mut moved = location(b"b", Some(0), None, None);
    moved.nodes = vec![NodeId { id: 5 }];
    map.chunk_map_update_location(&moved);
    assert_eq!(map.current(b, 0).unwrap().nodes, vec![NodeId { id: 5 }]);
    assert!(map.current(a, 0).unwrap().nodes.is_empty());
    map.chunk_map_update_location(&location(b"nobody", Some(0), None, None));
    assert!(!map.names_chunk(id_of(b"nobody")));
    assert!(map.names_chunk(id_of(b"a")));
}

#[test]
fn a_removed_file_is_forgotten() {
    let mut map = ChunkMap::new();
    let file = FileId { id: 1 };
    map.chunk_map_update_location_for_file(file, &location(b"a", Some(0), None, None));
    map.chunk_map_remove(&file);
    assert!(map.entry(file).is_none());
    assert_eq!(map.find_file_by_chunk(&id_of(b"a")), None);
    map.chunk_map_remove(&file);
}

#[test]
fn a_patch_moves_its_slot_on() {
    let mut map = ChunkMap::new();
    let file = FileId { id: 1 };
    let old = id_of(b"old");
    let new = id_of(b"new");
    map.chunk_map_update_location_for_file(file, &location(b"old", Some(CHUNK_SIZE), Some(4), None));
    map.update_chunk_map_after_patch(file, Some(0), old, new, 9, 50);
    assert_eq!(map.current(file, 1).unwrap().chunk_id, old);
    map.update_chunk_map_after_patch(file, Some(1), old, new, 9, 50);
    let l = map.current(file, 1).unwrap();
    assert_eq!(l.chunk_id, new);
    assert_eq!(l.checksum, new.hash);
    assert_eq!(l.size, 9);
    assert_eq!(l.written_at, Some(50));
    assert_eq!(l.client_write_seq, Some(4));
    map.update_chunk_map_after_patch(file, None, new, old, 3, 60);
    assert_eq!(map.current(file, 1).unwrap().chunk_id, old);
}

#[test]
fn rebuilding_adds_what_a_racing_report_left_out() {
    let mut map = ChunkMap::new();
    let file = FileId { id: 3 };
    map.chunk_map_update_location_for_file(file, &location(b"fresh-0", Some(0), Some(9), None));
    let rec = record(
        file,
        3 * CHUNK_SIZE,
        7,
        vec![
            location(b"stored-2", Some(2 * CHUNK_SIZE), None, None),
            location(b"stored-0", Some(0), None, None),
            location(b"stored-1", Some(CHUNK_SIZE), None, None),
        ],
    );
    map.rebuild_from_record(&rec);
    let (locs, seq) = map.entry(file).unwrap();
    let ids: Vec<ChunkId> = locs.iter().map(|l| l.chunk_id).collect();
    assert_eq!(ids, vec![id_of(b"fresh-0"), id_of(b"stored-1"), id_of(b"stored-2")]);
    assert_eq!(seq, 9);
    assert_eq!(map.find_file_by_chunk(&id_of(b"stored-2")), Some(file));
    let mut empty = ChunkMap::new();
    empty.rebuild_from_record(&record(file, 0, 7, vec![]));
    assert!(empty.entry(file).is_none());
}

#[test]
fn sorting_is_stable_and_puts_the_placeless_last() {
    let list = vec![
        location(b"n", None, None, None),
        location(b"c", Some(9), None, None),
        location(b"a", Some(1), None, None),
        location(b"b", Some(1), None, None),
    ];
    let ids: Vec<ChunkId> = sort_by_offset(list).iter().map(|l| l.chunk_id).collect();
    assert_eq!(ids, vec![id_of(b"a"), id_of(b"b"), id_of(b"c"), id_of(b"n")]);
}
