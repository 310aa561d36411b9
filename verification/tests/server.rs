use dfs_server::chunk_file::{after_file_step, FileStep};
use dfs_server::chunker::Chunker;
use dfs_server::digest::{compute_chunk_hash, compute_chunk_hash_at};
use dfs_server::dispatch::{
    chunk_integrity, handle_request, has_chunk, prefetch_accepted, query_chunk_sizes, RequestKind,
};
use dfs_server::metadata::Lookup;
use dfs_server::patch::PatchState;
use dfs_server::protocol::Response;
use dfs_server::requests::{
    content_to_push, info_by_id, info_by_path, patch_token_ids, raw_chunk_location,
    read_range_response, replicated_mtime, resolve_push_target, validate_leader,
};
use dfs_server::server::{PutFacts, PutOutcome, ReplicaFacts, Server, Taken};
use dfs_server::stats::OpsTracker;
use dfs_server::names::temp_name;
use dfs_server::storage::{ChunkSource, ChunkStorage};
use dfs_server::store_batch::{StoreBatch, WorkerStep};
use dfs_server::transfer::{count_made, write_begins};
use dfs_server::types::{
    ChunkId, ChunkLocation, ErrorCode, FileId, FileMetadata, FileType, NodeId, NodeInfo,
    NodeStatus, CHUNK_SIZE,
};
use dfs_server::write_path::{
    append_admission, append_data, append_nothing, append_quorum, check_checksum,
    composed_range, find_read_candidates, finish_append, immediate_replicas,
    is_online_exec, local_location, location_after_write, quorum_nodes, read_chunk_response,
    write_chunk_response, write_data_chunk,
    write_file_response, AppendedChunk, MissingChunks, WrittenChunk,
};
use std::cell::RefCell;
use std::collections::BTreeMap;

fn node(id: u128) -> NodeId {
    NodeId { id }
}

fn location(tag: u8, offset: Option<u64>, at: Option<u64>) -> ChunkLocation {
    ChunkLocation {
        chunk_id: ChunkId::from_hash([tag; 32]),
        nodes: vec![node(1)],
        size: 100,
        checksum: [tag; 32],
        file_offset: offset,
        written_at: at,
        client_write_seq: None,
        file_id: None,
    }
}

fn record(id: u128, write_seq: u64, size: u64, list: Vec<ChunkLocation>) -> FileMetadata {
    FileMetadata {
        id: FileId { id },
        path: "/f".to_string(),
        size,
        mode: 0o644,
        uid: 0,
        gid: 0,
        file_type: FileType::RegularFile,
        created_at: 0,
        modified_at: 0,
        write_seq,
        chunk_locations: list,
        symlink_target: None,
    }
}

fn refusal(r: Response) -> (String, ErrorCode) {
    match r {
        Response::Error { message, code } => (message, code),
        other => panic!("expected an error, got {:?}", other),
    }
}

/// The chunks that one node keeps, by name.
struct Node {
    disk: BTreeMap<String, Vec<u8>>,
    storage: ChunkStorage,
}

impl Node {
    fn new() -> Node {
        Node { disk: BTreeMap::new(), storage: ChunkStorage::new(4, false) }
    }

    fn has(&self, chunk_id: &ChunkId) -> bool {
        self.disk.contains_key(&chunk_id.storage_path_components().2)
    }

    /// Writes a chunk as the steps of the library say.
    fn write(&mut self, chunk_id: ChunkId, data: Vec<u8>) {
        let name = chunk_id.storage_path_components().2;
        let temp = temp_name(&name, 0);
        let mut step = FileStep::MakeDirectory;
        while step != FileStep::Finish {
            match step {
                FileStep::Create => {
                    self.disk.insert(temp.clone(), Vec::new());
                }
                FileStep::Write => self.disk.get_mut(&temp).unwrap().extend_from_slice(&data),
                FileStep::Rename => {
                    let written = self.disk.remove(&temp).unwrap();
                    self.disk.insert(name.clone(), written);
                }
                _ => {}
            }
            step = after_file_step(step, self.storage.coalescing_enabled(), true, &name).unwrap();
        }
        self.storage.write_chunk(&chunk_id);
    }

    fn read(&mut self, chunk_id: &ChunkId) -> Option<Vec<u8>> {
        match self.storage.read_chunk_arc(chunk_id) {
            ChunkSource::Cached(hit) => Some(hit.to_vec()),
            ChunkSource::OnDisk => {
                let name = chunk_id.storage_path_components().2;
                let file = self.disk.get(&name).cloned().ok_or("no such file".to_string());
                self.storage.chunk_read(*chunk_id, file).ok().map(|data| data.to_vec())
            }
        }
    }

    fn handle_write_chunk(&mut self, chunk_id: ChunkId, data: Vec<u8>, checksum: [u8; 32]) -> Response {
        if let Some(refused) = check_checksum(chunk_id, checksum) {
            return refused;
        }
        self.write(chunk_id, data);
        write_chunk_response(None)
    }

    fn handle_read_chunk(&mut self, chunk_id: ChunkId) -> Response {
        let data = self.read(&chunk_id);
        let (capacity, len) = self.storage.get_cache_stats();
        read_chunk_response(chunk_id, &chunk_id.storage_path_components().2, data, capacity, len)
    }
}

#[test]
fn test_server_write_read_local() {
    let server = Server::new(3);
    let n = RefCell::new(Node::new());
    let chunker = Chunker::new(4 * 1024 * 1024);
    let data = b"Hello, distributed filesystem!".to_vec();
    let file_id = FileId { id: 3 };
    let written = server
        .write_data(&chunker, &data, file_id, |chunks: &Vec<(ChunkId, Vec<u8>)>| {
            chunks
                .iter()
                .map(|(chunk_id, bytes)| {
                    let (now, later) = write_begins("c", &vec![node(1)], server.replication_factor())?;
                    assert_eq!((now.len(), later.len()), (1, 0));
                    n.borrow_mut().write(*chunk_id, bytes.clone());
                    let reached = count_made(&vec![true]);
                    let loc =
                        write_data_chunk(*chunk_id, "c", bytes.len(), now, reached, 3, file_id)?;
                    Ok(WrittenChunk {
                        chunk_id: *chunk_id,
                        size: bytes.len() as u64,
                        nodes: loc.nodes,
                    })
                })
                .collect()
        })
        .unwrap();
    assert!(!written.is_empty());
    assert_eq!(written[0].nodes, vec![node(1)]);
    let ids: Vec<ChunkId> = written.iter().map(|w| w.chunk_id).collect();
    let read_data = server
        .read_data(&chunker, &ids, |c| n.borrow_mut().read(&c).ok_or("gone".to_string()))
        .unwrap();
    assert_eq!(data, read_data);
}

#[test]
fn test_handle_write_read_chunk() {
    let mut n = Node::new();
    let data = b"Test chunk data";
    let hash = compute_chunk_hash(data);
    let chunk_id = ChunkId::from_hash(hash);
    match n.handle_write_chunk(chunk_id, data.to_vec(), hash) {
        Response::Done { .. } => {}
        other => panic!("Expected Done response, got {:?}", other),
    }
    match n.handle_read_chunk(chunk_id) {
        Response::ChunkData { data: read_data, cache_stats, .. } => {
            assert_eq!(data.as_slice(), read_data.as_slice());
            assert_eq!(cache_stats, Some((0, 4, 1)));
        }
        other => panic!("Expected ChunkData response, got {:?}", other),
    }
    let unknown = ChunkId::from_hash([0; 32]);
    let (text, code) = refusal(n.handle_read_chunk(unknown));
    assert_eq!(text, format!("Chunk {} not found on this node", "0".repeat(64)));
    assert_eq!(code, ErrorCode::NotFound);
}

#[test]
fn test_handle_has_chunk() {
    let mut n = Node::new();
    let data = b"Test";
    let hash = compute_chunk_hash(data);
    let chunk_id = ChunkId::from_hash(hash);
    match has_chunk(n.has(&chunk_id)) {
        Response::Bool { value } => assert!(!value),
        other => panic!("Expected Bool response, got {:?}", other),
    }
    n.handle_write_chunk(chunk_id, data.to_vec(), hash);
    match has_chunk(n.has(&chunk_id)) {
        Response::Bool { value } => assert!(value),
        other => panic!("Expected Bool response, got {:?}", other),
    }
}

#[test]
fn data_is_cut_into_chunks_at_their_places() {
    let chunker = Chunker::new(4);
    let data = vec![1u8, 2, 3, 4, 5, 6, 7, 8, 9];
    let file_id = FileId { id: 3 };
    let pieces = chunker.chunk_data_at(&data, 100, file_id);
    assert_eq!(pieces.len(), 3);
    assert_eq!(pieces[2].1, vec![9]);
    assert_eq!(pieces[1].0.hash, compute_chunk_hash_at(&[5, 6, 7, 8], 104, file_id));
    assert_eq!(chunker.chunk_size(), 4);
    assert!(chunker.chunk_data(&vec![], file_id).is_empty());
}

#[test]
fn a_write_waits_for_two_replicas() {
    assert_eq!(
        (0..7).map(immediate_replicas).collect::<Vec<usize>>(),
        vec![0, 1, 2, 2, 2, 2, 2]
    );
    let targets = vec![node(1), node(2), node(3)];
    let (now, later) = quorum_nodes(&targets, 3);
    assert_eq!((now.len(), later), (2, vec![node(3)]));
    let c = ChunkId::from_hash([1; 32]);
    let f = FileId { id: 1 };
    assert_eq!(local_location(c, 5, node(1), f).nodes, vec![node(1)]);
    let l = write_data_chunk(c, "c", 5, targets.clone(), 2, 3, f).unwrap();
    assert_eq!(l.nodes, targets);
    assert_eq!((l.size, l.file_id), (5, Some(f)));
    assert_eq!(
        write_data_chunk(c, "c", 5, vec![], 0, 3, f).unwrap_err(),
        "No nodes available for chunk c"
    );
    assert_eq!(
        write_data_chunk(c, "c", 5, targets.clone(), 1, 3, f).unwrap_err(),
        "Failed to achieve quorum for chunk c (1/2)"
    );
    assert_eq!(
        write_data_chunk(c, "c", 5, vec![node(1)], 0, 3, f).unwrap_err(),
        "Failed to achieve quorum for chunk c (0/1)"
    );
    let (text, code) = refusal(append_quorum("c", &targets, vec![node(1)], 3).unwrap_err());
    assert_eq!(text, "Failed to achieve quorum for chunk c (1/2)");
    assert_eq!(code, ErrorCode::IOError);
    let (text, _) = refusal(append_quorum("c", &vec![], vec![], 3).unwrap_err());
    assert_eq!(text, "No nodes available for chunk replication");
    assert_eq!(append_quorum("c", &targets, targets.clone(), 3).unwrap(), targets);
}

#[test]
fn the_reply_to_writing_a_file() {
    let one = WrittenChunk { chunk_id: ChunkId::from_hash([1; 32]), size: 5, nodes: vec![node(1)] };
    match write_file_response(Ok(vec![one])) {
        Response::ChunkIds { chunk_ids, chunk_sizes, replica_nodes_per_chunk } => {
            assert_eq!(chunk_ids, vec![ChunkId::from_hash([1; 32])]);
            assert_eq!(chunk_sizes, vec![5]);
            assert_eq!(replica_nodes_per_chunk, vec![vec![node(1)]]);
        }
        other => panic!("expected chunks, got {:?}", other),
    }
    let (text, code) = refusal(write_file_response(Err("full".to_string())));
    assert_eq!((text.as_str(), code), ("Failed to write file: full", ErrorCode::InternalError));
}

#[test]
fn an_append_takes_up_the_tail() {
    let m = record(1, 4, 10, vec![location(1, Some(0), None), location(2, Some(8), None)]);
    let start = append_admission(Lookup::Found(m.clone()), "f", 10, 8).unwrap();
    assert_eq!(start.tail, Some(ChunkId::from_hash([2; 32])));
    let (data, tail_len) = append_data(Some(vec![1, 2]), vec![3, 4, 5]);
    assert_eq!((data, tail_len), (vec![1, 2, 3, 4, 5], 2));
    let written =
        vec![AppendedChunk { chunk_id: ChunkId::from_hash([9; 32]), size: 5, nodes: vec![node(2)] }];
    let (after, room) = finish_append(m.clone(), true, tail_len, &written, 8, 55);
    assert_eq!((after.size, room), (13, 3));
    assert_eq!(after.chunk_locations.len(), 2);
    assert_eq!(after.chunk_locations[1].chunk_id, ChunkId::from_hash([9; 32]));
    assert_eq!(after.modified_at, 55);

    let (text, code) =
        refusal(append_admission(Lookup::Found(m.clone()), "f", 9, 8).unwrap_err());
    assert_eq!(text, "Offset mismatch: expected 9 but file is 10 bytes");
    assert_eq!(code, ErrorCode::OffsetMismatch);
    assert_eq!(
        refusal(append_admission(Lookup::Missing, "f", 9, 8).unwrap_err()).0,
        "File not found: f"
    );
    assert_eq!(
        refusal(append_admission(Lookup::Failed("io".to_string()), "f", 9, 8).unwrap_err()).0,
        "Failed to read metadata: io"
    );
    let hollow = record(1, 4, 10, vec![]);
    assert_eq!(
        refusal(append_admission(Lookup::Found(hollow), "f", 10, 8).unwrap_err()).0,
        "File metadata has no chunk locations"
    );
    let even = record(1, 4, 16, vec![]);
    assert!(append_admission(Lookup::Found(even.clone()), "f", 16, 8).unwrap().tail.is_none());
    match append_nothing(even, 8) {
        Response::AppendFileResult { remaining_in_chunk, .. } => assert_eq!(remaining_in_chunk, 8),
        other => panic!("expected a result, got {:?}", other),
    }
    assert_eq!(append_data(None, vec![7]), (vec![7], 0));
}

#[test]
fn a_written_chunk_is_recorded_once() {
    let c = ChunkId::from_hash([1; 32]);
    let new = location_after_write(None, c, 8, node(5), 3, 99).unwrap();
    assert_eq!((new.nodes, new.written_at, new.size), (vec![node(5)], Some(99), 8));
    let held = location(1, Some(0), None);
    let more = location_after_write(Some(held.clone()), c, 8, node(5), 3, 99).unwrap();
    assert_eq!((more.nodes, more.written_at), (vec![node(1), node(5)], None));
    assert!(location_after_write(Some(held.clone()), c, 8, node(1), 3, 99).is_none());
    assert!(location_after_write(Some(held), c, 8, node(5), 1, 99).is_none());
    assert_eq!(
        refusal(write_chunk_response(Some("full".to_string()))),
        ("Failed to write chunk: full".to_string(), ErrorCode::IOError)
    );
}

#[test]
fn reads_go_to_holders_that_are_online() {
    let nodes: Vec<NodeInfo> = [(1, NodeStatus::Online), (2, NodeStatus::Offline), (3, NodeStatus::Online)]
        .iter()
        .map(|(id, status)| NodeInfo {
            id: node(*id),
            status: *status,
            available_bytes: 0,
            total_bytes: 0,
        })
        .collect();
    assert!(is_online_exec(&nodes, node(3)));
    assert!(!is_online_exec(&nodes, node(2)));
    assert!(!is_online_exec(&nodes, node(4)));
    assert_eq!(
        find_read_candidates(&vec![node(1), node(2), node(3)], node(1), &nodes),
        vec![node(3)]
    );
    assert_eq!(composed_range(&vec![1, 2, 3], 1, 9), vec![2, 3]);
    assert!(composed_range(&vec![1, 2, 3], 9, 9).is_empty());
}

#[test]
fn missing_chunks_are_not_asked_for_again_and_again() {
    let a = ChunkId::from_hash([1; 32]);
    let b = ChunkId::from_hash([2; 32]);
    let mut m = MissingChunks::new();
    m.note_unavailable(a, 0, 0, 0);
    assert!(!m.is_blocked(a, 0));
    m.note_unavailable(a, 1, 2, 0);
    assert!(!m.is_blocked(a, 0));
    m.note_unavailable(a, 2, 2, 0);
    assert!(m.is_blocked(a, 299_999));
    assert!(!m.is_blocked(a, 300_000));
    assert!(!m.is_blocked(b, 0));
}

#[test]
fn orders_and_pushes_are_checked() {
    assert!(validate_leader(true, "n").is_none());
    let (text, code) = refusal(validate_leader(false, "n").unwrap());
    assert_eq!(
        text,
        "Rejected: sender n is not the current leader per this node's cluster view"
    );
    assert_eq!(code, ErrorCode::InvalidRequest);
    let c = ChunkId::from_hash([1; 32]);
    let d = ChunkId::from_hash([2; 32]);
    assert_eq!(resolve_push_target(c, "c", false, Ok(None)).unwrap(), c);
    assert_eq!(resolve_push_target(c, "c", true, Ok(None)).unwrap(), c);
    assert_eq!(resolve_push_target(c, "c", true, Ok(Some(PatchState::Folded(d)))).unwrap(), d);
    assert_eq!(
        refusal(resolve_push_target(c, "c", true, Err("io".to_string())).unwrap_err()).0,
        "Failed to resolve patch state: io"
    );
    let pending = PatchState::Pending { base_chunk_id: c, delta_chunk_id: d };
    let (text, code) = refusal(resolve_push_target(c, "c", true, Ok(Some(pending))).unwrap_err());
    assert!(text.starts_with("Failed to resolve patch state: patch_state for c is still Pending"));
    assert_eq!(code, ErrorCode::InternalError);

    let f = FileId { id: 4 };
    let data = vec![1, 2, 3];
    let good = ChunkId::from_hash(compute_chunk_hash_at(&data, 7, f));
    let placed = ChunkLocation { file_id: Some(f), ..location(1, Some(7), None) };
    assert_eq!(
        content_to_push(good, "g", &Some(placed.clone()), Ok(data.clone())).unwrap(),
        data
    );
    let (text, code) =
        refusal(content_to_push(c, "c", &Some(placed), Ok(data.clone())).unwrap_err());
    assert_eq!(text, "Chunk c content hash mismatch (disk corruption)");
    assert_eq!(code, ErrorCode::ChecksumMismatch);
    let no_file = Some(location(1, Some(7), None));
    assert!(content_to_push(c, "c", &no_file, Ok(data.clone())).is_ok());
    assert!(content_to_push(c, "c", &None, Ok(data)).is_ok());
    let (text, code) =
        refusal(content_to_push(c, "c", &None, Err("gone".to_string())).unwrap_err());
    assert_eq!((text.as_str(), code), ("Chunk not found locally: gone", ErrorCode::NotFound));
}

#[test]
fn requests_are_counted_by_class() {
    let mut t = OpsTracker::new();
    assert!(handle_request(RequestKind::ReadChunk, &mut t).is_none());
    assert!(handle_request(RequestKind::WriteChunk, &mut t).is_none());
    assert!(handle_request(RequestKind::PutFileMetadata, &mut t).is_none());
    assert!(handle_request(RequestKind::GetClusterStatus, &mut t).is_none());
    t.tick();
    let s = t.get_stats(1);
    assert_eq!((s.reads_live, s.writes_live, s.meta_live), (1, 1, 1));
    assert_eq!(
        refusal(handle_request(RequestKind::Unknown, &mut t).unwrap()).0,
        "Request type not yet implemented"
    );
    assert!(matches!(
        chunk_integrity(false, true),
        Response::ChunkValid { found: false, valid: false }
    ));
    assert!(matches!(
        chunk_integrity(true, true),
        Response::ChunkValid { found: true, valid: true }
    ));
    match query_chunk_sizes(&vec![Some(4), None]) {
        Response::ChunkSizes { sizes } => assert_eq!(sizes, vec![4, 0]),
        other => panic!("expected sizes, got {:?}", other),
    }
    let hints = vec![ChunkId::from_hash([1; 32]), ChunkId::from_hash([2; 32])];
    assert!(matches!(prefetch_accepted(&hints), Response::PrefetchAccepted { accepted: 2 }));
}

#[test]
fn records_are_shown_as_they_are() {
    match patch_token_ids(Ok(vec![ChunkId::from_hash([4; 32])])) {
        Response::PatchTokenIds { ids } => assert_eq!(ids, vec![ChunkId::from_hash([4; 32])]),
        other => panic!("expected tokens, got {:?}", other),
    }
    let refused = refusal(patch_token_ids(Err("disk".to_string())));
    assert_eq!(refused, ("Failed to read local metadata".to_string(), ErrorCode::InternalError));
    match raw_chunk_location(Ok(Some(location(6, Some(8), None)))) {
        Response::DebugRawChunkLocation { location: Some(l) } => {
            assert_eq!(l.chunk_id, ChunkId::from_hash([6; 32]));
            assert_eq!(l.file_offset, Some(8));
        }
        other => panic!("expected a record, got {:?}", other),
    }
    assert!(matches!(
        raw_chunk_location(Err("disk".to_string())),
        Response::DebugRawChunkLocation { location: None }
    ));
}

fn put_facts(is_leader: bool, now_ms: u64) -> PutFacts {
    PutFacts {
        is_leader,
        leader_addr: Some("leader:1".to_string()),
        known_path: None,
        present: vec![],
        now_ms,
    }
}

fn stored(r: PutOutcome) -> Taken {
    match r {
        PutOutcome::Store(taken, Response::Done { data: None }) => taken,
        other => panic!("expected a record to store, got {:?}", other),
    }
}

#[test]
fn a_put_goes_through_the_leader() {
    let mut s = Server::new(3);
    let f = FileId { id: 1 };
    let m = record(1, 5, 10, vec![location(1, Some(0), None)]);
    match s.handle_put_file_metadata(m.clone(), 3, put_facts(false, 1000)) {
        PutOutcome::Answer(Response::NotLeader { leader_addr }) => {
            assert_eq!(leader_addr, Some("leader:1".to_string()))
        }
        other => panic!("expected a redirect, got {:?}", other),
    }
    assert_eq!(s.file_write_seq(f), None);

    let taken = stored(s.handle_put_file_metadata(m, 3, put_facts(true, 1000)));
    assert_eq!(taken.missing, Some((1, 2)));
    assert!(!taken.commit_now);
    assert_eq!(s.file_write_seq(f), Some(5));
    assert_eq!(s.chunk_map_ref().entry(f).unwrap().0.len(), 1);
    assert_eq!(s.gossip_batch(1000).len(), 1);

    let older = record(1, 4, 10, vec![location(2, Some(CHUNK_SIZE), None)]);
    stored(s.handle_put_file_metadata(older, 4, put_facts(true, 1000)));
    assert_eq!(s.file_write_seq(f), Some(5));
}

#[test]
fn a_deleted_file_is_not_put_back() {
    let mut s = Server::new(3);
    let f = FileId { id: 1 };
    let m = record(1, 5, 10, vec![location(1, Some(0), None)]);
    stored(s.handle_put_file_metadata(m.clone(), 5, put_facts(true, 1000)));
    assert!(s.write_is_pending(f));
    let (reply, travels) = s.handle_delete_metadata(f, 2, 1000);
    assert!(matches!(reply, Response::Done { data: None }));
    assert_eq!(travels, Some(1));
    assert_eq!(s.handle_delete_metadata(f, 0, 1000).1, None);
    assert!(s.chunk_map_ref().entry(f).is_none());
    assert!(s.drain_dirty(true, 1000).is_empty());

    let r = s.handle_put_file_metadata(m.clone(), 5, put_facts(true, 1001));
    assert!(matches!(r, PutOutcome::Answer(Response::Done { data: None })));
    assert!(s.chunk_map_ref().entry(f).is_none());
    assert!(s.store_batch(vec![m.clone()], false, |_a, b: &FileMetadata| b.clone()).is_empty());
    assert!(s.admit_disseminated(vec![m.clone()]).is_empty());
    stored(s.handle_put_file_metadata(m, 5, put_facts(true, 1_000_000)));
    assert!(s.chunk_map_ref().entry(f).is_some());
}

#[test]
fn a_put_waits_for_a_rename() {
    let mut s = Server::new(3);
    let f = FileId { id: 1 };
    let m = record(1, 5, 10, vec![]);
    s.rename_begins(f);
    let r = s.handle_put_file_metadata(m.clone(), 5, put_facts(true, 1000));
    assert!(matches!(r, PutOutcome::WaitForRename));
    assert!(!s.write_is_pending(f));
    s.rename_ends(f);
    stored(s.handle_put_file_metadata(m, 5, put_facts(true, 1000)));
    assert!(s.write_is_pending(f));
    s.batch_stored(&vec![FileId { id: 9 }]);
    assert!(s.write_is_pending(f));
    s.batch_stored(&vec![f]);
    assert!(!s.write_is_pending(f));
}

#[test]
fn changed_records_are_pushed_once() {
    let mut s = Server::new(3);
    for id in 1..4u128 {
        let m = record(id, 5, 10, vec![location(id as u8, Some(0), None)]);
        stored(s.handle_put_file_metadata(m, 5, put_facts(true, 1000)));
    }
    s.bury(FileId { id: 2 }, 1000);
    let mut pushed: Vec<u128> = s.drain_dirty(true, 1000).iter().map(|m| m.id.id).collect();
    pushed.sort();
    assert_eq!(pushed, vec![1, 3]);
    assert!(s.drain_dirty(true, 1000).is_empty());
    stored(s.handle_put_file_metadata(record(7, 1, 1, vec![]), 1, put_facts(true, 1000)));
    assert!(s.drain_dirty(false, 1000).is_empty());
    assert!(s.drain_dirty(true, 1000).is_empty());
}

#[test]
fn tombstoned_chunks_are_not_offered() {
    let mut s = Server::new(3);
    let (a, b, c) =
        (ChunkId::from_hash([1; 32]), ChunkId::from_hash([2; 32]), ChunkId::from_hash([3; 32]));
    s.handle_tombstone_chunk(a);
    s.handle_tombstone_chunk(b);
    let asked = vec![a, b, c, c];
    match s.handle_has_chunks(&asked, &vec![true, true, true, false]) {
        Response::BoolVec { values } => assert_eq!(values, vec![false, false, true, false]),
        other => panic!("expected answers, got {:?}", other),
    }
    assert_eq!(s.tombstoned_chunks().len(), 2);
    s.drop_spent_tombstones(&vec![a, b], &vec![true, false]);
    assert_eq!(s.tombstoned_chunks(), vec![a]);
    s.handle_tombstone_chunk(c);
    s.handle_delete_chunk(a);
    assert_eq!(s.tombstoned_chunks(), vec![c]);
    s.handle_delete_chunks_batch(FileId { id: 5 }, &vec![c], 10);
    assert!(s.tombstoned_chunks().is_empty());
    let r = s.handle_put_file_metadata(record(5, 1, 1, vec![]), 1, put_facts(true, 11));
    assert!(matches!(r, PutOutcome::Answer(Response::Done { data: None })));
}

#[test]
fn patches_are_followed() {
    let mut s = Server::new(3);
    let f = FileId { id: 1 };
    let (t1, t2, base) =
        (ChunkId::from_hash([1; 32]), ChunkId::from_hash([2; 32]), ChunkId::from_hash([3; 32]));
    s.patch_recorded(t1, base, None, f, 4);
    assert_eq!(s.patch_slot(t1), Some((f, 4)));
    assert_eq!(s.patch_slot(base), Some((f, 4)));
    s.patch_recorded(t2, base, Some(t1), f, 4);
    assert_eq!(s.patch_slot(t1), None);
    s.patch_folded(base);
    assert_eq!((s.patch_slot(base), s.patch_slot(t2)), (None, Some((f, 4))));
    let (text, code) = refusal(s.handle_replicate_patch_fold(t1, f, 9, Some("io".to_string())));
    assert_eq!(text, "Failed to record patch fold: io");
    assert_eq!(code, ErrorCode::InternalError);
    assert_eq!(s.patch_slot(t1), None);
    s.handle_replicate_patch_fold(t1, f, 9, None);
    assert_eq!(s.patch_slot(t1), Some((f, 9)));
    assert_eq!(s.last_cluster_write_ms(), 0);
    s.note_cluster_write(77);
    assert_eq!(s.last_cluster_write_ms(), 77);
}

#[test]
fn a_replicated_record_is_taken_and_passed_on() {
    let mut s = Server::new(3);
    let facts = |now_ms: u64| ReplicaFacts {
        is_leader: false,
        leader_is_self: false,
        present: vec![],
        now_ms,
    };
    let m = record(1, 5, 10, vec![location(1, Some(0), None)]);
    s.bury(FileId { id: 1 }, 6);
    assert!(s.handle_replicate_metadata(m.clone(), 1, facts(7)).is_none());
    assert!(s.next_forward().is_none());
    let r = s.handle_replicate_metadata(m.clone(), 1, facts(1_000_000)).unwrap();
    assert_eq!(r.forward_ttl, Some(0));
    assert!(r.queued);
    let (queued, at) = s.next_forward().unwrap();
    assert_eq!((queued.id.id, at), (1, 1_000_000));
    s.forward_done();
    assert!(s.next_forward().is_none());
    assert_eq!(s.file_write_seq(FileId { id: 1 }), Some(5));
    let r = s.handle_replicate_metadata(m, 0, facts(1_000_000)).unwrap();
    assert!(r.forward_ttl.is_none() && !r.queued);

    s.bury(FileId { id: 3 }, 50);
    let batch = vec![record(2, 1, 1, vec![location(3, Some(0), None)]), record(3, 1, 1, vec![])];
    let stored = s.handle_replicate_metadata_batch(&batch, &vec![], 51);
    assert_eq!(stored.len(), 1);
    assert!(s.chunk_map_ref().entry(FileId { id: 2 }).is_some());

    let spread = s.admit_disseminated(vec![
        record(1, 9, 1, vec![location(8, Some(0), None)]),
        record(3, 1, 1, vec![]),
    ]);
    assert_eq!(spread.len(), 1);
    assert_eq!(spread[0].chunk_locations[0].chunk_id, ChunkId::from_hash([1; 32]));
}

#[test]
fn the_chunk_map_follows_the_server() {
    let mut s = Server::new(3);
    let f = FileId { id: 1 };
    s.rebuild_chunk_map_from_metadata(&record(1, 5, 10, vec![location(1, Some(0), None)]));
    assert_eq!(s.file_write_seq(f), Some(5));
    s.take_location(Some(f), &location(2, Some(CHUNK_SIZE), Some(5)));
    assert_eq!(s.chunk_map_ref().entry(f).unwrap().0.len(), 2);
    let (old, new) = (ChunkId::from_hash([1; 32]), ChunkId::from_hash([7; 32]));
    s.take_patch(f, Some(0), old, new, 50, 99);
    let (list, _) = s.chunk_map_ref().entry(f).unwrap();
    assert!(list.iter().any(|l| l.chunk_id == new && l.size == 50));
    s.take_stored(&vec![record(2, 1, 1, vec![location(4, Some(0), None)])], &vec![]);
    assert!(s.chunk_map_ref().entry(FileId { id: 2 }).is_some());
    s.forget_file(f);
    assert!(s.chunk_map_ref().entry(f).is_none());
    assert!(matches!(s.handle_set_replication_factor(99), Response::Done { data: None }));
    assert_eq!(s.replication_factor(), 10);
    s.handle_set_replication_factor(0);
    assert_eq!(s.replication_factor(), 1);
}

#[test]
fn the_store_worker_batches() {
    let alone = StoreBatch::begins(record(1, 1, 1, vec![]), false, 100);
    assert_eq!(alone.step(), WorkerStep::Store);
    let mut b = StoreBatch::begins(record(1, 1, 1, vec![]), true, 100);
    assert_eq!(b.step(), WorkerStep::Look);
    assert_eq!(b.found_none(107), WorkerStep::Pause);
    assert_eq!(b.found_none(108), WorkerStep::Store);
    assert_eq!(b.closed(), WorkerStep::StoreAndEnd);
    for id in 2..256u128 {
        assert_eq!(b.got(record(id, 1, 1, vec![])), WorkerStep::Look);
    }
    assert_eq!(b.got(record(256, 1, 1, vec![])), WorkerStep::Store);
    assert_eq!(b.files().len(), 256);
    assert_eq!(b.into_items()[255].id.id, 256);
}

#[test]
fn deleted_files_are_not_stored() {
    let items = vec![record(1, 1, 1, vec![]), record(2, 1, 1, vec![]), record(1, 2, 1, vec![])];
    let mut s = Server::new(3);
    s.bury(FileId { id: 2 }, 0);
    let last = |_a: &FileMetadata, b: &FileMetadata| b.clone();
    let stored = s.store_batch(items.clone(), true, last);
    assert_eq!(stored.len(), 1);
    assert_eq!(stored[0].write_seq, 2);
    assert_eq!(s.store_batch(items, false, last).len(), 2);
}

#[test]
fn reads_and_writes_of_a_chunk_begin_with_a_look() {
    let mut s = Server::new(3);
    let f = FileId { id: 1 };
    let c = ChunkId::from_hash([1; 32]);
    assert_eq!(s.stale_file(c, Some(9)), None);
    s.rebuild_chunk_map_from_metadata(&record(1, 5, 10, vec![location(1, Some(0), None)]));
    assert_eq!(s.stale_file(c, Some(6)), Some(f));
    assert_eq!(s.stale_file(c, Some(5)), None);
    assert_eq!(s.stale_file(c, None), None);
    assert!(s.write_chunk_begins(c, [1; 32], true, 50).is_none());
    assert_eq!(s.last_cluster_write_ms(), 0);
    let (text, code) = refusal(s.write_chunk_begins(c, [2; 32], false, 50).unwrap());
    assert_eq!((text.as_str(), code), ("Checksum mismatch", ErrorCode::ChecksumMismatch));
    assert_eq!(s.last_cluster_write_ms(), 50);
    assert_eq!(replicated_mtime(&write_chunk_response(None), Some(7)), Some(7));
    assert_eq!(replicated_mtime(&write_chunk_response(Some("x".to_string())), Some(7)), None);
    let (text, code) = refusal(read_range_response(c, Err("gone".to_string()), 4, 1));
    assert_eq!((text.as_str(), code), ("Failed to read chunk range: gone", ErrorCode::NotFound));
    assert!(matches!(
        read_range_response(c, Ok(vec![1]), 4, 1),
        Response::ChunkData { cache_stats: Some((0, 4, 1)), .. }
    ));
}

#[test]
fn files_are_looked_up() {
    let m = record(1, 5, 10, vec![location(1, Some(0), None)]);
    assert_eq!(info_by_path(Lookup::Found(m.clone())).unwrap().size, 10);
    assert_eq!(refusal(info_by_path(Lookup::Missing).unwrap_err()).0, "File not found");
    assert_eq!(
        refusal(info_by_path(Lookup::Failed("io".to_string())).unwrap_err()).0,
        "Failed to get file info: io"
    );
    assert_eq!(info_by_id(Lookup::Found(m.clone()), "f").unwrap().size, 10);
    assert_eq!(
        refusal(info_by_id(Lookup::Missing, "f").unwrap_err()).0,
        "File not found by ID: f"
    );
    assert_eq!(
        refusal(info_by_id(Lookup::Failed("io".to_string()), "f").unwrap_err()).0,
        "Failed to get file info by id: io"
    );
    let mut s = Server::new(3);
    let f = FileId { id: 1 };
    assert_eq!(
        refusal(s.chunk_map_source(f, "f", None).unwrap_err()).0,
        "No chunk map entry for file f"
    );
    assert!(s.chunk_map_source(f, "f", Some(record(1, 5, 10, vec![]))).is_err());
    let (list, seq) = s.chunk_map_source(f, "f", Some(m)).unwrap();
    assert_eq!((list.len(), seq), (1, 5));
    assert_eq!(s.chunk_map_source(f, "f", None).unwrap().1, 5);
}
