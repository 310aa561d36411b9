use dfs_server::metadata::Lookup;
use dfs_server::protocol::Response;
use dfs_server::repair::{
    collect_votes, corrupt_replicas, count_online, ends_fit_exec, file_target, found_file,
    heal_file, judge, judge_file, location_after_repair, majority, no_healer, nodes_to_ask,
    repair_admission, repair_size, repair_started, FileTarget, ReplicaCheck,
    Verdict,
};
use dfs_server::types::{
    ChunkId, ChunkLocation, ErrorCode, FileId, FileMetadata, FileType, NodeId, NodeInfo,
    NodeStatus, CHUNK_SIZE,
};

fn node(id: u128) -> NodeId {
    NodeId { id }
}

fn location(tag: u8, offset: Option<u64>, nodes: Vec<NodeId>) -> ChunkLocation {
    ChunkLocation {
        chunk_id: ChunkId::from_hash([tag; 32]),
        nodes,
        size: 7,
        checksum: [tag; 32],
        file_offset: offset,
        written_at: Some(1),
        client_write_seq: Some(2),
        file_id: None,
    }
}

fn record(size: u64, list: Vec<ChunkLocation>) -> FileMetadata {
    FileMetadata {
        id: FileId { id: 1 },
        path: "/f".to_string(),
        size,
        mode: 0,
        uid: 0,
        gid: 0,
        file_type: FileType::RegularFile,
        created_at: 0,
        modified_at: 0,
        write_seq: 4,
        chunk_locations: list,
        symlink_target: None,
    }
}

fn info(id: u128, status: NodeStatus) -> NodeInfo {
    NodeInfo { id: node(id), status, available_bytes: 0, total_bytes: 0 }
}

fn refusal(r: Response) -> (String, ErrorCode) {
    match r {
        Response::Error { message, code } => (message, code),
        other => panic!("expected an error, got {:?}", other),
    }
}

fn told(r: Response) -> String {
    match r {
        Response::Done { data: Some(bytes) } => String::from_utf8(bytes).unwrap(),
        other => panic!("expected a text, got {:?}", other),
    }
}

#[test]
fn replicas_vote_on_a_size() {
    assert_eq!(majority(&vec![]), None);
    assert_eq!(majority(&vec![5, 9, 5]), Some(5));
    assert_eq!(majority(&vec![9, 5]), Some(9));
    assert_eq!(majority(&vec![5, 9]), Some(9));
    assert_eq!(judge(&vec![]), Verdict::Unknown);
    assert_eq!(judge(&vec![0, 0, 8]), Verdict::Unknown);
    assert_eq!(judge(&vec![8, 0]), Verdict::Size { size: 8, dissent: true });
    assert_eq!(judge(&vec![8, 8]), Verdict::Size { size: 8, dissent: false });
    let reports = vec![(node(1), vec![3, 4]), (node(2), vec![3]), (node(9), vec![1, 1])];
    let holders = vec![node(1), node(2), node(3)];
    assert_eq!(collect_votes(&holders, &reports, 0), vec![3, 3]);
    assert_eq!(collect_votes(&holders, &reports, 1), vec![4, 0]);
}

#[test]
fn a_size_is_repaired_by_its_chunks() {
    let list = vec![
        location(1, Some(0), vec![node(1), node(2), node(3)]),
        location(2, None, vec![node(1)]),
    ];
    let reports = vec![(node(1), vec![10, 20]), (node(2), vec![10]), (node(3), vec![9])];
    let verdicts = judge_file(&list, &reports);
    assert_eq!(
        verdicts,
        vec![Verdict::Size { size: 10, dissent: true }, Verdict::Size { size: 20, dissent: false }]
    );
    let f = record(1, list);
    assert!(ends_fit_exec(&f.chunk_locations, &verdicts));
    let (fixed, noted) = repair_size(&f, &verdicts, vec![], 123);
    let fixed = fixed.unwrap();
    assert_eq!(fixed.size, CHUNK_SIZE + 20);
    assert_eq!((fixed.modified_at, fixed.write_seq), (123, 5));
    assert_eq!(noted, vec![ChunkId::from_hash([1; 32])]);
    let (_, again) = repair_size(&f, &verdicts, noted.clone(), 123);
    assert_eq!(again, noted);

    let right = record(CHUNK_SIZE + 20, f.chunk_locations.clone());
    assert!(repair_size(&right, &verdicts, vec![], 1).0.is_none());
    let unsure = vec![verdicts[0], Verdict::Unknown];
    assert!(repair_size(&f, &unsure, vec![], 1).0.is_none());
    assert!(repair_size(&record(5, vec![]), &vec![], vec![], 1).0.is_none());
    let far = vec![location(1, Some(u64::MAX), vec![])];
    assert!(!ends_fit_exec(&far, &vec![Verdict::Unknown]));
}

#[test]
fn holders_that_are_online_are_asked() {
    let nodes = vec![info(1, NodeStatus::Online), info(2, NodeStatus::Offline), info(3, NodeStatus::Online)];
    let list = vec![location(1, None, vec![node(1), node(2)])];
    assert_eq!(nodes_to_ask(&nodes, &list), vec![node(1)]);
    assert_eq!(count_online(&nodes), 2);
}

#[test]
fn a_uuid_names_a_file_by_identity() {
    let text = "0000002a-0000-0000-0000-000000000007";
    let id = (0x2a_u128 << 96) + 7;
    assert_eq!(file_target(text), FileTarget::ById(FileId { id }));
    assert_eq!(file_target("/some/path"), FileTarget::ByPath);
    assert_eq!(file_target(""), FileTarget::ByPath);
}

#[test]
fn healing_is_asked_for() {
    let f = record(1, vec![location(1, None, vec![]), location(2, None, vec![])]);
    let (ids, reply) = heal_file(&f);
    assert_eq!(ids, vec![ChunkId::from_hash([1; 32]), ChunkId::from_hash([2; 32])]);
    assert_eq!(told(reply), "Queued 2 chunks for immediate healing");
    assert_eq!(
        told(repair_started("/f", 12)),
        "Repair started in background for /f (12 chunks). Progress logged to server."
    );
    assert_eq!(
        refusal(no_healer()),
        ("Healing manager not available".to_string(), ErrorCode::InternalError)
    );
    assert_eq!(
        refusal(found_file(Lookup::Missing, "/g").unwrap_err()),
        ("File not found: /g".to_string(), ErrorCode::NotFound)
    );
    assert_eq!(
        refusal(found_file(Lookup::Failed("io".to_string()), "/g").unwrap_err()),
        ("Failed to look up file: io".to_string(), ErrorCode::InternalError)
    );
}

#[test]
fn a_repair_is_admitted_only_where_it_is_safe() {
    let up = vec![info(1, NodeStatus::Online), info(2, NodeStatus::Offline)];
    let down = vec![info(1, NodeStatus::Online), info(2, NodeStatus::Offline), info(3, NodeStatus::Suspected)];
    let found = || Lookup::Found(record(1, vec![]));
    let r = repair_admission(false, found(), "/f", true, &up, true, None, 60);
    assert_eq!(refusal(r.unwrap_err()).1, ErrorCode::NotFound);
    let r = repair_admission(true, found(), "/f", false, &up, true, None, 60);
    assert_eq!(refusal(r.unwrap_err()).0, "Healing manager not available");
    let r = repair_admission(true, found(), "/f", true, &down, true, None, 60);
    assert_eq!(
        refusal(r.unwrap_err()).0,
        "Repair refused: 2 node(s) down \u{2014} destructive ops unsafe with 2+ nodes offline"
    );
    let job = repair_admission(true, found(), "/f", true, &up, false, Some(59), 60).unwrap();
    assert!(!job.destructive);
    let job = repair_admission(true, found(), "/f", true, &up, true, Some(59), 60).unwrap();
    assert!(job.destructive);
    let job = repair_admission(true, found(), "/f", true, &up, false, Some(60), 60).unwrap();
    assert!(job.destructive);
    let job = repair_admission(true, found(), "/f", true, &up, false, None, 60).unwrap();
    assert!(job.destructive);
}

#[test]
fn only_corrupt_replicas_go() {
    let checks = vec![
        ReplicaCheck { node: node(1), found: true, valid: true },
        ReplicaCheck { node: node(2), found: true, valid: false },
        ReplicaCheck { node: node(3), found: false, valid: false },
    ];
    assert_eq!(corrupt_replicas(&checks), vec![node(2)]);
    let live = location(1, Some(0), vec![node(1), node(2), node(3)]);
    let after = location_after_repair(&live, &checks, true, 99).unwrap();
    assert_eq!(after.nodes, vec![node(1), node(3)]);
    assert_eq!((after.written_at, after.client_write_seq), (Some(99), None));
    assert!(location_after_repair(&live, &checks, false, 99).is_none());
    assert!(location_after_repair(&live, &checks[..1].to_vec(), true, 99).is_none());
}
