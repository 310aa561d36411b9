use dfs_server::append::{append_stored, Append};
use dfs_server::chunker::Chunker;
use dfs_server::drain::{Drain, DrainStep};
use dfs_server::metadata::Lookup;
use dfs_server::patch_flow::{after_fold_step, after_patch_step, drops_delta, FoldStep, PatchStep};
use dfs_server::protocol::Response;
use dfs_server::repair::{judge_file, ReplicaCheck};
use dfs_server::repair_run::{chunk_check, replicas_to_delete, MetadataRepair};
use dfs_server::rewrite_run::{after_rewrite_step, rewrite_begins, RewriteStep};
use dfs_server::server::Server;
use dfs_server::transfer::{
    count_made, kept_here, location_stored, read_begins, write_begins, ChunkRead, ReadStart,
};
use dfs_server::types::{
    ChunkId, ChunkLocation, ErrorCode, FileId, FileMetadata, FileType, NodeId, NodeInfo,
    NodeStatus,
};
use dfs_server::write_path::{append_admission, MissingChunks, WrittenChunk};
use std::cell::Cell;

fn node(id: u128) -> NodeId {
    NodeId { id }
}

fn chunk(tag: u8) -> ChunkId {
    ChunkId::from_hash([tag; 32])
}

fn info(id: u128, status: NodeStatus) -> NodeInfo {
    NodeInfo { id: node(id), status, available_bytes: 0, total_bytes: 0 }
}

fn location(tag: u8, offset: Option<u64>, size: usize, nodes: Vec<NodeId>) -> ChunkLocation {
    ChunkLocation {
        chunk_id: chunk(tag),
        nodes,
        size,
        checksum: [tag; 32],
        file_offset: offset,
        written_at: None,
        client_write_seq: None,
        file_id: None,
    }
}

fn record(id: u128, size: u64, list: Vec<ChunkLocation>) -> FileMetadata {
    FileMetadata {
        id: FileId { id },
        path: "/f".to_string(),
        size,
        mode: 0,
        uid: 0,
        gid: 0,
        file_type: FileType::RegularFile,
        created_at: 0,
        modified_at: 0,
        write_seq: 4,
        chunk_locations: list,
        symlink_target: None,
    }
}

fn refusal(r: Response) -> (String, ErrorCode) {
    match r {
        Response::Error { message, code } => (message, code),
        other => panic!("expected an error, got {:?}", other),
    }
}

#[test]
fn a_read_asks_one_holder_after_the_other() {
    let nodes = vec![
        info(1, NodeStatus::Online),
        info(2, NodeStatus::Offline),
        info(3, NodeStatus::Online),
        info(4, NodeStatus::Online),
    ];
    let c = chunk(1);
    let mut missing = MissingChunks::new();
    assert!(matches!(read_begins(c, "c", Some(vec![7]), &missing, 0), ReadStart::Done(d) if d == vec![7]));
    assert!(matches!(read_begins(c, "c", None, &missing, 0), ReadStart::LookUp));
    assert_eq!(
        ChunkRead::located(Err("io".to_string())).unwrap_err(),
        "Failed to get chunk location"
    );
    assert_eq!(ChunkRead::located(Ok(None)).unwrap_err(), "Chunk location not found");
    let holders = vec![node(2), node(1), node(3), node(9), node(4)];
    let mut read = ChunkRead::located(Ok(Some(location(1, None, 1, holders)))).unwrap();
    assert_eq!(read.next_holder(node(1), &nodes), Some(node(3)));
    assert_eq!(read.next_holder(node(1), &nodes), Some(node(4)));
    assert_eq!(read.next_holder(node(1), &nodes), None);
    assert_eq!(read.give_up(c, "c", &mut missing, 1000), "Failed to read chunk c from any node");
    match read_begins(c, "c", None, &missing, 300_999) {
        ReadStart::Refused(text) => {
            assert_eq!(text, "Chunk c is temporarily unavailable (blocklisted)")
        }
        other => panic!("expected a refusal, got {:?}", other),
    }
    assert!(matches!(read_begins(c, "c", None, &missing, 301_000), ReadStart::LookUp));
}

#[test]
fn a_read_that_had_nobody_to_ask_blocks_nothing() {
    let c = chunk(1);
    let mut missing = MissingChunks::new();
    let held = location(1, None, 1, vec![node(1), node(2)]);
    let mut read = ChunkRead::located(Ok(Some(held))).unwrap();
    assert_eq!(read.next_holder(node(1), &vec![info(2, NodeStatus::Offline)]), None);
    read.give_up(c, "c", &mut missing, 0);
    assert!(!missing.is_blocked(c, 0));
}

#[test]
fn reading_stops_at_the_first_failure() {
    let server = Server::new(3);
    let chunker = Chunker::new(4);
    let asked = Cell::new(0);
    let read = |c: ChunkId| {
        asked.set(asked.get() + 1);
        if c == chunk(2) {
            Err("no chunk 2".to_string())
        } else {
            Ok(vec![c.hash[0]])
        }
    };
    assert_eq!(
        server.read_data(&chunker, &vec![chunk(1), chunk(2), chunk(3)], read).unwrap_err(),
        "no chunk 2"
    );
    assert_eq!(asked.get(), 2);
    assert_eq!(
        server.read_data(&chunker, &vec![chunk(3), chunk(1)], |c| Ok(vec![c.hash[0]])).unwrap(),
        vec![3, 1]
    );
}

#[test]
fn a_write_reports_its_first_failure() {
    let server = Server::new(3);
    let chunker = Chunker::new(4);
    let file = FileId { id: 1 };
    let data = vec![1u8; 10];
    let r = server.write_data(&chunker, &data, file, |chunks: &Vec<(ChunkId, Vec<u8>)>| {
        assert_eq!(chunks.len(), 3);
        vec![
            Ok(WrittenChunk { chunk_id: chunks[0].0, size: 4, nodes: vec![node(1)] }),
            Err("second".to_string()),
            Err("third".to_string()),
        ]
    });
    assert_eq!(r.unwrap_err(), "second");

    let keep = |chunks: &Vec<(ChunkId, Vec<u8>)>| -> Vec<Result<WrittenChunk, String>> {
        chunks
            .iter()
            .map(|(c, d)| kept_here(*c, "c", d.len() as u64, node(7), None, None))
            .collect()
    };
    let here = server.write_data_local_only(&chunker, &data, file, keep).unwrap();
    assert_eq!(here.iter().map(|w| w.size).collect::<Vec<u64>>(), vec![4, 4, 2]);
    assert!(here.iter().all(|w| w.nodes == vec![node(7)]));
    let there = server.write_data_local_only_at(&chunker, &data, 100, file, keep).unwrap();
    assert_ne!(here[0].chunk_id, there[0].chunk_id);
    assert_eq!(there[1].chunk_id, chunker.chunk_data_at(&data, 100, file)[1].0);
}

#[test]
fn what_comes_of_a_chunk_that_is_written() {
    assert_eq!(write_begins("c", &vec![], 3).unwrap_err(), "No nodes available for chunk c");
    let (now, later) = write_begins("c", &vec![node(1), node(2), node(3)], 3).unwrap();
    assert_eq!((now, later), (vec![node(1), node(2)], vec![node(3)]));
    assert_eq!(count_made(&vec![true, false, true]), 2);
    let nodes = vec![info(1, NodeStatus::Online), info(2, NodeStatus::Online)];
    assert_eq!(location_stored(None, &nodes, node(1)).unwrap(), vec![node(2)]);
    assert_eq!(
        location_stored(Some("io".to_string()), &nodes, node(1)).unwrap_err(),
        "Failed to store chunk location"
    );
    assert_eq!(
        kept_here(chunk(1), "c", 1, node(1), Some("full".to_string()), None).unwrap_err(),
        "Failed to write chunk c locally"
    );
    assert_eq!(
        kept_here(chunk(1), "c", 1, node(1), None, Some("full".to_string())).unwrap_err(),
        "Failed to store chunk location"
    );
}

#[test]
fn an_append_runs_to_its_end() {
    let chunker = Chunker::new(4);
    let before = record(1, 6, vec![location(1, Some(0), 4, vec![]), location(2, Some(4), 2, vec![])]);
    let start = append_admission(Lookup::Found(before.clone()), "f", 6, 4).unwrap();
    assert_eq!(start.tail, Some(chunk(2)));
    let mut run =
        Append::begins(start, Some(Ok(vec![5, 6])), vec![7, 8, 9, 10, 11], &chunker).unwrap();
    assert!(run.nothing_to_write().is_none());
    let targets = vec![node(1), node(2), node(3)];
    let (first, bytes) = run.next_chunk().unwrap();
    assert_eq!(bytes, vec![5, 6, 7, 8]);
    let (text, code) = refusal(run.chunk_written("c", &targets, vec![node(1)], 3).unwrap_err());
    assert_eq!(text, "Failed to achieve quorum for chunk c (1/2)");
    assert_eq!(code, ErrorCode::IOError);
    assert_eq!(run.next_chunk().unwrap().0, first);
    let l = run.chunk_written("c", &targets, vec![node(1), node(2)], 3).unwrap();
    assert_eq!((l.chunk_id, l.file_offset, l.size), (first, Some(4), 4));
    let (second, bytes) = run.next_chunk().unwrap();
    assert_eq!(bytes, vec![9, 10, 11]);
    let l = run.chunk_written("c", &targets, vec![node(1), node(3)], 3).unwrap();
    assert_eq!((l.file_offset, l.nodes), (Some(8), vec![node(1), node(3)]));
    assert!(run.next_chunk().is_none());
    let (after, room) = run.record(99);
    assert_eq!((after.size, room, after.modified_at), (11, 1, 99));
    assert_eq!(
        after.chunk_locations.iter().map(|l| l.chunk_id).collect::<Vec<ChunkId>>(),
        vec![chunk(1), first, second]
    );
    match append_stored(None, after.clone(), room) {
        Response::AppendFileResult { metadata, remaining_in_chunk } => {
            assert_eq!((metadata.size, remaining_in_chunk), (11, 1))
        }
        other => panic!("expected a result, got {:?}", other),
    }
    assert_eq!(
        refusal(append_stored(Some("io".to_string()), after, room)),
        ("Failed to persist metadata: io".to_string(), ErrorCode::InternalError)
    );
}

#[test]
fn an_append_without_a_tail_or_without_data() {
    let chunker = Chunker::new(4);
    let even = record(1, 4, vec![location(1, Some(0), 4, vec![])]);
    let start = append_admission(Lookup::Found(even.clone()), "f", 4, 4).unwrap();
    let run = Append::begins(start, None, vec![], &chunker).unwrap();
    match run.nothing_to_write().unwrap() {
        Response::AppendFileResult { remaining_in_chunk, .. } => assert_eq!(remaining_in_chunk, 4),
        other => panic!("expected a result, got {:?}", other),
    }
    let start = append_admission(Lookup::Found(even), "f", 4, 4).unwrap();
    let mut run = Append::begins(start, None, vec![1], &chunker).unwrap();
    assert_eq!(
        refusal(run.chunk_written("c", &vec![], vec![], 3).unwrap_err()).0,
        "No nodes available for chunk replication"
    );
    let odd = record(1, 5, vec![location(1, Some(0), 5, vec![])]);
    let start = append_admission(Lookup::Found(odd), "f", 5, 4).unwrap();
    let (text, code) = refusal(
        Append::begins(start, Some(Err("gone".to_string())), vec![1], &chunker).unwrap_err(),
    );
    assert_eq!(text, "Failed to read partial tail chunk: gone");
    assert_eq!(code, ErrorCode::IOError);
}

#[test]
fn a_deletion_leaves_the_queue_once_everybody_agrees() {
    let nodes = vec![
        info(1, NodeStatus::Online),
        info(2, NodeStatus::Online),
        info(3, NodeStatus::Offline),
        info(4, NodeStatus::Online),
    ];
    let run = |outcomes: &[bool]| {
        let mut d = Drain::begins(&nodes, node(1));
        let mut steps = vec![];
        for fine in outcomes {
            steps.push(d.step());
            d.done(*fine);
        }
        steps.push(d.step());
        steps
    };
    assert_eq!(run(&[false]), vec![DrainStep::RemoveRecord, DrainStep::Over]);
    let all = run(&[true, false, false, true, true, true, true, false, true]);
    assert_eq!(
        all,
        vec![
            DrainStep::RemoveRecord,
            DrainStep::RemovePath,
            DrainStep::DropChunks,
            DrainStep::Forget,
            DrainStep::PruneHealing,
            DrainStep::Tell(node(2)),
            DrainStep::Tell(node(4)),
            DrainStep::Dequeue,
            DrainStep::SpreadDone,
            DrainStep::Over
        ]
    );
    let one_missing = run(&[true, true, true, true, true, false, true]);
    assert_eq!(one_missing[5..].to_vec(), vec![
        DrainStep::Tell(node(2)),
        DrainStep::Tell(node(4)),
        DrainStep::Over
    ]);
    let alone = Drain::begins(&vec![info(1, NodeStatus::Online)], node(1));
    assert!(alone.peers().is_empty());
}

#[test]
fn chunks_are_checked_where_they_are() {
    let nodes = vec![info(1, NodeStatus::Online), info(2, NodeStatus::Offline)];
    let inline = ChunkLocation {
        file_id: Some(FileId { id: 5 }),
        ..location(1, Some(8), 4, vec![node(2)])
    };
    assert!(chunk_check(&inline, None, &nodes).is_none());
    let stored = location(1, None, 4, vec![node(1), node(2)]);
    let check = chunk_check(&inline, Some(stored.clone()), &nodes).unwrap();
    assert_eq!((check.file_offset, check.file_id), (8, Some(FileId { id: 5 })));
    assert_eq!(check.ask, vec![node(1)]);
    assert_eq!(check.location.nodes, vec![node(1), node(2)]);
    let nowhere = location(1, None, 4, vec![node(1)]);
    assert!(chunk_check(&nowhere, Some(stored), &nodes).is_none());
    let checks = vec![
        ReplicaCheck { node: node(1), found: true, valid: true },
        ReplicaCheck { node: node(2), found: true, valid: false },
        ReplicaCheck { node: node(3), found: false, valid: false },
    ];
    assert_eq!(replicas_to_delete(&checks, true), vec![node(2)]);
    assert!(replicas_to_delete(&checks, false).is_empty());
}

#[test]
fn all_records_are_repaired() {
    let nodes = vec![info(1, NodeStatus::Online), info(2, NodeStatus::Online)];
    let holders = vec![node(1), node(2)];
    let files = vec![
        record(1, 0, vec![]),
        record(2, 99, vec![location(1, Some(0), 7, holders.clone())]),
        record(3, 7, vec![location(2, Some(0), 7, holders.clone())]),
        record(4, 7, vec![location(3, Some(0), 7, holders)]),
    ];
    let mut server = Server::new(3);
    server.repair_chunk_map(&files);
    assert!(server.chunk_map_ref().entry(FileId { id: 1 }).is_none());
    assert_eq!(server.chunk_map_ref().entry(FileId { id: 2 }).unwrap().1, 4);

    assert!(MetadataRepair::begins(&vec![], true).is_none());
    assert!(MetadataRepair::begins(&files, false).is_none());
    let mut run = MetadataRepair::begins(&files, true).unwrap();
    let (f, ask, ids) = run.next_file(&nodes).unwrap();
    assert_eq!((f.id.id, ask.clone(), ids), (2, vec![node(1), node(2)], vec![chunk(1)]));
    let verdicts =
        judge_file(&f.chunk_locations, &vec![(node(1), vec![8]), (node(2), vec![8])]);
    let fixed = run.judged(&verdicts, 55).unwrap();
    assert_eq!((fixed.size, fixed.write_seq, fixed.modified_at), (8, 5, 55));
    run.stored(fixed);
    let (f, _, _) = run.next_file(&nodes).unwrap();
    let verdicts =
        judge_file(&f.chunk_locations, &vec![(node(1), vec![7]), (node(2), vec![3])]);
    assert!(run.judged(&verdicts, 56).is_none());
    assert_eq!(run.next_file(&nodes).unwrap().0.id.id, 4);
    run.unanswered();
    assert!(run.next_file(&nodes).is_none());
    let end = run.ends(&nodes, node(1));
    assert_eq!(end.heal, vec![chunk(2)]);
    assert_eq!(end.followers, vec![node(2)]);
    assert_eq!(end.live.iter().map(|f| f.id).collect::<Vec<u128>>(), vec![1, 2, 3, 4]);
    assert_eq!(end.push.iter().map(|m| m.id.id).collect::<Vec<u128>>(), vec![2]);
}

fn complaint(r: Result<RewriteStep, (String, ErrorCode)>) -> String {
    let (text, code) = r.unwrap_err();
    assert_eq!(code, ErrorCode::InternalError);
    text
}

fn rewrite_steps(patches: usize, renames: bool) -> Vec<RewriteStep> {
    let mut step = rewrite_begins(true);
    let mut steps = vec![];
    while step != RewriteStep::Done {
        steps.push(step);
        step = after_rewrite_step(step, patches, renames, None).unwrap();
    }
    steps
}

#[test]
fn a_rewrite_goes_through_its_journal() {
    assert_eq!(
        rewrite_steps(2, true),
        vec![
            RewriteStep::StoreJournal,
            RewriteStep::Open,
            RewriteStep::Grow,
            RewriteStep::Seek(0),
            RewriteStep::Write(0),
            RewriteStep::Seek(1),
            RewriteStep::Write(1),
            RewriteStep::Sync,
            RewriteStep::MakeDirectory,
            RewriteStep::Rename,
            RewriteStep::ForgetOld,
            RewriteStep::ClearJournal,
            RewriteStep::StoreLocation,
        ]
    );
    assert_eq!(
        rewrite_steps(0, false),
        vec![
            RewriteStep::StoreJournal,
            RewriteStep::Open,
            RewriteStep::Grow,
            RewriteStep::Sync,
            RewriteStep::ForgetCached,
            RewriteStep::ClearJournal,
            RewriteStep::StoreLocation,
        ]
    );
    assert_eq!(rewrite_begins(false), RewriteStep::StoreLocation);
    let critical = [
        RewriteStep::StoreJournal,
        RewriteStep::Open,
        RewriteStep::Grow,
        RewriteStep::Write(0),
        RewriteStep::Rename,
    ];
    for s in critical {
        let failure = Some("io".to_string());
        assert!(complaint(after_rewrite_step(s, 2, true, failure)).ends_with(": io"));
    }
    let failure = Some("io".to_string());
    assert!(after_rewrite_step(RewriteStep::ClearJournal, 2, true, failure).is_ok());
    let failure = Some("io".to_string());
    assert_eq!(
        complaint(after_rewrite_step(RewriteStep::ClearJournal, 2, false, failure)),
        "Failed to clear patch journal: io"
    );
}

#[test]
fn content_that_is_its_own_delta_is_kept() {
    assert!(drops_delta(chunk(1), chunk(2)));
    assert!(!drops_delta(chunk(1), chunk(1)));
}

#[test]
fn a_patch_is_acknowledged_last() {
    let mut step = PatchStep::ResolveBase;
    let mut count = 0;
    while step != PatchStep::Answer {
        step = after_patch_step(step, None).unwrap();
        count += 1;
    }
    assert_eq!(count, 8);
    assert_eq!(
        after_patch_step(PatchStep::WriteDelta, Some("io".to_string())).unwrap_err(),
        ("Failed to write patch delta: io".to_string(), ErrorCode::InternalError)
    );
    assert_eq!(
        after_patch_step(PatchStep::RecordPending, Some("io".to_string())).unwrap_err().0,
        "Failed to record patch state: io"
    );
    assert_eq!(
        after_patch_step(PatchStep::StoreLocation, Some("io".to_string())),
        Ok(PatchStep::DropBaseLocation)
    );
    assert_eq!(after_fold_step(FoldStep::ReadDelta, true), None);
    assert_eq!(after_fold_step(FoldStep::Rewrite, true), None);
    assert_eq!(after_fold_step(FoldStep::Rewrite, false), Some(FoldStep::CorrectLocation));
    assert_eq!(after_fold_step(FoldStep::FlipState, true), Some(FoldStep::DropDelta));
}
