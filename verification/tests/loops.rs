use dfs_server::catchup::{
    deleted_set, find_behind, find_missing, find_missing_there, inventory_map, Catchup,
    CatchupStep, FETCH_BATCH,
};
use dfs_server::loops::{
    after_forward, classify_compact_failure, compaction_stagger, forward_head, forward_round,
    gossip_targets, healer_batch, holds_some_chunk, merge_delete_queue, pushes_location,
    pushes_to_leader, queue_reached, resolve_became_leader_epoch, AfterSend, CompactOutcome,
    CompactStep, Compaction, ConnPressure, Dirty, Dissemination, ForwardQueue, FullSweep, HeadStep,
    PressureStep, RecentWrites, RoundStart, SendOutcome, FIRST_BACKOFF_MS, MAX_RECENT_WRITES,
};
use dfs_server::metadata::disseminate_reply;
use dfs_server::protocol::{DeleteQueueEntry, Response};
use dfs_server::types::{
    ChunkId, ChunkLocation, FileId, FileMetadata, FileType, NodeId, NodeInfo, NodeStatus,
};

fn node(id: u128) -> NodeId {
    NodeId { id }
}

fn file(id: u128) -> FileId {
    FileId { id }
}

fn info(id: u128, status: NodeStatus) -> NodeInfo {
    NodeInfo { id: node(id), status, available_bytes: 0, total_bytes: 0 }
}

fn record(id: u128, write_seq: u64) -> FileMetadata {
    FileMetadata {
        id: file(id),
        path: format!("/{}", id),
        size: 0,
        mode: 0,
        uid: 0,
        gid: 0,
        file_type: FileType::RegularFile,
        created_at: 0,
        modified_at: 0,
        write_seq,
        chunk_locations: vec![],
        symlink_target: None,
    }
}

fn location(nodes: Vec<NodeId>) -> ChunkLocation {
    ChunkLocation {
        chunk_id: ChunkId::from_hash([1; 32]),
        nodes,
        size: 1,
        checksum: [1; 32],
        file_offset: Some(0),
        written_at: None,
        client_write_seq: None,
        file_id: None,
    }
}

fn entry(id: u128) -> DeleteQueueEntry {
    DeleteQueueEntry { file_id: file(id), path: "/x".to_string(), chunk_ids: vec![] }
}

#[test]
fn connection_pressure_builds_and_eases() {
    let mut p = ConnPressure::new();
    assert_eq!(p.look(0, 100), PressureStep::Nothing);
    assert_eq!(p.look(0, 129), PressureStep::Nothing);
    assert_eq!(p.look(0, 130), PressureStep::CountIdle);
    assert_eq!(p.judge(64), PressureStep::Nothing);
    assert_eq!(p.look(0, 131), PressureStep::CountIdle);
    assert_eq!(p.judge(63), PressureStep::StepDown);
    assert_eq!(p.look(0, 132), PressureStep::Nothing);
    assert_eq!(p.look(0, 400), PressureStep::Restart);
    assert_eq!(p.look(64, 401), PressureStep::Nothing);
    assert_eq!(p.look(65, 402), PressureStep::Recover);
    assert_eq!(p.look(65, 403), PressureStep::Nothing);
    assert_eq!(p.look(0, 404), PressureStep::Nothing);
}

#[test]
fn rounds_of_the_leader() {
    let nodes =
        vec![info(1, NodeStatus::Online), info(2, NodeStatus::Offline), info(3, NodeStatus::Online)];
    let mut d = Dissemination::new();
    assert!(d.round(false, &nodes, node(1), 0).is_none());
    let r = d.round(true, &nodes, node(1), 1000).unwrap();
    assert_eq!(r.announce_to, Some(vec![node(2), node(3)]));
    assert!(r.periodic_catchup);
    assert_eq!(r.drain_to, vec![node(3)]);
    let r = d.round(true, &nodes, node(1), 1299).unwrap();
    assert!(r.announce_to.is_none() && !r.periodic_catchup);
    assert!(d.round(true, &nodes, node(1), 1300).unwrap().periodic_catchup);
    assert!(d.round(false, &nodes, node(1), 1305).is_none());
    let r = d.round(true, &nodes, node(1), 1310).unwrap();
    assert!(r.announce_to.is_some() && !r.periodic_catchup);
    let mut sweep = FullSweep::new(1000);
    assert!(!sweep.is_due(true, 300_999));
    assert!(!sweep.is_due(false, 301_000));
    assert!(sweep.is_due(true, 301_000));
    assert!(!sweep.is_due(true, 301_001));
    assert_eq!(resolve_became_leader_epoch(Some(node(1)), Some(40), node(1), 90), 40);
    assert_eq!(resolve_became_leader_epoch(Some(node(2)), Some(40), node(1), 90), 90);
    assert_eq!(resolve_became_leader_epoch(Some(node(1)), None, node(1), 90), 90);
    assert_eq!(resolve_became_leader_epoch(None, Some(40), node(1), 90), 90);
    assert!(pushes_to_leader(true, false, true, false));
    assert!(pushes_to_leader(false, true, true, false));
    assert!(!pushes_to_leader(false, false, true, false));
    assert!(!pushes_to_leader(true, true, false, false));
    assert!(!pushes_to_leader(true, true, true, true));
    let list = vec![location(vec![node(1)]), location(vec![node(2)])];
    assert!(holds_some_chunk(&list, &vec![false, true], node(2)));
    assert!(!holds_some_chunk(&list, &vec![true, false], node(2)));
    assert!(!holds_some_chunk(&list, &vec![true, true], node(3)));
    assert!(pushes_location(&list[0], node(1), true));
    assert!(!pushes_location(&list[0], node(1), false));
    assert!(!pushes_location(&list[0], node(2), true));
}

#[test]
fn the_forward_queue_holds_one_record_of_each_file() {
    let mut q = ForwardQueue::new();
    assert!(q.front().is_none());
    q.enqueue(record(1, 1), 10);
    q.enqueue(record(2, 1), 20);
    q.enqueue(record(1, 2), 30);
    let (m, at) = q.front().unwrap();
    assert_eq!((m.id.id, at), (2, 20));
    q.pop_front();
    let (m, at) = q.front().unwrap();
    assert_eq!((m.id.id, m.write_seq, at), (1, 2, 30));
    q.pop_front();
    q.pop_front();
    assert!(q.front().is_none());
}

#[test]
fn forwarding_to_the_leader() {
    assert_eq!(forward_round(true, true, true, true), RoundStart::StoreLocally);
    assert_eq!(forward_round(false, true, true, true), RoundStart::Skip);
    assert_eq!(forward_round(true, false, false, false), RoundStart::Skip);
    assert_eq!(forward_round(true, false, true, false), RoundStart::Forward);
    assert_eq!(forward_head(None, true, true), HeadStep::RoundDone);
    assert_eq!(forward_head(Some(60_001), false, false), HeadStep::Expire);
    assert_eq!(forward_head(Some(60_000), false, false), HeadStep::LeaderMoved);
    assert_eq!(forward_head(Some(0), true, false), HeadStep::DropDeleted);
    assert_eq!(forward_head(Some(0), true, true), HeadStep::Send);
}

#[test]
fn the_backoff_doubles_up_to_its_limit() {
    let mut backoff = FIRST_BACKOFF_MS;
    let mut waits = vec![];
    for _ in 0..6 {
        let (step, next) = after_forward(SendOutcome::Failed, backoff);
        match step {
            AfterSend::RetryAfter(ms) => waits.push(ms),
            other => panic!("expected a retry, got {:?}", other),
        }
        backoff = next;
    }
    assert_eq!(waits, vec![2000, 4000, 8000, 16000, 30000, 30000]);
    assert_eq!(after_forward(SendOutcome::Delivered, backoff), (AfterSend::Pop, 2000));
    assert_eq!(after_forward(SendOutcome::NotLeader, 4000), (AfterSend::EndRound, 4000));
}

#[test]
fn recent_writes_are_told_around_and_forgotten() {
    let mut w = RecentWrites::new();
    w.record_recent_write(record(1, 1), 0);
    w.record_recent_write(record(2, 1), 20_000);
    assert_eq!(w.gossip_batch(29_999).len(), 2);
    let told = w.gossip_batch(30_000);
    assert_eq!(told.iter().map(|m| m.id.id).collect::<Vec<u128>>(), vec![2]);
    assert_eq!(w.gossip_batch(0).len(), 2);
    assert!(w.gossip_batch(60_000).is_empty());
    let kept = w.gossip_batch(0);
    assert_eq!(kept.iter().map(|m| m.id.id).collect::<Vec<u128>>(), vec![2]);
}

#[test]
fn only_so_many_recent_writes_are_kept() {
    let mut w = RecentWrites::new();
    for i in 0..(MAX_RECENT_WRITES as u128 + 3) {
        w.record_recent_write(record(i, 1), 5);
    }
    let told = w.gossip_batch(5);
    assert_eq!(told.len(), MAX_RECENT_WRITES);
    assert_eq!(told[0].id.id, 3);
}

#[test]
fn gossip_reaches_the_leader_too() {
    let nodes = vec![info(1, NodeStatus::Online), info(2, NodeStatus::Online), info(3, NodeStatus::Offline)];
    assert_eq!(gossip_targets(&nodes, node(1), Some(node(3))), vec![node(2), node(3)]);
    assert_eq!(gossip_targets(&nodes, node(1), Some(node(2))), vec![node(2)]);
    assert_eq!(gossip_targets(&nodes, node(1), Some(node(1))), vec![node(2)]);
    assert_eq!(gossip_targets(&nodes, node(1), None), vec![node(2)]);
}

#[test]
fn changed_records_are_pushed_unless_deleted() {
    let items = vec![
        Dirty { metadata: record(1, 1), tombstone_age_ms: Some(10), held: None },
        Dirty {
            metadata: record(2, 1),
            tombstone_age_ms: Some(40_000),
            held: Some(vec![location(vec![node(9)])]),
        },
        Dirty { metadata: record(3, 1), tombstone_age_ms: None, held: None },
    ];
    let out = healer_batch(&items);
    assert_eq!(out.iter().map(|m| m.id.id).collect::<Vec<u128>>(), vec![2, 3]);
    assert_eq!(out[0].chunk_locations.len(), 1);
}

#[test]
fn a_new_leader_takes_over_queued_deletions() {
    assert_eq!(
        merge_delete_queue(&vec![entry(1), entry(2), entry(3)], &vec![entry(2)]),
        vec![0, 2]
    );
    assert!(merge_delete_queue(&vec![], &vec![entry(2)]).is_empty());
}

#[test]
fn compactions_are_spread_over_the_nodes() {
    assert_eq!(compaction_stagger(7, 3), 100);
    assert_eq!(compaction_stagger(8, 3), 200);
    assert_eq!(compaction_stagger(9, 3), 0);
    assert_eq!(compaction_stagger(200, 0), 0);
    assert_eq!(compaction_stagger(200, 1000), 0);
}

#[test]
fn compaction_comes_due_and_is_forced_at_last() {
    let mut c = Compaction::new();
    assert!(c.is_due(0, 0));
    assert_eq!(c.attempted(CompactOutcome::Compacted(100), 0, 50), CompactStep::RoundDone);
    assert!(!c.is_due(119, 60));
    assert!(c.is_due(120, 60));
    assert!(!c.is_due(100, 1849));
    assert!(c.is_due(100, 1850));
    assert_eq!(c.attempted(CompactOutcome::Transient, 0, 60), CompactStep::TryAgain);
    assert_eq!(c.attempted(CompactOutcome::Transient, 2, 60), CompactStep::RoundDone);
    assert_eq!(c.attempted(CompactOutcome::Failed, 0, 60), CompactStep::RoundDone);
    assert!(!c.forces(100, 500, 10_000));
    assert_eq!(c.attempted(CompactOutcome::Deferred, 0, 100), CompactStep::RoundDone);
    assert_eq!(c.attempted(CompactOutcome::Deferred, 0, 200), CompactStep::RoundDone);
    assert!(!c.forces(100, 500, 399));
    assert!(c.forces(100, 500, 400));
    assert!(!c.forces(100, 110, 400));
    assert!(c.forces(0, 0, 400));
    c.attempted(CompactOutcome::Compacted(90), 0, 400);
    assert!(!c.forces(0, 0, 4000));
}

#[test]
fn failures_of_a_compaction() {
    assert_eq!(
        classify_compact_failure("a transaction is open"),
        CompactOutcome::Transient
    );
    assert_eq!(classify_compact_failure("already in progress"), CompactOutcome::Transient);
    assert_eq!(classify_compact_failure("compaction deferred: busy"), CompactOutcome::Deferred);
    assert_eq!(classify_compact_failure("disk full"), CompactOutcome::Failed);
    assert_eq!(classify_compact_failure(""), CompactOutcome::Failed);
}

#[test]
fn inventories_are_compared() {
    let theirs = vec![(file(1), 5), (file(2), 5), (file(3), 5), (file(4), 5)];
    let mine = inventory_map(&vec![(file(1), 5), (file(2), 4), (file(2), 6)]);
    let deleted = deleted_set(&vec![entry(3)]);
    assert_eq!(find_missing(&theirs, &mine, &deleted), vec![file(4)]);
    let ours = vec![(file(1), 9), (file(3), 1), (file(8), 1)];
    let has = inventory_map(&vec![(file(1), 5)]);
    assert_eq!(find_missing_there(&ours, &has, &deleted), vec![file(8)]);
    assert_eq!(find_behind(&ours, &has), vec![file(1), file(3), file(8)]);
    let even = inventory_map(&ours);
    assert!(find_behind(&ours, &even).is_empty());
}

#[test]
fn a_catch_up_runs_through() {
    let nodes = vec![
        info(1, NodeStatus::Online),
        info(2, NodeStatus::Online),
        info(3, NodeStatus::Online),
        info(4, NodeStatus::Offline),
    ];
    let own = vec![(file(1), 1)];
    let mut c = Catchup::new(&nodes, node(1), &own, &vec![entry(7)]);
    assert!(matches!(c.step(), CatchupStep::AskInventory(n) if n == node(2)));
    let many: Vec<(FileId, u64)> = (0..(FETCH_BATCH as u128 + 11)).map(|i| (file(i), 1)).collect();
    c.pull_inventory(Some(&many));
    match c.step() {
        CatchupStep::FetchRecords(n, files) => {
            assert_eq!(n, node(2));
            assert_eq!(files.len(), FETCH_BATCH);
            assert!(!files.contains(&file(1)));
            assert!(!files.contains(&file(7)));
        }
        other => panic!("expected a fetch, got {:?}", other),
    }
    c.batch_done();
    match c.step() {
        CatchupStep::FetchRecords(_, files) => assert_eq!(files.len(), 9),
        other => panic!("expected a fetch, got {:?}", other),
    }
    c.batch_done();
    assert!(matches!(c.step(), CatchupStep::AskInventory(n) if n == node(3)));
    c.pull_inventory(None);
    assert!(matches!(c.step(), CatchupStep::Recount));
    c.recounted(Some(vec![(file(1), 1), (file(7), 1), (file(9), 1)]));
    assert!(matches!(c.step(), CatchupStep::AskInventory(n) if n == node(2)));
    assert_eq!(c.push_inventory(Some(&vec![(file(9), 1)])), vec![file(1)]);
    assert_eq!(c.push_inventory(None), vec![file(1), file(9)]);
    assert!(matches!(c.step(), CatchupStep::Finish));
}

#[test]
fn a_catch_up_with_nobody_ends_at_once() {
    let mut c = Catchup::new(&vec![info(1, NodeStatus::Online)], node(1), &vec![], &vec![]);
    assert!(matches!(c.step(), CatchupStep::Recount));
    c.recounted(None);
    assert!(matches!(c.step(), CatchupStep::Finish));
}

#[test]
fn a_batch_leaves_the_queue_only_when_it_was_stored() {
    let (stored, noted) = disseminate_reply(None, 7);
    assert_eq!(noted, Some(7));
    assert_eq!(queue_reached(Some(&stored), 7), Some(7));
    let (refused, noted) = disseminate_reply(Some("disk full".to_string()), 7);
    assert!(matches!(refused, Response::Error { .. }));
    assert_eq!(noted, None);
    assert_eq!(queue_reached(Some(&refused), 7), None);
    assert_eq!(queue_reached(Some(&Response::NotLeader { leader_addr: None }), 7), None);
    assert_eq!(queue_reached(None, 7), None);
}
