use dfs_server::cluster::{
    add_refused, cached_storage_stats, cluster_status, disk_level, follows_bandwidth,
    fresh_storage_stats, handle_cluster_message, heal_concurrency_setting, message_unsupported,
    node_stats, remove_node_response, replication_factor_setting, AddFailure, ClusterMessage,
    DiskLevel, MemberAction, MemberAnswer,
};
use dfs_server::file_ops::{
    after_delete_step, after_rename_step, batch_reply, delete_queue_reply, inventory_reply,
    plain_reply, purge_by_path, purged, pushed, replica_deleted, DeleteNext, DeleteStep, Purge,
    PushResult, RenameNext, RenameStep, StepResult,
};
use dfs_server::proc_net::count_close_wait_connections;
use dfs_server::protocol::Response;
use dfs_server::stats::{OpsTracker, RpcClass, RpcClassCounts};
use dfs_server::types::{ErrorCode, FileId, NodeId, NodeInfo, NodeStatus, CHUNK_SIZE};

fn node(id: u128) -> NodeId {
    NodeId { id }
}

fn info(id: u128, status: NodeStatus) -> NodeInfo {
    NodeInfo { id: node(id), status, available_bytes: 5, total_bytes: 9 }
}

fn refusal(r: Response) -> (String, ErrorCode) {
    match r {
        Response::Error { message, code } => (message, code),
        other => panic!("expected an error, got {:?}", other),
    }
}

#[test]
fn the_leader_is_the_lowest_node_online() {
    let nodes =
        vec![info(4, NodeStatus::Online), info(1, NodeStatus::Offline), info(3, NodeStatus::Online)];
    match cluster_status(nodes, 4 * 1024 * 1024, 3, node(4)) {
        Response::ClusterStatus {
            total_nodes, healthy_nodes, chunk_size_mb, leader_node_id, replication_factor, ..
        } => {
            assert_eq!((total_nodes, healthy_nodes, chunk_size_mb), (3, 2, 4));
            assert_eq!(leader_node_id, Some(node(3)));
            assert_eq!(replication_factor, 3);
        }
        other => panic!("expected a status, got {:?}", other),
    }
    match cluster_status(vec![info(1, NodeStatus::Offline)], 1, 3, node(4)) {
        Response::ClusterStatus { leader_node_id, .. } => assert_eq!(leader_node_id, None),
        other => panic!("expected a status, got {:?}", other),
    }
}

#[test]
fn storage_figures_are_kept_for_a_while() {
    let (r, kept) = fresh_storage_stats(100 * CHUNK_SIZE, 40 * CHUNK_SIZE, 1000, 5, 3);
    match r {
        Response::StorageStats { total_chunks, free_space, nodes_count, .. } => {
            assert_eq!((total_chunks, free_space, nodes_count), (60, 40 * CHUNK_SIZE, 5));
        }
        other => panic!("expected figures, got {:?}", other),
    }
    assert!(cached_storage_stats(Some(kept), 1009, 5, 3).is_some());
    assert!(cached_storage_stats(Some(kept), 1010, 5, 3).is_none());
    assert!(cached_storage_stats(None, 1010, 5, 3).is_none());
}

#[test]
fn a_full_disk_is_noticed() {
    assert_eq!(disk_level(0, 0), DiskLevel::Quiet);
    assert_eq!(disk_level(100, 31), DiskLevel::Quiet);
    assert_eq!(disk_level(100, 30), DiskLevel::Notice(70));
    assert_eq!(disk_level(100, 15), DiskLevel::Warning(85));
    assert_eq!(disk_level(100, 5), DiskLevel::Critical(95));
    assert_eq!(replication_factor_setting(0), 1);
    assert_eq!(replication_factor_setting(11), 10);
    assert_eq!(heal_concurrency_setting(Some(100)), Some(64));
    assert_eq!(heal_concurrency_setting(Some(0)), Some(1));
    assert_eq!(heal_concurrency_setting(None), None);
}

#[test]
fn membership_messages() {
    let beat = |has_view: bool, target: Option<u64>| ClusterMessage::Heartbeat {
        node: info(2, NodeStatus::Online),
        has_view,
        heal_bandwidth_target_mb: target,
    };
    let plan = handle_cluster_message(beat(true, Some(7)), false, node(1));
    let add = plan.actions.iter().position(|a| *a == MemberAction::Add(node(2))).unwrap();
    let stamp = plan.actions.iter().position(|a| *a == MemberAction::Stamp(node(2))).unwrap();
    assert!(add < stamp);
    assert!(plan.actions.contains(&MemberAction::MergeView));
    assert!(plan.actions.contains(&MemberAction::FollowBandwidth { node: node(2), target_mb: 7 }));
    assert_eq!(plan.answer, MemberAnswer::Acknowledge);
    let plan = handle_cluster_message(beat(false, None), true, node(1));
    assert!(!plan.actions.contains(&MemberAction::MergeView));

    let join = ClusterMessage::JoinRequest { node: info(2, NodeStatus::Online) };
    let plan = handle_cluster_message(join, false, node(1));
    assert_eq!(plan.answer, MemberAnswer::Accept);
    assert_eq!(plan.add_failure, AddFailure::Reject);

    let leave = ClusterMessage::Leave { node_id: node(2) };
    let plan = handle_cluster_message(leave, true, node(1));
    assert!(plan.actions.contains(&MemberAction::Remove(node(2))));

    let plan = handle_cluster_message(ClusterMessage::Unknown, true, node(1));
    assert_eq!(plan.answer, MemberAnswer::Unsupported);
    assert!(plan.actions.is_empty());
    assert_eq!(refusal(message_unsupported()).0, "Cluster message not implemented");
    assert_eq!(refusal(add_refused("full")).0, "Failed to add node: full");
    assert_eq!(
        refusal(remove_node_response(false, "n", None)),
        ("Node n not found in cluster".to_string(), ErrorCode::NotFound)
    );
    assert_eq!(
        refusal(remove_node_response(true, "n", Some("io".to_string()))).0,
        "Failed to remove node: io"
    );
    assert!(matches!(remove_node_response(true, "n", None), Response::Done { .. }));
}

#[test]
fn operation_figures() {
    let mut t = OpsTracker::new();
    for _ in 0..5 {
        t.inc_read();
    }
    t.inc_write();
    t.tick();
    t.inc_read();
    t.inc_meta();
    t.inc_meta();
    t.inc_meta();
    t.tick();
    assert!(t.totals_fit());
    let s = t.get_stats(42);
    assert_eq!((s.reads_live, s.writes_live, s.meta_live), (1, 0, 3));
    assert_eq!((s.reads_peak_1h, s.writes_peak_1h, s.meta_peak_1h), (5, 1, 3));
    assert_eq!(s.total_peak_1h, 6);
    assert_eq!((s.reads_avg_1h, s.writes_avg_1h, s.meta_avg_1h), (3, 0, 1));
    assert_eq!(s.uptime_secs, 42);
    match node_stats(s, Some(100)) {
        Response::NodeStats { active_connections, max_connections, reads_live, .. } => {
            assert_eq!((active_connections, max_connections, reads_live), (28, 128, 1));
        }
        other => panic!("expected figures, got {:?}", other),
    }
}

#[test]
fn an_hour_is_remembered_and_no_more() {
    let mut t = OpsTracker::new();
    t.inc_read();
    t.tick();
    for _ in 0..3600 {
        t.tick();
    }
    assert_eq!(t.get_stats(0).reads_peak_1h, 0);
}

#[test]
fn requests_are_counted_by_origin() {
    let mut c = RpcClassCounts::new();
    c.record(RpcClass::PeerGossip);
    c.record(RpcClass::PeerGossip);
    c.record(RpcClass::Admin);
    let s = c.snapshot();
    assert_eq!((s.peer_gossip, s.admin, s.client_other), (2, 1, 0));
}

#[test]
fn connections_that_wait_to_be_closed() {
    let table = "  sl  local_address rem_address   st tx_queue\n\
                 0: 0100007F:22C4 0100007F:1234 08 00000000\n\
                 1: 0100007F:22C4 0100007F:1234 01 00000000\n\
                 2: 0100007F:22C5 0100007F:22C4 08 00000000\n\
                 3: 00000000000000000000000000000000:22C4 0:0 08\n\
                 4: short\n";
    assert_eq!(count_close_wait_connections(table.as_bytes(), 8900), 2);
    assert_eq!(count_close_wait_connections(table.as_bytes(), 8901), 1);
    assert_eq!(count_close_wait_connections(b"", 8900), 0);
    assert_eq!(count_close_wait_connections(b"0: 1:22C4 2 08", 8900), 0);
}

#[test]
fn a_file_is_deleted_step_by_step() {
    let mut step = DeleteStep::Bury;
    let mut taken = vec![step];
    let answer = loop {
        match after_delete_step(step, None) {
            DeleteNext::Step(next) => {
                taken.push(next);
                step = next;
            }
            DeleteNext::Answer(r) => break r,
        }
    };
    assert!(matches!(answer, Response::Done { .. }));
    assert_eq!(
        taken,
        vec![
            DeleteStep::Bury,
            DeleteStep::Enqueue,
            DeleteStep::RemoveRecord,
            DeleteStep::RemovePath,
            DeleteStep::RemoveLocations,
            DeleteStep::Forget,
            DeleteStep::WakeDrain,
        ]
    );
    match after_delete_step(DeleteStep::Enqueue, Some("io".to_string())) {
        DeleteNext::Answer(r) => assert_eq!(refusal(r).0, "Failed to enqueue delete: io"),
        other => panic!("expected an answer, got {:?}", other),
    }
    match after_delete_step(DeleteStep::RemoveRecord, Some("io".to_string())) {
        DeleteNext::Answer(r) => assert_eq!(refusal(r).0, "Failed to delete file: io"),
        other => panic!("expected an answer, got {:?}", other),
    }
    assert!(matches!(
        after_delete_step(DeleteStep::RemovePath, Some("io".to_string())),
        DeleteNext::Step(DeleteStep::RemoveLocations)
    ));
}

#[test]
fn a_file_is_renamed_step_by_step() {
    let mut step = RenameStep::FindFile;
    let mut taken = vec![step];
    let answer = loop {
        match after_rename_step(step, StepResult::Fine, "/old", "/new") {
            RenameNext::Step(next) => {
                taken.push(next);
                step = next;
            }
            RenameNext::Answer(r) => break r,
        }
    };
    assert!(matches!(answer, Response::Done { .. }));
    assert_eq!(
        taken,
        vec![
            RenameStep::FindFile,
            RenameStep::Settle,
            RenameStep::ReadRecord,
            RenameStep::StoreRecord,
            RenameStep::SendRecord,
            RenameStep::RemovePath,
            RenameStep::SendRemoval,
        ]
    );
    match after_rename_step(RenameStep::FindFile, StepResult::Missing, "/old", "/new") {
        RenameNext::Answer(r) => {
            assert_eq!(refusal(r), ("File not found: /old".to_string(), ErrorCode::NotFound))
        }
        other => panic!("expected an answer, got {:?}", other),
    }
    let failed = StepResult::Failed("io".to_string());
    match after_rename_step(RenameStep::StoreRecord, failed, "/old", "/new") {
        RenameNext::Answer(r) => assert_eq!(refusal(r).0, "Failed to rename file: io"),
        other => panic!("expected an answer, got {:?}", other),
    }
    assert!(matches!(
        after_rename_step(
            RenameStep::SendRecord,
            StepResult::Failed("io".to_string()),
            "/old",
            "/new"
        ),
        RenameNext::Step(RenameStep::RemovePath)
    ));
}

#[test]
fn a_file_keeps_its_path_when_renamed_to_it() {
    assert!(matches!(
        after_rename_step(RenameStep::FindFile, StepResult::Fine, "/f", "/f"),
        RenameNext::Answer(Response::Done { .. })
    ));
    match after_rename_step(RenameStep::FindFile, StepResult::Missing, "/f", "/f") {
        RenameNext::Answer(r) => {
            assert_eq!(refusal(r), ("File not found: /f".to_string(), ErrorCode::NotFound))
        }
        other => panic!("expected an answer, got {:?}", other),
    }
}

#[test]
fn only_the_leader_sets_the_heal_bandwidth() {
    assert!(follows_bandwidth(node(2), Some(node(2))));
    assert!(!follows_bandwidth(node(2), Some(node(1))));
    assert!(!follows_bandwidth(node(2), None));
}

#[test]
fn short_replies() {
    assert!(matches!(purge_by_path(Ok(None), "/p"), Purge::Answer(Response::Error { .. })));
    match purge_by_path(Err("io".to_string()), "/p") {
        Purge::Answer(r) => assert_eq!(refusal(r).0, "Failed to get file metadata: io"),
        other => panic!("expected an answer, got {:?}", other),
    }
    assert!(matches!(purged(None, true), (Response::Done { .. }, true)));
    assert!(matches!(purged(None, false), (Response::Done { .. }, false)));
    let (r, told) = purged(Some("io".to_string()), true);
    assert_eq!((refusal(r).0.as_str(), told), ("Failed to purge file metadata: io", false));
    assert!(matches!(plain_reply(None, "x: "), Response::Done { .. }));
    assert_eq!(refusal(plain_reply(Some("y".to_string()), "x: ")).0, "x: y");
    assert_eq!(
        refusal(replica_deleted(Some("io".to_string()))),
        ("Failed to delete chunk: io".to_string(), ErrorCode::IOError)
    );
    assert!(matches!(pushed(PushResult::Taken), Response::Done { .. }));
    assert_eq!(
        refusal(pushed(PushResult::Rejected("no".to_string()))).0,
        "Target rejected chunk: no"
    );
    assert_eq!(
        refusal(pushed(PushResult::Unreachable("no".to_string()))).0,
        "Failed to push chunk to target: no"
    );
    assert_eq!(
        refusal(delete_queue_reply(Err("io".to_string()))).0,
        "Failed to read delete queue: io"
    );
    match inventory_reply(Ok(vec![(FileId { id: 1 }, 2)])) {
        Response::FileInventory { entries } => assert_eq!(entries, vec![(FileId { id: 1 }, 2)]),
        other => panic!("expected an inventory, got {:?}", other),
    }
    assert_eq!(refusal(inventory_reply(Err("io".to_string()))).0, "io");
    assert_eq!(refusal(batch_reply(Err("io".to_string()))).0, "io");
}
