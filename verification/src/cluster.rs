//! The node as a member of its cluster: what it reports and how it takes membership messages.
use crate::loops::MAX_CONNECTIONS;
use crate::protocol::Response;
use crate::repair::{count_online, online_count};
use crate::stats::NodeStatsSnapshot;
use crate::types::{ErrorCode, NodeId, NodeInfo, NodeStatus, CHUNK_SIZE};
use vstd::prelude::*;

verus! {

// ---------------------------------------------------------------------------
// Status.
// ---------------------------------------------------------------------------

/// The lowest identity among the nodes that are online: the leader's.
pub open spec fn lowest_online(nodes: Seq<NodeInfo>) -> Option<NodeId>
    decreases nodes.len(),
{
    if nodes.len() == 0 {
        None
    } else {
        let sofar = lowest_online(nodes.drop_last());
        if nodes.last().status == NodeStatus::Online {
            match sofar {
                Some(n) => if n.id <= nodes.last().id.id {
                    Some(n)
                } else {
                    Some(nodes.last().id)
                },
                None => Some(nodes.last().id),
            }
        } else {
            sofar
        }
    }
}

/// The leader is online, and no online node has a lower identity. There is one exactly if some
/// node is online.
pub proof fn leader_is_lowest_online(nodes: Seq<NodeInfo>)
    ensures
        match lowest_online(nodes) {
            Some(n) => (exists|i: int|
                0 <= i < nodes.len() && (#[trigger] nodes[i]).id == n && nodes[i].status
                    == NodeStatus::Online) && forall|i: int|
                0 <= i < nodes.len() && (#[trigger] nodes[i]).status == NodeStatus::Online ==> n.id
                    <= nodes[i].id.id,
            None => forall|i: int|
                0 <= i < nodes.len() ==> (#[trigger] nodes[i]).status != NodeStatus::Online,
        },
    decreases nodes.len(),
{
    if nodes.len() > 0 {
        let init = nodes.drop_last();
        leader_is_lowest_online(init);
        assert forall|i: int| 0 <= i < init.len() implies init[i] == nodes[i] by {}
        match lowest_online(init) {
            Some(n) => {
                let k = choose|i: int|
                    0 <= i < init.len() && (#[trigger] init[i]).id == n && init[i].status
                        == NodeStatus::Online;
                assert(nodes[k].id == n);
            },
            None => {
                assert forall|i: int| 0 <= i < init.len() implies (#[trigger] nodes[i]).status
                    != NodeStatus::Online by {
                    assert(init[i].status != NodeStatus::Online);
                }
            },
        }
        let last = nodes[nodes.len() - 1];
        assert forall|i: int|
            0 <= i < nodes.len() && (#[trigger] nodes[i]).status == NodeStatus::Online
                && lowest_online(nodes) is Some implies (lowest_online(nodes)->0).id
            <= nodes[i].id.id by {
            if i < init.len() {
                assert(init[i].status == NodeStatus::Online);
            }
        }
        if lowest_online(nodes) == Some(last.id) && last.status == NodeStatus::Online {
            assert(nodes[nodes.len() - 1].id == last.id);
        }
    }
}

fn find_leader(nodes: &Vec<NodeInfo>) -> (r: Option<NodeId>)
    ensures
        r == lowest_online(nodes@),
{
    let mut best: Option<NodeId> = None;
    let mut i: usize = 0;
    assert(nodes@.take(0) =~= Seq::<NodeInfo>::empty());
    while i < nodes.len()
        invariant
            i <= nodes@.len(),
            best == lowest_online(nodes@.take(i as int)),
        decreases nodes@.len() - i,
    {
        proof {
            assert(nodes@.take(i + 1).drop_last() =~= nodes@.take(i as int));
            assert(nodes@.take(i + 1).last() == nodes@[i as int]);
        }
        if nodes[i].status == NodeStatus::Online {
            best = match best {
                Some(n) => if n.id <= nodes[i].id.id {
                    Some(n)
                } else {
                    Some(nodes[i].id)
                },
                None => Some(nodes[i].id),
            };
        }
        i += 1;
    }
    assert(nodes@.take(i as int) =~= nodes@);
    best
}

/// Bytes in a megabyte.
pub const MB: usize = 1048576;

/// Reports the cluster as this node sees it.
pub fn cluster_status(nodes: Vec<NodeInfo>, chunk_size: usize, rf: usize, local: NodeId) -> (r:
    Response)
    ensures
        match r {
            Response::ClusterStatus {
                nodes: out,
                total_nodes,
                healthy_nodes,
                chunk_size_mb,
                leader_node_id,
                replication_factor,
                local_node_id,
            } => {
                &&& out@ == nodes@
                &&& total_nodes == nodes@.len()
                &&& healthy_nodes == online_count(nodes@)
                &&& chunk_size_mb == chunk_size / MB
                &&& leader_node_id == lowest_online(nodes@)
                &&& replication_factor == rf
                &&& local_node_id == Some(local)
            },
            _ => false,
        },
{
    let total_nodes: usize = nodes.len();
    let healthy_nodes: usize = count_online(&nodes);
    let leader_node_id: Option<NodeId> = find_leader(&nodes);
    Response::ClusterStatus {
        nodes,
        total_nodes,
        healthy_nodes,
        chunk_size_mb: chunk_size / MB,
        leader_node_id,
        replication_factor: rf,
        local_node_id: Some(local),
    }
}

/// Reports the operation figures, with the connections in use where they are known.
pub fn node_stats(snap: NodeStatsSnapshot, available: Option<usize>) -> (r: Response)
    requires
        available is Some ==> available->0 <= MAX_CONNECTIONS,
    ensures
        r == (Response::NodeStats {
            reads_live: snap.reads_live,
            writes_live: snap.writes_live,
            meta_live: snap.meta_live,
            reads_peak_1h: snap.reads_peak_1h,
            writes_peak_1h: snap.writes_peak_1h,
            meta_peak_1h: snap.meta_peak_1h,
            total_peak_1h: snap.total_peak_1h,
            reads_avg_1h: snap.reads_avg_1h,
            writes_avg_1h: snap.writes_avg_1h,
            meta_avg_1h: snap.meta_avg_1h,
            uptime_secs: snap.uptime_secs,
            active_connections: match available {
                Some(a) => (MAX_CONNECTIONS - a) as u64,
                None => 0,
            },
            max_connections: MAX_CONNECTIONS as u64,
        }),
{
    let active_connections: u64 = match available {
        Some(a) => (MAX_CONNECTIONS - a) as u64,
        None => 0,
    };
    Response::NodeStats {
        reads_live: snap.reads_live,
        writes_live: snap.writes_live,
        meta_live: snap.meta_live,
        reads_peak_1h: snap.reads_peak_1h,
        writes_peak_1h: snap.writes_peak_1h,
        meta_peak_1h: snap.meta_peak_1h,
        total_peak_1h: snap.total_peak_1h,
        reads_avg_1h: snap.reads_avg_1h,
        writes_avg_1h: snap.writes_avg_1h,
        meta_avg_1h: snap.meta_avg_1h,
        uptime_secs: snap.uptime_secs,
        active_connections,
        max_connections: MAX_CONNECTIONS as u64,
    }
}

// ---------------------------------------------------------------------------
// Storage figures.
// ---------------------------------------------------------------------------

/// How long storage figures are good for.
pub const STATS_TTL_SECS: u64 = 10;

/// Storage figures that were taken before.
#[derive(Clone, Copy, Debug, PartialEq, Eq, Structural)]
pub struct StorageStatsCache {
    pub total_chunks: usize,
    pub total_space: u64,
    pub free_space: u64,
    pub available_space: u64,
    pub taken_at_secs: u64,
}

pub open spec fn used_space(total: u64, available: u64) -> u64 {
    if total >= available {
        (total - available) as u64
    } else {
        0
    }
}

/// The reply with these figures.
pub open spec fn storage_reply(c: StorageStatsCache, nodes_count: usize, rf: usize) -> Response {
    Response::StorageStats {
        total_chunks: c.total_chunks,
        total_size: used_space(c.total_space, c.available_space),
        replication_factor: rf,
        nodes_count: nodes_count,
        total_space: c.total_space,
        free_space: c.free_space,
        available_space: c.available_space,
    }
}

fn storage_reply_exec(c: &StorageStatsCache, nodes_count: usize, rf: usize) -> (r: Response)
    ensures
        r == storage_reply(*c, nodes_count, rf),
{
    Response::StorageStats {
        total_chunks: c.total_chunks,
        total_size: c.total_space.saturating_sub(c.available_space),
        replication_factor: rf,
        nodes_count,
        total_space: c.total_space,
        free_space: c.free_space,
        available_space: c.available_space,
    }
}

/// Figures taken then are still good.
pub open spec fn figures_are_good(taken_at_secs: u64, now_secs: u64) -> bool {
    crate::loops::since(taken_at_secs, now_secs) < STATS_TTL_SECS
}

/// Answers with figures that were taken a moment ago, if there are any.
pub fn cached_storage_stats(
    cache: Option<StorageStatsCache>,
    now_secs: u64,
    nodes_count: usize,
    rf: usize,
) -> (r: Option<Response>)
    ensures
        r == (match cache {
            Some(c) => if crate::loops::since(c.taken_at_secs, now_secs) < STATS_TTL_SECS {
                Some(storage_reply(c, nodes_count, rf))
            } else {
                None
            },
            None => None,
        }),
        r is Some <==> cache is Some && figures_are_good((cache->0).taken_at_secs, now_secs),
{
    match cache {
        Some(c) => {
            let age: u64 = if now_secs >= c.taken_at_secs {
                now_secs - c.taken_at_secs
            } else {
                0
            };
            if age < STATS_TTL_SECS {
                Some(storage_reply_exec(&c, nodes_count, rf))
            } else {
                None
            }
        },
        None => None,
    }
}

/// The figures that are taken now.
pub open spec fn figures_taken(local_total: u64, local_available: u64, now_secs: u64) -> StorageStatsCache {
    StorageStatsCache {
        total_chunks: (used_space(local_total, local_available) / CHUNK_SIZE) as usize,
        total_space: local_total,
        free_space: local_available,
        available_space: local_available,
        taken_at_secs: now_secs,
    }
}

/// Answers with new figures, and keeps them. What counts as free is what is available, and the
/// number of chunks is estimated from the space in use.
pub fn fresh_storage_stats(
    local_total: u64,
    local_available: u64,
    now_secs: u64,
    nodes_count: usize,
    rf: usize,
) -> (r: (Response, StorageStatsCache))
    ensures
        r.1 == (StorageStatsCache {
            total_chunks: (used_space(local_total, local_available) / CHUNK_SIZE) as usize,
            total_space: local_total,
            free_space: local_available,
            available_space: local_available,
            taken_at_secs: now_secs,
        }),
        r.0 == storage_reply(r.1, nodes_count, rf),
        r.1 == figures_taken(local_total, local_available, now_secs),
{
    let used: u64 = local_total.saturating_sub(local_available);
    #[verifier::truncate]
    let total_chunks: usize = (used / CHUNK_SIZE) as usize;
    let cache: StorageStatsCache = StorageStatsCache {
        total_chunks,
        total_space: local_total,
        free_space: local_available,
        available_space: local_available,
        taken_at_secs: now_secs,
    };
    (storage_reply_exec(&cache, nodes_count, rf), cache)
}

/// How full a disk is, and whether that is worth a word.
#[derive(Clone, Copy, Debug, PartialEq, Eq, Structural)]
pub enum DiskLevel {
    Quiet,
    Notice(u64),
    Warning(u64),
    Critical(u64),
}

/// The used part of a disk, in whole percent.
pub open spec fn used_percent(total: u64, available: u64) -> int {
    if total > 0 {
        100 * (total - available) / total as int
    } else {
        0
    }
}

/// What a disk of which so many percent are used calls for.
pub open spec fn level_of(pct: int) -> DiskLevel {
    if pct >= 95 {
        DiskLevel::Critical(pct as u64)
    } else if pct >= 85 {
        DiskLevel::Warning(pct as u64)
    } else if pct >= 70 {
        DiskLevel::Notice(pct as u64)
    } else {
        DiskLevel::Quiet
    }
}

/// Judges how full a disk is.
pub fn disk_level(total: u64, available: u64) -> (r: DiskLevel)
    requires
        available <= total,
    ensures
        ({
            let pct = used_percent(total, available);
            r == (if pct >= 95 {
                DiskLevel::Critical(pct as u64)
            } else if pct >= 85 {
                DiskLevel::Warning(pct as u64)
            } else if pct >= 70 {
                DiskLevel::Notice(pct as u64)
            } else {
                DiskLevel::Quiet
            })
        }),
        r == level_of(used_percent(total, available)),
{
    let pct: u64 = if total > 0 {
        let used: u128 = 100 * ((total - available) as u128);
        let p: u128 = used / (total as u128);
        proof {
            assert(p <= 100) by (nonlinear_arith)
                requires
                    p == used / (total as u128),
                    used == 100 * ((total - available) as u128),
                    total > 0,
                    available <= total,
            ;
        }
        p as u64
    } else {
        0
    };
    if pct >= 95 {
        DiskLevel::Critical(pct)
    } else if pct >= 85 {
        DiskLevel::Warning(pct)
    } else if pct >= 70 {
        DiskLevel::Notice(pct)
    } else {
        DiskLevel::Quiet
    }
}

// ---------------------------------------------------------------------------
// Settings.
// ---------------------------------------------------------------------------

pub open spec fn clamped(n: usize, lo: usize, hi: usize) -> usize {
    if n < lo {
        lo
    } else if n > hi {
        hi
    } else {
        n
    }
}

fn clamp(n: usize, lo: usize, hi: usize) -> (r: usize)
    ensures
        r == clamped(n, lo, hi),
{
    if n < lo {
        lo
    } else if n > hi {
        hi
    } else {
        n
    }
}

/// The replication factor that is set: at least one, at most ten.
pub fn replication_factor_setting(requested: usize) -> (r: usize)
    ensures
        r == clamped(requested, 1, 10),
{
    clamp(requested, 1, 10)
}

/// A limit on concurrent heals that is set: at least one, at most sixty-four.
pub fn heal_concurrency_setting(requested: Option<usize>) -> (r: Option<usize>)
    ensures
        r == match requested {
            Some(n) => Some(clamped(n, 1, 64)),
            None => None::<usize>,
        },
{
    match requested {
        Some(n) => Some(clamp(n, 1, 64)),
        None => None,
    }
}

// ---------------------------------------------------------------------------
// Membership messages.
// ---------------------------------------------------------------------------

/// What another node says about membership.
#[derive(Clone, Copy, Debug, PartialEq, Eq, Structural)]
pub enum ClusterMessage {
    Heartbeat { node: NodeInfo, has_view: bool, heal_bandwidth_target_mb: Option<u64> },
    Join { node: NodeInfo },
    Leave { node_id: NodeId },
    JoinRequest { node: NodeInfo },
    NodeJoined { node: NodeInfo },
    LeaderAnnouncement { node_id: NodeId },
    GracefulLeave { node_id: NodeId },
    Unknown,
}

/// One thing to do about it.
#[derive(Clone, Copy, Debug, PartialEq, Eq, Structural)]
pub enum MemberAction {
    /// Note how much space a node reports.
    NoteCapacity { node: NodeId, available: u64, total: u64 },
    /// Add a node, or take in what is new about it.
    Add(NodeId),
    /// Note that a node was heard of just now, by this node's own clock.
    Stamp(NodeId),
    /// Store the list of peers.
    StorePeers,
    /// Take in the view that the message carries.
    MergeView,
    /// Follow the node's heal bandwidth, if it leads.
    FollowBandwidth { node: NodeId, target_mb: u64 },
    Remove(NodeId),
    /// Note that a node is about to leave.
    MarkLeaving(NodeId),
}

/// What a failure to add the node means.
#[derive(Clone, Copy, Debug, PartialEq, Eq, Structural)]
pub enum AddFailure {
    /// Nothing: go on.
    Ignore,
    /// The message is refused.
    Refuse,
    /// The node is told that it was not accepted.
    Reject,
}

/// How the message is answered once all is done.
#[derive(Clone, Copy, Debug, PartialEq, Eq, Structural)]
pub enum MemberAnswer {
    Acknowledge,
    /// With the nodes of the cluster.
    Accept,
    Unsupported,
}

/// What is done about a message.
#[derive(Debug)]
pub struct MemberPlan {
    pub actions: Vec<MemberAction>,
    pub add_failure: AddFailure,
    pub answer: MemberAnswer,
}

/// The actions, in order.
///
/// Whoever is heard of is added again, so that a node that was dropped after a long absence
/// comes back, and stamped by this node's own clock, for the sender's may be wrong. The list of
/// peers is stored when a node was not known before. A joining node is only noted if it is new.
/// A node that announces itself as leader is added if its claim is better than this node's.
pub open spec fn member_actions(msg: ClusterMessage, known: bool, local: NodeId) -> Seq<
    MemberAction,
> {
    match msg {
        ClusterMessage::Heartbeat { node, has_view, heal_bandwidth_target_mb } => (
        if node.total_bytes > 0 {
            seq![
                MemberAction::NoteCapacity {
                    node: node.id,
                    available: node.available_bytes,
                    total: node.total_bytes,
                },
            ]
        } else {
            Seq::empty()
        }) + seq![MemberAction::Add(node.id)] + (if !known {
            seq![MemberAction::StorePeers]
        } else {
            Seq::empty()
        }) + seq![MemberAction::Stamp(node.id)] + (if has_view {
            seq![MemberAction::MergeView]
        } else {
            Seq::empty()
        }) + (match heal_bandwidth_target_mb {
            Some(mb) => seq![MemberAction::FollowBandwidth { node: node.id, target_mb: mb }],
            None => Seq::empty(),
        }),
        ClusterMessage::Join { node } | ClusterMessage::JoinRequest { node } => seq![
            MemberAction::Add(node.id),
            MemberAction::Stamp(node.id),
        ] + (if !known {
            seq![MemberAction::StorePeers]
        } else {
            Seq::empty()
        }),
        ClusterMessage::Leave { node_id } => seq![MemberAction::Remove(node_id)],
        ClusterMessage::NodeJoined { node } => if !known {
            seq![MemberAction::Add(node.id), MemberAction::StorePeers]
        } else {
            Seq::empty()
        },
        ClusterMessage::LeaderAnnouncement { node_id } => if concedes(node_id, local) {
            seq![MemberAction::Add(node_id)]
        } else {
            Seq::empty()
        },
        ClusterMessage::GracefulLeave { node_id } => seq![MemberAction::MarkLeaving(node_id)],
        ClusterMessage::Unknown => Seq::empty(),
    }
}

/// This node concedes leadership to one with a lower identity.
pub open spec fn concedes(announcer: NodeId, local: NodeId) -> bool {
    announcer.id < local.id
}

/// Of two nodes that announce themselves to each other exactly one concedes.
pub proof fn one_of_two_leaders_concedes(a: NodeId, b: NodeId)
    requires
        a != b,
    ensures
        concedes(a, b) <==> !concedes(b, a),
{
}

pub open spec fn member_add_failure(msg: ClusterMessage) -> AddFailure {
    match msg {
        ClusterMessage::Join { .. } => AddFailure::Refuse,
        ClusterMessage::JoinRequest { .. } => AddFailure::Reject,
        _ => AddFailure::Ignore,
    }
}

pub open spec fn member_answer(msg: ClusterMessage) -> MemberAnswer {
    match msg {
        ClusterMessage::JoinRequest { .. } => MemberAnswer::Accept,
        ClusterMessage::Unknown => MemberAnswer::Unsupported,
        _ => MemberAnswer::Acknowledge,
    }
}

/// Decides what is done about a membership message. `known` tells whether the node it is about
/// was a member before.
pub fn handle_cluster_message(msg: ClusterMessage, known: bool, local: NodeId) -> (r: MemberPlan)
    ensures
        r.actions@ == member_actions(msg, known, local),
        r.add_failure == member_add_failure(msg),
        r.answer == member_answer(msg),
{
    let mut actions: Vec<MemberAction> = Vec::new();
    let mut add_failure: AddFailure = AddFailure::Ignore;
    let mut answer: MemberAnswer = MemberAnswer::Acknowledge;
    match msg {
        ClusterMessage::Heartbeat { node, has_view, heal_bandwidth_target_mb } => {
            if node.total_bytes > 0 {
                actions.push(
                    MemberAction::NoteCapacity {
                        node: node.id,
                        available: node.available_bytes,
                        total: node.total_bytes,
                    },
                );
            }
            actions.push(MemberAction::Add(node.id));
            if !known {
                actions.push(MemberAction::StorePeers);
            }
            actions.push(MemberAction::Stamp(node.id));
            if has_view {
                actions.push(MemberAction::MergeView);
            }
            match heal_bandwidth_target_mb {
                Some(mb) => {
                    actions.push(MemberAction::FollowBandwidth { node: node.id, target_mb: mb });
                },
                None => {},
            }
        },
        ClusterMessage::Join { node } => {
            actions.push(MemberAction::Add(node.id));
            actions.push(MemberAction::Stamp(node.id));
            if !known {
                actions.push(MemberAction::StorePeers);
            }
            add_failure = AddFailure::Refuse;
        },
        ClusterMessage::JoinRequest { node } => {
            actions.push(MemberAction::Add(node.id));
            actions.push(MemberAction::Stamp(node.id));
            if !known {
                actions.push(MemberAction::StorePeers);
            }
            add_failure = AddFailure::Reject;
            answer = MemberAnswer::Accept;
        },
        ClusterMessage::Leave { node_id } => {
            actions.push(MemberAction::Remove(node_id));
        },
        ClusterMessage::NodeJoined { node } => {
            if !known {
                actions.push(MemberAction::Add(node.id));
                actions.push(MemberAction::StorePeers);
            }
        },
        ClusterMessage::LeaderAnnouncement { node_id } => {
            if node_id.id < local.id {
                actions.push(MemberAction::Add(node_id));
            }
        },
        ClusterMessage::GracefulLeave { node_id } => {
            actions.push(MemberAction::MarkLeaving(node_id));
        },
        ClusterMessage::Unknown => {
            answer = MemberAnswer::Unsupported;
        },
    }
    assert(actions@ =~= member_actions(msg, known, local));
    MemberPlan { actions, add_failure, answer }
}

/// The sender is the leader.
pub open spec fn is_leader_of(sender: NodeId, leader: Option<NodeId>) -> bool {
    leader == Some(sender)
}

/// Whether a heal bandwidth that a node announces is followed: only the leader's is.
pub fn follows_bandwidth(sender: NodeId, leader: Option<NodeId>) -> (r: bool)
    ensures
        r == (leader == Some(sender)),
        r == is_leader_of(sender, leader),
{
    match leader {
        Some(l) => l == sender,
        None => false,
    }
}

/// A node that is heard of is added before it is stamped, so that the stamp does not go to
/// nobody.
pub proof fn heartbeat_adds_before_it_stamps(
    node: NodeInfo,
    has_view: bool,
    target: Option<u64>,
    known: bool,
    local: NodeId,
)
    ensures
        exists|i: int, j: int|
            #![trigger member_actions(
                ClusterMessage::Heartbeat { node, has_view, heal_bandwidth_target_mb: target },
                known,
                local,
            )[i], member_actions(
                ClusterMessage::Heartbeat { node, has_view, heal_bandwidth_target_mb: target },
                known,
                local,
            )[j]]
            {
                let acts = member_actions(
                    ClusterMessage::Heartbeat { node, has_view, heal_bandwidth_target_mb: target },
                    known,
                    local,
                );
                0 <= i < j < acts.len() && acts[i] == MemberAction::Add(node.id) && acts[j]
                    == MemberAction::Stamp(node.id)
            },
{
    let acts = member_actions(
        ClusterMessage::Heartbeat { node, has_view, heal_bandwidth_target_mb: target },
        known,
        local,
    );
    let i: int = if node.total_bytes > 0 {
        1
    } else {
        0
    };
    let j: int = if known {
        i + 1
    } else {
        i + 2
    };
    assert(acts[i] == MemberAction::Add(node.id));
    assert(acts[j] == MemberAction::Stamp(node.id));
}

/// The refusal of a message that a node could not be added for.
pub fn add_refused(why: &str) -> (r: Response)
    ensures
        r.refuses("Failed to add node: "@ + why@, ErrorCode::InternalError),
{
    crate::metadata::failed("Failed to add node: ", why)
}

/// The refusal of a message that is not understood.
pub fn message_unsupported() -> (r: Response)
    ensures
        r.refuses("Cluster message not implemented"@, ErrorCode::InternalError),
{
    Response::refusal("Cluster message not implemented".to_owned(), ErrorCode::InternalError)
}

/// The reply to a request to remove a node.
pub fn remove_node_response(known: bool, node_name: &str, failure: Option<String>) -> (r: Response)
    ensures
        !known ==> r.refuses(
            "Node "@ + node_name@ + " not found in cluster"@,
            ErrorCode::NotFound,
        ),
        known && failure is Some ==> r.refuses(
            "Failed to remove node: "@ + (failure->0)@,
            ErrorCode::InternalError,
        ),
        known && failure is None ==> r.acknowledges(),
{
    if !known {
        let mut s: String = crate::text::join("Node ", node_name);
        s.append(" not found in cluster");
        return Response::refusal(s, ErrorCode::NotFound);
    }
    match failure {
        Some(why) => crate::metadata::failed("Failed to remove node: ", why.as_str()),
        None => Response::Done { data: None },
    }
}

} // verus!
